use funlib::compose_two;

fn add1(i: i32) -> i32 {
    i + 1
}

fn double(i: i32) -> i32 {
    i * 2
}

#[test]
fn compose_two_applies_in_order() {
    let c = compose_two(add1, double);
    assert_eq!(4, c(1));
    let d = compose_two(double, add1);
    assert_eq!(3, d(1));
    let e = compose_two(add1, compose_two(double, double));
    assert_eq!(8, e(1));
}
