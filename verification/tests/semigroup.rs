use funlib::Semigroup;

#[test]
fn mod_i32() {
    assert_ne!(3, 1.mappend(&3));
    assert_eq!(4, 1.mappend(&3));
}

#[test]
fn mod_option_i32_both() {
    assert_eq!(Some(3), Some(1).mappend(&Some(2)));
}

#[test]
fn mod_option_i32_a() {
    assert_eq!(Some(1), Some(1).mappend(&None));
}

#[test]
fn mod_option_i32_b() {
    assert_eq!(Some(2), (None::<i32>).mappend(&Some(2)));
}

#[test]
fn mod_option_i32_none() {
    assert_eq!(None::<i32>, (None::<i32>).mappend(&None::<i32>));
}

#[test]
fn mod_box_u8() {
    let res: u8 = 5;
    let v1: u8 = 2;
    let v2: u8 = 3;
    assert_eq!(Box::new(res), Box::new(v1).mappend(&Box::new(v2)));
}

#[test]
fn mod_box_u64_not() {
    let res: u64 = 6;
    let v1: u64 = 2;
    let v2: u64 = 3;
    assert_ne!(Box::new(res), Box::new(v1).mappend(&Box::new(v2)));
}

#[test]
fn mod_str_test() {
    assert_eq!(
        "hello, world",
        String::from("hello").mappend(&String::from(", world"))
    );
}

#[test]
fn option_i32_both() {
    assert_eq!(Some(3), Some(1).mappend(&Some(2)));
}

#[test]
fn option_i32_a() {
    assert_eq!(Some(1), Some(1).mappend(&None));
}

#[test]
fn option_i32_b() {
    assert_eq!(Some(2), (None::<i32>).mappend(&Some(2)));
}

#[test]
fn option_i32_none() {
    assert_eq!(None::<i32>, (None::<i32>).mappend(&None::<i32>));
}

#[test]
fn box_u8() {
    let res: u8 = 5;
    let v1: u8 = 2;
    let v2: u8 = 3;
    assert_eq!(Box::new(res), Box::new(v1).mappend(&Box::new(v2)));
}

#[test]
fn box_u64_not() {
    let res: u64 = 6;
    let v1: u64 = 2;
    let v2: u64 = 3;
    assert_ne!(Box::new(res), Box::new(v1).mappend(&Box::new(v2)));
}

#[test]
fn str_test() {
    assert_eq!(
        "hello, world",
        String::from("hello").mappend(&String::from(", world"))
    );
}

#[test]
fn semigroup_associativity_scenarios() {
    assert_eq!((1.mappend(&2)).mappend(&3), 1.mappend(&(2.mappend(&3))));
    assert_eq!(
        (Some(1).mappend(&Some(2))).mappend(&Some(3)),
        Some(1).mappend(&(Some(2).mappend(&Some(3))))
    );
    assert_eq!(
        (Some(1).mappend(&None)).mappend(&Some(3)),
        Some(1).mappend(&(None.mappend(&Some(3))))
    );
    let (x, y, z) = (
        String::from("a"),
        String::from("b"),
        String::from("c"),
    );
    assert_eq!(
        (x.mappend(&y)).mappend(&z),
        x.mappend(&(y.mappend(&z)))
    );
    assert_eq!(
        (Box::new(1u8).mappend(&Box::new(2u8))).mappend(&Box::new(3u8)),
        Box::new(1u8).mappend(&(Box::new(2u8).mappend(&Box::new(3u8))))
    );
}

#[test]
fn semigroup_wrapping_totality() {
    assert_eq!(i32::MIN, i32::MAX.mappend(&1));
    assert_eq!(0u8, 255u8.mappend(&1u8));
}
