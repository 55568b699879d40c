use funlib::Applicative;
use std::rc::Rc;

#[test]
fn mod_option() {
    let f: &dyn Fn(&i32) -> i32 = &|x| x * 2;
    assert_eq!(Some(4), Some(2).ap(Some(f)));
}

#[test]
fn mod_box_() {
    let f: &dyn Fn(&i32) -> i32 = &|x| x * 2;
    assert_eq!(Box::new(4), Box::new(2).ap(Box::new(f)));
}

#[test]
fn mod_rc() {
    let f: &dyn Fn(&i32) -> i32 = &|x| x * 2;
    assert_eq!(Rc::new(4), Rc::new(2).ap(Rc::new(f)));
}

#[test]
fn mod_vec() {
    let f1: &dyn Fn(&i32) -> i32 = &|x| x + 6;
    let f2: &dyn Fn(&i32) -> i32 = &|x| x * x;
    let f3: &dyn Fn(&i32) -> i32 = &|x| x * x * x;
    assert_eq!(vec![7, 4, 27], vec![1, 2, 3].ap(vec![f1, f2, f3]))
}

#[test]
fn ap_positional_truncation() {
    let f1: &dyn Fn(&i32) -> i32 = &|x| x + 6;
    let f2: &dyn Fn(&i32) -> i32 = &|x| x * x;
    let two = vec![1, 2, 3].ap(vec![f1, f2]);
    assert_eq!(vec![7, 4], two);
    assert_eq!(2, two.len());
    let one = vec![1].ap(vec![f1, f2]);
    assert_eq!(vec![7], one);
}

#[test]
fn optional_ap() {
    let double: &dyn Fn(&i32) -> i32 = &|x| x * 2;
    assert_eq!(Some(4), Some(2).ap(Some(double)));
    assert_eq!(None::<i32>, Some(2).ap(None::<&dyn Fn(&i32) -> i32>));
    assert_eq!(None::<i32>, None::<i32>.ap(Some(double)));
}

#[test]
fn pure_minimal_instances() {
    assert_eq!(Some(10), Option::<i32>::pure_(10));
    assert_eq!(Box::new(10), Box::<i32>::pure_(10));
    assert_eq!(Rc::new(10), Rc::<i32>::pure_(10));
    assert_eq!(vec![1], Vec::<i32>::pure_(1));
}
