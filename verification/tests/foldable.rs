use funlib::foldable::FoldableA;
use funlib::foldable::FoldableB;
use funlib::foldable::FoldableS;

#[test]
fn vec_filter() {
    let v1 = vec![1, 2, 3, 4];
    assert_eq!(vec![&2, &4], v1.filter(|&a| a % 2 == 0))
}

#[test]
fn option_filter_negative() {
    let v1 = Option::Some(7);
    assert_eq!(Option::None, v1.filter(|&a| a > 10));
}

#[test]
fn option_filter_positive() {
    let v1 = Option::Some(7);
    assert_eq!(Option::Some(7), v1.filter(|&a| a < 10));
}

#[test]
fn option_singular_filter() {
    let v1 = Option::Some(7);
    assert_eq!(Option::Some(&7), FoldableS::filter(&v1, |&a| a < 10));
    assert_eq!(Option::None::<&i32>, FoldableS::filter(&v1, |&a| a > 10));
    let n: Option<i32> = None;
    assert_eq!(Option::None::<&i32>, FoldableS::filter(&n, |&a| a > 10));
}

#[test]
fn vec_filter_then_fold_left() {
    let v1 = vec![1, 2, 3, 4];
    assert_eq!(6, v1.filter(|&a| a % 2 == 0).fold_left(0, |b, &a| a + b));
}

#[test]
fn vec_filter_then_fold_right() {
    let v1 = vec![1, 2, 3, 4];
    assert_eq!(6, v1.filter(|&a| a % 2 == 0).fold_right(0, |&a, b| a + b));
}

#[test]
fn vec_concat() {
    let v1 = vec![(0.1f64 * 1000f64) as i64, (0.2f64 * 1000f64) as i64];
    assert_eq!(0.3f64, (v1.concat() as f64 / 1000f64));
}

#[test]
fn vec_concat_integers() {
    assert_eq!(10, vec![1, 2, 3, 4].concat());
    assert_eq!(0, Vec::<i32>::new().concat());
}

#[test]
fn vec_endo_fold() {
    let v = vec![1, 2, 3, 4];
    assert_eq!(10, v.fold(0, |b, a| a + b));
    assert_eq!(7, Vec::<i32>::new().fold(7, |b, a| a + b));
}

#[test]
fn vec_find_all_any_empty() {
    let v = vec![1, 2, 3, 4];
    assert_eq!(Some(&2), v.find(|&a| a == 2));
    assert_eq!(None, v.find(|&a| a == 5));
    assert!(v.all(|&a| a < 5));
    assert!(!v.all(|&a| a < 4));
    assert!(v.any(|&a| a == 4));
    assert!(!v.any(|&a| a == 5));
    let v2: Vec<i32> = vec![];
    assert!(!v.is_empty());
    assert!(v2.is_empty());
    assert!(v.non_empty());
    assert!(!v2.non_empty());
}

#[test]
fn option_fold_find_all_any_empty() {
    let s = Some(7);
    let n: Option<i32> = None;
    assert_eq!(8, s.fold(0, |a| a + 1));
    assert_eq!(0, n.fold(0, |a| a + 1));
    assert_eq!(Some(&7), s.find(|&a| a > 3));
    assert_eq!(None, s.find(|&a| a > 10));
    assert!(s.all(|&a| a > 3));
    assert!(n.all(|&a| a > 3));
    assert!(s.any(|&a| a > 3));
    assert!(!n.any(|&a| a > 3));
    assert!(!s.is_empty());
    assert!(n.is_empty());
    assert!(s.non_empty());
    assert!(!n.non_empty());
}

#[test]
fn fold_orders() {
    let v = vec![1, 2, 3];
    assert_eq!(6, v.fold_left(0, |b: i32, a: &i32| b + a));
    assert_eq!(6, v.fold_right(0, |a: &i32, b: i32| a + b));
    let left = v.fold_left(0, |b: i32, a: &i32| b - a);
    let right = v.fold_right(0, |a: &i32, b: i32| a - b);
    assert_eq!(-6, left);
    assert_eq!(2, right);
    assert_ne!(left, right);
}

#[test]
fn fold_empty_returns_seed() {
    let v: Vec<i32> = vec![];
    assert_eq!(9, v.fold_left(9, |b: i32, a: &i32| b + a));
    assert_eq!(9, v.fold_right(9, |a: &i32, b: i32| a + b));
}

#[test]
fn fold_map_scenarios() {
    let v = vec![1u8, 2u8, 3u8];
    assert_eq!(6u32, v.fold_map(|x: &u8| *x as u32));
    let w = vec![String::from("ab"), String::from("cd")];
    assert_eq!("abcd", w.fold_map(|s: &String| s.clone()));
    let e: Vec<u8> = vec![];
    assert_eq!(0u32, e.fold_map(|x: &u8| *x as u32));
}
