use funlib::Applicative;
use funlib::Functor;
use funlib::Monad;
use std::rc::Rc;

fn over3(i: &i32) -> Option<i32> {
    if *i > 3 { Some(*i) } else { None }
}

#[test]
fn option() {
    assert_eq!(Option::<i32>::return_(10), Some(5).bind(|i| Some(i * 2)));
}

#[test]
fn box_() {
    assert_eq!(
        Box::<i32>::return_(10),
        Box::<i32>::return_(5).bind(|i| Box::new(i * 2))
    );
}

#[test]
fn rc() {
    assert_eq!(
        Rc::<i32>::return_(10),
        Rc::<i32>::return_(5).bind(|i| Rc::new(i * 2))
    );
}

#[test]
fn vec() {
    let mut v = Vec::<i32>::return_(1);
    v.push(2);
    v.push(3);
    assert_eq!(vec![1, 2, 2, 4, 3, 6], v.bind(|x| vec![x * 1, x * 2]));
}

#[test]
fn monad_option() {
    assert_eq!(Some("hello"), Some(5).fmap(|_i| "hello"));
    assert_eq!(
        Option::<i32>::pure_(10),
        Some(5).bind(|i| Some(i * 1)).fmap(|i| i * 2)
    );
    assert_eq!(Option::<i32>::pure_(10), Some(5).bind(|i| Some(i * 2)));
}

#[test]
fn bind_scenarios() {
    assert_eq!(Some(5), Some(5).bind(over3));
    assert_eq!(None, Some(2).bind(over3));
}

#[test]
fn monad_left_identity_scenarios() {
    let f = |i: &i32| Some(i * 2);
    assert_eq!(f(&5), Option::<i32>::pure_(5).bind(f));
    let g = |i: &i32| vec![*i, i + 10];
    assert_eq!(g(&5), Vec::<i32>::pure_(5).bind(g));
}

#[test]
fn monad_right_identity_scenarios() {
    assert_eq!(Some(7), Some(7).bind(|i: &i32| Option::<i32>::pure_(*i)));
    assert_eq!(None::<i32>, None::<i32>.bind(|i: &i32| Option::<i32>::pure_(*i)));
    assert_eq!(
        vec![1, 2, 3],
        vec![1, 2, 3].bind(|i: &i32| Vec::<i32>::pure_(*i))
    );
}

#[test]
fn monad_associativity_scenarios() {
    let f = |x: &i32| vec![*x, x + 10];
    let g = |x: &i32| vec![x * 2];
    assert_eq!(
        vec![1, 2].bind(f).bind(g),
        vec![1, 2].bind(|x: &i32| f(x).bind(g))
    );
    let h = |x: &i32| if *x > 1 { Some(*x) } else { None };
    let k = |x: &i32| Some(x + 1);
    assert_eq!(
        Some(2).bind(h).bind(k),
        Some(2).bind(|x: &i32| h(x).bind(k))
    );
    assert_eq!(
        Some(1).bind(h).bind(k),
        Some(1).bind(|x: &i32| h(x).bind(k))
    );
}
