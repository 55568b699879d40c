use funlib::Functor;
use std::boxed::Box;
use std::rc::Rc;

#[test]
fn functor_option() {
    let some = Some(1);
    let none: Option<i32> = None;
    assert_eq!(None::<i32>, none.fmap(|x| x + 1));
    assert_eq!(Some(2), some.fmap(|x| x + 1));
}

#[test]
fn functor_box() {
    let ax = Box::new(1);
    let bx = ax.fmap(|x| x + 1);
    let cx = ax.fmap(|x| x + 2);
    assert_eq!(Box::new(2), bx);
    assert_eq!(Box::new(3), cx);
}

#[test]
fn functor_rc() {
    let ax = Rc::new(1);
    let bx = ax.fmap(|x| x + 1);
    let cx = ax.fmap(|x| x + 2);
    assert_eq!(Rc::new(2), bx);
    assert_eq!(Rc::new(3), cx);
}

#[test]
fn vec_() {
    let ax = vec![1, 2, 3];
    let bx = ax.fmap(|x| x + 1);
    assert_eq!(vec![2, 3, 4], bx);
}

#[test]
fn functor_identity_scenarios() {
    assert_eq!(Some(5), Some(5).fmap(|x: &i32| *x));
    assert_eq!(Box::new(5), Box::new(5).fmap(|x: &i32| *x));
    assert_eq!(Rc::new(5), Rc::new(5).fmap(|x: &i32| *x));
    assert_eq!(vec![1, 2, 3, 4], vec![1, 2, 3, 4].fmap(|x: &i32| *x));
}

#[test]
fn functor_composition_scenarios() {
    assert_eq!(
        Some(5).fmap(|x: &i32| (x + 2) * 5),
        Some(5).fmap(|x: &i32| x + 2).fmap(|x: &i32| x * 5)
    );
    assert_eq!(
        Box::new(5).fmap(|x: &i32| (x + 2) * 5),
        Box::new(5).fmap(|x: &i32| x + 2).fmap(|x: &i32| x * 5)
    );
    assert_eq!(
        Rc::new(5).fmap(|x: &i32| (x + 2) * 5),
        Rc::new(5).fmap(|x: &i32| x + 2).fmap(|x: &i32| x * 5)
    );
    assert_eq!(
        vec![1, 2, 3, 4].fmap(|x: &i32| (x + 2) * 5),
        vec![1, 2, 3, 4].fmap(|x: &i32| x + 2).fmap(|x: &i32| x * 5)
    );
}
