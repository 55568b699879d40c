//! [`Functor`] implementations for the four container shapes, together with
//! the sequence model (`elems` / `out_elems`) that every higher capability's
//! contract is stated over.
use crate::Functor;
use crate::all_callable;
use std::rc::Rc;
use vstd::prelude::*;

verus! {

impl<A, B> Functor<B> for Option<A> {
    open spec fn elems(&self) -> Seq<A> {
        match *self {
            Some(a) => seq![a],
            None => Seq::empty(),
        }
    }

    open spec fn out_elems(m: &Option<B>) -> Seq<B> {
        match *m {
            Some(b) => seq![b],
            None => Seq::empty(),
        }
    }

    fn fmap<F: Fn(&A) -> B>(&self, f: F) -> (r: Option<B>) {
        match self {
            Some(a) => {
                proof {
                    assert(f.requires((&<Option<A> as Functor<B>>::elems(self)[0],)));
                }
                Some(f(a))
            },
            None => None,
        }
    }
}

impl<A, B> Functor<B> for Box<A> {
    open spec fn elems(&self) -> Seq<A> {
        seq![**self]
    }

    open spec fn out_elems(m: &Box<B>) -> Seq<B> {
        seq![**m]
    }

    fn fmap<F: Fn(&A) -> B>(&self, f: F) -> (r: Box<B>) {
        proof {
            assert(f.requires((&<Box<A> as Functor<B>>::elems(self)[0],)));
        }
        Box::new(f(&**self))
    }
}

impl<A, B> Functor<B> for Rc<A> {
    open spec fn elems(&self) -> Seq<A> {
        seq![**self]
    }

    open spec fn out_elems(m: &Rc<B>) -> Seq<B> {
        seq![**m]
    }

    fn fmap<F: Fn(&A) -> B>(&self, f: F) -> (r: Rc<B>) {
        proof {
            assert(f.requires((&<Rc<A> as Functor<B>>::elems(self)[0],)));
        }
        Rc::new(f(&**self))
    }
}

impl<A, B> Functor<B> for Vec<A> {
    open spec fn elems(&self) -> Seq<A> {
        self@
    }

    open spec fn out_elems(m: &Vec<B>) -> Seq<B> {
        m@
    }

    fn fmap<F: Fn(&A) -> B>(&self, f: F) -> (r: Vec<B>) {
        let mut r: Vec<B> = Vec::new();
        let mut j: usize = 0;
        while j < self.len()
            invariant
                all_callable(f, self@),
                0 <= j <= self.len(),
                r@.len() == j,
                forall|i: int| 0 <= i < j ==> f.ensures((&self@[i],), #[trigger] r@[i]),
            decreases self.len() - j,
        {
            proof {
                assert(f.requires((&self@[j as int],)));
            }
            r.push(f(&self[j]));
            j += 1;
        }
        r
    }
}

} // verus!
