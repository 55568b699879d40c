//! [`Applicative`] implementations for the four container shapes.
//!
//! `ap` is positional on `Vec`: the transformation at index `i` is applied to
//! the element at index `i`, and the result is as long as the shorter operand.
use crate::Applicative;
use crate::Functor;
use crate::HKT;
use std::rc::Rc;
use vstd::prelude::*;

verus! {

impl<A, B> Applicative<B> for Option<A> {
    fn pure_(value: B) -> (r: Option<B>) {
        Some(value)
    }

    fn ap<F: Fn(&A) -> B>(&self, of: <Option<A> as HKT<F>>::M) -> (r: Option<B>) {
        let ghost of0 = of;
        match (self, of) {
            (Some(a), Some(f)) => {
                proof {
                    assert((<Option<A> as Functor<F>>::out_elems(&of0)[0]).requires(
                        (&<Option<A> as Functor<B>>::elems(self)[0],),
                    ));
                }
                Some(f(a))
            },
            _ => None,
        }
    }
}

impl<A, B> Applicative<B> for Box<A> {
    fn pure_(value: B) -> (r: Box<B>) {
        Box::new(value)
    }

    fn ap<F: Fn(&A) -> B>(&self, of: <Box<A> as HKT<F>>::M) -> (r: Box<B>) {
        proof {
            assert((<Box<A> as Functor<F>>::out_elems(&of)[0]).requires(
                (&<Box<A> as Functor<B>>::elems(self)[0],),
            ));
        }
        let f = *of;
        Box::new(f(&**self))
    }
}

impl<A, B> Applicative<B> for Rc<A> {
    fn pure_(value: B) -> (r: Rc<B>) {
        Rc::new(value)
    }

    fn ap<F: Fn(&A) -> B>(&self, of: <Rc<A> as HKT<F>>::M) -> (r: Rc<B>) {
        proof {
            assert((<Rc<A> as Functor<F>>::out_elems(&of)[0]).requires(
                (&<Rc<A> as Functor<B>>::elems(self)[0],),
            ));
        }
        Rc::new((*of)(&**self))
    }
}

impl<A, B> Applicative<B> for Vec<A> {
    fn pure_(value: B) -> (r: Vec<B>) {
        let mut r: Vec<B> = Vec::new();
        r.push(value);
        r
    }

    fn ap<F: Fn(&A) -> B>(&self, of: <Vec<A> as HKT<F>>::M) -> (r: Vec<B>) {
        let mut of = of;
        let ghost fs = of@;
        proof {
            assert forall|i: int|
                0 <= i < vstd::math::min(self@.len() as int, fs.len() as int) implies (
            #[trigger] fs[i]).requires((&self@[i],)) by {
                assert((<Vec<A> as Functor<F>>::out_elems(&of)[i]).requires(
                    (&<Vec<A> as Functor<B>>::elems(self)[i],),
                ));
            }
        }
        let n: usize = if self.len() < of.len() {
            self.len()
        } else {
            of.len()
        };
        let mut r: Vec<B> = Vec::new();
        let mut j: usize = 0;
        while j < n
            invariant
                n == vstd::math::min(self@.len() as int, fs.len() as int),
                forall|i: int| 0 <= i < n ==> (#[trigger] fs[i]).requires((&self@[i],)),
                0 <= j <= n,
                of@ == fs.subrange(j as int, fs.len() as int),
                r@.len() == j,
                forall|i: int| 0 <= i < j ==> (#[trigger] fs[i]).ensures((&self@[i],), r@[i]),
            decreases n - j,
        {
            let f = of.remove(0);
            proof {
                assert(f == fs[j as int]);
                assert(f.requires((&self@[j as int],)));
            }
            r.push(f(&self[j]));
            j += 1;
            proof {
                assert(of@ == fs.subrange(j as int, fs.len() as int));
            }
        }
        r
    }
}

} // verus!
