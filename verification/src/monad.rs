//! [`Monad`] implementations for the four container shapes.
//!
//! For `Option`, `Box` and `Rc` the instance produced by the transformation
//! becomes the result directly; for `Vec` the produced sequences are
//! concatenated in order.
use crate::Functor;
use crate::Monad;
use crate::all_callable;
use crate::binds_elems;
use std::rc::Rc;
use vstd::prelude::*;

verus! {

impl<A, B> Monad<B> for Option<A> {
    fn bind<F: Fn(&A) -> Option<B>>(&self, f: F) -> (r: Option<B>) {
        let ghost s = <Option<A> as Functor<B>>::elems(self);
        let ghost out = |m: Option<B>| <Option<A> as Functor<B>>::out_elems(&m);
        match self {
            Some(a) => {
                proof {
                    assert(f.requires((&s[0],)));
                }
                let r = f(a);
                proof {
                    let ms = seq![r];
                    ms.lemma_flat_map_singleton(out);
                    assert(binds_elems(f, s, out, out(r)));
                }
                r
            },
            None => {
                proof {
                    let ms = Seq::<Option<B>>::empty();
                    assert(ms.flat_map(out) =~= Seq::<B>::empty());
                    assert(binds_elems(f, s, out, Seq::<B>::empty()));
                }
                None
            },
        }
    }
}

impl<A, B> Monad<B> for Box<A> {
    fn bind<F: Fn(&A) -> Box<B>>(&self, f: F) -> (r: Box<B>) {
        let ghost s = <Box<A> as Functor<B>>::elems(self);
        let ghost out = |m: Box<B>| <Box<A> as Functor<B>>::out_elems(&m);
        proof {
            assert(f.requires((&s[0],)));
        }
        let r = f(&**self);
        proof {
            let ms = seq![r];
            ms.lemma_flat_map_singleton(out);
            assert(binds_elems(f, s, out, out(r)));
        }
        r
    }
}

impl<A, B> Monad<B> for Rc<A> {
    fn bind<F: Fn(&A) -> Rc<B>>(&self, f: F) -> (r: Rc<B>) {
        let ghost s = <Rc<A> as Functor<B>>::elems(self);
        let ghost out = |m: Rc<B>| <Rc<A> as Functor<B>>::out_elems(&m);
        proof {
            assert(f.requires((&s[0],)));
        }
        let r = f(&**self);
        proof {
            let ms = seq![r];
            ms.lemma_flat_map_singleton(out);
            assert(binds_elems(f, s, out, out(r)));
        }
        r
    }
}

impl<A, B> Monad<B> for Vec<A> {
    #[verifier::loop_isolation(false)]
    fn bind<F: Fn(&A) -> Vec<B>>(&self, f: F) -> (r: Vec<B>) {
        let ghost out = |m: Vec<B>| <Vec<A> as Functor<B>>::out_elems(&m);
        let mut r: Vec<B> = Vec::new();
        let ghost ms = Seq::<Vec<B>>::empty();
        proof {
            assert(ms.flat_map(out) =~= Seq::<B>::empty());
        }
        let mut j: usize = 0;
        while j < self.len()
            invariant
                all_callable(f, self@),
                0 <= j <= self.len(),
                ms.len() == j,
                forall|i: int| 0 <= i < j ==> f.ensures((&self@[i],), #[trigger] ms[i]),
                r@ == ms.flat_map(out),
            decreases self.len() - j,
        {
            proof {
                assert(f.requires((&self@[j as int],)));
            }
            let mut m = f(&self[j]);
            let ghost m0 = m;
            proof {
                ms.lemma_flat_map_push(out, m0);
            }
            r.append(&mut m);
            proof {
                ms = ms.push(m0);
            }
            j += 1;
        }
        proof {
            assert(binds_elems(f, self@, out, r@));
        }
        r
    }
}

} // verus!
