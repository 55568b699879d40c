//! Algebraic capabilities — mapping, lifting, wrapped application, sequential
//! binding, associative combination, and folding — for four container shapes:
//! `Option` (zero or one element), `Box` (one owned element), `Rc` (one shared
//! element), and `Vec` (an ordered sequence of elements).
//!
//! Each capability is a trait whose methods carry full contracts, stated over
//! a sequence model of the shape's elements. Passed-in transformations are
//! ordinary closures, so the contracts speak of them through `call_requires`
//! and `call_ensures`; the algebraic laws themselves are proved over the
//! sequence model in [`laws`], and the semigroup and monoid laws are proof
//! obligations on every implementation of those traits.
use std::rc::Rc;
use vstd::prelude::*;

pub mod applicative;
pub mod foldable;
pub mod functor;
pub mod laws;
pub mod monad;
pub mod monoid;
pub mod semigroup;

verus! {

/// `f` may be called on every element of `s`.
pub open spec fn all_callable<A, B, F: Fn(&A) -> B>(f: F, s: Seq<A>) -> bool {
    forall|i: int| 0 <= i < s.len() ==> #[trigger] f.requires((&s[i],))
}

/// Every element of `r` is an output `f` admits for the element of `s` at the
/// same position, and the two sequences have the same length.
pub open spec fn maps_elems<A, B, F: Fn(&A) -> B>(f: F, s: Seq<A>, r: Seq<B>) -> bool {
    &&& r.len() == s.len()
    &&& forall|i: int| 0 <= i < s.len() ==> f.ensures((&s[i],), #[trigger] r[i])
}

/// `r` is the in-order concatenation of result instances that `f` admits for
/// the elements of `s`, where `out` gives the elements of one result instance.
pub open spec fn binds_elems<A, B, M, F: Fn(&A) -> M>(
    f: F,
    s: Seq<A>,
    out: spec_fn(M) -> Seq<B>,
    r: Seq<B>,
) -> bool {
    exists|ms: Seq<M>|
        {
            &&& ms.len() == s.len()
            &&& forall|i: int| 0 <= i < s.len() ==> f.ensures((&s[i],), #[trigger] ms[i])
            &&& r == ms.flat_map(out)
        }
}

/// Association from a shape holding `Self::A` to the same shape holding `B`.
pub trait HKT<B> {
    /// The element type the shape currently holds.
    type A;
    /// The shape with its element type replaced by `B`.
    type M;
}

/// Association from a shape holding `B` to the same shape holding borrowed
/// elements, for fold operations that must not consume the container.
pub trait HKST<'a, B> {
    /// A borrowed element.
    type A;
    /// The shape holding borrowed elements.
    type M;
}

impl<B, C> HKT<C> for Option<B> {
    type A = B;
    type M = Option<C>;
}

impl<'a, B: 'a> HKST<'a, B> for Option<B> {
    type A = &'a B;
    type M = Option<&'a B>;
}

impl<B, C> HKT<C> for Box<B> {
    type A = B;
    type M = Box<C>;
}

impl<'a, B: 'a> HKST<'a, B> for Box<B> {
    type A = &'a B;
    type M = Box<&'a B>;
}

impl<B, C> HKT<C> for Rc<B> {
    type A = B;
    type M = Rc<C>;
}

impl<'a, B: 'a> HKST<'a, B> for Rc<B> {
    type A = &'a B;
    type M = Rc<&'a B>;
}

impl<B, C> HKT<C> for Vec<B> {
    type A = B;
    type M = Vec<C>;
}

impl<'a, B: 'a> HKST<'a, B> for Vec<B> {
    type A = &'a B;
    type M = Vec<&'a B>;
}

/// Structure-preserving element transformation.
pub trait Functor<B>: HKT<B> {
    /// The elements of this instance, in order.
    spec fn elems(&self) -> Seq<Self::A>;

    /// The elements of a result instance, in order.
    spec fn out_elems(m: &Self::M) -> Seq<B>;

    /// Apply `f` to every element, keeping arity and order.
    fn fmap<F: Fn(&Self::A) -> B>(&self, f: F) -> (r: Self::M)
        requires
            all_callable(f, self.elems()),
        ensures
            maps_elems(f, self.elems(), Self::out_elems(&r)),
    ;
}

/// Lifting a bare value into a shape, and applying a wrapped transformation
/// to a wrapped value.
pub trait Applicative<B>: Functor<B> {
    /// The minimal instance of the shape holding exactly `value`.
    fn pure_(value: B) -> (r: Self::M)
        ensures
            Self::out_elems(&r) == seq![value],
    ;

    /// Apply the transformations held in `of` to the elements of `self`,
    /// positionally: the transformation at index `i` goes to the element at
    /// index `i`, and excess elements of either operand are dropped.
    fn ap<F: Fn(&<Self as HKT<B>>::A) -> B>(&self, of: <Self as HKT<F>>::M) -> (r: <Self as HKT<
        B,
    >>::M) where Self: Functor<F>
        requires
            forall|i: int|
                0 <= i < <Self as Functor<B>>::elems(self).len() && i < <Self as Functor<
                    F,
                >>::out_elems(&of).len() ==> (#[trigger] <Self as Functor<F>>::out_elems(
                    &of,
                )[i]).requires((&<Self as Functor<B>>::elems(self)[i],)),
        ensures
            <Self as Functor<B>>::out_elems(&r).len() == vstd::math::min(
                <Self as Functor<B>>::elems(self).len() as int,
                <Self as Functor<F>>::out_elems(&of).len() as int,
            ),
            forall|i: int|
                0 <= i < <Self as Functor<B>>::out_elems(&r).len()
                    ==> (#[trigger] <Self as Functor<F>>::out_elems(&of)[i]).ensures(
                    (&<Self as Functor<B>>::elems(self)[i],),
                    <Self as Functor<B>>::out_elems(&r)[i],
                ),
    ;
}

/// Sequential composition that flattens the produced instances.
pub trait Monad<B>: Applicative<B> {
    /// Apply `f`, which itself produces an instance of the shape, to every
    /// element, and flatten the produced instances in order.
    fn bind<F: Fn(&<Self as HKT<B>>::A) -> <Self as HKT<B>>::M>(&self, f: F) -> (r: <Self as HKT<
        B,
    >>::M)
        requires
            all_callable(f, <Self as Functor<B>>::elems(self)),
        ensures
            binds_elems(
                f,
                <Self as Functor<B>>::elems(self),
                |m: <Self as HKT<B>>::M| <Self as Functor<B>>::out_elems(&m),
                <Self as Functor<B>>::out_elems(&r),
            ),
    ;

    /// Lift a bare value, exactly as `pure_` does.
    fn return_(value: B) -> (r: <Self as HKT<B>>::M)
        ensures
            Self::out_elems(&r) == seq![value],
    {
        Self::pure_(value)
    }
}

/// Associative combination closed over one type.
///
/// The combination is pinned down at the level of each type's deep view, and
/// every implementation owes a proof of associativity
/// ([`Semigroup::lemma_mappend_associative`]).
pub trait Semigroup: DeepView + Sized {
    /// What combining two values yields, on deep views.
    spec fn combined(a: Self::V, b: Self::V) -> Self::V;

    /// Combine two values.
    fn mappend(&self, other: &Self) -> (r: Self)
        ensures
            r.deep_view() == Self::combined(self.deep_view(), other.deep_view()),
    ;

    /// A copy of this value with the same deep view.
    fn duplicate(&self) -> (r: Self)
        ensures
            r.deep_view() == self.deep_view(),
    ;

    /// The combination is associative: grouping does not matter.
    proof fn lemma_mappend_associative(x: Self::V, y: Self::V, z: Self::V)
        ensures
            Self::combined(Self::combined(x, y), z) == Self::combined(x, Self::combined(y, z)),
    ;
}

/// A semigroup with an identity element.
///
/// Every implementation owes a proof that the identity is neutral on both
/// sides ([`Monoid::lemma_mempty_identity`]).
pub trait Monoid: Semigroup {
    /// The identity element, on deep views.
    spec fn empty() -> Self::V;

    /// The identity element.
    fn mempty() -> (r: Self)
        ensures
            r.deep_view() == Self::empty(),
    ;

    /// Combining with the identity, on either side, is a no-op.
    proof fn lemma_mempty_identity(x: Self::V)
        ensures
            Self::combined(Self::empty(), x) == x,
            Self::combined(x, Self::empty()) == x,
    ;
}

/// Compose two functions into one that applies `f` first, then `g`.
///
/// The returned closure admits an output `z` for an input `x` only when some
/// intermediate `y` relates `x` to `y` through `f` and `y` to `z` through `g`.
pub fn compose_two<A, B, C, G, F>(f: F, g: G) -> (h: impl Fn(A) -> C) where
    F: Fn(A) -> B,
    G: Fn(B) -> C,

    ensures
        forall|x: A|
            f.requires((x,)) && (forall|y: B| f.ensures((x,), y) ==> g.requires((y,)))
                ==> #[trigger] h.requires((x,)),
        forall|x: A, z: C|
            #[trigger] h.ensures((x,), z) ==> exists|y: B|
                f.ensures((x,), y) && g.ensures((y,), z),
{
    move |x: A| -> (z: C)
        requires
            f.requires((x,)),
            forall|y: B| f.ensures((x,), y) ==> g.requires((y,)),
        ensures
            exists|y: B| f.ensures((x,), y) && g.ensures((y,), z),
        {
            g(f(x))
        }
}

} // verus!
