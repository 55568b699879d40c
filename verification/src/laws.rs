//! The algebraic laws of the capability hierarchy, proved over the sequence
//! model that the capability contracts are stated with.
//!
//! Every shape's `fmap`, `pure_` and `bind` are pinned to the sequence model
//! by their contracts: `fmap` maps the element sequence positionally, `pure_`
//! yields the one-element sequence, and `bind` concatenates — `flat_map`s —
//! the produced element sequences. The functor and monad laws are therefore
//! laws about `map_values`, `seq![a]` and `flat_map`, and the lemmas here
//! state them for every element sequence, so for every instance of each of
//! the four shapes. The semigroup and monoid laws are not here: they are
//! proof obligations placed on every implementation by the
//! [`crate::Semigroup`] and [`crate::Monoid`] traits themselves.
use vstd::prelude::*;

verus! {

/// Functor identity: mapping the identity transformation leaves every
/// instance unchanged.
pub proof fn lemma_functor_identity<A>(s: Seq<A>)
    ensures
        s.map_values(|x: A| x) == s,
{
    assert(s.map_values(|x: A| x) =~= s);
}

/// Functor composition: mapping `f` and then mapping `g` equals mapping the
/// composition of `f` and `g`.
pub proof fn lemma_functor_composition<A, B, C>(s: Seq<A>, f: spec_fn(A) -> B, g: spec_fn(B) -> C)
    ensures
        s.map_values(f).map_values(g) == s.map_values(|x: A| g(f(x))),
{
    assert(s.map_values(f).map_values(g) =~= s.map_values(|x: A| g(f(x))));
}

/// Monad left identity: binding `f` over a lifted value yields exactly
/// `f` of that value.
pub proof fn lemma_monad_left_identity<A, B>(a: A, f: spec_fn(A) -> Seq<B>)
    ensures
        seq![a].flat_map(f) == f(a),
{
    seq![a].lemma_flat_map_singleton(f);
}

/// Monad right identity: binding the lift itself changes nothing.
pub proof fn lemma_monad_right_identity<A>(s: Seq<A>)
    ensures
        s.flat_map(|x: A| seq![x]) == s,
    decreases s.len(),
{
    let f = |x: A| seq![x];
    if s.len() == 0 {
        assert(s.map_values(f) =~= Seq::<Seq<A>>::empty());
        assert(s.flat_map(f) =~= s);
    } else {
        lemma_monad_right_identity(s.drop_last());
        s.drop_last().lemma_flat_map_push(f, s.last());
        assert(s.drop_last().push(s.last()) =~= s);
        assert(s.flat_map(f) =~= s);
    }
}

/// Binding distributes over concatenation of the bound instances.
pub proof fn lemma_flat_map_concat<A, B>(s: Seq<A>, t: Seq<A>, f: spec_fn(A) -> Seq<B>)
    ensures
        (s + t).flat_map(f) == s.flat_map(f) + t.flat_map(f),
    decreases t.len(),
{
    if t.len() == 0 {
        assert(s + t =~= s);
        assert(t.map_values(f) =~= Seq::<Seq<B>>::empty());
        assert(t.flat_map(f) =~= Seq::<B>::empty());
        assert(s.flat_map(f) + t.flat_map(f) =~= s.flat_map(f));
    } else {
        lemma_flat_map_concat(s, t.drop_last(), f);
        (s + t.drop_last()).lemma_flat_map_push(f, t.last());
        assert((s + t.drop_last()).push(t.last()) =~= s + t);
        t.drop_last().lemma_flat_map_push(f, t.last());
        assert(t.drop_last().push(t.last()) =~= t);
        assert((s + t).flat_map(f) =~= s.flat_map(f) + t.flat_map(f));
    }
}

/// Monad associativity: binding `f` and then `g` equals binding the
/// composition that binds `g` inside `f`.
pub proof fn lemma_monad_associativity<A, B, C>(
    s: Seq<A>,
    f: spec_fn(A) -> Seq<B>,
    g: spec_fn(B) -> Seq<C>,
)
    ensures
        s.flat_map(f).flat_map(g) == s.flat_map(|x: A| f(x).flat_map(g)),
    decreases s.len(),
{
    let fg = |x: A| f(x).flat_map(g);
    if s.len() == 0 {
        assert(s.map_values(f) =~= Seq::<Seq<B>>::empty());
        assert(s.flat_map(f) =~= Seq::<B>::empty());
        assert(s.flat_map(f).map_values(g) =~= Seq::<Seq<C>>::empty());
        assert(s.flat_map(f).flat_map(g) =~= Seq::<C>::empty());
        assert(s.map_values(fg) =~= Seq::<Seq<C>>::empty());
        assert(s.flat_map(fg) =~= Seq::<C>::empty());
    } else {
        lemma_monad_associativity(s.drop_last(), f, g);
        s.drop_last().lemma_flat_map_push(f, s.last());
        assert(s.drop_last().push(s.last()) =~= s);
        lemma_flat_map_concat(s.drop_last().flat_map(f), f(s.last()), g);
        s.drop_last().lemma_flat_map_push(fg, s.last());
        assert(s.flat_map(f).flat_map(g) =~= s.flat_map(fg));
    }
}

/// The derived map: binding the lifted image of `f` is the same as mapping
/// `f`, so a `map` written with `bind` and `pure_` agrees with the direct
/// one on every shape.
pub proof fn lemma_bind_pure_is_map<A, B>(s: Seq<A>, f: spec_fn(A) -> B)
    ensures
        s.flat_map(|x: A| seq![f(x)]) == s.map_values(f),
    decreases s.len(),
{
    let g = |x: A| seq![f(x)];
    if s.len() == 0 {
        assert(s.map_values(g) =~= Seq::<Seq<B>>::empty());
        assert(s.flat_map(g) =~= Seq::<B>::empty());
        assert(s.map_values(f) =~= Seq::<B>::empty());
    } else {
        lemma_bind_pure_is_map(s.drop_last(), f);
        s.drop_last().lemma_flat_map_push(g, s.last());
        assert(s.drop_last().push(s.last()) =~= s);
        assert(s.flat_map(g) =~= s.map_values(f));
    }
}

/// The sum of a sequence of integers.
pub open spec fn sum_of(s: Seq<int>) -> int
    decreases s.len(),
{
    if s.len() == 0 {
        0
    } else {
        sum_of(s.drop_last()) + s.last()
    }
}

/// For addition the two fold orders agree: folding a sequence from the left
/// and from the right both yield the seed plus the sequence's sum. For a
/// combiner that does not commute the two orders differ in general.
pub proof fn lemma_fold_addition_orders(s: Seq<int>, z: int)
    ensures
        s.fold_left(z, |b: int, a: int| b + a) == z + sum_of(s),
        s.fold_right(|a: int, b: int| a + b, z) == sum_of(s) + z,
    decreases s.len(),
{
    if s.len() > 0 {
        lemma_fold_addition_orders(s.drop_last(), z);
        lemma_fold_addition_orders(s.drop_last(), s.last() + z);
    }
}

/// Filtering and then folding with addition sums exactly the elements the
/// predicate admits.
pub proof fn lemma_filter_fold_round_trip(s: Seq<int>, p: spec_fn(int) -> bool)
    ensures
        s.filter(p).fold_left(0, |b: int, a: int| b + a) == sum_of(s.filter(p)),
{
    lemma_fold_addition_orders(s.filter(p), 0);
}

} // verus!

