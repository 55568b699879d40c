//! The foldable family: reduction over a shape's contents.
//!
//! [`FoldableA`] is the endo-fold over an ordered sequence (the result type
//! equals the element type), [`FoldableS`] the same operation set specialized
//! to a shape holding at most one element, and [`FoldableB`] the
//! heterogeneous fold whose accumulator type differs from the element type.
//!
//! The folds take ordinary closures, so their contracts are relations:
//! `folds_left(f, s, z, r)` says that `r` is an outcome the closure `f`
//! admits for folding `s` from the left out of the seed `z`. For a closure
//! whose contract pins its outputs down, these relations pin the fold down.
use crate::HKST;
use crate::HKT;
use crate::Monoid;
use crate::Semigroup;
use crate::all_callable;
use crate::maps_elems;
use vstd::prelude::*;

verus! {

/// `r` is an outcome `f` admits for a left-to-right fold of `s` out of `z`.
pub open spec fn folds_left<A, B, F: Fn(B, &A) -> B>(f: F, s: Seq<A>, z: B, r: B) -> bool
    decreases s.len(),
{
    if s.len() == 0 {
        r == z
    } else {
        exists|y: B| #[trigger] f.ensures((z, &s[0]), y) && folds_left(f, s.drop_first(), y, r)
    }
}

/// `f` may be called along every path of a left-to-right fold of `s` out of
/// `z`.
pub open spec fn fold_left_callable<A, B, F: Fn(B, &A) -> B>(f: F, s: Seq<A>, z: B) -> bool
    decreases s.len(),
{
    s.len() == 0 || {
        &&& f.requires((z, &s[0]))
        &&& forall|y: B|
            #[trigger] f.ensures((z, &s[0]), y) ==> fold_left_callable(f, s.drop_first(), y)
    }
}

/// `r` is an outcome `f` admits for a right-to-left fold of `s` out of `z`:
/// the last element combines with the seed first.
pub open spec fn folds_right<A, B, F: Fn(&A, B) -> B>(f: F, s: Seq<A>, z: B, r: B) -> bool
    decreases s.len(),
{
    if s.len() == 0 {
        r == z
    } else {
        exists|y: B| folds_right(f, s.drop_first(), z, y) && #[trigger] f.ensures((&s[0], y), r)
    }
}

/// `f` may be called along every path of a right-to-left fold of `s` out of
/// `z`.
pub open spec fn fold_right_callable<A, B, F: Fn(&A, B) -> B>(f: F, s: Seq<A>, z: B) -> bool
    decreases s.len(),
{
    s.len() == 0 || {
        &&& fold_right_callable(f, s.drop_first(), z)
        &&& forall|y: B|
            #[trigger] folds_right(f, s.drop_first(), z, y) ==> f.requires((&s[0], y))
    }
}

/// Take one step out of a nonempty left fold: some admitted first
/// combination leads to the rest of the fold.
pub proof fn lemma_folds_left_step<A, B, F: Fn(B, &A) -> B>(f: F, s: Seq<A>, z: B, r: B) -> (y: B)
    requires
        folds_left(f, s, z, r),
        s.len() > 0,
    ensures
        f.ensures((z, &s[0]), y),
        folds_left(f, s.drop_first(), y, r),
{
    choose|y: B| #[trigger] f.ensures((z, &s[0]), y) && folds_left(f, s.drop_first(), y, r)
}

/// A fold of an empty sequence lands on its seed.
pub proof fn lemma_folds_left_empty<A, B, F: Fn(B, &A) -> B>(f: F, s: Seq<A>, z: B, r: B)
    requires
        folds_left(f, s, z, r),
        s.len() == 0,
    ensures
        r == z,
{
}

/// The deep views of the elements of `s`, in order.
pub open spec fn deep_views<T: DeepView>(s: Seq<T>) -> Seq<T::V> {
    s.map_values(|t: T| t.deep_view())
}

/// Combine the views in `vs` into `v`, left to right.
pub open spec fn combined_from<A: Semigroup>(v: A::V, vs: Seq<A::V>) -> A::V
    decreases vs.len(),
{
    if vs.len() == 0 {
        v
    } else {
        combined_from::<A>(A::combined(v, vs[0]), vs.drop_first())
    }
}

/// Combine the views in `vs` out of the identity, left to right.
pub open spec fn combined_all<A: Monoid>(vs: Seq<A::V>) -> A::V {
    combined_from::<A>(A::empty(), vs)
}

/// A fold of `s` followed by one more combination with `x` is a fold of
/// `s.push(x)`.
pub proof fn lemma_folds_left_push<A, B, F: Fn(B, &A) -> B>(
    f: F,
    s: Seq<A>,
    x: A,
    z: B,
    mid: B,
    r: B,
)
    requires
        folds_left(f, s, z, mid),
        f.ensures((mid, &x), r),
    ensures
        folds_left(f, s.push(x), z, r),
    decreases s.len(),
{
    if s.len() == 0 {
        assert(s.push(x)[0] == x);
        assert(s.push(x).drop_first() =~= Seq::<A>::empty());
        assert(f.ensures((z, &s.push(x)[0]), r));
        assert(folds_left(f, s.push(x).drop_first(), r, r));
    } else {
        let y = lemma_folds_left_step(f, s, z, mid);
        lemma_folds_left_push(f, s.drop_first(), x, y, mid, r);
        assert(s.push(x).drop_first() =~= s.drop_first().push(x));
        assert(s.push(x)[0] == s[0]);
        assert(f.ensures((z, &s.push(x)[0]), y));
        assert(folds_left(f, s.push(x).drop_first(), y, r));
    }
}

/// A closure that may be called on any accumulator and any element of `s`
/// may be called along every path of a left-to-right fold of `s`.
pub proof fn lemma_fold_left_callable_elementwise<A, B, F: Fn(B, &A) -> B>(f: F, s: Seq<A>, z: B)
    requires
        forall|y: B, i: int| 0 <= i < s.len() ==> #[trigger] f.requires((y, &s[i])),
    ensures
        fold_left_callable(f, s, z),
    decreases s.len(),
{
    if s.len() > 0 {
        assert(f.requires((z, &s[0])));
        assert forall|y: B| #[trigger] f.ensures((z, &s[0]), y) implies fold_left_callable(
            f,
            s.drop_first(),
            y,
        ) by {
            assert(forall|w: B, i: int|
                0 <= i < s.drop_first().len() ==> #[trigger] f.requires(
                    (w, &s.drop_first()[i]),
                ) == f.requires((w, &s[i + 1])));
            lemma_fold_left_callable_elementwise(f, s.drop_first(), y);
        }
    }
}

/// A closure that may be called on any element of `s` and any accumulator
/// may be called along every path of a right-to-left fold of `s`.
pub proof fn lemma_fold_right_callable_elementwise<A, B, F: Fn(&A, B) -> B>(f: F, s: Seq<A>, z: B)
    requires
        forall|y: B, i: int| 0 <= i < s.len() ==> #[trigger] f.requires((&s[i], y)),
    ensures
        fold_right_callable(f, s, z),
    decreases s.len(),
{
    if s.len() > 0 {
        assert(forall|w: B, i: int|
            0 <= i < s.drop_first().len() ==> #[trigger] f.requires((&s.drop_first()[i], w))
                == f.requires((&s[i + 1], w)));
        lemma_fold_right_callable_elementwise(f, s.drop_first(), z);
    }
}

/// `r` is the subsequence of `s` that a run of `f` admitted `true` on, order
/// preserved.
pub open spec fn filters_elems<A, F: Fn(&A) -> bool>(f: F, s: Seq<A>, r: Seq<A>) -> bool
    decreases s.len(),
{
    if s.len() == 0 {
        r.len() == 0
    } else {
        exists|b: bool|
            #[trigger] f.ensures((&s[0],), b) && (if b {
                r.len() > 0 && r[0] == s[0] && filters_elems(f, s.drop_first(), r.drop_first())
            } else {
                filters_elems(f, s.drop_first(), r)
            })
    }
}

/// Extending the input of a filtering by one element extends its outcome by
/// that element exactly when the predicate admitted `true` on it.
pub proof fn lemma_filters_elems_push<A, F: Fn(&A) -> bool>(
    f: F,
    s: Seq<A>,
    r: Seq<A>,
    x: A,
    b: bool,
)
    requires
        filters_elems(f, s, r),
        f.ensures((&x,), b),
    ensures
        b ==> filters_elems(f, s.push(x), r.push(x)),
        !b ==> filters_elems(f, s.push(x), r),
    decreases s.len(),
{
    if s.len() == 0 {
        assert(s.push(x)[0] == x);
        assert(s.push(x).drop_first() =~= Seq::<A>::empty());
        assert(f.ensures((&s.push(x)[0],), b));
        if b {
            assert(r.push(x)[0] == x);
            assert(r.push(x).drop_first() =~= Seq::<A>::empty());
            assert(filters_elems(f, s.push(x).drop_first(), r.push(x).drop_first()));
        } else {
            assert(filters_elems(f, s.push(x).drop_first(), r));
        }
    } else {
        let b0 = choose|b0: bool|
            #[trigger] f.ensures((&s[0],), b0) && (if b0 {
                r.len() > 0 && r[0] == s[0] && filters_elems(f, s.drop_first(), r.drop_first())
            } else {
                filters_elems(f, s.drop_first(), r)
            });
        assert(s.push(x).drop_first() =~= s.drop_first().push(x));
        assert(s.push(x)[0] == s[0]);
        assert(f.ensures((&s.push(x)[0],), b0));
        if b0 {
            lemma_filters_elems_push(f, s.drop_first(), r.drop_first(), x, b);
            if b {
                assert(r.push(x).drop_first() =~= r.drop_first().push(x));
                assert(r.push(x)[0] == r[0]);
                assert(filters_elems(f, s.push(x).drop_first(), r.push(x).drop_first()));
            } else {
                assert(filters_elems(f, s.push(x).drop_first(), r.drop_first()));
            }
        } else {
            lemma_filters_elems_push(f, s.drop_first(), r, x, b);
            if b {
                assert(filters_elems(f, s.push(x).drop_first(), r.push(x)));
            } else {
                assert(filters_elems(f, s.push(x).drop_first(), r));
            }
        }
    }
}

/// A fold with a closure that combines accumulators the way the semigroup
/// does lands on the left-to-right combination of the element views.
pub proof fn lemma_folds_left_combined<A: Semigroup, F: Fn(A, &A) -> A>(
    f: F,
    s: Seq<A>,
    z: A,
    r: A,
)
    requires
        folds_left(f, s, z, r),
        forall|acc: A, x: A, y: A|
            #[trigger] f.ensures((acc, &x), y) ==> y.deep_view() == A::combined(
                acc.deep_view(),
                x.deep_view(),
            ),
    ensures
        r.deep_view() == combined_from::<A>(z.deep_view(), deep_views(s)),
    decreases s.len(),
{
    if s.len() == 0 {
        lemma_folds_left_empty(f, s, z, r);
        assert(deep_views(s) =~= Seq::<A::V>::empty());
    } else {
        let y = lemma_folds_left_step(f, s, z, r);
        lemma_folds_left_combined(f, s.drop_first(), y, r);
        assert(deep_views(s).drop_first() =~= deep_views(s.drop_first()));
        assert(deep_views(s)[0] == s[0].deep_view());
    }
}

/// Endo-fold over an ordered sequence of elements: reductions, searches,
/// universal and existential checks, filtering, and emptiness.
pub trait FoldableA<'r, A: 'r>: HKST<'r, A> {
    /// The elements of this instance, in order.
    spec fn items(&self) -> Seq<A>;

    /// The elements a filtering kept, in order.
    spec fn kept(m: &Self::M) -> Seq<A>;

    /// Fold the elements left to right out of the seed `z`.
    fn fold<F: Fn(A, &A) -> A>(&'r self, z: A, f: F) -> (r: A)
        requires
            fold_left_callable(f, self.items(), z),
        ensures
            folds_left(f, self.items(), z, r),
    ;

    /// Combine all elements left to right out of the monoid identity.
    fn concat(&'r self) -> (r: A) where A: Monoid
        ensures
            r.deep_view() == combined_all::<A>(deep_views(self.items())),
    {
        let z = A::mempty();
        let g = |acc: A, x: &A| -> (y: A)
            ensures
                y.deep_view() == A::combined(acc.deep_view(), x.deep_view()),
            { acc.mappend(x) };
        proof {
            lemma_fold_left_callable_elementwise(g, self.items(), z);
        }
        let r = self.fold(z, g);
        proof {
            lemma_folds_left_combined(g, self.items(), z, r);
        }
        r
    }

    /// The first element a run of `f` admitted `true` on, if any.
    fn find<F: Fn(&A) -> bool>(&'r self, f: F) -> (r: Option<&'r A>)
        requires
            all_callable(f, self.items()),
        ensures
            match r {
                Some(x) => exists|i: int|
                    0 <= i < self.items().len() && *x == self.items()[i] && f.ensures(
                        (&self.items()[i],),
                        true,
                    ) && (forall|k: int| 0 <= k < i ==> f.ensures((&self.items()[k],), false)),
                None => forall|i: int|
                    0 <= i < self.items().len() ==> f.ensures((&self.items()[i],), false),
            },
    ;

    /// Whether a run of `f` admitted `true` on every element, stopping at
    /// the first `false`.
    fn all<F: Fn(&A) -> bool>(&'r self, f: F) -> (r: bool)
        requires
            all_callable(f, self.items()),
        ensures
            r ==> (forall|i: int|
                0 <= i < self.items().len() ==> f.ensures((&self.items()[i],), true)),
            !r ==> (exists|i: int|
                0 <= i < self.items().len() && f.ensures((&self.items()[i],), false) && (
                forall|k: int| 0 <= k < i ==> f.ensures((&self.items()[k],), true))),
    ;

    /// Whether a run of `f` admitted `true` on some element, stopping at the
    /// first `true`.
    fn any<F: Fn(&A) -> bool>(&'r self, f: F) -> (r: bool)
        requires
            all_callable(f, self.items()),
        ensures
            !r ==> (forall|i: int|
                0 <= i < self.items().len() ==> f.ensures((&self.items()[i],), false)),
            r ==> (exists|i: int|
                0 <= i < self.items().len() && f.ensures((&self.items()[i],), true) && (
                forall|k: int| 0 <= k < i ==> f.ensures((&self.items()[k],), false))),
    ;

    /// The elements a run of `f` admitted `true` on, order preserved.
    fn filter<F: Fn(&A) -> bool>(&'r self, f: F) -> (r: Self::M)
        requires
            all_callable(f, self.items()),
        ensures
            filters_elems(f, self.items(), Self::kept(&r)),
    ;

    /// Whether this instance holds no element.
    fn is_empty(&'r self) -> (r: bool)
        ensures
            r == (self.items().len() == 0),
    ;

    /// Whether this instance holds an element.
    fn non_empty(&'r self) -> (r: bool)
        ensures
            r == (self.items().len() != 0),
    {
        !self.is_empty()
    }
}

impl<'r, A: 'r> FoldableA<'r, A> for Vec<A> {
    open spec fn items(&self) -> Seq<A> {
        self@
    }

    open spec fn kept(m: &Vec<&'r A>) -> Seq<A> {
        m@.map_values(|x: &A| *x)
    }

    fn fold<F: Fn(A, &A) -> A>(&'r self, z: A, f: F) -> (r: A) {
        self.fold_left(z, f)
    }

    #[verifier::loop_isolation(false)]
    fn find<F: Fn(&A) -> bool>(&'r self, f: F) -> (r: Option<&'r A>) {
        let mut j: usize = 0;
        while j < self.len()
            invariant
                0 <= j <= self.len(),
                forall|k: int| 0 <= k < j ==> f.ensures((&self@[k],), false),
            decreases self.len() - j,
        {
            proof {
                assert(f.requires((&self@[j as int],)));
            }
            if f(&self[j]) {
                return Some(&self[j]);
            }
            j += 1;
        }
        None
    }

    #[verifier::loop_isolation(false)]
    fn all<F: Fn(&A) -> bool>(&'r self, f: F) -> (r: bool) {
        let mut j: usize = 0;
        while j < self.len()
            invariant
                0 <= j <= self.len(),
                forall|k: int| 0 <= k < j ==> f.ensures((&self@[k],), true),
            decreases self.len() - j,
        {
            proof {
                assert(f.requires((&self@[j as int],)));
            }
            if !f(&self[j]) {
                return false;
            }
            j += 1;
        }
        true
    }

    #[verifier::loop_isolation(false)]
    fn any<F: Fn(&A) -> bool>(&'r self, f: F) -> (r: bool) {
        let mut j: usize = 0;
        while j < self.len()
            invariant
                0 <= j <= self.len(),
                forall|k: int| 0 <= k < j ==> f.ensures((&self@[k],), false),
            decreases self.len() - j,
        {
            proof {
                assert(f.requires((&self@[j as int],)));
            }
            if f(&self[j]) {
                return true;
            }
            j += 1;
        }
        false
    }

    #[verifier::loop_isolation(false)]
    fn filter<F: Fn(&A) -> bool>(&'r self, f: F) -> (r: <Vec<A> as HKST<'r, A>>::M) {
        let ghost s = self@;
        let mut r: Vec<&'r A> = Vec::new();
        let ghost deref = |x: &A| *x;
        let mut j: usize = 0;
        proof {
            assert(s.take(0) =~= Seq::<A>::empty());
            assert(r@.map_values(deref) =~= Seq::<A>::empty());
        }
        while j < self.len()
            invariant
                0 <= j <= self.len(),
                filters_elems(f, s.take(j as int), r@.map_values(deref)),
            decreases self.len() - j,
        {
            proof {
                assert(f.requires((&self@[j as int],)));
            }
            let ghost r0 = r@.map_values(deref);
            let b = f(&self[j]);
            if b {
                r.push(&self[j]);
                proof {
                    assert(r@.map_values(deref) =~= r0.push(s[j as int]));
                }
            }
            proof {
                lemma_filters_elems_push(f, s.take(j as int), r0, s[j as int], b);
                assert(s.take(j as int).push(s[j as int]) =~= s.take(j + 1));
            }
            j += 1;
        }
        proof {
            assert(s.take(s.len() as int) =~= s);
            assert(<Vec<A> as FoldableA<'r, A>>::kept(&r) == r@.map_values(deref));
        }
        r
    }

    fn is_empty(&'r self) -> (r: bool) {
        self.len() == 0
    }
}

/// Singular fold: the endo-fold operation set specialized to a shape holding
/// at most one element.
pub trait FoldableS<'r, A: 'r>: HKST<'r, A> {
    /// The held element, if any.
    spec fn held(&self) -> Option<A>;

    /// What a filtering kept, if anything.
    spec fn kept(m: &Self::M) -> Option<A>;

    /// Apply `f` to the held element, or return the seed `z` when none is
    /// held.
    fn fold<F: Fn(&A) -> A>(&'r self, z: A, f: F) -> (r: A)
        requires
            self.held() matches Some(a) ==> f.requires((&a,)),
        ensures
            match self.held() {
                None => r == z,
                Some(a) => f.ensures((&a,), r),
            },
    ;

    /// The held element, if `f` admitted `true` on it.
    fn find<F: Fn(&A) -> bool>(&'r self, f: F) -> (r: Option<&'r A>)
        requires
            self.held() matches Some(a) ==> f.requires((&a,)),
        ensures
            match self.held() {
                None => r is None,
                Some(a) => match r {
                    None => f.ensures((&a,), false),
                    Some(x) => *x == a && f.ensures((&a,), true),
                },
            },
    ;

    /// Whether `f` admitted `true` on every held element; vacuously true
    /// when none is held.
    fn all<F: Fn(&A) -> bool>(&'r self, f: F) -> (r: bool)
        requires
            self.held() matches Some(a) ==> f.requires((&a,)),
        ensures
            match self.held() {
                None => r == true,
                Some(a) => f.ensures((&a,), r),
            },
    ;

    /// Whether `f` admitted `true` on some held element; false when none is
    /// held.
    fn any<F: Fn(&A) -> bool>(&'r self, f: F) -> (r: bool)
        requires
            self.held() matches Some(a) ==> f.requires((&a,)),
        ensures
            match self.held() {
                None => r == false,
                Some(a) => f.ensures((&a,), r),
            },
    ;

    /// Keep the held element only if `f` admits `true` on it; the result is
    /// present or absent, never a sequence.
    fn filter<F: Fn(&A) -> bool>(&'r self, f: F) -> (r: Self::M)
        requires
            self.held() matches Some(a) ==> f.requires((&a,)),
        ensures
            match self.held() {
                None => Self::kept(&r) is None,
                Some(a) => exists|b: bool|
                    #[trigger] f.ensures((&a,), b) && Self::kept(&r) == (if b {
                        Some(a)
                    } else {
                        None
                    }),
            },
    ;

    /// Whether no element is held.
    fn is_empty(&'r self) -> (r: bool)
        ensures
            r == (self.held() is None),
    ;

    /// Whether an element is held.
    fn non_empty(&'r self) -> (r: bool)
        ensures
            r == (self.held() is Some),
    {
        !self.is_empty()
    }
}

impl<'r, A: 'r> FoldableS<'r, A> for Option<A> {
    open spec fn held(&self) -> Option<A> {
        *self
    }

    open spec fn kept(m: &Option<&'r A>) -> Option<A> {
        match *m {
            Some(x) => Some(*x),
            None => None,
        }
    }

    fn fold<F: Fn(&A) -> A>(&'r self, z: A, f: F) -> (r: A) {
        match self {
            Some(a) => f(a),
            None => z,
        }
    }

    fn find<F: Fn(&A) -> bool>(&'r self, f: F) -> (r: Option<&'r A>) {
        match self {
            Some(a) => if f(a) {
                Some(a)
            } else {
                None
            },
            None => None,
        }
    }

    fn all<F: Fn(&A) -> bool>(&'r self, f: F) -> (r: bool) {
        match self {
            Some(a) => f(a),
            None => true,
        }
    }

    fn any<F: Fn(&A) -> bool>(&'r self, f: F) -> (r: bool) {
        match self {
            Some(a) => f(a),
            None => false,
        }
    }

    fn filter<F: Fn(&A) -> bool>(&'r self, f: F) -> (r: <Option<A> as HKST<'r, A>>::M) {
        match self {
            Some(a) => if f(a) {
                Some(a)
            } else {
                None
            },
            None => None,
        }
    }

    fn is_empty(&'r self) -> (r: bool) {
        match self {
            Some(_) => false,
            None => true,
        }
    }
}

/// Heterogeneous fold: reduce a shape's elements into an accumulator of a
/// different type.
pub trait FoldableB<B>: HKT<B> {
    /// The elements of this instance, in order.
    spec fn felems(&self) -> Seq<Self::A>;

    /// Fold right to left: the element at the highest index combines with
    /// the seed first, and each earlier element with the result so far.
    fn fold_right<F: Fn(&Self::A, B) -> B>(&self, z: B, f: F) -> (r: B)
        requires
            fold_right_callable(f, self.felems(), z),
        ensures
            folds_right(f, self.felems(), z, r),
    ;

    /// Fold left to right out of the seed.
    fn fold_left<F: Fn(B, &Self::A) -> B>(&self, z: B, f: F) -> (r: B)
        requires
            fold_left_callable(f, self.felems(), z),
        ensures
            folds_left(f, self.felems(), z, r),
    ;

    /// Map every element into a monoid and combine the images left to right
    /// out of the identity.
    fn fold_map<F: Fn(&Self::A) -> B>(&self, f: F) -> (r: B) where B: Monoid
        requires
            all_callable(f, self.felems()),
        ensures
            exists|bs: Seq<B>|
                maps_elems(f, self.felems(), bs) && r.deep_view() == combined_all::<B>(
                    deep_views(bs),
                ),
    ;
}

impl<A, B> FoldableB<B> for Vec<A> {
    open spec fn felems(&self) -> Seq<A> {
        self@
    }

    #[verifier::loop_isolation(false)]
    fn fold_right<F: Fn(&A, B) -> B>(&self, z: B, f: F) -> (r: B) {
        let ghost s = self@;
        let mut acc = z;
        let ghost z0 = z;
        let mut j: usize = self.len();
        proof {
            assert(s.skip(s.len() as int) =~= Seq::<A>::empty());
            lemma_fold_right_callable_skip(f, s, z0, 0);
        }
        while j > 0
            invariant
                0 <= j <= self.len(),
                folds_right(f, s.skip(j as int), z0, acc),
            decreases j,
        {
            proof {
                lemma_fold_right_callable_skip(f, s, z0, j - 1);
                assert(s.skip(j - 1).drop_first() =~= s.skip(j as int));
                assert(s.skip(j - 1)[0] == s[j - 1]);
            }
            acc = f(&self[j - 1], acc);
            j -= 1;
        }
        proof {
            assert(s.skip(0) =~= s);
        }
        acc
    }

    #[verifier::loop_isolation(false)]
    fn fold_left<F: Fn(B, &A) -> B>(&self, z: B, f: F) -> (r: B) {
        let ghost s = self@;
        let mut acc = z;
        let ghost z0 = z;
        let mut j: usize = 0;
        proof {
            assert(s.take(0) =~= Seq::<A>::empty());
            assert(s.skip(0) =~= s);
            assert(s == <Vec<A> as FoldableB<B>>::felems(self));
            assert(fold_left_callable(f, s.skip(0), z0));
        }
        while j < self.len()
            invariant
                0 <= j <= self.len(),
                folds_left(f, s.take(j as int), z0, acc),
                fold_left_callable(f, s.skip(j as int), acc),
            decreases self.len() - j,
        {
            proof {
                assert(s.skip(j as int)[0] == s[j as int]);
                assert(f.requires((acc, &s[j as int])));
            }
            let ghost acc0 = acc;
            acc = f(acc, &self[j]);
            proof {
                assert(s.skip(j as int).drop_first() =~= s.skip(j + 1));
                lemma_folds_left_push(f, s.take(j as int), s[j as int], z0, acc0, acc);
                assert(s.take(j as int).push(s[j as int]) =~= s.take(j + 1));
            }
            j += 1;
        }
        proof {
            assert(s.take(s.len() as int) =~= s);
        }
        acc
    }

    fn fold_map<F: Fn(&A) -> B>(&self, f: F) -> (r: B) where B: Monoid {
        let mut acc = B::mempty();
        let ghost bs = Seq::<B>::empty();
        let mut j: usize = 0;
        proof {
            assert(deep_views(bs) =~= Seq::<B::V>::empty());
        }
        while j < self.len()
            invariant
                all_callable(f, self@),
                0 <= j <= self.len(),
                bs.len() == j,
                forall|i: int| 0 <= i < j ==> f.ensures((&self@[i],), #[trigger] bs[i]),
                acc.deep_view() == combined_all::<B>(deep_views(bs)),
            decreases self.len() - j,
        {
            proof {
                assert(f.requires((&self@[j as int],)));
            }
            let b = f(&self[j]);
            acc = acc.mappend(&b);
            proof {
                let old_views = deep_views(bs);
                lemma_combined_from_snoc::<B>(B::empty(), old_views, b.deep_view());
                bs = bs.push(b);
                assert(deep_views(bs) =~= old_views.push(b.deep_view()));
            }
            j += 1;
        }
        proof {
            assert(maps_elems(f, <Vec<A> as FoldableB<B>>::felems(self), bs));
        }
        acc
    }
}

/// Appending one more view to a left-to-right combination combines it at the
/// right end.
pub proof fn lemma_combined_from_snoc<A: Semigroup>(v: A::V, vs: Seq<A::V>, x: A::V)
    ensures
        combined_from::<A>(v, vs.push(x)) == A::combined(combined_from::<A>(v, vs), x),
    decreases vs.len(),
{
    if vs.len() == 0 {
        assert(vs.push(x).drop_first() =~= Seq::<A::V>::empty());
        assert(vs.push(x)[0] == x);
        assert(combined_from::<A>(v, vs.push(x)) == combined_from::<A>(
            A::combined(v, x),
            Seq::<A::V>::empty(),
        ));
    } else {
        assert(vs.push(x).drop_first() =~= vs.drop_first().push(x));
        assert(vs.push(x)[0] == vs[0]);
        lemma_combined_from_snoc::<A>(A::combined(v, vs[0]), vs.drop_first(), x);
    }
}

/// `f` may be called on every suffix fold path once it may be called on the
/// whole sequence's fold paths.
pub proof fn lemma_fold_right_callable_skip<A, B, F: Fn(&A, B) -> B>(
    f: F,
    s: Seq<A>,
    z: B,
    k: int,
)
    requires
        fold_right_callable(f, s, z),
        0 <= k <= s.len(),
    ensures
        fold_right_callable(f, s.skip(k), z),
    decreases k,
{
    if k == 0 {
        assert(s.skip(0) =~= s);
    } else {
        assert(s.drop_first() =~= s.skip(1));
        if s.len() > 0 {
            lemma_fold_right_callable_skip(f, s.skip(1), z, k - 1);
            assert(s.skip(1).skip(k - 1) =~= s.skip(k));
        }
    }
}

} // verus!
