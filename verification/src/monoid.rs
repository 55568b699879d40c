//! [`Monoid`] implementations: zero for the fixed-width integers, the empty
//! text value, the absent case for `Option`, and the boxed inner identity for
//! `Box`.
use crate::Monoid;
use crate::Semigroup;
use vstd::prelude::*;

verus! {

impl Monoid for i8 {
    open spec fn empty() -> i8 {
        0
    }

    fn mempty() -> (r: i8) {
        0
    }

    proof fn lemma_mempty_identity(x: i8) {
    }
}

impl Monoid for i16 {
    open spec fn empty() -> i16 {
        0
    }

    fn mempty() -> (r: i16) {
        0
    }

    proof fn lemma_mempty_identity(x: i16) {
    }
}

impl Monoid for i32 {
    open spec fn empty() -> i32 {
        0
    }

    fn mempty() -> (r: i32) {
        0
    }

    proof fn lemma_mempty_identity(x: i32) {
    }
}

impl Monoid for i64 {
    open spec fn empty() -> i64 {
        0
    }

    fn mempty() -> (r: i64) {
        0
    }

    proof fn lemma_mempty_identity(x: i64) {
    }
}

impl Monoid for u8 {
    open spec fn empty() -> u8 {
        0
    }

    fn mempty() -> (r: u8) {
        0
    }

    proof fn lemma_mempty_identity(x: u8) {
    }
}

impl Monoid for u16 {
    open spec fn empty() -> u16 {
        0
    }

    fn mempty() -> (r: u16) {
        0
    }

    proof fn lemma_mempty_identity(x: u16) {
    }
}

impl Monoid for u32 {
    open spec fn empty() -> u32 {
        0
    }

    fn mempty() -> (r: u32) {
        0
    }

    proof fn lemma_mempty_identity(x: u32) {
    }
}

impl Monoid for u64 {
    open spec fn empty() -> u64 {
        0
    }

    fn mempty() -> (r: u64) {
        0
    }

    proof fn lemma_mempty_identity(x: u64) {
    }
}

impl Monoid for String {
    open spec fn empty() -> Seq<char> {
        Seq::empty()
    }

    fn mempty() -> (r: String) {
        String::new()
    }

    proof fn lemma_mempty_identity(x: Seq<char>) {
        assert(Seq::<char>::empty() + x =~= x);
        assert(x + Seq::<char>::empty() =~= x);
    }
}

impl<A: Monoid> Monoid for Option<A> {
    open spec fn empty() -> Option<A::V> {
        None
    }

    fn mempty() -> (r: Option<A>) {
        None
    }

    proof fn lemma_mempty_identity(x: Option<A::V>) {
    }
}

impl<A: Monoid> Monoid for Box<A> {
    open spec fn empty() -> A::V {
        A::empty()
    }

    fn mempty() -> (r: Box<A>) {
        Box::new(A::mempty())
    }

    proof fn lemma_mempty_identity(x: A::V) {
        A::lemma_mempty_identity(x);
    }
}

} // verus!
