//! [`Semigroup`] implementations: wrapping addition for the fixed-width
//! integers, concatenation for owned text, and the lifted combinations for
//! `Option` (absent acts as identity) and `Box`.
//!
//! Integer combination wraps around on overflow, so it is total and
//! associative on the whole type. Text combination returns a freshly owned
//! `String` rather than a leaked borrow.
use crate::Semigroup;
use vstd::prelude::*;
use vstd::string::StringExecFns;

verus! {

impl Semigroup for i8 {
    open spec fn combined(a: i8, b: i8) -> i8 {
        vstd::wrapping::i8_specs::wrapping_add(a, b)
    }

    fn mappend(&self, other: &Self) -> (r: i8) {
        self.wrapping_add(*other)
    }

    fn duplicate(&self) -> (r: i8) {
        *self
    }

    proof fn lemma_mappend_associative(x: i8, y: i8, z: i8) {
    }
}

impl Semigroup for i16 {
    open spec fn combined(a: i16, b: i16) -> i16 {
        vstd::wrapping::i16_specs::wrapping_add(a, b)
    }

    fn mappend(&self, other: &Self) -> (r: i16) {
        self.wrapping_add(*other)
    }

    fn duplicate(&self) -> (r: i16) {
        *self
    }

    proof fn lemma_mappend_associative(x: i16, y: i16, z: i16) {
    }
}

impl Semigroup for i32 {
    open spec fn combined(a: i32, b: i32) -> i32 {
        vstd::wrapping::i32_specs::wrapping_add(a, b)
    }

    fn mappend(&self, other: &Self) -> (r: i32) {
        self.wrapping_add(*other)
    }

    fn duplicate(&self) -> (r: i32) {
        *self
    }

    proof fn lemma_mappend_associative(x: i32, y: i32, z: i32) {
    }
}

impl Semigroup for i64 {
    open spec fn combined(a: i64, b: i64) -> i64 {
        vstd::wrapping::i64_specs::wrapping_add(a, b)
    }

    fn mappend(&self, other: &Self) -> (r: i64) {
        self.wrapping_add(*other)
    }

    fn duplicate(&self) -> (r: i64) {
        *self
    }

    proof fn lemma_mappend_associative(x: i64, y: i64, z: i64) {
    }
}

impl Semigroup for u8 {
    open spec fn combined(a: u8, b: u8) -> u8 {
        vstd::wrapping::u8_specs::wrapping_add(a, b)
    }

    fn mappend(&self, other: &Self) -> (r: u8) {
        self.wrapping_add(*other)
    }

    fn duplicate(&self) -> (r: u8) {
        *self
    }

    proof fn lemma_mappend_associative(x: u8, y: u8, z: u8) {
    }
}

impl Semigroup for u16 {
    open spec fn combined(a: u16, b: u16) -> u16 {
        vstd::wrapping::u16_specs::wrapping_add(a, b)
    }

    fn mappend(&self, other: &Self) -> (r: u16) {
        self.wrapping_add(*other)
    }

    fn duplicate(&self) -> (r: u16) {
        *self
    }

    proof fn lemma_mappend_associative(x: u16, y: u16, z: u16) {
    }
}

impl Semigroup for u32 {
    open spec fn combined(a: u32, b: u32) -> u32 {
        vstd::wrapping::u32_specs::wrapping_add(a, b)
    }

    fn mappend(&self, other: &Self) -> (r: u32) {
        self.wrapping_add(*other)
    }

    fn duplicate(&self) -> (r: u32) {
        *self
    }

    proof fn lemma_mappend_associative(x: u32, y: u32, z: u32) {
    }
}

impl Semigroup for u64 {
    open spec fn combined(a: u64, b: u64) -> u64 {
        vstd::wrapping::u64_specs::wrapping_add(a, b)
    }

    fn mappend(&self, other: &Self) -> (r: u64) {
        self.wrapping_add(*other)
    }

    fn duplicate(&self) -> (r: u64) {
        *self
    }

    proof fn lemma_mappend_associative(x: u64, y: u64, z: u64) {
    }
}

impl Semigroup for String {
    open spec fn combined(a: Seq<char>, b: Seq<char>) -> Seq<char> {
        a + b
    }

    fn mappend(&self, other: &Self) -> (r: String) {
        let mut r = self.clone();
        r.append(other.as_str());
        r
    }

    fn duplicate(&self) -> (r: String) {
        self.clone()
    }

    proof fn lemma_mappend_associative(x: Seq<char>, y: Seq<char>, z: Seq<char>) {
        assert((x + y) + z =~= x + (y + z));
    }
}

impl<A: Semigroup> Semigroup for Option<A> {
    open spec fn combined(a: Option<A::V>, b: Option<A::V>) -> Option<A::V> {
        match (a, b) {
            (None, vb) => vb,
            (va, None) => va,
            (Some(va), Some(vb)) => Some(A::combined(va, vb)),
        }
    }

    fn mappend(&self, other: &Self) -> (r: Option<A>) {
        match (self, other) {
            (None, b) => b.duplicate(),
            (a, None) => a.duplicate(),
            (Some(a), Some(b)) => Some(a.mappend(b)),
        }
    }

    fn duplicate(&self) -> (r: Option<A>) {
        match self {
            Some(a) => Some(a.duplicate()),
            None => None,
        }
    }

    proof fn lemma_mappend_associative(x: Option<A::V>, y: Option<A::V>, z: Option<A::V>) {
        match (x, y, z) {
            (Some(a), Some(b), Some(c)) => A::lemma_mappend_associative(a, b, c),
            _ => {},
        }
    }
}

impl<A: Semigroup> Semigroup for Box<A> {
    open spec fn combined(a: A::V, b: A::V) -> A::V {
        A::combined(a, b)
    }

    fn mappend(&self, other: &Self) -> (r: Box<A>) {
        Box::new((**self).mappend(&**other))
    }

    fn duplicate(&self) -> (r: Box<A>) {
        Box::new((**self).duplicate())
    }

    proof fn lemma_mappend_associative(x: A::V, y: A::V, z: A::V) {
        A::lemma_mappend_associative(x, y, z);
    }
}

} // verus!
