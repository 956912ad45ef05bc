//! Element types: what a buffer may hold and how gradients accumulate.

use vstd::prelude::*;

verus! {

/// An element type with an additive identity and an addition.
///
/// Addition need not be associative or commutative: the contracts of this
/// crate fix the order in which terms are accumulated. The identity law is
/// what makes a gradient that is accumulated into a fresh buffer equal to
/// the gradient that was routed there.
pub trait Dtype: Copy {
    /// The additive identity.
    spec fn spec_zero() -> Self;

    /// The sum of two elements.
    spec fn spec_plus(self, rhs: Self) -> Self;

    /// Adding to the identity gives the term added.
    proof fn lemma_zero_plus(x: Self)
        ensures
            Self::spec_zero().spec_plus(x) == x,
    ;

    /// The additive identity.
    fn zero() -> (r: Self)
        ensures
            r == Self::spec_zero(),
    ;

    /// The sum of two elements.
    fn plus(self, rhs: Self) -> (r: Self)
        ensures
            r == self.spec_plus(rhs),
    ;
}

impl Dtype for usize {
    open spec fn spec_zero() -> Self {
        0usize
    }

    open spec fn spec_plus(self, rhs: Self) -> Self {
        self.wrapping_add(rhs)
    }

    proof fn lemma_zero_plus(x: Self) {
    }

    fn zero() -> (r: Self) {
        0usize
    }

    fn plus(self, rhs: Self) -> (r: Self) {
        self.wrapping_add(rhs)
    }
}

impl Dtype for u32 {
    open spec fn spec_zero() -> Self {
        0u32
    }

    open spec fn spec_plus(self, rhs: Self) -> Self {
        self.wrapping_add(rhs)
    }

    proof fn lemma_zero_plus(x: Self) {
    }

    fn zero() -> (r: Self) {
        0u32
    }

    fn plus(self, rhs: Self) -> (r: Self) {
        self.wrapping_add(rhs)
    }
}

impl Dtype for u64 {
    open spec fn spec_zero() -> Self {
        0u64
    }

    open spec fn spec_plus(self, rhs: Self) -> Self {
        self.wrapping_add(rhs)
    }

    proof fn lemma_zero_plus(x: Self) {
    }

    fn zero() -> (r: Self) {
        0u64
    }

    fn plus(self, rhs: Self) -> (r: Self) {
        self.wrapping_add(rhs)
    }
}

impl Dtype for i32 {
    open spec fn spec_zero() -> Self {
        0i32
    }

    open spec fn spec_plus(self, rhs: Self) -> Self {
        self.wrapping_add(rhs)
    }

    proof fn lemma_zero_plus(x: Self) {
    }

    fn zero() -> (r: Self) {
        0i32
    }

    fn plus(self, rhs: Self) -> (r: Self) {
        self.wrapping_add(rhs)
    }
}

impl Dtype for i64 {
    open spec fn spec_zero() -> Self {
        0i64
    }

    open spec fn spec_plus(self, rhs: Self) -> Self {
        self.wrapping_add(rhs)
    }

    proof fn lemma_zero_plus(x: Self) {
    }

    fn zero() -> (r: Self) {
        0i64
    }

    fn plus(self, rhs: Self) -> (r: Self) {
        self.wrapping_add(rhs)
    }
}

/// A buffer of `len` additive identities.
pub open spec fn zeros<E: Dtype>(len: nat) -> Seq<E> {
    Seq::new(len, |i: int| E::spec_zero())
}

/// A copy of the elements of a slice.
pub fn copy_of<E: Copy>(src: &[E]) -> (r: Vec<E>)
    ensures
        r@ == src@,
{
    let n = src.len();
    let mut out: Vec<E> = Vec::new();
    let mut i: usize = 0;
    while i < n
        invariant
            n == src@.len(),
            i <= n,
            out@ == src@.subrange(0, i as int),
        decreases n - i,
    {
        out.push(src[i]);
        i += 1;
    }
    out
}

/// A fresh buffer of `len` additive identities.
pub fn zeroed<E: Dtype>(len: usize) -> (r: Vec<E>)
    ensures
        r@ == zeros::<E>(len as nat),
{
    let mut out: Vec<E> = Vec::new();
    let mut i: usize = 0;
    while i < len
        invariant
            i <= len,
            out@.len() == i,
            forall|j: int| 0 <= j < i ==> out@[j] == E::spec_zero(),
        decreases len - i,
    {
        out.push(E::zero());
        i += 1;
    }
    out
}

} // verus!
