//! The rounding arithmetic that the indicators are computed with.
//!
//! The library decides what is added to what and in which order; the sums,
//! products, quotients and roots themselves come from an [`Arith`]. Nothing
//! is assumed of it. What holds of every outcome (which positions are NaN,
//! which values are finite, which failure is reported) is stated outright;
//! what the values are is stated for an arithmetic that is a function of its
//! arguments, which [`exact`] says.
use crate::float::Float;
use vstd::prelude::*;

verus! {

/// Arithmetic on binary64 values.
pub trait Arith {
    /// `x + y`.
    fn add(&self, x: Float, y: Float) -> Float;

    /// `x - y`.
    fn sub(&self, x: Float, y: Float) -> Float;

    /// `x * y`.
    fn mul(&self, x: Float, y: Float) -> Float;

    /// `x / y`.
    fn div(&self, x: Float, y: Float) -> Float;

    /// The square root of `x`.
    fn sqrt(&self, x: Float) -> Float;

    /// The value nearest to the count `n`.
    fn count(&self, n: usize) -> Float;
}

/// A sum that `ar` gives for `x + y`.
pub open spec fn plus<A: Arith>(ar: &A, x: Float, y: Float) -> Float {
    choose|r: Float| call_ensures(A::add, (ar, x, y), r)
}

/// A difference that `ar` gives for `x - y`.
pub open spec fn minus<A: Arith>(ar: &A, x: Float, y: Float) -> Float {
    choose|r: Float| call_ensures(A::sub, (ar, x, y), r)
}

/// A product that `ar` gives for `x * y`.
pub open spec fn times<A: Arith>(ar: &A, x: Float, y: Float) -> Float {
    choose|r: Float| call_ensures(A::mul, (ar, x, y), r)
}

/// A quotient that `ar` gives for `x / y`.
pub open spec fn over<A: Arith>(ar: &A, x: Float, y: Float) -> Float {
    choose|r: Float| call_ensures(A::div, (ar, x, y), r)
}

/// A square root that `ar` gives for `x`.
pub open spec fn root<A: Arith>(ar: &A, x: Float) -> Float {
    choose|r: Float| call_ensures(A::sqrt, (ar, x), r)
}

/// A value that `ar` gives for the count `n`.
pub open spec fn counted<A: Arith>(ar: &A, n: usize) -> Float {
    choose|r: Float| call_ensures(A::count, (ar, n), r)
}

/// Every operation of `ar` is a function of its arguments: whatever it can
/// return for given arguments is the one value that [`plus`], [`minus`],
/// [`times`], [`over`], [`root`] and [`counted`] name.
pub open spec fn exact<A: Arith>(ar: &A) -> bool {
    &&& forall|x: Float, y: Float, r: Float| #[trigger]
        call_ensures(A::add, (ar, x, y), r) ==> r == plus(ar, x, y)
    &&& forall|x: Float, y: Float, r: Float| #[trigger]
        call_ensures(A::sub, (ar, x, y), r) ==> r == minus(ar, x, y)
    &&& forall|x: Float, y: Float, r: Float| #[trigger]
        call_ensures(A::mul, (ar, x, y), r) ==> r == times(ar, x, y)
    &&& forall|x: Float, y: Float, r: Float| #[trigger]
        call_ensures(A::div, (ar, x, y), r) ==> r == over(ar, x, y)
    &&& forall|x: Float, r: Float| #[trigger]
        call_ensures(A::sqrt, (ar, x), r) ==> r == root(ar, x)
    &&& forall|n: usize, r: Float| #[trigger]
        call_ensures(A::count, (ar, n), r) ==> r == counted(ar, n)
}

} // verus!
