//! The single-precision arithmetic that the caller supplies.

use vstd::prelude::*;

verus! {

/// Sums and products of single-precision values, each value given and
/// returned as its bit pattern.
///
/// The library promises nothing of what an implementation computes. Its
/// contracts say which results of which operations a value is: see
/// [`is_sum`] and [`is_product`].
pub trait Arithmetic {
    /// `a + b`.
    fn sum(&self, a: u32, b: u32) -> u32;

    /// `a * b`.
    fn product(&self, a: u32, b: u32) -> u32;
}

/// `total` is what `arithmetic` gave, or can give, for `a + b`.
pub open spec fn is_sum<A: Arithmetic>(arithmetic: &A, a: u32, b: u32, total: u32) -> bool {
    call_ensures(A::sum, (arithmetic, a, b), total)
}

/// `scaled` is what `arithmetic` gave, or can give, for `a * b`.
pub open spec fn is_product<A: Arithmetic>(arithmetic: &A, a: u32, b: u32, scaled: u32) -> bool {
    call_ensures(A::product, (arithmetic, a, b), scaled)
}

} // verus!
