//! Bit-level facts about single-precision values.
//!
//! A non-negative value that is no NaN is ordered among its like exactly as
//! its bit pattern is among unsigned integers, and flipping the top bit of a
//! pattern negates the value. These two facts let the library compare a draw
//! with a probability, and give a perturbation its sign, on integers alone.

use vstd::prelude::*;

verus! {

/// The bit pattern of `+0.0`.
pub const ZERO: u32 = 0;

/// The bit pattern of `1.0`.
pub const ONE: u32 = 0x3f80_0000;

/// The bit pattern of positive infinity: every pattern above it, the sign
/// bit clear, is that of a NaN.
pub const INFINITY: u32 = 0x7f80_0000;

/// The bit that holds the sign.
pub const SIGN: u32 = 0x8000_0000;

/// Every bit but the sign.
pub const MAGNITUDE: u32 = 0x7fff_ffff;

/// The pattern is that of a value in `[0, 1)`.
pub open spec fn is_unit(bits: u32) -> bool {
    bits < ONE
}

/// The pattern is that of a value in `[0, 1]`, negative zero left out.
pub open spec fn is_probability(bits: u32) -> bool {
    bits <= ONE
}

/// The pattern of `bits` with its sign cleared.
pub open spec fn magnitude(bits: u32) -> u32 {
    bits & MAGNITUDE
}

/// The pattern is that of a value in `[-1, 1]`.
pub open spec fn is_symmetric(bits: u32) -> bool {
    magnitude(bits) <= ONE
}

/// The pattern is that of a value above zero, infinity included.
pub open spec fn is_positive(bits: u32) -> bool {
    ZERO < bits <= INFINITY
}

/// The pattern is that of positive zero or of a value above zero: of no
/// negative value and of no NaN.
pub open spec fn is_not_negative(bits: u32) -> bool {
    bits <= INFINITY
}

/// The larger of zero and the value: the value itself where it is above
/// zero, and positive zero for every other pattern, that of a NaN included.
pub open spec fn rectified(bits: u32) -> u32 {
    if is_positive(bits) {
        bits
    } else {
        ZERO
    }
}

/// The pattern of the negated value.
pub open spec fn negated(bits: u32) -> u32 {
    bits ^ SIGN
}

/// Negates a value by flipping its sign bit.
pub fn negate(bits: u32) -> (flipped: u32)
    ensures
        flipped == negated(bits),
{
    bits ^ SIGN
}

/// The larger of zero and the value.
pub fn rectify(bits: u32) -> (floored: u32)
    ensures
        floored == rectified(bits),
        is_not_negative(floored),
{
    if ZERO < bits && bits <= INFINITY {
        bits
    } else {
        ZERO
    }
}

/// Whether the pattern is that of a value in `[0, 1)`.
pub fn check_unit(bits: u32) -> (yes: bool)
    ensures
        yes == is_unit(bits),
{
    bits < ONE
}

/// Whether the pattern is that of a value in `[0, 1]`.
pub fn check_probability(bits: u32) -> (yes: bool)
    ensures
        yes == is_probability(bits),
{
    bits <= ONE
}

/// Whether the pattern is that of a value in `[-1, 1]`.
pub fn check_symmetric(bits: u32) -> (yes: bool)
    ensures
        yes == is_symmetric(bits),
{
    (bits & MAGNITUDE) <= ONE
}

} // verus!
