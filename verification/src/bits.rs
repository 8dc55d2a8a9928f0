//! Predicates on IEEE-754 double-precision bit patterns.
//!
//! The library carries every real-valued quantity as the 64-bit pattern of
//! its IEEE-754 double-precision encoding, so that all reasoning stays on
//! plain integers.  A pattern is split as 1 sign bit, 11 exponent bits and
//! 52 fraction bits; a value is NaN exactly when the exponent bits are all
//! ones and the fraction is non-zero, and infinite exactly when the
//! exponent bits are all ones and the fraction is zero.

use vstd::prelude::*;

verus! {

/// Bit pattern of positive infinity: exponent all ones, fraction zero.
pub const INF_BITS: u64 = 0x7ff0_0000_0000_0000;

/// Bit pattern of the sign bit.
pub const SIGN_BIT: u64 = 0x8000_0000_0000_0000;

/// The given pattern with its sign bit cleared.
pub open spec fn abs_bits(b: u64) -> u64 {
    if b >= SIGN_BIT {
        (b - SIGN_BIT) as u64
    } else {
        b
    }
}

/// The pattern encodes a finite value: zero, subnormal or normal, but
/// neither an infinity nor NaN.
pub open spec fn is_finite_bits(b: u64) -> bool {
    abs_bits(b) < INF_BITS
}

/// The pattern encodes a strictly positive, finite value: sign bit clear,
/// magnitude non-zero, exponent not all ones.
pub open spec fn is_pos_finite_bits(b: u64) -> bool {
    0 < b < INF_BITS
}

/// Whether the pattern encodes a finite value.
pub fn check_finite_bits(b: u64) -> (r: bool)
    ensures
        r == is_finite_bits(b),
{
    let a: u64 = if b >= SIGN_BIT {
        b - SIGN_BIT
    } else {
        b
    };
    a < INF_BITS
}

/// Whether the pattern encodes a strictly positive, finite value.
pub fn check_pos_finite_bits(b: u64) -> (r: bool)
    ensures
        r == is_pos_finite_bits(b),
{
    0 < b && b < INF_BITS
}

} // verus!
