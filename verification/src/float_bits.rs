//! IEEE-754 binary64 comparison on raw bit patterns.
//!
//! Parameter values travel through this library as the `u64` bit pattern that
//! `f64::to_bits` gives, so that every decision about them is made on integers.
//! The one float operation the parameter logic needs, `==` on `f64`, is defined
//! here on those bit patterns.
use vstd::prelude::*;

verus! {

/// The 11-bit biased exponent field of a binary64 bit pattern.
pub open spec fn exponent_field(bits: u64) -> int {
    (bits as int / 0x10_0000_0000_0000) % 0x800
}

/// The 52-bit fraction field of a binary64 bit pattern.
pub open spec fn fraction_field(bits: u64) -> int {
    bits as int % 0x10_0000_0000_0000
}

/// The pattern encodes a NaN: all exponent bits set and a nonzero fraction.
pub open spec fn is_nan_bits(bits: u64) -> bool {
    exponent_field(bits) == 0x7ff && fraction_field(bits) != 0
}

/// The pattern encodes `+0.0` or `-0.0`: every bit but the sign bit is clear.
pub open spec fn is_zero_bits(bits: u64) -> bool {
    bits as int % 0x8000_0000_0000_0000 == 0
}

/// What `a == b` gives for the two `f64` values with these bit patterns:
/// a NaN equals nothing, the two zeros are equal, and otherwise two values are
/// equal exactly when their patterns are.
pub open spec fn f64_bits_eq(a: u64, b: u64) -> bool {
    &&& !is_nan_bits(a)
    &&& !is_nan_bits(b)
    &&& (a == b || (is_zero_bits(a) && is_zero_bits(b)))
}

/// Tests whether a bit pattern encodes a NaN.
pub fn bits_are_nan(bits: u64) -> (r: bool)
    ensures
        r == is_nan_bits(bits),
{
    let exponent_all_set = bits & 0x7ff0_0000_0000_0000u64 == 0x7ff0_0000_0000_0000u64;
    let fraction_nonzero = bits & 0x000f_ffff_ffff_ffffu64 != 0;
    assert((bits & 0x7ff0_0000_0000_0000u64 == 0x7ff0_0000_0000_0000u64) == ((bits
        / 0x10_0000_0000_0000u64) % 0x800u64 == 0x7ffu64)) by (bit_vector);
    assert((bits & 0x000f_ffff_ffff_ffffu64 != 0) == (bits % 0x10_0000_0000_0000u64 != 0u64))
        by (bit_vector);
    exponent_all_set && fraction_nonzero
}

/// Tests whether a bit pattern encodes one of the two zeros.
pub fn bits_are_zero(bits: u64) -> (r: bool)
    ensures
        r == is_zero_bits(bits),
{
    let magnitude_clear = bits & 0x7fff_ffff_ffff_ffffu64 == 0;
    assert((bits & 0x7fff_ffff_ffff_ffffu64 == 0) == (bits % 0x8000_0000_0000_0000u64 == 0u64))
        by (bit_vector);
    magnitude_clear
}

/// `f64` equality computed on bit patterns: the result is that of `a == b` on
/// `f64::from_bits(a)` and `f64::from_bits(b)`.
pub fn f64_bits_equal(a: u64, b: u64) -> (r: bool)
    ensures
        r == f64_bits_eq(a, b),
{
    if bits_are_nan(a) || bits_are_nan(b) {
        false
    } else if a == b {
        true
    } else {
        bits_are_zero(a) && bits_are_zero(b)
    }
}

} // verus!
