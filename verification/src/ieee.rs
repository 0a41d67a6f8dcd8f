//! IEEE-754 binary32 bit patterns: their fields, their classes and their total order.
//!
//! A buffer entry is handled as the 32-bit pattern of a single-precision value.
//! Everything here is integer arithmetic on that pattern.

use vstd::prelude::*;

verus! {

/// The pattern of positive infinity.
pub const POSITIVE_INFINITY: u32 = 0x7f80_0000;

/// The pattern of negative infinity.
pub const NEGATIVE_INFINITY: u32 = 0xff80_0000;

/// The class an entry falls in. The three are mutually exclusive and cover every pattern.
#[derive(Clone, Copy, Debug, PartialEq, Eq, Structural)]
pub enum Class {
    /// Not a number: exponent all ones, fraction not zero.
    Nan,
    /// Positive or negative infinity: exponent all ones, fraction zero.
    Infinite,
    /// Zero, subnormal or normal.
    Finite,
}

/// Whether the sign bit is set.
pub open spec fn spec_is_negative(bits: u32) -> bool {
    bits >= 0x8000_0000
}

/// The eight exponent bits, as a number below 256.
pub open spec fn exponent_field(bits: u32) -> nat {
    ((bits as nat) / 0x80_0000) % 0x100
}

/// The twenty-three fraction bits, as a number below 2^23.
pub open spec fn fraction_field(bits: u32) -> nat {
    (bits as nat) % 0x80_0000
}

/// The pattern without its sign bit.
pub open spec fn magnitude(bits: u32) -> nat {
    (bits as nat) % 0x8000_0000
}

/// Not a number.
pub open spec fn spec_is_nan(bits: u32) -> bool {
    exponent_field(bits) == 0xff && fraction_field(bits) != 0
}

/// Positive or negative infinity.
pub open spec fn spec_is_infinite(bits: u32) -> bool {
    exponent_field(bits) == 0xff && fraction_field(bits) == 0
}

/// Neither not-a-number nor infinite.
pub open spec fn spec_is_finite(bits: u32) -> bool {
    exponent_field(bits) < 0xff
}

/// The class of a pattern. Not-a-number is tested first, then infinity.
pub open spec fn class_of(bits: u32) -> Class {
    if spec_is_nan(bits) {
        Class::Nan
    } else if spec_is_infinite(bits) {
        Class::Infinite
    } else {
        Class::Finite
    }
}

/// The place of a pattern in the IEEE-754 total order: negative patterns come
/// first, the larger magnitude lower; then the non-negative ones by magnitude.
/// Negative zero is -1 and positive zero is 0, so no two patterns share a key.
pub open spec fn spec_order_key(bits: u32) -> int {
    if spec_is_negative(bits) {
        -(magnitude(bits) as int) - 1
    } else {
        magnitude(bits) as int
    }
}

/// The one of two patterns that comes first in the total order; the first on a tie.
pub open spec fn spec_lower(a: u32, b: u32) -> u32 {
    if spec_order_key(b) < spec_order_key(a) {
        b
    } else {
        a
    }
}

/// The one of two patterns that comes last in the total order; the first on a tie.
pub open spec fn spec_upper(a: u32, b: u32) -> u32 {
    if spec_order_key(a) < spec_order_key(b) {
        b
    } else {
        a
    }
}

/// The classes read off the magnitude: below the pattern of infinity a value
/// is finite, at it infinite, above it not a number.
pub proof fn lemma_class_by_magnitude(bits: u32)
    ensures
        spec_is_finite(bits) <==> magnitude(bits) < 0x7f80_0000,
        spec_is_infinite(bits) <==> magnitude(bits) == 0x7f80_0000,
        spec_is_nan(bits) <==> magnitude(bits) > 0x7f80_0000,
        magnitude(bits) == exponent_field(bits) * 0x80_0000 + fraction_field(bits),
{
}

/// No two patterns have the same place in the total order.
pub proof fn lemma_order_key_injective(a: u32, b: u32)
    ensures
        spec_order_key(a) == spec_order_key(b) ==> a == b,
{
}

/// Clearing the sign bit with a mask leaves the magnitude.
pub proof fn lemma_mask_is_magnitude(bits: u32)
    ensures
        (bits & 0x7fff_ffff) == magnitude(bits),
{
    assert((bits & 0x7fff_ffff) == bits % 0x8000_0000) by (bit_vector);
}

/// Whether the sign bit is set.
#[verifier::when_used_as_spec(spec_is_negative)]
pub fn is_negative(bits: u32) -> (r: bool)
    ensures
        r == spec_is_negative(bits),
{
    bits >= 0x8000_0000
}

/// Whether the pattern is a not-a-number.
#[verifier::when_used_as_spec(spec_is_nan)]
pub fn is_nan(bits: u32) -> (r: bool)
    ensures
        r == spec_is_nan(bits),
{
    proof {
        lemma_mask_is_magnitude(bits);
        lemma_class_by_magnitude(bits);
    }
    (bits & 0x7fff_ffff) > POSITIVE_INFINITY
}

/// Whether the pattern is positive or negative infinity.
#[verifier::when_used_as_spec(spec_is_infinite)]
pub fn is_infinite(bits: u32) -> (r: bool)
    ensures
        r == spec_is_infinite(bits),
{
    proof {
        lemma_mask_is_magnitude(bits);
        lemma_class_by_magnitude(bits);
    }
    (bits & 0x7fff_ffff) == POSITIVE_INFINITY
}

/// Whether the pattern is zero, subnormal or normal.
#[verifier::when_used_as_spec(spec_is_finite)]
pub fn is_finite(bits: u32) -> (r: bool)
    ensures
        r == spec_is_finite(bits),
{
    proof {
        lemma_mask_is_magnitude(bits);
        lemma_class_by_magnitude(bits);
    }
    (bits & 0x7fff_ffff) < POSITIVE_INFINITY
}

/// Sorts a pattern into its class.
pub fn classify(bits: u32) -> (c: Class)
    ensures
        c == class_of(bits),
{
    if is_nan(bits) {
        Class::Nan
    } else if is_infinite(bits) {
        Class::Infinite
    } else {
        Class::Finite
    }
}

/// The place of a pattern in the total order.
pub fn order_key(bits: u32) -> (k: i64)
    ensures
        k == spec_order_key(bits),
{
    proof {
        lemma_mask_is_magnitude(bits);
    }
    let m: i64 = (bits & 0x7fff_ffff) as i64;
    if is_negative(bits) {
        -m - 1
    } else {
        m
    }
}

/// The one of two patterns that comes first in the total order.
#[verifier::when_used_as_spec(spec_lower)]
pub fn lower(a: u32, b: u32) -> (r: u32)
    ensures
        r == spec_lower(a, b),
{
    if order_key(b) < order_key(a) {
        b
    } else {
        a
    }
}

/// The one of two patterns that comes last in the total order.
#[verifier::when_used_as_spec(spec_upper)]
pub fn upper(a: u32, b: u32) -> (r: u32)
    ensures
        r == spec_upper(a, b),
{
    if order_key(a) < order_key(b) {
        b
    } else {
        a
    }
}

} // verus!
