//! The exact conversion of a finite binary32 pattern to the binary64
//! pattern of the same value.

use crate::ieee::{exponent_field, fraction_field, is_negative, spec_is_finite, spec_is_negative};
use crate::value::{law_widening_exact, scaled_value, wide_scaled_value};
use vstd::arithmetic::power2::{lemma2_to64, lemma_pow2_unfold, pow2};
use vstd::prelude::*;

verus! {

/// Whether the sign bit of a binary64 pattern is set.
pub open spec fn wide_is_negative(wide: u64) -> bool {
    wide >= 0x8000_0000_0000_0000
}

/// The eleven exponent bits of a binary64 pattern, as a number below 2048.
pub open spec fn wide_exponent_field(wide: u64) -> nat {
    ((wide as nat) / 0x10_0000_0000_0000) % 0x800
}

/// The fifty-two fraction bits of a binary64 pattern.
pub open spec fn wide_fraction_field(wide: u64) -> nat {
    (wide as nat) % 0x10_0000_0000_0000
}

/// Whether a binary64 pattern is zero, subnormal or normal.
pub open spec fn wide_is_finite(wide: u64) -> bool {
    wide_exponent_field(wide) < 0x7ff
}

/// How often a subnormal fraction is doubled until its leading one stands
/// where the implicit one of a normal value stands. Zero for a significand
/// that is already there, and for zero.
pub open spec fn leading_shift(significand: nat) -> nat
    decreases 0x100_0000 - significand,
{
    if 0 < significand < 0x80_0000 {
        1 + leading_shift(2 * significand)
    } else {
        0
    }
}

/// The significand after those doublings.
pub open spec fn normalized(significand: nat) -> nat
    decreases 0x100_0000 - significand,
{
    if 0 < significand < 0x80_0000 {
        normalized(2 * significand)
    } else {
        significand
    }
}

/// The binary64 pattern that stands for the same value as a finite binary32
/// pattern. The sign is kept. A zero stays a zero. A normal value keeps its
/// fraction, padded with twenty-nine zero bits, and its exponent, moved by
/// the difference of the two biases. A subnormal value becomes normal: its
/// fraction is brought into place and the exponent counts the doublings.
pub open spec fn widened(bits: u32) -> u64
    recommends
        spec_is_finite(bits),
{
    let sign: nat = if spec_is_negative(bits) {
        0x8000_0000_0000_0000
    } else {
        0
    };
    let exponent = exponent_field(bits);
    let fraction = fraction_field(bits);
    if exponent != 0 {
        (sign + (exponent + 896) * 0x10_0000_0000_0000 + fraction * 0x2000_0000) as u64
    } else if fraction == 0 {
        sign as u64
    } else {
        (sign + (897 - leading_shift(fraction)) * 0x10_0000_0000_0000 + (normalized(fraction)
            - 0x80_0000) * 0x2000_0000) as u64
    }
}

/// A significand below 2^24 that is not zero is normalized to one with its
/// leading one in place, after at most twenty-three doublings.
pub proof fn lemma_normalized_range(significand: nat)
    requires
        0 < significand < 0x100_0000,
    ensures
        0x80_0000 <= normalized(significand) < 0x100_0000,
        leading_shift(significand) <= 23,
        significand >= 0x80_0000 ==> leading_shift(significand) == 0,
    decreases 0x100_0000 - significand,
{
    if significand < 0x80_0000 {
        lemma_normalized_range(2 * significand);
        assert(pow2(23) == 0x80_0000) by {
            lemma2_to64();
        }
        lemma_shift_below(significand, 23);
    }
}

/// A significand of at least 2^(23 - n) needs at most `n` doublings.
proof fn lemma_shift_below(significand: nat, n: nat)
    requires
        0 < significand < 0x100_0000,
        n <= 23,
        significand * pow2(n) >= 0x80_0000,
    ensures
        leading_shift(significand) <= n,
    decreases n,
{
    lemma2_to64();
    if significand < 0x80_0000 {
        if n == 0 {
            assert(significand * 1 >= 0x80_0000);
        } else {
            lemma_pow2_unfold(n);
            assert(significand * (2 * pow2((n - 1) as nat)) == (2
                * significand) * pow2((n - 1) as nat))
                by (nonlinear_arith);
            lemma_shift_below(2 * significand, (n - 1) as nat);
        }
    }
}

/// The binary64 pattern of a finite entry; nothing for an infinity or a
/// not-a-number. The pattern handed back is finite, has the sign of the
/// entry and stands for the same number.
pub fn widen_finite(bits: u32) -> (wide: Option<u64>)
    ensures
        wide == (if spec_is_finite(bits) {
            Some(widened(bits))
        } else {
            None
        }),
        wide matches Some(w) ==> {
            &&& wide_is_finite(w)
            &&& wide_is_negative(w) == spec_is_negative(bits)
            &&& wide_scaled_value(w) == scaled_value(bits) * pow2(925)
        },
{
    proof {
        if spec_is_finite(bits) {
            law_widening_exact(bits);
        }
    }
    let sign: u64 = if is_negative(bits) {
        0x8000_0000_0000_0000
    } else {
        0
    };
    let exponent: u32 = (bits / 0x80_0000) % 0x100;
    let fraction: u32 = bits % 0x80_0000;
    if exponent == 0xff {
        None
    } else if exponent != 0 {
        Some(sign + (exponent as u64 + 896) * 0x10_0000_0000_0000 + (fraction as u64) * 0x2000_0000)
    } else if fraction == 0 {
        Some(sign)
    } else {
        let mut significand: u32 = fraction;
        let mut shift: u32 = 0;
        proof {
            lemma_normalized_range(fraction as nat);
        }
        while significand < 0x80_0000
            invariant
                0 < significand < 0x100_0000,
                shift + leading_shift(significand as nat) == leading_shift(fraction as nat),
                normalized(significand as nat) == normalized(fraction as nat),
                leading_shift(fraction as nat) <= 23,
            decreases 0x100_0000 - significand,
        {
            significand = significand * 2;
            shift = shift + 1;
        }
        Some(
            sign + ((897 - shift) as u64) * 0x10_0000_0000_0000 + ((significand - 0x80_0000) as u64)
                * 0x2000_0000,
        )
    }
}

} // verus!
