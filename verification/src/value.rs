//! The numbers that finite patterns stand for, and what the total order and
//! the widening have to do with them.
//!
//! A finite binary32 value is a whole multiple of 2^-149 and a finite
//! binary64 value a whole multiple of 2^-1074, so both are modelled by that
//! multiple, an integer.

use crate::ieee::{
    exponent_field, fraction_field, lemma_class_by_magnitude, lemma_order_key_injective,
    magnitude, spec_is_finite, spec_is_nan, spec_is_negative, spec_order_key, NEGATIVE_INFINITY,
    POSITIVE_INFINITY,
};
use crate::widen::{
    leading_shift, lemma_normalized_range, normalized, wide_exponent_field, wide_fraction_field,
    wide_is_finite, wide_is_negative, widened,
};
use vstd::arithmetic::power2::{
    lemma2_to64, lemma_pow2_adds, lemma_pow2_pos, lemma_pow2_strictly_increases,
    lemma_pow2_unfold, pow2,
};
use vstd::prelude::*;

verus! {

/// The size of a finite value read off its exponent and fraction fields, in
/// units of the smallest subnormal. `hidden` is the implicit leading one of
/// a normal value: 2^23 for binary32, 2^52 for binary64.
pub open spec fn field_value(exponent: nat, fraction: nat, hidden: nat) -> nat {
    if exponent == 0 {
        fraction
    } else {
        (hidden + fraction) * pow2((exponent - 1) as nat)
    }
}

/// The value of a finite binary32 pattern, in units of 2^-149.
pub open spec fn scaled_value(bits: u32) -> int
    recommends
        spec_is_finite(bits),
{
    let size = field_value(exponent_field(bits), fraction_field(bits), 0x80_0000) as int;
    if spec_is_negative(bits) {
        -size
    } else {
        size
    }
}

/// The value of a finite binary64 pattern, in units of 2^-1074.
pub open spec fn wide_scaled_value(wide: u64) -> int
    recommends
        wide_is_finite(wide),
{
    let size = field_value(
        wide_exponent_field(wide),
        wide_fraction_field(wide),
        0x10_0000_0000_0000,
    ) as int;
    if wide_is_negative(wide) {
        -size
    } else {
        size
    }
}

/// Sizes grow with the fields: a larger exponent, or the same exponent and
/// a larger fraction, is a larger size.
pub proof fn lemma_field_value_increasing(e1: nat, f1: nat, e2: nat, f2: nat, hidden: nat)
    requires
        f1 < hidden,
        f2 < hidden,
        e1 < e2 || (e1 == e2 && f1 < f2),
    ensures
        field_value(e1, f1, hidden) < field_value(e2, f2, hidden),
{
    if e1 == e2 {
        if e1 != 0 {
            let p = pow2((e1 - 1) as nat);
            lemma_pow2_pos((e1 - 1) as nat);
            assert((hidden + f1) * p < (hidden + f2) * p) by (nonlinear_arith)
                requires
                    p > 0,
                    f1 < f2,
            ;
        }
    } else {
        let p2 = pow2((e2 - 1) as nat);
        lemma_pow2_pos((e2 - 1) as nat);
        assert(hidden * p2 <= (hidden + f2) * p2) by (nonlinear_arith)
            requires
                p2 > 0,
        ;
        if e1 == 0 {
            assert(hidden <= hidden * p2) by (nonlinear_arith)
                requires
                    p2 >= 1,
            ;
        } else {
            let p1 = pow2((e1 - 1) as nat);
            lemma_pow2_pos((e1 - 1) as nat);
            lemma_pow2_unfold(e1);
            assert((hidden + f1) * p1 < hidden * (2 * p1)) by (nonlinear_arith)
                requires
                    p1 > 0,
                    f1 < hidden,
            ;
            if e1 < e2 - 1 {
                lemma_pow2_strictly_increases(e1, (e2 - 1) as nat);
            }
            assert(hidden * pow2(e1) <= hidden * p2) by (nonlinear_arith)
                requires
                    pow2(e1) <= p2,
            ;
        }
    }
}

/// The total order is the order of the values. Of two finite patterns the
/// one that stands for the smaller number comes first. Two patterns stand
/// for the same number only if they are the same pattern or the two zeros,
/// of which the negative one comes first.
pub proof fn law_order_agrees_with_value(a: u32, b: u32)
    requires
        spec_is_finite(a),
        spec_is_finite(b),
    ensures
        scaled_value(a) < scaled_value(b) ==> spec_order_key(a) < spec_order_key(b),
        spec_order_key(a) < spec_order_key(b) ==> scaled_value(a) <= scaled_value(b),
        scaled_value(a) == scaled_value(b) ==> a == b || (magnitude(a) == 0 && magnitude(b) == 0),
{
    lemma_class_by_magnitude(a);
    lemma_class_by_magnitude(b);
    let (ea, fa) = (exponent_field(a), fraction_field(a));
    let (eb, fb) = (exponent_field(b), fraction_field(b));
    if magnitude(a) < magnitude(b) {
        lemma_field_value_increasing(ea, fa, eb, fb, 0x80_0000);
    }
    if magnitude(b) < magnitude(a) {
        lemma_field_value_increasing(eb, fb, ea, fa, 0x80_0000);
    }
    if magnitude(a) > 0 {
        lemma_field_value_increasing(0, 0, ea, fa, 0x80_0000);
    }
    if magnitude(b) > 0 {
        lemma_field_value_increasing(0, 0, eb, fb, 0x80_0000);
    }
}

/// Every finite pattern lies strictly between the two infinities in the
/// total order, and every not-a-number outside them.
pub proof fn law_infinities_enclose_finite(bits: u32)
    ensures
        spec_is_finite(bits) <==> spec_order_key(NEGATIVE_INFINITY) < spec_order_key(bits)
            < spec_order_key(POSITIVE_INFINITY),
        spec_is_nan(bits) <==> spec_order_key(bits) < spec_order_key(NEGATIVE_INFINITY)
            || spec_order_key(POSITIVE_INFINITY) < spec_order_key(bits),
{
    lemma_class_by_magnitude(bits);
    lemma_class_by_magnitude(POSITIVE_INFINITY);
    lemma_class_by_magnitude(NEGATIVE_INFINITY);
}

/// A finite binary64 pattern is known by its sign and its value: no two
/// stand for the same number with the same sign.
pub proof fn law_value_names_one_pattern(x: u64, y: u64)
    requires
        wide_is_finite(x),
        wide_is_finite(y),
        wide_is_negative(x) == wide_is_negative(y),
        wide_scaled_value(x) == wide_scaled_value(y),
    ensures
        x == y,
{
    let (ex, fx) = (wide_exponent_field(x), wide_fraction_field(x));
    let (ey, fy) = (wide_exponent_field(y), wide_fraction_field(y));
    if ex < ey || (ex == ey && fx < fy) {
        lemma_field_value_increasing(ex, fx, ey, fy, 0x10_0000_0000_0000);
    }
    if ey < ex || (ey == ex && fy < fx) {
        lemma_field_value_increasing(ey, fy, ex, fx, 0x10_0000_0000_0000);
    }
}

/// Normalizing multiplies the significand by two to the number of doublings.
pub proof fn lemma_normalized_is_shifted(significand: nat)
    requires
        0 < significand < 0x100_0000,
    ensures
        normalized(significand) == significand * pow2(leading_shift(significand)),
    decreases 0x100_0000 - significand,
{
    if significand < 0x80_0000 {
        lemma_normalized_is_shifted(2 * significand);
        let k = leading_shift(2 * significand);
        assert(leading_shift(significand) == k + 1);
        lemma_pow2_unfold(k + 1);
        assert((2 * significand) * pow2(k) == significand * (2 * pow2(k))) by (nonlinear_arith);
    } else {
        assert(pow2(0) == 1) by {
            lemma2_to64();
        }
        assert(significand * 1 == significand);
    }
}

/// Widening is exact. The widened pattern is finite, has the sign of the
/// pattern it was made from, and stands for the same number: its multiple
/// of 2^-1074 is 2^925 times the other's multiple of 2^-149.
pub proof fn law_widening_exact(bits: u32)
    requires
        spec_is_finite(bits),
    ensures
        wide_is_finite(widened(bits)),
        wide_is_negative(widened(bits)) == spec_is_negative(bits),
        wide_scaled_value(widened(bits)) == scaled_value(bits) * pow2(925),
{
    let e = exponent_field(bits);
    let f = fraction_field(bits);
    let wide = widened(bits);
    let sign: nat = if spec_is_negative(bits) {
        0x8000_0000_0000_0000
    } else {
        0
    };
    lemma2_to64();
    lemma_pow2_adds(29, 896);
    let unit = pow2(925);
    if e != 0 {
        let we = e + 896;
        let wf = f * 0x2000_0000;
        assert(wide == sign + we * 0x10_0000_0000_0000 + wf);
        assert(wide_exponent_field(wide) == we);
        assert(wide_fraction_field(wide) == wf);
        let p = pow2((e - 1) as nat);
        lemma_pow2_adds((e - 1) as nat, 896);
        let q = pow2(896);
        assert((0x10_0000_0000_0000 + wf) * (p * q) == ((0x80_0000 + f) * p) * (0x2000_0000 * q))
            by (nonlinear_arith)
            requires
                wf == f * 0x2000_0000,
        ;
        assert(-(((0x80_0000 + f) * p) as int) * unit == -((((0x80_0000 + f) * p) * unit) as int))
            by (nonlinear_arith);
    } else if f == 0 {
        assert(wide == sign);
        assert(wide_exponent_field(wide) == 0);
        assert(wide_fraction_field(wide) == 0);
        assert(0 * unit == 0);
        assert(-0 * unit == 0);
    } else {
        let k = leading_shift(f);
        let n = normalized(f);
        lemma_normalized_range(f);
        lemma_normalized_is_shifted(f);
        let we = (897 - k) as nat;
        let wf = ((n - 0x80_0000) * 0x2000_0000) as nat;
        assert(wide == sign + we * 0x10_0000_0000_0000 + wf);
        assert(wide_exponent_field(wide) == we);
        assert(wide_fraction_field(wide) == wf);
        let r = pow2((896 - k) as nat);
        lemma_pow2_adds(k, (896 - k) as nat);
        let q = pow2(896);
        assert((0x10_0000_0000_0000 + wf) * r == f * (0x2000_0000 * q)) by (nonlinear_arith)
            requires
                wf == (n - 0x80_0000) * 0x2000_0000,
                n == f * pow2(k),
                q == pow2(k) * r,
        ;
        assert(-(f as int) * unit == -((f * unit) as int)) by (nonlinear_arith);
    }
}

/// Widening keeps the order: of two finite patterns, the one that comes
/// first in the total order is widened to a number that is not above the
/// other's.
pub proof fn lemma_widening_keeps_order(a: u32, b: u32)
    requires
        spec_is_finite(a),
        spec_is_finite(b),
        spec_order_key(a) <= spec_order_key(b),
    ensures
        wide_scaled_value(widened(a)) <= scaled_value(b) * pow2(925),
        scaled_value(a) * pow2(925) <= wide_scaled_value(widened(b)),
{
    let va = scaled_value(a);
    let vb = scaled_value(b);
    let unit = pow2(925);
    assert(wide_scaled_value(widened(a)) == va * unit) by {
        law_widening_exact(a);
    }
    assert(wide_scaled_value(widened(b)) == vb * unit) by {
        law_widening_exact(b);
    }
    assert(va <= vb) by {
        law_order_agrees_with_value(a, b);
        lemma_order_key_injective(a, b);
    }
    assert(unit > 0) by {
        lemma_pow2_pos(925);
    }
    assert(va * unit <= vb * unit) by (nonlinear_arith)
        requires
            va <= vb,
            unit > 0,
    ;
}

} // verus!
