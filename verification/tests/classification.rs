use modelautopsy::ieee::{
    classify, is_finite, is_infinite, is_nan, is_negative, lower, order_key, upper, Class,
    NEGATIVE_INFINITY, POSITIVE_INFINITY,
};
use modelautopsy::widen::widen_finite;

/// Patterns that cover every class and both ends of each range.
fn sample_patterns() -> Vec<u32> {
    let mut patterns: Vec<u32> = vec![
        0x0000_0000,
        0x8000_0000,
        0x0000_0001,
        0x8000_0001,
        0x0000_0002,
        0x0000_0003,
        0x0040_0000,
        0x007f_ffff,
        0x807f_ffff,
        0x0080_0000,
        0x8080_0000,
        0x3f80_0000,
        0xbf80_0000,
        0x3fc0_0000,
        0x4049_0fdb,
        0x7f7f_ffff,
        0xff7f_ffff,
        0x7f80_0000,
        0xff80_0000,
        0x7f80_0001,
        0x7fc0_0000,
        0xffc0_0000,
        0x7fff_ffff,
        0xffff_ffff,
    ];
    let mut exponent: u32 = 0;
    while exponent < 256 {
        patterns.push(exponent << 23);
        patterns.push((exponent << 23) | 0x0012_3456);
        patterns.push(0x8000_0000 | (exponent << 23) | 0x007f_ffff);
        exponent += 1;
    }
    let mut bit: u32 = 0;
    while bit < 23 {
        patterns.push(1 << bit);
        patterns.push((1 << bit) | 1);
        patterns.push(0x8000_0000 | (1 << bit));
        bit += 1;
    }
    patterns
}

#[test]
fn classes_agree_with_the_floating_point_unit() {
    for bits in sample_patterns() {
        let x = f32::from_bits(bits);
        assert_eq!(is_nan(bits), x.is_nan(), "{:#010x}", bits);
        assert_eq!(is_infinite(bits), x.is_infinite(), "{:#010x}", bits);
        assert_eq!(is_finite(bits), x.is_finite(), "{:#010x}", bits);
        assert_eq!(is_negative(bits), x.is_sign_negative(), "{:#010x}", bits);
        let expected = if x.is_nan() {
            Class::Nan
        } else if x.is_infinite() {
            Class::Infinite
        } else {
            Class::Finite
        };
        assert_eq!(classify(bits), expected, "{:#010x}", bits);
    }
}

#[test]
fn classes_of_named_values() {
    assert_eq!(classify(0.0f32.to_bits()), Class::Finite);
    assert_eq!(classify((-0.0f32).to_bits()), Class::Finite);
    assert_eq!(classify(f32::MIN_POSITIVE.to_bits()), Class::Finite);
    assert_eq!(classify(f32::MAX.to_bits()), Class::Finite);
    assert_eq!(classify(f32::MIN.to_bits()), Class::Finite);
    assert_eq!(classify(f32::INFINITY.to_bits()), Class::Infinite);
    assert_eq!(classify(f32::NEG_INFINITY.to_bits()), Class::Infinite);
    assert_eq!(classify(f32::NAN.to_bits()), Class::Nan);
    assert_eq!(classify(0x7f80_0001), Class::Nan);
    assert_eq!(classify(0xffff_ffff), Class::Nan);
    assert_eq!(POSITIVE_INFINITY, f32::INFINITY.to_bits());
    assert_eq!(NEGATIVE_INFINITY, f32::NEG_INFINITY.to_bits());
}

#[test]
fn order_keys_of_named_values() {
    assert_eq!(order_key(0x0000_0000), 0);
    assert_eq!(order_key(0x8000_0000), -1);
    assert_eq!(order_key(0x0000_0001), 1);
    assert_eq!(order_key(0x8000_0001), -2);
    assert_eq!(order_key(0x3f80_0000), 0x3f80_0000);
    assert_eq!(order_key(0xbf80_0000), -0x3f80_0001);
    assert_eq!(order_key(POSITIVE_INFINITY), 0x7f80_0000);
    assert_eq!(order_key(NEGATIVE_INFINITY), -0x7f80_0001);
    assert_eq!(order_key(0x7fff_ffff), 0x7fff_ffff);
    assert_eq!(order_key(0xffff_ffff), -0x8000_0000);
}

#[test]
fn order_keys_follow_the_total_order() {
    let patterns = sample_patterns();
    for a in &patterns {
        for b in &patterns {
            let expected = f32::from_bits(*a).total_cmp(&f32::from_bits(*b));
            assert_eq!(order_key(*a).cmp(&order_key(*b)), expected, "{:#010x} {:#010x}", a, b);
        }
    }
}

#[test]
fn order_keys_follow_the_values_of_finite_patterns() {
    let patterns = sample_patterns();
    for a in &patterns {
        for b in &patterns {
            let (x, y) = (f32::from_bits(*a), f32::from_bits(*b));
            if x.is_finite() && y.is_finite() {
                if x < y {
                    assert!(order_key(*a) < order_key(*b), "{:#010x} {:#010x}", a, b);
                }
                if order_key(*a) < order_key(*b) {
                    assert!(x <= y, "{:#010x} {:#010x}", a, b);
                }
            }
        }
    }
}

#[test]
fn lower_and_upper_pick_by_the_total_order() {
    let one: u32 = 1.0f32.to_bits();
    let two: u32 = 2.0f32.to_bits();
    let minus_one: u32 = (-1.0f32).to_bits();
    assert_eq!(lower(one, two), one);
    assert_eq!(lower(two, one), one);
    assert_eq!(upper(one, two), two);
    assert_eq!(upper(two, one), two);
    assert_eq!(lower(minus_one, one), minus_one);
    assert_eq!(upper(minus_one, one), one);
    assert_eq!(lower(one, one), one);
    assert_eq!(upper(one, one), one);
    assert_eq!(lower(POSITIVE_INFINITY, one), one);
    assert_eq!(upper(NEGATIVE_INFINITY, one), one);
}

#[test]
fn negative_zero_comes_before_positive_zero() {
    let plus: u32 = 0.0f32.to_bits();
    let minus: u32 = (-0.0f32).to_bits();
    assert_eq!(lower(plus, minus), minus);
    assert_eq!(lower(minus, plus), minus);
    assert_eq!(upper(plus, minus), plus);
    assert_eq!(upper(minus, plus), plus);
}

#[test]
fn widening_agrees_with_the_floating_point_unit() {
    for bits in sample_patterns() {
        let x = f32::from_bits(bits);
        if x.is_finite() {
            assert_eq!(widen_finite(bits), Some((x as f64).to_bits()), "{:#010x}", bits);
        } else {
            assert_eq!(widen_finite(bits), None, "{:#010x}", bits);
        }
    }
}

#[test]
fn widening_agrees_on_a_sweep_of_patterns() {
    let mut bits: u32 = 0;
    let mut steps: u32 = 0;
    while steps < 200_000 {
        let x = f32::from_bits(bits);
        if x.is_finite() {
            assert_eq!(widen_finite(bits), Some((x as f64).to_bits()), "{:#010x}", bits);
        } else {
            assert_eq!(widen_finite(bits), None, "{:#010x}", bits);
        }
        bits = bits.wrapping_add(21_467);
        steps += 1;
    }
}

#[test]
fn widening_of_named_values() {
    assert_eq!(widen_finite(0x0000_0000), Some(0x0000_0000_0000_0000));
    assert_eq!(widen_finite(0x8000_0000), Some(0x8000_0000_0000_0000));
    assert_eq!(widen_finite(0x3f80_0000), Some(0x3ff0_0000_0000_0000));
    assert_eq!(widen_finite(0xc000_0000), Some(0xc000_0000_0000_0000));
    assert_eq!(widen_finite(0x0000_0001), Some(0x36a0_0000_0000_0000));
    assert_eq!(widen_finite(0x0000_0003), Some(0x36b8_0000_0000_0000));
    assert_eq!(widen_finite(0x007f_ffff), Some(0x380f_ffff_c000_0000));
    assert_eq!(widen_finite(0x0080_0000), Some(0x3810_0000_0000_0000));
    assert_eq!(widen_finite(0x7f7f_ffff), Some(0x47ef_ffff_e000_0000));
    assert_eq!(widen_finite(0x7f80_0000), None);
    assert_eq!(widen_finite(0xff80_0000), None);
    assert_eq!(widen_finite(0x7fc0_0000), None);
}
