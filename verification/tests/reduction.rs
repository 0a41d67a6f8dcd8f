use modelautopsy::ieee::{NEGATIVE_INFINITY, POSITIVE_INFINITY};
use modelautopsy::partial::Partial;
use modelautopsy::reduce::{has_failure, reduce, reduce_chunked, valid_entries};

fn patterns_of(values: &[f32]) -> Vec<u32> {
    values.iter().map(|x| x.to_bits()).collect()
}

/// A buffer of `len` entries that mixes finite values of both signs with
/// not-a-numbers and infinities.
fn mixed_buffer(len: usize) -> Vec<u32> {
    let mut buffer: Vec<u32> = Vec::new();
    let mut state: u32 = 0x1234_5678;
    let mut i: usize = 0;
    while i < len {
        state = state.wrapping_mul(1_664_525).wrapping_add(1_013_904_223);
        let bits: u32 = match i % 11 {
            3 => 0x7fc0_0000 | (state >> 12),
            5 => POSITIVE_INFINITY,
            8 => NEGATIVE_INFINITY,
            _ => state,
        };
        buffer.push(bits);
        i += 1;
    }
    buffer
}

#[test]
fn empty_buffer_has_no_failure() {
    assert!(!has_failure(&[]));
}

#[test]
fn finite_buffer_has_no_failure() {
    let buffer = patterns_of(&[0.0, -0.0, 1.5, -2.25, f32::MAX, f32::MIN, f32::MIN_POSITIVE, 1.0e-45]);
    assert!(!has_failure(&buffer));
}

#[test]
fn one_bad_entry_is_a_failure_wherever_it_stands() {
    let bad: [u32; 5] = [0x7fc0_0000, 0xffc0_0000, 0x7f80_0001, POSITIVE_INFINITY, NEGATIVE_INFINITY];
    for pattern in bad {
        let mut place: usize = 0;
        while place < 6 {
            let mut buffer = patterns_of(&[1.0, 2.0, 3.0, 4.0, 5.0]);
            buffer.insert(place, pattern);
            assert!(has_failure(&buffer), "{:#010x} at {}", pattern, place);
            place += 1;
        }
    }
}

#[test]
fn identity_is_the_starting_value() {
    let start = Partial::identity();
    assert_eq!(start.nan_count, 0);
    assert_eq!(start.inf_count, 0);
    assert_eq!(start.valid_count, 0);
    assert_eq!(start.min_bits, f32::INFINITY.to_bits());
    assert_eq!(start.max_bits, f32::NEG_INFINITY.to_bits());
    assert_eq!(reduce(&[]), start);
}

#[test]
fn absorb_counts_each_class_in_its_own_counter() {
    let start = Partial::identity();
    let after_nan = start.absorb(f32::NAN.to_bits());
    assert_eq!(after_nan, Partial { nan_count: 1, ..start });
    let after_inf = after_nan.absorb(f32::NEG_INFINITY.to_bits());
    assert_eq!(after_inf, Partial { inf_count: 1, ..after_nan });
    let after_two = after_inf.absorb(2.0f32.to_bits());
    assert_eq!(
        after_two,
        Partial {
            nan_count: 1,
            inf_count: 1,
            valid_count: 1,
            min_bits: 2.0f32.to_bits(),
            max_bits: 2.0f32.to_bits(),
        }
    );
    let after_minus = after_two.absorb((-7.5f32).to_bits());
    assert_eq!(
        after_minus,
        Partial {
            nan_count: 1,
            inf_count: 1,
            valid_count: 2,
            min_bits: (-7.5f32).to_bits(),
            max_bits: 2.0f32.to_bits(),
        }
    );
}

#[test]
fn reduce_counts_and_finds_extrema() {
    let buffer = patterns_of(&[1.0, f32::NAN, f32::INFINITY, f32::NEG_INFINITY, 5.0]);
    assert_eq!(
        reduce(&buffer),
        Partial {
            nan_count: 1,
            inf_count: 2,
            valid_count: 2,
            min_bits: 1.0f32.to_bits(),
            max_bits: 5.0f32.to_bits(),
        }
    );
}

#[test]
fn reduce_orders_negative_values_below_positive_ones() {
    let buffer = patterns_of(&[-1.0, 3.5, -1.0e-40, 0.0, -250.0, 1.0e-40, 249.0]);
    let result = reduce(&buffer);
    assert_eq!(result.valid_count, 7);
    assert_eq!(result.min_bits, (-250.0f32).to_bits());
    assert_eq!(result.max_bits, 249.0f32.to_bits());
}

#[test]
fn reduce_tells_the_two_zeros_apart() {
    let buffer = patterns_of(&[0.0, -0.0, 0.0]);
    let result = reduce(&buffer);
    assert_eq!(result.min_bits, (-0.0f32).to_bits());
    assert_eq!(result.max_bits, 0.0f32.to_bits());
}

#[test]
fn counters_add_up_to_the_length() {
    let mut len: usize = 0;
    while len < 60 {
        let buffer = mixed_buffer(len);
        let result = reduce(&buffer);
        assert_eq!(result.nan_count + result.inf_count + result.valid_count, len);
        len += 1;
    }
}

#[test]
fn failure_test_agrees_with_the_counters() {
    let mut len: usize = 0;
    while len < 60 {
        let buffer = mixed_buffer(len);
        let result = reduce(&buffer);
        assert_eq!(has_failure(&buffer), result.nan_count > 0 || result.inf_count > 0);
        let finite = valid_entries(&buffer);
        let clean = reduce(&finite);
        assert!(!has_failure(&finite));
        assert_eq!(clean.nan_count + clean.inf_count, 0);
        len += 1;
    }
}

#[test]
fn valid_entries_keeps_the_finite_entries_in_order() {
    let buffer = patterns_of(&[3.0, f32::NAN, -1.0, f32::INFINITY, 0.0, f32::NEG_INFINITY, 3.0]);
    assert_eq!(valid_entries(&buffer), patterns_of(&[3.0, -1.0, 0.0, 3.0]));
    assert_eq!(valid_entries(&[]), Vec::<u32>::new());
    assert_eq!(valid_entries(&patterns_of(&[f32::NAN, f32::INFINITY])), Vec::<u32>::new());
}

#[test]
fn valid_entries_are_as_many_as_the_valid_counter() {
    let buffer = mixed_buffer(500);
    assert_eq!(valid_entries(&buffer).len(), reduce(&buffer).valid_count);
}

#[test]
fn merge_adds_counters_and_compares_extrema() {
    let left = Partial {
        nan_count: 2,
        inf_count: 0,
        valid_count: 3,
        min_bits: (-4.0f32).to_bits(),
        max_bits: 1.0f32.to_bits(),
    };
    let right = Partial {
        nan_count: 1,
        inf_count: 5,
        valid_count: 2,
        min_bits: 0.5f32.to_bits(),
        max_bits: 9.0f32.to_bits(),
    };
    let expected = Partial {
        nan_count: 3,
        inf_count: 5,
        valid_count: 5,
        min_bits: (-4.0f32).to_bits(),
        max_bits: 9.0f32.to_bits(),
    };
    assert_eq!(left.merge(right), expected);
    assert_eq!(right.merge(left), expected);
}

#[test]
fn merge_with_the_identity_changes_nothing() {
    let part = reduce(&mixed_buffer(40));
    assert_eq!(part.merge(Partial::identity()), part);
    assert_eq!(Partial::identity().merge(part), part);
    assert_eq!(Partial::identity().merge(Partial::identity()), Partial::identity());
}

#[test]
fn merge_is_associative_and_commutative() {
    let a = reduce(&mixed_buffer(17));
    let b = reduce(&patterns_of(&[0.0, -0.0, f32::NAN, 12.0]));
    let c = reduce(&patterns_of(&[f32::INFINITY, -3.0e30, 2.0e-42]));
    assert_eq!(a.merge(b).merge(c), a.merge(b.merge(c)));
    assert_eq!(a.merge(b), b.merge(a));
    assert_eq!(a.merge(c), c.merge(a));
    assert_eq!(b.merge(c), c.merge(b));
    assert_eq!(c.merge(a).merge(b), a.merge(b).merge(c));
}

#[test]
fn absorb_is_merge_with_a_single_entry() {
    let part = reduce(&mixed_buffer(23));
    for bits in [0x7fc0_0000u32, POSITIVE_INFINITY, 0x3f80_0000, 0x8000_0000, 0xff7f_ffff] {
        assert_eq!(part.absorb(bits), part.merge(reduce(&[bits])));
    }
}

#[test]
fn splitting_in_two_gives_the_serial_result() {
    let buffer = mixed_buffer(64);
    let whole = reduce(&buffer);
    let mut cut: usize = 0;
    while cut <= buffer.len() {
        let (left, right) = buffer.split_at(cut);
        assert_eq!(reduce(left).merge(reduce(right)), whole);
        assert_eq!(has_failure(left) || has_failure(right), has_failure(&buffer));
        cut += 1;
    }
}

#[test]
fn any_chunk_length_gives_the_serial_result() {
    for len in [0usize, 1, 2, 7, 64, 257] {
        let buffer = mixed_buffer(len);
        let whole = reduce(&buffer);
        let mut chunk_len: usize = 0;
        while chunk_len <= len + 2 {
            assert_eq!(reduce_chunked(&buffer, chunk_len), whole, "{} by {}", len, chunk_len);
            chunk_len += 1;
        }
        assert_eq!(reduce_chunked(&buffer, usize::MAX), whole);
    }
}

#[test]
fn merging_chunks_in_any_order_gives_the_serial_result() {
    let buffer = mixed_buffer(90);
    let whole = reduce(&buffer);
    let parts: Vec<Partial> = buffer.chunks(13).map(|chunk| reduce(chunk)).collect();
    let forward = parts.iter().fold(Partial::identity(), |acc, part| acc.merge(*part));
    let backward = parts.iter().rev().fold(Partial::identity(), |acc, part| acc.merge(*part));
    let pairwise = parts
        .chunks(2)
        .map(|pair| pair.iter().fold(Partial::identity(), |acc, part| part.merge(acc)))
        .fold(Partial::identity(), |acc, part| part.merge(acc));
    assert_eq!(forward, whole);
    assert_eq!(backward, whole);
    assert_eq!(pairwise, whole);
}
