//! What holds of every buffer: the counters, the failure test, the extrema
//! and the algebra that lets a buffer be reduced in parts.

use crate::ieee::{
    spec_is_finite, spec_is_nan, spec_order_key, NEGATIVE_INFINITY, POSITIVE_INFINITY,
};
use crate::report::{report_of, Moments, StatsReport};
use crate::summary::{
    any_failure, is_failure, lemma_counts_cover, lemma_summarize_concat, lemma_summarize_empty,
    lemma_summarize_push, merge_all, summarize, Summary,
};
use crate::value::{lemma_widening_keeps_order, scaled_value, wide_scaled_value};
use crate::widen::widened;
use vstd::arithmetic::power2::pow2;
use vstd::prelude::*;

verus! {

/// Merging with the identity changes nothing, on either side, for every
/// summary whose extrema the identity's infinities enclose.
pub proof fn law_merge_identity(a: Summary)
    requires
        a.bounded(),
    ensures
        Summary::identity().merge(a) == a,
        a.merge(Summary::identity()) == a,
{
}

/// Merging is associative: how partial results are grouped does not matter.
pub proof fn law_merge_associative(a: Summary, b: Summary, c: Summary)
    ensures
        a.merge(b).merge(c) == a.merge(b.merge(c)),
{
}

/// Merging is commutative: the order of two partial results does not matter.
pub proof fn law_merge_commutative(a: Summary, b: Summary)
    ensures
        a.merge(b) == b.merge(a),
{
}

/// Taking an entry in is merging with the summary of that entry alone.
pub proof fn law_absorb_is_merge(a: Summary, bits: u32)
    requires
        a.bounded(),
    ensures
        a.absorb(bits) == a.merge(Summary::identity().absorb(bits)),
{
}

/// The summary of any buffer has extrema that the two infinities enclose,
/// and counters that add up to the length of the buffer.
pub proof fn law_summary_well_formed(s: Seq<u32>)
    ensures
        summarize(s).bounded(),
        summarize(s).total() == s.len(),
    decreases s.len(),
{
    lemma_counts_cover(s);
    if s.len() == 0 {
        assert(s =~= Seq::<u32>::empty());
        lemma_summarize_empty();
    } else {
        law_summary_well_formed(s.drop_last());
        lemma_summarize_push(s.drop_last(), s.last());
        assert(s.drop_last().push(s.last()) =~= s);
    }
}

/// A buffer holds a failure if and only if it holds one at its end or
/// before its end.
pub proof fn lemma_any_failure_push(s: Seq<u32>, bits: u32)
    ensures
        any_failure(s.push(bits)) == (any_failure(s) || is_failure(bits)),
{
    let t = s.push(bits);
    if any_failure(s) {
        let i = choose|i: int| 0 <= i < s.len() && is_failure(#[trigger] s[i]);
        assert(is_failure(t[i]));
    }
    if is_failure(bits) {
        assert(is_failure(t[s.len() as int]));
    }
    if any_failure(t) {
        let i = choose|i: int| 0 <= i < t.len() && is_failure(#[trigger] t[i]);
        if i < s.len() {
            assert(is_failure(s[i]));
        }
    }
}

/// The failure test agrees with the counters: a buffer holds a
/// not-a-number or an infinity exactly when one of the two counters of its
/// summary is above zero.
pub proof fn law_failure_iff_counted(s: Seq<u32>)
    ensures
        any_failure(s) == (summarize(s).nan > 0 || summarize(s).inf > 0),
    decreases s.len(),
{
    if s.len() == 0 {
        assert(s =~= Seq::<u32>::empty());
        lemma_summarize_empty();
    } else {
        law_failure_iff_counted(s.drop_last());
        lemma_summarize_push(s.drop_last(), s.last());
        lemma_any_failure_push(s.drop_last(), s.last());
        assert(s.drop_last().push(s.last()) =~= s);
    }
}

/// The failure test over two buffers laid end to end is the disjunction of
/// the tests over each: sub-ranges can be scanned on their own, in any order.
pub proof fn law_failure_of_parts(a: Seq<u32>, b: Seq<u32>)
    ensures
        any_failure(a + b) == (any_failure(a) || any_failure(b)),
{
    law_failure_iff_counted(a);
    law_failure_iff_counted(b);
    law_failure_iff_counted(a + b);
    lemma_summarize_concat(a, b);
}

/// However a buffer is cut into contiguous chunks, it holds a failure
/// exactly when one of the chunks does.
pub proof fn law_failure_of_chunks(chunks: Seq<Seq<u32>>)
    ensures
        any_failure(chunks.flatten()) == (exists|k: int|
            0 <= k < chunks.len() && any_failure(#[trigger] chunks[k])),
    decreases chunks.len(),
{
    if chunks.len() == 0 {
        assert(chunks.flatten() =~= Seq::<u32>::empty());
    } else {
        let init = chunks.drop_last();
        let last = chunks.last();
        law_failure_of_chunks(init);
        assert(init.push(last) =~= chunks);
        init.lemma_flatten_push(last);
        law_failure_of_parts(init.flatten(), last);
        if any_failure(last) {
            assert(any_failure(chunks[chunks.len() - 1]));
        }
        if exists|k: int| 0 <= k < init.len() && any_failure(#[trigger] init[k]) {
            let k = choose|k: int| 0 <= k < init.len() && any_failure(#[trigger] init[k]);
            assert(any_failure(chunks[k]));
        }
        if exists|k: int| 0 <= k < chunks.len() && any_failure(#[trigger] chunks[k]) {
            let k = choose|k: int| 0 <= k < chunks.len() && any_failure(#[trigger] chunks[k]);
            if k < init.len() {
                assert(any_failure(init[k]));
            }
        }
    }
}

/// The summaries of a run of chunks.
pub open spec fn summaries(chunks: Seq<Seq<u32>>) -> Seq<Summary> {
    chunks.map_values(|chunk: Seq<u32>| summarize(chunk))
}

/// However a buffer is cut into contiguous chunks, reducing each chunk on
/// its own and merging the partial results gives the counters and the extrema
/// of the one-pass reduction of the whole buffer.
pub proof fn law_partition_invariance(chunks: Seq<Seq<u32>>)
    ensures
        merge_all(summaries(chunks)) == summarize(chunks.flatten()),
    decreases chunks.len(),
{
    if chunks.len() == 0 {
        lemma_summarize_empty();
        assert(chunks.flatten() =~= Seq::<u32>::empty());
    } else {
        let init = chunks.drop_last();
        let last = chunks.last();
        law_partition_invariance(init);
        assert(init.push(last) =~= chunks);
        init.lemma_flatten_push(last);
        assert(summaries(chunks).drop_last() =~= summaries(init));
        lemma_summarize_concat(init.flatten(), last);
    }
}

/// Merging a run of partial results from the identity gives a summary
/// whose extrema the two infinities enclose, whatever the partial results.
pub proof fn lemma_merge_all_bounded(parts: Seq<Summary>)
    ensures
        merge_all(parts).bounded(),
    decreases parts.len(),
{
    if parts.len() > 0 {
        lemma_merge_all_bounded(parts.drop_last());
    }
}

/// Partial results can be merged in groups: merging two runs on their own
/// and then the two results is merging the one run after the other.
pub proof fn law_merge_in_groups(a: Seq<Summary>, b: Seq<Summary>)
    ensures
        merge_all(a + b) == merge_all(a).merge(merge_all(b)),
    decreases b.len(),
{
    if b.len() == 0 {
        assert(a + b =~= a);
        lemma_merge_all_bounded(a);
    } else {
        assert((a + b).drop_last() =~= a + b.drop_last());
        assert((a + b).last() == b.last());
        law_merge_in_groups(a, b.drop_last());
    }
}

/// A partial result can be taken out of a run and merged last.
pub proof fn lemma_merge_all_remove(parts: Seq<Summary>, i: int)
    requires
        0 <= i < parts.len(),
    ensures
        merge_all(parts) == merge_all(parts.remove(i)).merge(parts[i]),
    decreases parts.len(),
{
    let init = parts.drop_last();
    let last = parts.last();
    if i == parts.len() - 1 {
        assert(parts.remove(i) =~= init);
    } else {
        let rest = merge_all(init.remove(i));
        let taken = init[i];
        assert(merge_all(init) == rest.merge(taken)) by {
            lemma_merge_all_remove(init, i);
        }
        assert(merge_all(parts.remove(i)) == rest.merge(last)) by {
            assert(parts.remove(i).drop_last() =~= init.remove(i));
            assert(parts.remove(i).last() == last);
        }
        assert(rest.merge(taken).merge(last) == rest.merge(last).merge(taken)) by {
            law_merge_associative(rest, taken, last);
            law_merge_commutative(taken, last);
            law_merge_associative(rest, last, taken);
        }
    }
}

/// Partial results can be merged in any order: two runs that hold the same
/// partial results, each as often as the other, merge to the same summary.
pub proof fn law_merge_any_order(p: Seq<Summary>, q: Seq<Summary>)
    requires
        p.to_multiset() == q.to_multiset(),
    ensures
        merge_all(p) == merge_all(q),
    decreases p.len(),
{
    broadcast use vstd::seq_lib::group_to_multiset_ensures;

    assert(p.len() == q.len()) by {
        assert(p.to_multiset().len() == p.len());
        assert(q.to_multiset().len() == q.len());
    }
    if p.len() == 0 {
        assert(p =~= q);
    } else {
        let x = p.last();
        assert(p.to_multiset().count(x) > 0) by {
            assert(p.contains(x)) by {
                assert(p[p.len() - 1] == x);
            }
        }
        assert(q.contains(x));
        let i = choose|i: int| 0 <= i < q.len() && q[i] == x;
        assert(p.drop_last() =~= p.remove(p.len() - 1));
        assert(p.drop_last().to_multiset() =~= q.remove(i).to_multiset());
        law_merge_any_order(p.drop_last(), q.remove(i));
        lemma_merge_all_remove(q, i);
    }
}

/// What the extrema of a summary are. While the buffer holds no finite
/// entry they are the two infinities the reduction started from. Once it
/// holds one, each is a finite entry of the buffer, and every finite entry
/// lies between the two in the total order.
pub proof fn law_extrema(s: Seq<u32>)
    ensures
        summarize(s).valid == 0 ==> summarize(s).min == POSITIVE_INFINITY && summarize(s).max
            == NEGATIVE_INFINITY,
        summarize(s).valid > 0 ==> spec_is_finite(summarize(s).min) && spec_is_finite(
            summarize(s).max,
        ),
        summarize(s).valid > 0 ==> exists|i: int| 0 <= i < s.len() && #[trigger] s[i] == summarize(s).min,
        summarize(s).valid > 0 ==> exists|i: int| 0 <= i < s.len() && #[trigger] s[i] == summarize(s).max,
        forall|j: int|
            0 <= j < s.len() && spec_is_finite(#[trigger] s[j]) ==> spec_order_key(summarize(s).min)
                <= spec_order_key(s[j]) <= spec_order_key(summarize(s).max),
        summarize(s).valid > 0 <==> exists|j: int| 0 <= j < s.len() && spec_is_finite(#[trigger] s[j]),
    decreases s.len(),
{
    if s.len() == 0 {
        assert(s =~= Seq::<u32>::empty());
        lemma_summarize_empty();
    } else {
        let t = s.drop_last();
        let x = s.last();
        law_extrema(t);
        lemma_summarize_push(t, x);
        assert(t.push(x) =~= s);
        let before = summarize(t);
        let after = summarize(s);
        if before.valid > 0 {
            let i = choose|i: int| 0 <= i < t.len() && #[trigger] t[i] == before.min;
            let k = choose|k: int| 0 <= k < t.len() && #[trigger] t[k] == before.max;
            let f = choose|f: int| 0 <= f < t.len() && spec_is_finite(#[trigger] t[f]);
            assert(s[i] == before.min);
            assert(s[k] == before.max);
            assert(spec_is_finite(s[f]));
        }
        if spec_is_finite(x) {
            assert(s[s.len() - 1] == x);
        }
        assert forall|j: int| 0 <= j < s.len() && spec_is_finite(#[trigger] s[j]) implies spec_order_key(
            after.min,
        ) <= spec_order_key(s[j]) <= spec_order_key(after.max) by {
            if j < t.len() {
                assert(t[j] == s[j]);
            }
        }
        if exists|j: int| 0 <= j < s.len() && spec_is_finite(#[trigger] s[j]) {
            let j = choose|j: int| 0 <= j < s.len() && spec_is_finite(#[trigger] s[j]);
            if j < t.len() {
                assert(spec_is_finite(t[j]));
            }
        }
    }
}

/// The report on the empty buffer is zero in every field, whatever the
/// floating-point results are said to be.
pub proof fn law_empty_report(moments: Moments)
    ensures
        !any_failure(Seq::<u32>::empty()),
        report_of(summarize(Seq::<u32>::empty()), moments) == (StatsReport {
            nan_count: 0,
            inf_count: 0,
            valid_count: 0,
            mean: 0,
            variance: 0,
            l2_norm: 0,
            min_val: 0,
            max_val: 0,
        }),
{
    lemma_summarize_empty();
}

/// A buffer of nothing but not-a-numbers: all of them are counted as such,
/// none as infinite or finite, and every numeric field of the report is zero.
pub proof fn law_all_nan_report(s: Seq<u32>, moments: Moments)
    requires
        s.len() <= usize::MAX,
        forall|i: int| 0 <= i < s.len() ==> spec_is_nan(#[trigger] s[i]),
    ensures
        report_of(summarize(s), moments) == (StatsReport {
            nan_count: s.len() as usize,
            inf_count: 0,
            valid_count: 0,
            mean: 0,
            variance: 0,
            l2_norm: 0,
            min_val: 0,
            max_val: 0,
        }),
    decreases s.len(),
{
    if s.len() == 0 {
        assert(s =~= Seq::<u32>::empty());
        lemma_summarize_empty();
    } else {
        let t = s.drop_last();
        assert forall|i: int| 0 <= i < t.len() implies spec_is_nan(#[trigger] t[i]) by {
            assert(t[i] == s[i]);
        }
        law_all_nan_report(t, moments);
        lemma_summarize_push(t, s.last());
        assert(t.push(s.last()) =~= s);
        assert(spec_is_nan(s[s.len() - 1]));
    }
}

/// Without a finite entry every numeric field of the report is zero, and
/// with a single one the variance is zero, whatever the floating-point
/// results are said to be.
pub proof fn law_degenerate_report(s: Seq<u32>, moments: Moments)
    ensures
        summarize(s).valid <= 1 ==> report_of(summarize(s), moments).variance == 0,
        summarize(s).valid == 0 ==> {
            &&& report_of(summarize(s), moments).mean == 0
            &&& report_of(summarize(s), moments).variance == 0
            &&& report_of(summarize(s), moments).l2_norm == 0
            &&& report_of(summarize(s), moments).min_val == 0
            &&& report_of(summarize(s), moments).max_val == 0
        },
{
    law_extrema(s);
}

/// The extrema of the report, read as numbers. Each is the widened pattern
/// of a finite entry of the buffer, and no finite entry stands for a number
/// below the reported minimum or above the reported maximum.
pub proof fn law_reported_extrema(s: Seq<u32>, moments: Moments, j: int)
    requires
        0 <= j < s.len(),
        spec_is_finite(s[j]),
    ensures
        exists|i: int|
            0 <= i < s.len() && spec_is_finite(#[trigger] s[i]) && report_of(
                summarize(s),
                moments,
            ).min_val == widened(s[i]),
        exists|i: int|
            0 <= i < s.len() && spec_is_finite(#[trigger] s[i]) && report_of(
                summarize(s),
                moments,
            ).max_val == widened(s[i]),
        wide_scaled_value(report_of(summarize(s), moments).min_val) <= scaled_value(s[j]) * pow2(
            925,
        ),
        scaled_value(s[j]) * pow2(925) <= wide_scaled_value(
            report_of(summarize(s), moments).max_val,
        ),
{
    let low = summarize(s).min;
    let high = summarize(s).max;
    law_extrema(s);
    lemma_widening_keeps_order(low, s[j]);
    lemma_widening_keeps_order(s[j], high);
    let i = choose|i: int| 0 <= i < s.len() && #[trigger] s[i] == low;
    assert(spec_is_finite(s[i]));
    let k = choose|k: int| 0 <= k < s.len() && #[trigger] s[k] == high;
    assert(spec_is_finite(s[k]));
}

/// The report accounts for every entry, and its two failure counters
/// answer the failure test.
pub proof fn law_report_counts(s: Seq<u32>, moments: Moments)
    requires
        s.len() <= usize::MAX,
    ensures
        report_of(summarize(s), moments).nan_count + report_of(summarize(s), moments).inf_count + report_of(
            summarize(s),
            moments,
        ).valid_count == s.len(),
        any_failure(s) == (report_of(summarize(s), moments).nan_count > 0 || report_of(
            summarize(s),
            moments,
        ).inf_count > 0),
{
    lemma_counts_cover(s);
    law_failure_iff_counted(s);
}

} // verus!
