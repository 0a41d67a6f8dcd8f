//! What a buffer of bit patterns is summarized to: how many entries fall in
//! each class, and the lowest and the highest of the finite ones.

use crate::ieee::{
    class_of, spec_is_infinite, spec_is_nan, spec_lower, spec_order_key, spec_upper, Class,
    NEGATIVE_INFINITY, POSITIVE_INFINITY,
};
use vstd::prelude::*;

verus! {

/// The test "is of class `c`", as a value that can be handed to `Seq::filter`.
pub open spec fn in_class(c: Class) -> spec_fn(u32) -> bool {
    |bits: u32| class_of(bits) == c
}

/// The entries of class `c`, in the order in which the buffer holds them.
pub open spec fn entries_of(s: Seq<u32>, c: Class) -> Seq<u32> {
    s.filter(in_class(c))
}

/// How many entries are of class `c`.
pub open spec fn count_of(s: Seq<u32>, c: Class) -> nat {
    entries_of(s, c).len()
}

/// The entry that comes first in the total order, positive infinity where
/// there is none. Among finite entries that is the one of least value; of
/// the two zeros, which are equal in value, the negative one.
pub open spec fn lowest(v: Seq<u32>) -> u32
    decreases v.len(),
{
    if v.len() == 0 {
        POSITIVE_INFINITY
    } else {
        spec_lower(lowest(v.drop_last()), v.last())
    }
}

/// The entry that comes last in the total order, negative infinity where
/// there is none. Among finite entries that is the one of greatest value; of
/// the two zeros, which are equal in value, the positive one.
pub open spec fn highest(v: Seq<u32>) -> u32
    decreases v.len(),
{
    if v.len() == 0 {
        NEGATIVE_INFINITY
    } else {
        spec_upper(highest(v.drop_last()), v.last())
    }
}

/// Whether some entry is not-a-number or infinite.
pub open spec fn any_failure(s: Seq<u32>) -> bool {
    exists|i: int| 0 <= i < s.len() && is_failure(#[trigger] s[i])
}

/// Whether one entry is not-a-number or infinite.
pub open spec fn is_failure(bits: u32) -> bool {
    spec_is_nan(bits) || spec_is_infinite(bits)
}

/// The order-exact part of a reduction: three counters and two extrema.
pub struct Summary {
    /// Entries that are not-a-number.
    pub nan: nat,
    /// Entries that are positive or negative infinity.
    pub inf: nat,
    /// Entries that are finite.
    pub valid: nat,
    /// The lowest finite entry; positive infinity while there is none.
    pub min: u32,
    /// The highest finite entry; negative infinity while there is none.
    pub max: u32,
}

impl Summary {
    /// The summary of no entries: the value every reduction starts from.
    pub open spec fn identity() -> Summary {
        Summary { nan: 0, inf: 0, valid: 0, min: POSITIVE_INFINITY, max: NEGATIVE_INFINITY }
    }

    /// The summary after one more entry.
    pub open spec fn absorb(self, bits: u32) -> Summary {
        match class_of(bits) {
            Class::Nan => Summary { nan: self.nan + 1, ..self },
            Class::Infinite => Summary { inf: self.inf + 1, ..self },
            Class::Finite => Summary {
                valid: self.valid + 1,
                min: spec_lower(self.min, bits),
                max: spec_upper(self.max, bits),
                ..self
            },
        }
    }

    /// The summary of two parts taken together: counters add up, extrema
    /// are the lower of the two minima and the higher of the two maxima.
    pub open spec fn merge(self, other: Summary) -> Summary {
        Summary {
            nan: self.nan + other.nan,
            inf: self.inf + other.inf,
            valid: self.valid + other.valid,
            min: spec_lower(self.min, other.min),
            max: spec_upper(self.max, other.max),
        }
    }

    /// How many entries the summary accounts for.
    pub open spec fn total(self) -> nat {
        self.nan + self.inf + self.valid
    }

    /// Each counter can be held in a `usize`.
    pub open spec fn fits(self) -> bool {
        self.nan <= usize::MAX && self.inf <= usize::MAX && self.valid <= usize::MAX
    }

    /// The minimum is no later in the total order than positive infinity and
    /// the maximum no earlier than negative infinity: what holds of the
    /// identity and of everything that is reached from it.
    pub open spec fn bounded(self) -> bool {
        &&& spec_order_key(self.min) <= spec_order_key(POSITIVE_INFINITY)
        &&& spec_order_key(NEGATIVE_INFINITY) <= spec_order_key(self.max)
    }
}

/// The summary of a buffer.
pub open spec fn summarize(s: Seq<u32>) -> Summary {
    let finite = entries_of(s, Class::Finite);
    Summary {
        nan: count_of(s, Class::Nan),
        inf: count_of(s, Class::Infinite),
        valid: finite.len(),
        min: lowest(finite),
        max: highest(finite),
    }
}

/// The partial results of a run of chunks, merged from the identity in the
/// order of the chunks.
pub open spec fn merge_all(parts: Seq<Summary>) -> Summary
    decreases parts.len(),
{
    if parts.len() == 0 {
        Summary::identity()
    } else {
        merge_all(parts.drop_last()).merge(parts.last())
    }
}

/// The empty buffer holds no entry of any class.
pub proof fn lemma_entries_of_empty(c: Class)
    ensures
        entries_of(Seq::<u32>::empty(), c) == Seq::<u32>::empty(),
{
    reveal(Seq::filter);
    assert(entries_of(Seq::<u32>::empty(), c) =~= Seq::<u32>::empty());
}

/// The empty buffer is summarized to the identity.
pub proof fn lemma_summarize_empty()
    ensures
        summarize(Seq::<u32>::empty()) == Summary::identity(),
{
    lemma_entries_of_empty(Class::Nan);
    lemma_entries_of_empty(Class::Infinite);
    lemma_entries_of_empty(Class::Finite);
}

/// One more entry at the end of a buffer is one `absorb` on its summary.
pub proof fn lemma_summarize_push(s: Seq<u32>, bits: u32)
    ensures
        summarize(s.push(bits)) == summarize(s).absorb(bits),
{
    s.lemma_filter_push(bits, in_class(Class::Nan));
    s.lemma_filter_push(bits, in_class(Class::Infinite));
    s.lemma_filter_push(bits, in_class(Class::Finite));
    if class_of(bits) == Class::Finite {
        let finite = entries_of(s, Class::Finite);
        assert(finite.push(bits).drop_last() =~= finite);
    }
}

/// Whatever a buffer holds, its lowest entry is no later in the total order
/// than positive infinity, and its highest no earlier than negative infinity.
pub proof fn lemma_extrema_bounded(v: Seq<u32>)
    ensures
        spec_order_key(lowest(v)) <= spec_order_key(POSITIVE_INFINITY),
        spec_order_key(NEGATIVE_INFINITY) <= spec_order_key(highest(v)),
    decreases v.len(),
{
    if v.len() > 0 {
        lemma_extrema_bounded(v.drop_last());
    }
}

/// The extrema of two buffers laid end to end are the extrema of their extrema.
pub proof fn lemma_extrema_concat(a: Seq<u32>, b: Seq<u32>)
    ensures
        lowest(a + b) == spec_lower(lowest(a), lowest(b)),
        highest(a + b) == spec_upper(highest(a), highest(b)),
    decreases b.len(),
{
    if b.len() == 0 {
        assert(a + b =~= a);
        lemma_extrema_bounded(a);
    } else {
        assert((a + b).drop_last() =~= a + b.drop_last());
        assert((a + b).last() == b.last());
        lemma_extrema_concat(a, b.drop_last());
    }
}

/// The summary of two buffers laid end to end is the merge of their summaries.
pub proof fn lemma_summarize_concat(a: Seq<u32>, b: Seq<u32>)
    ensures
        summarize(a + b) == summarize(a).merge(summarize(b)),
{
    Seq::filter_distributes_over_add(a, b, in_class(Class::Nan));
    Seq::filter_distributes_over_add(a, b, in_class(Class::Infinite));
    Seq::filter_distributes_over_add(a, b, in_class(Class::Finite));
    lemma_extrema_concat(entries_of(a, Class::Finite), entries_of(b, Class::Finite));
}

/// Every entry is counted exactly once: the three counters add up to the
/// length of the buffer.
pub proof fn lemma_counts_cover(s: Seq<u32>)
    ensures
        summarize(s).nan + summarize(s).inf + summarize(s).valid == s.len(),
    decreases s.len(),
{
    if s.len() == 0 {
        assert(s =~= Seq::<u32>::empty());
        lemma_summarize_empty();
    } else {
        lemma_counts_cover(s.drop_last());
        lemma_summarize_push(s.drop_last(), s.last());
        assert(s.drop_last().push(s.last()) =~= s);
    }
}

} // verus!
