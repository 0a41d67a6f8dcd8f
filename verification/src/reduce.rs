//! The scans over a buffer: the short-circuiting failure test, the serial
//! reduction, and the reduction by chunks whose partial results are merged.

use crate::ieee::{is_finite, is_infinite, is_nan, Class};
use crate::partial::Partial;
use crate::summary::{
    any_failure, entries_of, in_class, is_failure, lemma_counts_cover, lemma_entries_of_empty,
    lemma_summarize_concat, lemma_summarize_empty, lemma_summarize_push, summarize,
};
use vstd::prelude::*;
use vstd::slice::slice_subrange;

verus! {

/// Whether the buffer holds a not-a-number or an infinity. The scan stops at
/// the first such entry; an empty buffer holds none.
pub fn has_failure(buffer: &[u32]) -> (fail: bool)
    ensures
        fail == any_failure(buffer@),
{
    let mut i: usize = 0;
    while i < buffer.len()
        invariant
            i <= buffer.len(),
            forall|j: int| 0 <= j < i ==> !is_failure(#[trigger] buffer@[j]),
        decreases buffer.len() - i,
    {
        let bits: u32 = buffer[i];
        if is_nan(bits) || is_infinite(bits) {
            assert(is_failure(buffer@[i as int]));
            return true;
        }
        i += 1;
    }
    false
}

/// Reduces the buffer in one pass from left to right.
pub fn reduce(buffer: &[u32]) -> (p: Partial)
    ensures
        p@ == summarize(buffer@),
{
    let mut acc = Partial::identity();
    let mut i: usize = 0;
    proof {
        lemma_summarize_empty();
        assert(buffer@.take(0) =~= Seq::<u32>::empty());
    }
    while i < buffer.len()
        invariant
            i <= buffer.len(),
            acc@ == summarize(buffer@.take(i as int)),
        decreases buffer.len() - i,
    {
        let bits: u32 = buffer[i];
        proof {
            let seen = buffer@.take(i as int);
            assert(seen.push(bits) =~= buffer@.take(i + 1));
            lemma_summarize_push(seen, bits);
            lemma_counts_cover(buffer@.take(i + 1));
        }
        acc = acc.absorb(bits);
        i += 1;
    }
    proof {
        assert(buffer@.take(buffer.len() as int) =~= buffer@);
    }
    acc
}

/// Reduces the buffer chunk by chunk, each chunk on its own from the
/// identity, and merges the partial results in buffer order. Every chunk
/// but the last holds `chunk_len` entries; a `chunk_len` of zero stands for
/// one chunk that holds the whole buffer. The result is that of `reduce`,
/// whatever the chunk length.
pub fn reduce_chunked(buffer: &[u32], chunk_len: usize) -> (p: Partial)
    ensures
        p@ == summarize(buffer@),
{
    let len: usize = buffer.len();
    let step: usize = if chunk_len == 0 { len } else { chunk_len };
    let mut acc = Partial::identity();
    let mut lo: usize = 0;
    proof {
        lemma_summarize_empty();
        assert(buffer@.take(0) =~= Seq::<u32>::empty());
    }
    while lo < len
        invariant
            len == buffer.len(),
            lo <= len,
            step > 0 || len == 0,
            acc@ == summarize(buffer@.take(lo as int)),
        decreases len - lo,
    {
        let hi: usize = if len - lo < step { len } else { lo + step };
        let part = reduce(slice_subrange(buffer, lo, hi));
        proof {
            let done = buffer@.take(lo as int);
            let chunk = buffer@.subrange(lo as int, hi as int);
            assert(done + chunk =~= buffer@.take(hi as int));
            lemma_summarize_concat(done, chunk);
            lemma_counts_cover(buffer@.take(hi as int));
        }
        acc = acc.merge(part);
        lo = hi;
    }
    proof {
        assert(buffer@.take(len as int) =~= buffer@);
    }
    acc
}

/// The finite entries of the buffer, in buffer order: what the sums and the
/// sums of squares are taken over.
pub fn valid_entries(buffer: &[u32]) -> (valid: Vec<u32>)
    ensures
        valid@ == entries_of(buffer@, Class::Finite),
{
    let mut valid: Vec<u32> = Vec::new();
    let mut i: usize = 0;
    proof {
        lemma_entries_of_empty(Class::Finite);
        assert(buffer@.take(0) =~= Seq::<u32>::empty());
    }
    while i < buffer.len()
        invariant
            i <= buffer.len(),
            valid@ == entries_of(buffer@.take(i as int), Class::Finite),
        decreases buffer.len() - i,
    {
        let bits: u32 = buffer[i];
        proof {
            let seen = buffer@.take(i as int);
            assert(seen.push(bits) =~= buffer@.take(i + 1));
            seen.lemma_filter_push(bits, in_class(Class::Finite));
        }
        if is_finite(bits) {
            valid.push(bits);
        }
        i += 1;
    }
    proof {
        assert(buffer@.take(buffer.len() as int) =~= buffer@);
    }
    valid
}

} // verus!
