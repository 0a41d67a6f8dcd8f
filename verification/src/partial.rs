//! The accumulator that a worker owns while it reduces its part of a buffer.

use crate::ieee::{classify, lower, upper, Class, NEGATIVE_INFINITY, POSITIVE_INFINITY};
use crate::summary::Summary;
use vstd::prelude::*;

verus! {

/// A partial result: the counters and extrema of the entries seen so far.
/// The two running sums that go with them are floating-point numbers and
/// stay with the caller.
#[derive(Clone, Copy, Debug, PartialEq, Eq, Structural)]
pub struct Partial {
    /// Entries that are not-a-number.
    pub nan_count: usize,
    /// Entries that are positive or negative infinity.
    pub inf_count: usize,
    /// Entries that are finite.
    pub valid_count: usize,
    /// Pattern of the lowest finite entry; of positive infinity while there is none.
    pub min_bits: u32,
    /// Pattern of the highest finite entry; of negative infinity while there is none.
    pub max_bits: u32,
}

impl View for Partial {
    type V = Summary;

    open spec fn view(&self) -> Summary {
        Summary {
            nan: self.nan_count as nat,
            inf: self.inf_count as nat,
            valid: self.valid_count as nat,
            min: self.min_bits,
            max: self.max_bits,
        }
    }
}

impl Partial {
    /// The accumulator of a worker that has seen nothing yet.
    pub fn identity() -> (p: Partial)
        ensures
            p@ == Summary::identity(),
    {
        Partial {
            nan_count: 0,
            inf_count: 0,
            valid_count: 0,
            min_bits: POSITIVE_INFINITY,
            max_bits: NEGATIVE_INFINITY,
        }
    }

    /// Takes one more entry in: a not-a-number or an infinity is counted,
    /// a finite entry is counted and held against both extrema.
    pub fn absorb(self, bits: u32) -> (p: Partial)
        requires
            self@.absorb(bits).fits(),
        ensures
            p@ == self@.absorb(bits),
    {
        match classify(bits) {
            Class::Nan => Partial { nan_count: self.nan_count + 1, ..self },
            Class::Infinite => Partial { inf_count: self.inf_count + 1, ..self },
            Class::Finite => Partial {
                valid_count: self.valid_count + 1,
                min_bits: lower(self.min_bits, bits),
                max_bits: upper(self.max_bits, bits),
                ..self
            },
        }
    }

    /// Combines the results of two workers.
    pub fn merge(self, other: Partial) -> (p: Partial)
        requires
            self@.merge(other@).fits(),
        ensures
            p@ == self@.merge(other@),
    {
        Partial {
            nan_count: self.nan_count + other.nan_count,
            inf_count: self.inf_count + other.inf_count,
            valid_count: self.valid_count + other.valid_count,
            min_bits: lower(self.min_bits, other.min_bits),
            max_bits: upper(self.max_bits, other.max_bits),
        }
    }
}

} // verus!
