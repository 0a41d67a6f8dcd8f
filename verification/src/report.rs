//! The report handed back to the caller, and how it is drawn from a
//! reduction and from the floating-point results over the finite entries.

use crate::ieee::spec_is_finite;
use crate::laws::{law_extrema, law_failure_iff_counted};
use crate::partial::Partial;
use crate::reduce::reduce;
use crate::summary::{any_failure, lemma_counts_cover, summarize, Summary};
use crate::widen::{widen_finite, widened};
use vstd::prelude::*;

verus! {

/// What double-precision arithmetic gave over the finite entries of a
/// buffer, each result as a binary64 pattern. The patterns are carried, never
/// read: which of them reach the report is decided by the counters alone.
#[derive(Clone, Copy, Debug, PartialEq, Eq, Structural)]
pub struct Moments {
    /// The sum of the finite entries divided by their number.
    pub mean: u64,
    /// The sum of their squares divided by their number, less the square of
    /// the mean.
    pub variance: u64,
    /// The square root of the sum of their squares.
    pub l2_norm: u64,
}

/// The report on one buffer. The five numeric fields are binary64 patterns.
#[derive(Clone, Copy, Debug, PartialEq, Eq, Structural)]
pub struct StatsReport {
    /// Entries that are not-a-number.
    pub nan_count: usize,
    /// Entries that are positive or negative infinity.
    pub inf_count: usize,
    /// Entries that are finite.
    pub valid_count: usize,
    /// Mean of the finite entries; zero where there is none.
    pub mean: u64,
    /// Population variance of the finite entries; zero where there are fewer than two.
    pub variance: u64,
    /// Root of the sum of squares of the finite entries; zero where there is none.
    pub l2_norm: u64,
    /// The lowest finite entry; zero where there is none.
    pub min_val: u64,
    /// The highest finite entry; zero where there is none.
    pub max_val: u64,
}

/// An extremum as the report shows it: widened where it is finite, zero
/// where the reduction never met a finite entry.
pub open spec fn shown(extremum: u32) -> u64 {
    if spec_is_finite(extremum) {
        widened(extremum)
    } else {
        0
    }
}

/// The report that belongs to a summary and to the floating-point results.
/// The counters are taken as they are. The mean needs one finite entry and
/// the variance two; short of that each is zero, whatever `moments` holds.
/// Without a finite entry the sum of squares is zero, and so is its root.
pub open spec fn report_of(summary: Summary, moments: Moments) -> StatsReport
    recommends
        summary.fits(),
{
    StatsReport {
        nan_count: summary.nan as usize,
        inf_count: summary.inf as usize,
        valid_count: summary.valid as usize,
        mean: if summary.valid > 0 {
            moments.mean
        } else {
            0
        },
        variance: if summary.valid > 1 {
            moments.variance
        } else {
            0
        },
        l2_norm: if summary.valid > 0 {
            moments.l2_norm
        } else {
            0
        },
        min_val: shown(summary.min),
        max_val: shown(summary.max),
    }
}

impl Partial {
    /// Closes a reduction: draws the report from the counters, the extrema
    /// and the floating-point results.
    pub fn finish(self, moments: Moments) -> (report: StatsReport)
        ensures
            report == report_of(self@, moments),
    {
        StatsReport {
            nan_count: self.nan_count,
            inf_count: self.inf_count,
            valid_count: self.valid_count,
            mean: if self.valid_count > 0 {
                moments.mean
            } else {
                0
            },
            variance: if self.valid_count > 1 {
                moments.variance
            } else {
                0
            },
            l2_norm: if self.valid_count > 0 {
                moments.l2_norm
            } else {
                0
            },
            min_val: match widen_finite(self.min_bits) {
                Some(wide) => wide,
                None => 0,
            },
            max_val: match widen_finite(self.max_bits) {
                Some(wide) => wide,
                None => 0,
            },
        }
    }
}

/// Analyzes a buffer: reduces it in one pass and draws the report.
/// `moments` holds what double-precision arithmetic gave over the finite
/// entries of this buffer, taken in buffer order.
///
/// Every entry is counted in exactly one of the three counters. The two
/// failure counters answer the failure test. With fewer than two finite
/// entries the variance is zero, and with none every numeric field is.
pub fn analyze(buffer: &[u32], moments: Moments) -> (report: StatsReport)
    ensures
        report == report_of(summarize(buffer@), moments),
        report.nan_count + report.inf_count + report.valid_count == buffer@.len(),
        (report.nan_count > 0 || report.inf_count > 0) == any_failure(buffer@),
        report.valid_count <= 1 ==> report.variance == 0,
        report.valid_count == 0 ==> report.mean == 0 && report.l2_norm == 0 && report.min_val == 0
            && report.max_val == 0,
{
    proof {
        lemma_counts_cover(buffer@);
        law_failure_iff_counted(buffer@);
        law_extrema(buffer@);
    }
    reduce(buffer).finish(moments)
}

} // verus!
