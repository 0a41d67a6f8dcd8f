//! Numerical-health diagnostics over a buffer of single-precision values:
//! does it hold a not-a-number or an infinity, how many entries fall in each
//! class, and which finite entries are the lowest and the highest.
//!
//! An entry is handled as its IEEE-754 binary32 bit pattern, a `u32`, and a
//! double-precision number of the report as its binary64 pattern, a `u64`.
//! Classification, counting, the extrema, the widening of the extrema and
//! the rules for degenerate buffers are integer work and are proved here.
//! The sums over the finite entries are floating-point arithmetic: the
//! caller takes them over [`reduce::valid_entries`] and hands the results in
//! as [`report::Moments`].
//!
//! - [`ieee`]: fields, classes and total order of binary32 patterns.
//! - [`widen`]: the exact conversion of a finite binary32 pattern to binary64.
//! - [`value`]: the numbers that patterns stand for.
//! - [`summary`]: the mathematical summary of a buffer.
//! - [`partial`]: the accumulator of one worker, and how two are merged.
//! - [`reduce`]: the scans over a buffer.
//! - [`report`]: the report and how it is drawn.
//! - [`laws`]: what holds of every buffer.

pub mod ieee;
pub mod laws;
pub mod partial;
pub mod reduce;
pub mod report;
pub mod summary;
pub mod value;
pub mod widen;

pub use crate::partial::Partial;
pub use crate::reduce::{has_failure, reduce, reduce_chunked, valid_entries};
pub use crate::report::{analyze, Moments, StatsReport};
