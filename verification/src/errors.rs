//! Error taxonomy of the engine.
//!
//! Input faults (a short row, a non-numeric field) abort the stream;
//! a requested-but-never-observed label is a configuration fault,
//! surfaced before any diff is computed; a statistically significant
//! increase is reported by the regression gate only when gating is
//! enabled.  All statistics are total: undersupplied data yields the
//! explicit "insufficient data" sentinel, never an error.

use vstd::prelude::*;

use crate::label::Bench;
use crate::label::Metric;

verus! {

#[derive(Debug)]
pub enum Error {
    /// A row carried fewer values than there are metrics.
    Shape { expected: usize, got: usize },
    /// A field was not a decimal number in the supported range;
    /// `column` is its position among the metric columns, counted from 1.
    Parse { column: usize },
    /// A label was requested for comparison but never observed.
    Configuration { label: Bench },
    /// A metric's increase exceeded its 95% confidence half-width.
    Regression { from: Bench, to: Bench, metric: Metric, delta: i128 },
}

} // verus!
