//! The counters of a run.

use vstd::prelude::*;

verus! {

/// What a run has read and produced so far. No counter ever decreases.
#[derive(Clone, Copy, Debug, PartialEq, Eq, Structural)]
pub struct RunMetrics {
    /// Bytes of text taken into the buffer.
    pub total_bytes: u64,
    /// Lines of transformer output forwarded to the sink.
    pub entities_total: u64,
    /// Records for which the transformer reported that it produced nothing.
    pub entities_filtered_out: u64,
    /// Failures of the transformer that the run passed over.
    pub errors: u64,
}

/// No counter of `after` is below its value in `before`.
pub open spec fn not_decreased(before: RunMetrics, after: RunMetrics) -> bool {
    &&& before.total_bytes <= after.total_bytes
    &&& before.entities_total <= after.entities_total
    &&& before.entities_filtered_out <= after.entities_filtered_out
    &&& before.errors <= after.errors
}

impl RunMetrics {
    /// The counters of a run that has not started: all zero.
    pub fn new() -> (m: RunMetrics)
        ensures
            m == (RunMetrics { total_bytes: 0, entities_total: 0, entities_filtered_out: 0, errors: 0 }),
    {
        RunMetrics { total_bytes: 0, entities_total: 0, entities_filtered_out: 0, errors: 0 }
    }
}

} // verus!
