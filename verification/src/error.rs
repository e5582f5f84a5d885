//! The pipeline's error taxonomy.
//!
//! Every failure is fatal for the run: the pipeline aborts at the first
//! one and returns it, with no retries and no partial result.

use vstd::prelude::*;

verus! {

/// Why a run was aborted.
#[derive(Clone, Copy, Debug, PartialEq, Eq)]
pub enum PipelineError {
    /// A resource could not be opened or created.
    ResourceUnavailable,
    /// A row could not be decoded into the fixed nine-field shape.
    MalformedRecord,
    /// A quantity field could not be parsed as a non-negative integer.
    InvalidQuantity,
}

} // verus!
