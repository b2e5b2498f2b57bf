//! What is handed to the transformer for one batch of records, and what
//! becomes of each line that comes back from it.

use vstd::prelude::*;

use crate::pattern::append_bytes;

verus! {

/// The byte `[`.
pub const ARRAY_OPEN: u8 = 0x5b;

/// The byte `]`.
pub const ARRAY_CLOSE: u8 = 0x5d;

/// The input of the transformer for a ready span: the span itself, or the
/// span between `[` and `]` where the batch has to be an array.
pub open spec fn payload_of(ready: Seq<u8>, wrap_as_array: bool) -> Seq<u8> {
    if wrap_as_array {
        seq![ARRAY_OPEN] + ready + seq![ARRAY_CLOSE]
    } else {
        ready
    }
}

/// Builds the input of the transformer for a ready span.
pub fn payload(ready: &[u8], wrap_as_array: bool) -> (out: Vec<u8>)
    ensures
        out@ == payload_of(ready@, wrap_as_array),
{
    let mut out: Vec<u8> = Vec::new();
    if wrap_as_array {
        out.push(ARRAY_OPEN);
    }
    append_bytes(&mut out, ready);
    if wrap_as_array {
        out.push(ARRAY_CLOSE);
    }
    assert(out@ =~= payload_of(ready@, wrap_as_array));
    out
}

/// What to do with one unit of the transformer's output.
#[derive(Clone, Copy, Debug, PartialEq, Eq, Structural)]
pub enum LineVerdict {
    /// Write the line and a line terminator to the sink.
    Forward,
    /// The unit failed and the run goes on: write nothing.
    Skip,
    /// The unit failed and the run ends.
    Abort,
}

/// The verdict on one unit: a line that arrived is forwarded; a failure is
/// skipped where the run continues on errors, and ends the run where it does
/// not.
pub open spec fn verdict_of(arrived: bool, continue_on_error: bool) -> LineVerdict {
    if arrived {
        LineVerdict::Forward
    } else if continue_on_error {
        LineVerdict::Skip
    } else {
        LineVerdict::Abort
    }
}

/// Decides what to do with one unit of the transformer's output.
pub fn verdict(arrived: bool, continue_on_error: bool) -> (v: LineVerdict)
    ensures
        v == verdict_of(arrived, continue_on_error),
{
    if arrived {
        LineVerdict::Forward
    } else if continue_on_error {
        LineVerdict::Skip
    } else {
        LineVerdict::Abort
    }
}

} // verus!
