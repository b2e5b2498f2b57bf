//! The ways a run can fail.

use vstd::prelude::*;
use vstd::string::StringExecFns;

use crate::progress::decimal;
use crate::progress::write_decimal;

verus! {

/// Why a run stopped before its stream was fully processed.
#[derive(Clone, Copy, Debug, PartialEq, Eq, Structural)]
pub enum StreamError {
    /// The buffer holds `buffer_size` bytes or more and neither a delimiter
    /// nor the suffix at its end: a record and what follows it up to the
    /// next delimiter or suffix do not fit into the buffer. A larger buffer
    /// size cures it.
    OversizedEntity,
    /// The source ended before the closing suffix was seen.
    MalformedStream,
    /// The transformer reported a failure and the run does not continue on
    /// errors.
    TransformFailure,
    /// Bytes read from the source are not valid UTF-8 text.
    EncodingError,
}

/// The description of an error.
pub open spec fn message_text(error: StreamError) -> Seq<char> {
    match error {
        StreamError::OversizedEntity => "entity is larger than buffer, increase the buffer size"@,
        StreamError::MalformedStream => "unexpected end of stream"@,
        StreamError::TransformFailure => "the transformer reported a failure"@,
        StreamError::EncodingError => "the bytes read are not valid UTF-8 text"@,
    }
}

/// The description of an error with the place at which it came up: the
/// number of the cycle and the number of bytes taken in until then.
pub open spec fn diagnostic_text(error: StreamError, cycle: int, byte_offset: int) -> Seq<char> {
    message_text(error) + " (cycle "@ + decimal(cycle) + ", after "@ + decimal(byte_offset)
        + " bytes)"@
}

impl StreamError {
    /// A one-line description for the person running the program.
    pub fn message(&self) -> (text: String)
        ensures
            text@ == message_text(*self),
    {
        match self {
            StreamError::OversizedEntity => "entity is larger than buffer, increase the buffer size".to_owned(),
            StreamError::MalformedStream => "unexpected end of stream".to_owned(),
            StreamError::TransformFailure => "the transformer reported a failure".to_owned(),
            StreamError::EncodingError => "the bytes read are not valid UTF-8 text".to_owned(),
        }
    }

    /// The description of the error followed by where in the run it came up.
    pub fn diagnostic(&self, cycle: u64, byte_offset: u64) -> (text: String)
        ensures
            text@ == diagnostic_text(*self, cycle as int, byte_offset as int),
    {
        let mut text = self.message();
        text.append(" (cycle ");
        write_decimal(&mut text, cycle as u128);
        text.append(", after ");
        write_decimal(&mut text, byte_offset as u128);
        text.append(" bytes)");
        text
    }
}

} // verus!
