//! What holds of a run in every state it passes through.

use vstd::prelude::*;
use vstd::utf8::pop_first_scalar;
use vstd::utf8::valid_utf8;
use vstd::utf8::valid_utf8_concat;

use crate::adapter::payload_of;
use crate::adapter::ARRAY_CLOSE;
use crate::adapter::ARRAY_OPEN;
use crate::envelope::EnvelopeView;
use crate::framer::framed;
use crate::framer::lemma_framed_carry_is_shorter;
use crate::metrics::not_decreased;
use crate::orchestrator::after_line;
use crate::orchestrator::after_read;
use crate::orchestrator::after_split;
use crate::orchestrator::after_transform;
use crate::orchestrator::bounded;
use crate::orchestrator::initial;
use crate::orchestrator::request_size;
use crate::orchestrator::well_formed;
use crate::orchestrator::ActionView;
use crate::orchestrator::Phase;
use crate::orchestrator::RunView;
use crate::text_laws::law_split_keeps_text;
use crate::text_laws::textual;

verus! {

/// A state as an event can find it. Beyond being well formed: a run has a
/// failure exactly when it has failed; it is finished only when the suffix
/// was seen; once the suffix was seen, nothing is left in the buffer and
/// nothing more is read; and nothing is read from a source that has ended.
pub open spec fn coherent(s: RunView) -> bool {
    &&& well_formed(s)
    &&& s.phase != Phase::Splitting
    &&& s.failure is Some <==> s.phase == Phase::Failed
    &&& s.phase == Phase::Finished ==> s.is_final
    &&& s.is_final ==> s.buffer.len() == 0 && s.phase != Phase::Reading
    &&& s.exhausted ==> s.phase != Phase::Reading
    &&& s.exhausted && s.phase == Phase::Transforming ==> s.is_final
}

/// Two states of one run have the same settings: the envelope, the
/// separator, the buffer size and the two switches.
pub open spec fn same_settings(a: RunView, b: RunView) -> bool {
    &&& a.envelope == b.envelope
    &&& a.separator == b.separator
    &&& a.buffer_size == b.buffer_size
    &&& a.wrap_as_array == b.wrap_as_array
    &&& a.continue_on_error == b.continue_on_error
}

/// `after` can follow `before` in a run: the settings are the same, no
/// counter has decreased, and a suffix that was seen or a source that has
/// ended stays so.
pub open spec fn follows(before: RunView, after: RunView) -> bool {
    &&& same_settings(before, after)
    &&& not_decreased(before.metrics, after.metrics)
    &&& before.cycles <= after.cycles
    &&& before.skip >= after.skip
    &&& before.is_final ==> after.is_final
    &&& before.exhausted ==> after.exhausted
}

/// The run `s` can take `chunk` as the answer to the read it asked for.
pub open spec fn can_read(s: RunView, chunk: Seq<u8>) -> bool {
    &&& s.phase == Phase::Reading
    &&& chunk.len() <= request_size(s)
    &&& s.metrics.total_bytes + chunk.len() <= u64::MAX
}

/// The run `s` can take a unit of transformer output.
pub open spec fn can_take_line(s: RunView) -> bool {
    &&& s.phase == Phase::Transforming
    &&& s.metrics.entities_total < u64::MAX
    &&& s.metrics.errors < u64::MAX
}

/// The run `s` can take the end of a batch.
pub open spec fn can_end_transform(s: RunView, filtered_out: int) -> bool {
    &&& s.phase == Phase::Transforming
    &&& 0 <= filtered_out
    &&& s.metrics.entities_filtered_out + filtered_out <= u64::MAX
}

/// A run starts coherent, and its first read is one of at least one byte.
pub proof fn law_initial_is_coherent(
    envelope: EnvelopeView,
    separator: Seq<u8>,
    buffer_size: int,
    wrap_as_array: bool,
    continue_on_error: bool,
)
    requires
        envelope.delimiter.len() > 0,
        buffer_size > 0,
    ensures
        coherent(initial(envelope, separator, buffer_size, wrap_as_array, continue_on_error)),
        request_size(initial(envelope, separator, buffer_size, wrap_as_array, continue_on_error))
            >= 1,
{
}

/// A split of a bounded buffer leaves a well-formed state: the buffer never
/// outgrows `buffer_size`, and a read that is asked for next has room for at
/// least one byte. A split changes no counter.
pub proof fn law_split_keeps_well_formed(s: RunView)
    requires
        bounded(s),
    ensures
        well_formed(after_split(s).0),
        after_split(s).0.metrics == s.metrics,
        same_settings(s, after_split(s).0),
        after_split(s).1 matches ActionView::Read { max_bytes } ==> max_bytes >= 1,
{
    lemma_framed_carry_is_shorter(s.buffer, s.envelope, s.separator, s.buffer_size);
}

/// A read leaves a run coherent and never takes it back: the settings stay,
/// no counter decreases, and a read that is asked for next is one of at
/// least one byte. What it asks of the caller is what the state then says.
pub proof fn law_read_keeps_coherent(s: RunView, chunk: Seq<u8>)
    requires
        coherent(s),
        can_read(s, chunk),
    ensures
        coherent(after_read(s, chunk).0),
        follows(s, after_read(s, chunk).0),
        after_read(s, chunk).1 matches ActionView::Read { max_bytes } ==> max_bytes >= 1,
        action_fits(after_read(s, chunk).0, after_read(s, chunk).1),
{
    let ended = RunView { phase: Phase::Splitting, exhausted: true, ..s };
    law_split_keeps_well_formed(ended);
    if chunk.len() > 0 && s.skip == 0 {
        let filled = RunView {
            phase: Phase::Splitting,
            buffer: s.buffer + chunk,
            metrics: crate::metrics::RunMetrics {
                total_bytes: (s.metrics.total_bytes + chunk.len()) as u64,
                ..s.metrics
            },
            ..s
        };
        law_split_keeps_well_formed(filled);
    }
}

/// An action says where the run stands: it is asked to read only while
/// reading, to transform only while transforming, to finish only when
/// finished, and it fails with the failure that the state holds.
pub open spec fn action_fits(s: RunView, action: ActionView) -> bool {
    match action {
        ActionView::Read { max_bytes } => s.phase == Phase::Reading && max_bytes == request_size(
            s,
        ),
        ActionView::Transform { payload } => s.phase == Phase::Transforming,
        ActionView::Finish => s.phase == Phase::Finished,
        ActionView::Fail(e) => s.phase == Phase::Failed && s.failure == Some(e),
    }
}

/// A unit of output leaves a run coherent and never takes it back. A line
/// that arrived adds one entity, a failure that is passed over adds one
/// error, and nothing else changes a counter; a failure that is not passed
/// over fails the run with `TransformFailure`.
pub proof fn law_line_keeps_coherent(s: RunView, arrived: bool)
    requires
        coherent(s),
        can_take_line(s),
    ensures
        coherent(after_line(s, arrived).0),
        follows(s, after_line(s, arrived).0),
        after_line(s, arrived).0.metrics.entities_total == s.metrics.entities_total + (if arrived {
            1int
        } else {
            0int
        }),
        after_line(s, arrived).0.metrics.errors == s.metrics.errors + (if !arrived
            && s.continue_on_error {
            1int
        } else {
            0int
        }),
        after_line(s, arrived).0.phase == Phase::Failed <==> !arrived && !s.continue_on_error,
        after_line(s, arrived).0.phase == Phase::Failed ==> after_line(s, arrived).0.failure
            == Some(crate::error::StreamError::TransformFailure),
{
}

/// The end of a batch leaves a run coherent and never takes it back. The run
/// is finished exactly when the batch closed the stream, and reads on
/// otherwise.
pub proof fn law_transform_end_keeps_coherent(s: RunView, filtered_out: int)
    requires
        coherent(s),
        can_end_transform(s, filtered_out),
    ensures
        coherent(after_transform(s, filtered_out).0),
        follows(s, after_transform(s, filtered_out).0),
        action_fits(after_transform(s, filtered_out).0, after_transform(s, filtered_out).1),
        after_transform(s, filtered_out).0.phase == Phase::Finished <==> s.is_final,
        after_transform(s, filtered_out).1 matches ActionView::Read { max_bytes } ==> max_bytes
            >= 1,
{
}

/// The run works on text: its envelope and separator are text, and so is
/// what waits in its buffer.
pub open spec fn holds_text(s: RunView) -> bool {
    &&& textual(s.envelope, s.separator)
    &&& valid_utf8(s.buffer)
}

/// A ready span that is text makes a payload that is text, in brackets or
/// not.
pub proof fn lemma_payload_is_text(ready: Seq<u8>, wrap_as_array: bool)
    requires
        valid_utf8(ready),
    ensures
        valid_utf8(payload_of(ready, wrap_as_array)),
{
    let open = seq![ARRAY_OPEN];
    let close = seq![ARRAY_CLOSE];
    assert(valid_utf8(open)) by {
        reveal_with_fuel(valid_utf8, 2);
        assert(pop_first_scalar(open) =~= Seq::<u8>::empty());
    }
    assert(valid_utf8(close)) by {
        reveal_with_fuel(valid_utf8, 2);
        assert(pop_first_scalar(close) =~= Seq::<u8>::empty());
    }
    valid_utf8_concat(open, ready);
    valid_utf8_concat(open + ready, close);
}

/// The transformer is handed text and nothing else: a run that works on
/// text still does after a read, whatever bytes the source brought, and the
/// payload of a batch is valid UTF-8.
pub proof fn law_read_keeps_text(s: RunView, chunk: Seq<u8>)
    requires
        coherent(s),
        can_read(s, chunk),
        holds_text(s),
    ensures
        holds_text(after_read(s, chunk).0),
        after_read(s, chunk).1 matches ActionView::Transform { payload } ==> valid_utf8(payload),
{
    let text = if chunk.len() == 0 {
        s.buffer
    } else {
        s.buffer + chunk
    };
    if chunk.len() > 0 && s.skip == 0 && valid_utf8(chunk) {
        valid_utf8_concat(s.buffer, chunk);
    }
    if valid_utf8(text) {
        law_split_keeps_text(text, s.envelope, s.separator, s.buffer_size);
        match framed(text, s.envelope, s.separator, s.buffer_size) {
            Ok(parts) => {
                lemma_payload_is_text(parts.ready, s.wrap_as_array);
            },
            Err(_) => {},
        }
    }
}

} // verus!
