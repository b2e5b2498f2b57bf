//! What holds of a run over all the reads of a source.

use vstd::prelude::*;
use vstd::utf8::valid_utf8;
use vstd::utf8::valid_utf8_concat;

use crate::adapter::payload_of;
use crate::framer::closes_stream;
use crate::framer::framed;
use crate::framer::ready_of;
use crate::framer::tail_of;
use crate::framer::trim_delimiter;
use crate::laws::bare_ends;
use crate::laws::concatenated;
use crate::laws::delimiters_end_before;
use crate::laws::joined;
use crate::laws::law_single_cycle;
use crate::laws::lemma_joined_holds_the_first;
use crate::laws::lemma_separators_only;
use crate::laws::no_empty_record;
use crate::laws::only_separators;
use crate::laws::law_suffix_takes_precedence;
use crate::metrics::RunMetrics;
use crate::orchestrator::after_read;
use crate::orchestrator::after_transform;
use crate::orchestrator::request_size;
use crate::orchestrator::well_formed;
use crate::orchestrator::ActionView;
use crate::orchestrator::Phase;
use crate::orchestrator::RunView;
use crate::pattern::contains_pattern;
use crate::pattern::last_occurrence;
use crate::pattern::lemma_last_occurrence;
use crate::pattern::occurs_at;

verus! {

/// The run after a series of reads: the source answers each read that the
/// run asks for with the next of `reads`, an empty one standing for its end,
/// until the run asks for something else than a read or the reads are used
/// up.
pub open spec fn after_reads(s: RunView, reads: Seq<Seq<u8>>) -> (RunView, ActionView)
    decreases reads.len(),
{
    if reads.len() == 0 {
        (s, ActionView::Read { max_bytes: request_size(s) })
    } else {
        let (next, action) = after_read(s, reads[0]);
        if action is Read {
            after_reads(next, reads.drop_first())
        } else {
            (next, action)
        }
    }
}

/// Every read brought at least one byte, and what it brought is text.
pub open spec fn reads_of_text(reads: Seq<Seq<u8>>) -> bool {
    forall|k: int| 0 <= k < reads.len() ==> (#[trigger] reads[k]).len() > 0 && valid_utf8(reads[k])
}

/// The run `s` with `more` put behind what its buffer holds, and counted.
pub open spec fn filled_with(s: RunView, more: Seq<u8>) -> RunView {
    RunView {
        buffer: s.buffer + more,
        metrics: RunMetrics {
            total_bytes: (s.metrics.total_bytes + more.len()) as u64,
            ..s.metrics
        },
        ..s
    }
}

/// It does not matter in how many reads the bytes of a cycle arrive: as long
/// as the buffer is not full, reads of text only fill it, and the end of the
/// source finds the run as one read of all of them would have left it.
pub proof fn lemma_reads_fill_the_buffer(s: RunView, reads: Seq<Seq<u8>>)
    requires
        s.phase == Phase::Reading,
        s.skip == 0,
        reads_of_text(reads),
        s.buffer.len() + concatenated(reads).len() < s.buffer_size,
        s.metrics.total_bytes + concatenated(reads).len() <= u64::MAX,
    ensures
        after_reads(s, reads.push(Seq::empty())) == after_read(
            filled_with(s, concatenated(reads)),
            Seq::empty(),
        ),
        valid_utf8(s.buffer) ==> valid_utf8(s.buffer + concatenated(reads)),
    decreases reads.len(),
{
    let end = Seq::<u8>::empty();
    let all = reads.push(end);
    if reads.len() == 0 {
        assert(all.drop_first() =~= Seq::<Seq<u8>>::empty());
        assert(s.buffer + concatenated(reads) =~= s.buffer);
        let same = filled_with(s, concatenated(reads));
        assert(same.buffer =~= s.buffer);
        assert(same == s);
        assert(!(after_read(s, end).1 is Read));
    } else {
        let first = reads[0];
        let rest = reads.drop_first();
        let next = filled_with(s, first);
        assert(all[0] == first);
        assert(all.drop_first() =~= rest.push(end));
        assert(after_read(s, first) == (
            next,
            ActionView::Read { max_bytes: request_size(next) },
        ));
        assert forall|k: int| 0 <= k < rest.len() implies (#[trigger] rest[k]).len() > 0
            && valid_utf8(rest[k]) by {
            assert(rest[k] == reads[k + 1]);
        }
        lemma_reads_fill_the_buffer(next, rest);
        let done = filled_with(next, concatenated(rest));
        let direct = filled_with(s, concatenated(reads));
        assert(done.buffer =~= direct.buffer);
        assert(done == direct);
        if valid_utf8(s.buffer) {
            valid_utf8_concat(s.buffer, first);
            assert(s.buffer + first + concatenated(rest) =~= s.buffer + concatenated(reads));
        }
    }
}

/// A stream that fits into the buffer runs in one cycle, in however many
/// reads it arrives. Once the prefix is dropped, the reads bring the
/// records, joined by the delimiter and followed by the suffix; the buffer
/// is never full, so the run reads on until the source has ended; then the
/// buffer is split and the transformer is handed the records in their
/// order, all of them and nothing else; and the run finishes when the
/// transformer has.
///
/// The text has to be one that is framed in one piece: see
/// `law_single_cycle`. Each read has to bring text, as every read has to.
pub proof fn law_single_cycle_in_any_reads(
    s: RunView,
    records: Seq<Seq<u8>>,
    reads: Seq<Seq<u8>>,
)
    requires
        well_formed(s),
        s.phase == Phase::Reading,
        s.skip == 0,
        s.buffer.len() == 0,
        s.separator == s.envelope.delimiter,
        reads_of_text(reads),
        concatenated(reads) == joined(records, s.envelope.delimiter) + s.envelope.suffix,
        joined(records, s.envelope.delimiter).len() > 0,
        concatenated(reads).len() < s.buffer_size,
        s.metrics.total_bytes + concatenated(reads).len() <= u64::MAX,
        bare_ends(concatenated(reads), s.envelope.delimiter),
        delimiters_end_before(
            concatenated(reads),
            s.envelope.delimiter,
            s.envelope.suffix.len() as int,
        ),
    ensures
        ({
            let (split, action) = after_reads(s, reads.push(Seq::empty()));
            &&& action == (ActionView::Transform {
                payload: payload_of(joined(records, s.envelope.delimiter), s.wrap_as_array),
            })
            &&& split.phase == Phase::Transforming
            &&& split.metrics.total_bytes == s.metrics.total_bytes + concatenated(reads).len()
            &&& after_transform(split, 0).1 == ActionView::Finish
            &&& after_transform(split, 0).0.phase == Phase::Finished
        }),
{
    let text = concatenated(reads);
    lemma_reads_fill_the_buffer(s, reads);
    law_single_cycle(records, s.envelope, s.buffer_size);
    assert(s.buffer + text =~= text);
}

/// Records that fit into the buffer are handed to the transformer in one
/// batch, in their order, all of them and nothing else, in however many
/// reads they arrive; and the run finishes when the transformer has. This
/// holds of the streams in which the delimiter occurs only as a separator
/// and no record is empty.
pub proof fn law_records_run_in_one_cycle(
    s: RunView,
    records: Seq<Seq<u8>>,
    reads: Seq<Seq<u8>>,
)
    requires
        well_formed(s),
        s.phase == Phase::Reading,
        s.skip == 0,
        s.buffer.len() == 0,
        s.separator == s.envelope.delimiter,
        records.len() > 0,
        no_empty_record(records),
        only_separators(records, s.envelope.delimiter, s.envelope.suffix),
        reads_of_text(reads),
        concatenated(reads) == joined(records, s.envelope.delimiter) + s.envelope.suffix,
        concatenated(reads).len() < s.buffer_size,
        s.metrics.total_bytes + concatenated(reads).len() <= u64::MAX,
    ensures
        ({
            let (split, action) = after_reads(s, reads.push(Seq::empty()));
            &&& action == (ActionView::Transform {
                payload: payload_of(joined(records, s.envelope.delimiter), s.wrap_as_array),
            })
            &&& after_transform(split, 0).1 == ActionView::Finish
            &&& after_transform(split, 0).0.phase == Phase::Finished
        }),
{
    lemma_separators_only(records, s.envelope.delimiter, s.envelope.suffix);
    lemma_joined_holds_the_first(records, s.envelope.delimiter);
    law_single_cycle_in_any_reads(s, records, reads);
}

/// A single record one byte shorter than the buffer runs to its end, with
/// no suffix behind it or one of one byte. With the suffix the record fills
/// the buffer and is split at once; without it the buffer is not full, and
/// the end of the source closes the stream. Either way the transformer is
/// handed the record, and the run finishes when the transformer has.
///
/// A longer suffix does not fit into the buffer behind such a record.
pub proof fn law_boundary_run(s: RunView, record: Seq<u8>)
    requires
        well_formed(s),
        s.phase == Phase::Reading,
        s.skip == 0,
        s.buffer.len() == 0,
        !s.exhausted,
        s.separator == s.envelope.delimiter,
        s.envelope.suffix.len() <= 1,
        record.len() == s.buffer_size - 1,
        record.len() > 0,
        valid_utf8(record + s.envelope.suffix),
        !contains_pattern(record + s.envelope.suffix, s.envelope.delimiter),
        s.metrics.total_bytes + s.buffer_size <= u64::MAX,
    ensures
        ({
            let (split, action) = after_reads(
                s,
                seq![record + s.envelope.suffix, Seq::empty()],
            );
            &&& action == (ActionView::Transform { payload: payload_of(record, s.wrap_as_array) })
            &&& after_transform(split, 0).1 == ActionView::Finish
        }),
{
    let text = record + s.envelope.suffix;
    let d = s.envelope.delimiter;
    let reads = seq![text, Seq::<u8>::empty()];
    reveal_with_fuel(after_reads, 3);
    assert(s.buffer + text =~= text);
    assert(reads.drop_first() =~= seq![Seq::<u8>::empty()]);
    assert(reads.drop_first().drop_first() =~= Seq::<Seq<u8>>::empty());
    if s.envelope.suffix.len() == 1 {
        law_suffix_takes_precedence(record, s.envelope, s.buffer_size);
    } else {
        assert(text =~= record);
        assert(!occurs_at(text, d, 0));
        assert(!occurs_at(text, d, text.len() - d.len()));
        lemma_last_occurrence(text, d);
        match last_occurrence(text, d) {
            Some(p) => {
                assert(occurs_at(text, d, p));
            },
            None => {},
        }
        let filled = after_read(s, text).0;
        assert(filled.buffer =~= text);
        assert(trim_delimiter(text, d) == text);
        assert(tail_of(text, d) =~= text);
        assert(text.subrange(text.len() as int, text.len() as int) =~= s.envelope.suffix);
        assert(closes_stream(text, d, s.envelope.suffix));
        assert(ready_of(text, d, s.envelope.suffix) =~= text);
        match framed(text, s.envelope, d, s.buffer_size) {
            Ok(parts) => {
                assert(parts.is_final);
                assert(parts.ready =~= record);
            },
            Err(_) => {},
        }
    }
}

/// The ready span inside a payload: the payload without its brackets, where
/// it has them.
pub open spec fn batch_of(payload: Seq<u8>, wrap_as_array: bool) -> Seq<u8> {
    if wrap_as_array {
        payload.subrange(1, payload.len() - 1)
    } else {
        payload
    }
}

/// The text that the read `chunk` causes to be split, if it causes a split:
/// the buffer when the source has ended, and the buffer with the chunk behind
/// it when that fills it.
pub open spec fn text_to_split(s: RunView, chunk: Seq<u8>) -> Option<Seq<u8>> {
    if s.skip > 0 {
        None
    } else if chunk.len() == 0 {
        if s.buffer.len() == 0 {
            None
        } else {
            Some(s.buffer)
        }
    } else if valid_utf8(chunk) && (s.buffer + chunk).len() >= s.buffer_size {
        Some(s.buffer + chunk)
    } else {
        None
    }
}

/// The run as it goes on behind the action that a read led to, with a
/// transformer that fails on nothing: behind a read it is where the read
/// left it, behind a batch that does not close the stream it is where the
/// end of the batch leaves it, and behind anything else it does not go on.
pub open spec fn resumed(next: RunView, action: ActionView) -> Option<RunView> {
    match action {
        ActionView::Read { max_bytes } => Some(next),
        ActionView::Transform { payload } => if next.is_final {
            None
        } else {
            Some(after_transform(next, 0).0)
        },
        ActionView::Finish => None,
        ActionView::Fail(e) => None,
    }
}

/// In the run over `reads`, no text that is split has a delimiter at either
/// end.
pub open spec fn bare_run(s: RunView, reads: Seq<Seq<u8>>) -> bool
    decreases reads.len(),
{
    if reads.len() == 0 {
        true
    } else {
        let (next, action) = after_read(s, reads[0]);
        &&& text_to_split(s, reads[0]) matches Some(text) ==> bare_ends(
            text,
            s.envelope.delimiter,
        )
        &&& resumed(next, action) matches Some(on) ==> bare_run(on, reads.drop_first())
    }
}

/// What a whole run hands to the transformer, put together again as one
/// text. The source answers the reads of the run with `reads`, the last of
/// which is its end; the transformer fails on nothing. Each batch that does
/// not close the stream is followed by the delimiter that was cut off behind
/// it. There is no result when the run fails, when it finishes before the
/// last of the reads, or when the reads are used up before it finishes.
pub open spec fn handed_on(s: RunView, reads: Seq<Seq<u8>>) -> Option<Seq<u8>>
    decreases reads.len(),
{
    if reads.len() == 0 {
        None
    } else {
        let (next, action) = after_read(s, reads[0]);
        let rest = reads.drop_first();
        match action {
            ActionView::Read { max_bytes } => handed_on(next, rest),
            ActionView::Transform { payload } => {
                let batch = batch_of(payload, s.wrap_as_array);
                if next.is_final {
                    if rest.len() == 0 {
                        Some(batch)
                    } else {
                        None
                    }
                } else {
                    match handed_on(after_transform(next, 0).0, rest) {
                        Some(more) => Some(batch + s.envelope.delimiter + more),
                        None => None,
                    }
                }
            },
            ActionView::Finish => if rest.len() == 0 {
                Some(Seq::empty())
            } else {
                None
            },
            ActionView::Fail(e) => None,
        }
    }
}

/// A run that is reading records: the prefix is behind it, the suffix and
/// the end of the source before it, and the transformer is handed the
/// records separated as the stream separates them.
pub open spec fn reading_records(s: RunView) -> bool {
    &&& s.envelope.delimiter.len() > 0
    &&& s.separator == s.envelope.delimiter
    &&& s.phase == Phase::Reading
    &&& s.skip == 0
    &&& !s.is_final
    &&& !s.exhausted
}

/// A payload holds the ready span it was made of.
pub proof fn lemma_batch_of_payload(ready: Seq<u8>, wrap_as_array: bool)
    ensures
        batch_of(payload_of(ready, wrap_as_array), wrap_as_array) == ready,
{
    assert(batch_of(payload_of(ready, wrap_as_array), wrap_as_array) =~= ready);
}

/// A split of a text with no delimiter at either end loses nothing: the
/// ready span, the delimiter behind it if it is not empty, and the carry
/// are the text; and where the split closes the stream, the ready span and
/// the suffix are.
pub proof fn lemma_split_loses_nothing(
    text: Seq<u8>,
    envelope: crate::envelope::EnvelopeView,
    buffer_size: int,
)
    requires
        envelope.delimiter.len() > 0,
        bare_ends(text, envelope.delimiter),
        framed(text, envelope, envelope.delimiter, buffer_size) is Ok,
    ensures
        ({
            let parts = framed(text, envelope, envelope.delimiter, buffer_size)->Ok_0;
            if parts.is_final {
                parts.ready + envelope.suffix == text
            } else if parts.ready.len() > 0 {
                parts.ready + envelope.delimiter + parts.carry == text
            } else {
                parts.carry == text
            }
        }),
{
    let d = envelope.delimiter;
    let parts = framed(text, envelope, d, buffer_size)->Ok_0;
    lemma_last_occurrence(text, d);
    let tail = tail_of(text, d);
    if parts.is_final {
        assert(tail.subrange(tail.len() - envelope.suffix.len(), tail.len() as int)
            =~= text.subrange(text.len() - envelope.suffix.len(), text.len() as int));
        assert(parts.ready + envelope.suffix =~= text);
    } else {
        match last_occurrence(text, d) {
            Some(p) => {
                assert(occurs_at(text, d, p));
                assert(p > 0) by {
                    if p == 0 {
                        assert(crate::pattern::has_prefix(text, d));
                    }
                }
                assert(parts.ready + d + parts.carry =~= text);
            },
            None => {
                assert(parts.carry =~= text);
            },
        }
    }
}

/// What a run hands on, followed by the suffix, is what it was given: the
/// text in its buffer and then what the reads brought.
pub proof fn lemma_handed_on_is_the_stream(s: RunView, reads: Seq<Seq<u8>>)
    requires
        reading_records(s),
        bare_run(s, reads),
        handed_on(s, reads) is Some,
    ensures
        handed_on(s, reads)->Some_0 + s.envelope.suffix == s.buffer + concatenated(reads),
    decreases reads.len(),
{
    let d = s.envelope.delimiter;
    let suffix = s.envelope.suffix;
    let chunk = reads[0];
    let rest = reads.drop_first();
    let (next, action) = after_read(s, chunk);
    let handed = handed_on(s, reads)->Some_0;
    match text_to_split(s, chunk) {
        None => {
            // The read only filled the buffer.
            assert(action is Read);
            assert(next.buffer == s.buffer + chunk);
            lemma_handed_on_is_the_stream(next, rest);
            assert(s.buffer + concatenated(reads) =~= next.buffer + concatenated(rest));
        },
        Some(text) => {
            assert(s.buffer + concatenated(reads) =~= text + concatenated(rest)) by {
                if chunk.len() == 0 {
                    assert(s.buffer + chunk =~= s.buffer);
                }
            }
            assert(framed(text, s.envelope, d, s.buffer_size) is Ok);
            let parts = framed(text, s.envelope, d, s.buffer_size)->Ok_0;
            lemma_split_loses_nothing(text, s.envelope, s.buffer_size);
            lemma_batch_of_payload(parts.ready, s.wrap_as_array);
            if parts.is_final {
                assert(rest.len() == 0);
                assert(concatenated(rest) =~= Seq::<u8>::empty());
                assert(handed =~= parts.ready);
                assert(text + concatenated(rest) =~= text);
            } else if parts.ready.len() > 0 {
                let on = after_transform(next, 0).0;
                assert(on.buffer == parts.carry);
                lemma_handed_on_is_the_stream(on, rest);
                let more = handed_on(on, rest)->Some_0;
                assert(handed == parts.ready + d + more);
                assert(handed + suffix =~= parts.ready + d + (more + suffix));
                assert(text + concatenated(rest) =~= parts.ready + d + (parts.carry
                    + concatenated(rest)));
            } else {
                assert(next.buffer == parts.carry);
                lemma_handed_on_is_the_stream(next, rest);
            }
        },
    }
}

/// What a run hands to the transformer does not depend on the size of its
/// buffer, nor on where the reads cut the stream: two runs over the same
/// stream that both finish hand on the same text, batch by batch put
/// together again.
///
/// This holds of the runs in which no text that is split has a delimiter at
/// either end. One that has is trimmed, and a delimiter taken off the end
/// of one cycle's text is missing between two records in the next.
pub proof fn law_buffer_size_independence(
    one: RunView,
    reads_of_one: Seq<Seq<u8>>,
    other: RunView,
    reads_of_other: Seq<Seq<u8>>,
)
    requires
        reading_records(one),
        reading_records(other),
        one.envelope == other.envelope,
        one.buffer.len() == 0,
        other.buffer.len() == 0,
        concatenated(reads_of_one) == concatenated(reads_of_other),
        bare_run(one, reads_of_one),
        bare_run(other, reads_of_other),
        handed_on(one, reads_of_one) is Some,
        handed_on(other, reads_of_other) is Some,
    ensures
        handed_on(one, reads_of_one) == handed_on(other, reads_of_other),
{
    let suffix = one.envelope.suffix;
    let a = handed_on(one, reads_of_one)->Some_0;
    let b = handed_on(other, reads_of_other)->Some_0;
    lemma_handed_on_is_the_stream(one, reads_of_one);
    lemma_handed_on_is_the_stream(other, reads_of_other);
    assert(one.buffer + concatenated(reads_of_one) =~= concatenated(reads_of_one));
    assert(other.buffer + concatenated(reads_of_other) =~= concatenated(reads_of_other));
    assert(a + suffix == b + suffix);
    assert(a.len() == b.len());
    assert(a =~= (a + suffix).subrange(0, a.len() as int));
    assert(b =~= (b + suffix).subrange(0, b.len() as int));
}

} // verus!
