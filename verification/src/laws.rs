//! What holds of the framer on every input.

use vstd::prelude::*;

use crate::envelope::EnvelopeView;
use crate::error::StreamError;
use crate::framer::closes_stream;
use crate::framer::framed;
use crate::framer::normalized;
use crate::framer::ready_of;
use crate::framer::tail_of;
use crate::framer::trim_delimiter;
use crate::framer::SplitView;
use crate::pattern::contains_pattern;
use crate::pattern::has_prefix;
use crate::pattern::has_suffix;
use crate::pattern::last_occurrence;
use crate::pattern::lemma_last_occurrence;
use crate::pattern::occurs_at;
use crate::pattern::replace_all;

verus! {

/// A text has no delimiter at either end.
pub open spec fn bare_ends(text: Seq<u8>, delimiter: Seq<u8>) -> bool {
    !has_prefix(text, delimiter) && !has_suffix(text, delimiter)
}

/// Trimming a text that has no delimiter at either end changes nothing.
pub proof fn law_trimmed_text_stays(text: Seq<u8>, delimiter: Seq<u8>)
    requires
        bare_ends(text, delimiter),
    ensures
        trim_delimiter(text, delimiter) == text,
{
}

/// Trimming takes one delimiter off each end and no more, so trimming again
/// changes nothing exactly when the first trimming left no delimiter at
/// either end.
pub proof fn law_trimming_twice(text: Seq<u8>, delimiter: Seq<u8>)
    requires
        delimiter.len() > 0,
    ensures
        trim_delimiter(trim_delimiter(text, delimiter), delimiter) == trim_delimiter(
            text,
            delimiter,
        ) <==> bare_ends(trim_delimiter(text, delimiter), delimiter),
{
    let once = trim_delimiter(text, delimiter);
    let twice = trim_delimiter(once, delimiter);
    if !bare_ends(once, delimiter) {
        assert(twice.len() < once.len());
    }
}

/// A split fails exactly when the trimmed text holds no delimiter, is
/// `buffer_size` bytes long or longer, and does not end with a suffix that
/// is not empty; and then with `OversizedEntity`. In particular a single
/// record of `buffer_size - 1` bytes is accepted, with or without a suffix
/// behind it, and one of `buffer_size` bytes that neither a delimiter nor a
/// suffix follows is not.
pub proof fn law_entity_boundary(
    text: Seq<u8>,
    envelope: EnvelopeView,
    separator: Seq<u8>,
    buffer_size: int,
)
    ensures
        framed(text, envelope, separator, buffer_size) is Err <==> ({
            let trimmed = trim_delimiter(text, envelope.delimiter);
            &&& !contains_pattern(trimmed, envelope.delimiter)
            &&& trimmed.len() >= buffer_size
            &&& !(envelope.suffix.len() > 0 && has_suffix(trimmed, envelope.suffix))
        }),
        framed(text, envelope, separator, buffer_size) matches Err(e) ==> e
            == StreamError::OversizedEntity,
        trim_delimiter(text, envelope.delimiter).len() < buffer_size ==> framed(
            text,
            envelope,
            separator,
            buffer_size,
        ) is Ok,
{
    let trimmed = trim_delimiter(text, envelope.delimiter);
    lemma_last_occurrence(trimmed, envelope.delimiter);
    match last_occurrence(trimmed, envelope.delimiter) {
        Some(p) => {
            assert(occurs_at(trimmed, envelope.delimiter, p));
        },
        None => {},
    }
}

/// A record with its suffix closes the stream whatever the size of the
/// buffer: a text that holds no delimiter and has a suffix that is not empty
/// at its end is split into that record, ready, with nothing carried over.
pub proof fn law_suffix_takes_precedence(
    record: Seq<u8>,
    envelope: EnvelopeView,
    buffer_size: int,
)
    requires
        envelope.delimiter.len() > 0,
        envelope.suffix.len() > 0,
        !contains_pattern(record + envelope.suffix, envelope.delimiter),
    ensures
        framed(record + envelope.suffix, envelope, envelope.delimiter, buffer_size) == Ok::<
            SplitView,
            StreamError,
        >(SplitView { ready: record, carry: Seq::empty(), is_final: true }),
{
    let text = record + envelope.suffix;
    let d = envelope.delimiter;
    assert(!has_prefix(text, d)) by {
        if has_prefix(text, d) {
            assert(occurs_at(text, d, 0));
        }
    }
    assert(!has_suffix(text, d)) by {
        if has_suffix(text, d) {
            assert(occurs_at(text, d, text.len() - d.len()));
        }
    }
    lemma_last_occurrence(text, d);
    match last_occurrence(text, d) {
        Some(p) => {
            assert(occurs_at(text, d, p));
        },
        None => {},
    }
    assert(tail_of(text, d) =~= text);
    assert(text.subrange(text.len() - envelope.suffix.len(), text.len() as int)
        =~= envelope.suffix);
    assert(ready_of(text, d, envelope.suffix) =~= record);
}

/// The records `records` one after the other, `delimiter` between each two.
pub open spec fn joined(records: Seq<Seq<u8>>, delimiter: Seq<u8>) -> Seq<u8>
    decreases records.len(),
{
    if records.len() == 0 {
        Seq::empty()
    } else if records.len() == 1 {
        records[0]
    } else {
        records[0] + delimiter + joined(records.drop_first(), delimiter)
    }
}

/// No delimiter of `text` reaches into its last `reserved` bytes.
pub open spec fn delimiters_end_before(text: Seq<u8>, delimiter: Seq<u8>, reserved: int) -> bool {
    forall|i: int| occurs_at(text, delimiter, i) ==> i + delimiter.len() + reserved <= text.len()
}

/// A stream that fits into the buffer is framed in one piece: the records,
/// joined by the delimiter and followed by the suffix, split into a ready
/// span that is those records in their order, nothing carried over, and the
/// stream closed.
///
/// This needs the text to have no delimiter at either end, since one there
/// is trimmed away, and no delimiter that reaches into the suffix, since the
/// suffix is looked for behind the last delimiter.
pub proof fn law_single_cycle(
    records: Seq<Seq<u8>>,
    envelope: EnvelopeView,
    buffer_size: int,
)
    requires
        envelope.delimiter.len() > 0,
        (joined(records, envelope.delimiter) + envelope.suffix).len() < buffer_size,
        bare_ends(joined(records, envelope.delimiter) + envelope.suffix, envelope.delimiter),
        delimiters_end_before(
            joined(records, envelope.delimiter) + envelope.suffix,
            envelope.delimiter,
            envelope.suffix.len() as int,
        ),
    ensures
        framed(
            joined(records, envelope.delimiter) + envelope.suffix,
            envelope,
            envelope.delimiter,
            buffer_size,
        ) == Ok::<SplitView, StreamError>(
            SplitView {
                ready: joined(records, envelope.delimiter),
                carry: Seq::empty(),
                is_final: true,
            },
        ),
{
    let body = joined(records, envelope.delimiter);
    let text = body + envelope.suffix;
    let d = envelope.delimiter;
    lemma_last_occurrence(text, d);
    let tail = tail_of(text, d);
    match last_occurrence(text, d) {
        Some(p) => {
            assert(occurs_at(text, d, p));
        },
        None => {},
    }
    assert(tail.subrange(tail.len() - envelope.suffix.len(), tail.len() as int) =~= envelope.suffix);
    assert(closes_stream(text, d, envelope.suffix));
    assert(ready_of(text, d, envelope.suffix) =~= body);
}

/// The texts of which `law_single_cycle` speaks are all there are: a text
/// that is framed into its body, ready, with nothing carried over and the
/// stream closed, has no delimiter at either end and none that reaches into
/// the suffix.
pub proof fn law_single_cycle_only_then(body: Seq<u8>, envelope: EnvelopeView, buffer_size: int)
    requires
        envelope.delimiter.len() > 0,
        framed(body + envelope.suffix, envelope, envelope.delimiter, buffer_size) == Ok::<
            SplitView,
            StreamError,
        >(SplitView { ready: body, carry: Seq::empty(), is_final: true }),
    ensures
        bare_ends(body + envelope.suffix, envelope.delimiter),
        delimiters_end_before(
            body + envelope.suffix,
            envelope.delimiter,
            envelope.suffix.len() as int,
        ),
{
    let text = body + envelope.suffix;
    let d = envelope.delimiter;
    let trimmed = trim_delimiter(text, d);
    lemma_last_occurrence(trimmed, d);
    let tail = tail_of(trimmed, d);
    assert(closes_stream(trimmed, d, envelope.suffix));
    assert(ready_of(trimmed, d, envelope.suffix).len() == trimmed.len() - envelope.suffix.len());
    assert(trimmed.len() == text.len());
    match last_occurrence(trimmed, d) {
        Some(p) => {
            assert(occurs_at(trimmed, d, p));
        },
        None => {},
    }
}

/// The delimiter occurs in the stream only where it separates two records:
/// each occurrence in the records, joined and followed by the suffix, begins
/// where some records end and others follow.
pub open spec fn only_separators(
    records: Seq<Seq<u8>>,
    delimiter: Seq<u8>,
    suffix: Seq<u8>,
) -> bool {
    forall|i: int|
        occurs_at(joined(records, delimiter) + suffix, delimiter, i) ==> exists|k: int|
            1 <= k < records.len() && i == #[trigger] joined(records.take(k), delimiter).len()
}

/// No record is empty.
pub open spec fn no_empty_record(records: Seq<Seq<u8>>) -> bool {
    forall|k: int| 0 <= k < records.len() ==> (#[trigger] records[k]).len() > 0
}

/// Joined records are the first `k` of them, a delimiter, and the others.
pub proof fn lemma_joined_in_two(records: Seq<Seq<u8>>, delimiter: Seq<u8>, k: int)
    requires
        1 <= k < records.len(),
    ensures
        joined(records, delimiter) == joined(records.take(k), delimiter) + delimiter + joined(
            records.skip(k),
            delimiter,
        ),
    decreases k,
{
    let rest = records.drop_first();
    if k == 1 {
        assert(records.take(1) =~= seq![records[0]]);
        assert(records.skip(1) =~= rest);
    } else {
        lemma_joined_in_two(rest, delimiter, k - 1);
        let head = records.take(k);
        assert(head.drop_first() =~= rest.take(k - 1));
        assert(records.skip(k) =~= rest.skip(k - 1));
        assert(head[0] == records[0]);
        assert(joined(records, delimiter) =~= joined(head, delimiter) + delimiter + joined(
            records.skip(k),
            delimiter,
        ));
    }
}

/// Joined records are at least as long as the first of them.
pub proof fn lemma_joined_holds_the_first(records: Seq<Seq<u8>>, delimiter: Seq<u8>)
    requires
        records.len() > 0,
    ensures
        joined(records, delimiter).len() >= records[0].len(),
{
}

/// Where the delimiter occurs only as a separator and no record is empty,
/// the stream has no delimiter at either end and none that reaches into the
/// suffix.
pub proof fn lemma_separators_only(
    records: Seq<Seq<u8>>,
    delimiter: Seq<u8>,
    suffix: Seq<u8>,
)
    requires
        delimiter.len() > 0,
        no_empty_record(records),
        only_separators(records, delimiter, suffix),
    ensures
        bare_ends(joined(records, delimiter) + suffix, delimiter),
        delimiters_end_before(
            joined(records, delimiter) + suffix,
            delimiter,
            suffix.len() as int,
        ),
{
    let body = joined(records, delimiter);
    let text = body + suffix;
    assert forall|i: int| occurs_at(text, delimiter, i) implies 0 < i && i + delimiter.len()
        < body.len() by {
        let k = choose|k: int|
            1 <= k < records.len() && i == #[trigger] joined(records.take(k), delimiter).len();
        lemma_joined_in_two(records, delimiter, k);
        lemma_joined_holds_the_first(records.take(k), delimiter);
        lemma_joined_holds_the_first(records.skip(k), delimiter);
        assert(records.take(k)[0] == records[0]);
        assert(records.skip(k)[0] == records[k]);
    }
    if has_prefix(text, delimiter) {
        assert(occurs_at(text, delimiter, 0));
    }
    if has_suffix(text, delimiter) {
        assert(occurs_at(text, delimiter, text.len() - delimiter.len()));
    }
}

/// Records that fit into the buffer are framed in one piece. Where the
/// delimiter occurs only as a separator and no record is empty, the
/// records, joined by the delimiter and followed by the suffix, split into
/// a ready span that is those records in their order, nothing carried over,
/// and the stream closed.
pub proof fn law_records_in_one_cycle(
    records: Seq<Seq<u8>>,
    envelope: EnvelopeView,
    buffer_size: int,
)
    requires
        envelope.delimiter.len() > 0,
        no_empty_record(records),
        only_separators(records, envelope.delimiter, envelope.suffix),
        (joined(records, envelope.delimiter) + envelope.suffix).len() < buffer_size,
    ensures
        framed(
            joined(records, envelope.delimiter) + envelope.suffix,
            envelope,
            envelope.delimiter,
            buffer_size,
        ) == Ok::<SplitView, StreamError>(
            SplitView {
                ready: joined(records, envelope.delimiter),
                carry: Seq::empty(),
                is_final: true,
            },
        ),
{
    lemma_separators_only(records, envelope.delimiter, envelope.suffix);
    law_single_cycle(records, envelope, buffer_size);
}

/// The texts of `parts` one after the other.
pub open spec fn concatenated(parts: Seq<Seq<u8>>) -> Seq<u8>
    decreases parts.len(),
{
    if parts.len() == 0 {
        Seq::empty()
    } else {
        parts[0] + concatenated(parts.drop_first())
    }
}

/// In a run that starts with `carry` in the buffer and splits after each of
/// `refills`, no text that is split has a delimiter at either end.
pub open spec fn bare_cycles(
    carry: Seq<u8>,
    refills: Seq<Seq<u8>>,
    envelope: EnvelopeView,
    buffer_size: int,
) -> bool
    decreases refills.len(),
{
    if refills.len() == 0 {
        true
    } else {
        let text = carry + refills[0];
        &&& bare_ends(text, envelope.delimiter)
        &&& match framed(text, envelope, envelope.delimiter, buffer_size) {
            Ok(parts) => bare_cycles(parts.carry, refills.drop_first(), envelope, buffer_size),
            Err(_) => true,
        }
    }
}

/// The ready spans of a run put together again. The run starts with `carry`
/// in the buffer and splits after each of `refills`; a ready span that is
/// not empty and does not close the stream is followed by the delimiter that
/// was cut off behind it. There is no result when a split fails, when the
/// stream closes before the last refill, or when it does not close at all.
pub open spec fn rejoined(
    carry: Seq<u8>,
    refills: Seq<Seq<u8>>,
    envelope: EnvelopeView,
    buffer_size: int,
) -> Option<Seq<u8>>
    decreases refills.len(),
{
    if refills.len() == 0 {
        None
    } else {
        match framed(carry + refills[0], envelope, envelope.delimiter, buffer_size) {
            Err(_) => None,
            Ok(parts) => if parts.is_final {
                if refills.len() == 1 {
                    Some(parts.ready)
                } else {
                    None
                }
            } else {
                match rejoined(parts.carry, refills.drop_first(), envelope, buffer_size) {
                    None => None,
                    Some(rest) => if parts.ready.len() > 0 {
                        Some(parts.ready + envelope.delimiter + rest)
                    } else {
                        Some(rest)
                    },
                }
            },
        }
    }
}

/// What a run hands on, followed by the suffix, is what it was given: the
/// carry it started with and then its refills.
pub proof fn lemma_rejoined_is_the_stream(
    carry: Seq<u8>,
    refills: Seq<Seq<u8>>,
    envelope: EnvelopeView,
    buffer_size: int,
)
    requires
        envelope.delimiter.len() > 0,
        bare_cycles(carry, refills, envelope, buffer_size),
        rejoined(carry, refills, envelope, buffer_size) is Some,
    ensures
        rejoined(carry, refills, envelope, buffer_size)->Some_0 + envelope.suffix == carry
            + concatenated(refills),
    decreases refills.len(),
{
    let d = envelope.delimiter;
    let text = carry + refills[0];
    let rest_refills = refills.drop_first();
    let parts = framed(text, envelope, d, buffer_size)->Ok_0;
    lemma_last_occurrence(text, d);
    if parts.is_final {
        assert(concatenated(rest_refills) =~= Seq::<u8>::empty());
        let tail = tail_of(text, d);
        assert(tail.subrange(tail.len() - envelope.suffix.len(), tail.len() as int)
            =~= text.subrange(text.len() - envelope.suffix.len(), text.len() as int));
        assert(parts.ready + envelope.suffix =~= text);
        assert(carry + concatenated(refills) =~= text);
    } else {
        lemma_rejoined_is_the_stream(parts.carry, rest_refills, envelope, buffer_size);
        let rest = rejoined(parts.carry, rest_refills, envelope, buffer_size)->Some_0;
        let handed = rejoined(carry, refills, envelope, buffer_size)->Some_0;
        match last_occurrence(text, d) {
            Some(p) => {
                assert(occurs_at(text, d, p));
                assert(p > 0) by {
                    if p == 0 {
                        assert(has_prefix(text, d));
                    }
                }
                assert(parts.ready + d + parts.carry =~= text);
                assert(handed + envelope.suffix =~= parts.ready + d + (rest + envelope.suffix));
            },
            None => {
                assert(parts.carry =~= text);
                assert(handed == rest);
            },
        }
        assert(carry + concatenated(refills) =~= text + concatenated(rest_refills));
    }
}

/// Where a stream is cut into refills does not change what is handed on:
/// the ready spans of a run over any refills, put together again, are the
/// ready span of the whole stream split in one piece.
///
/// This holds of the runs in which no text that is split has a delimiter at
/// either end. One that has is trimmed, and a delimiter taken off the end of
/// one cycle's text is missing between two records in the next.
pub proof fn law_refill_independence(
    refills: Seq<Seq<u8>>,
    envelope: EnvelopeView,
    buffer_size: int,
    whole_size: int,
)
    requires
        envelope.delimiter.len() > 0,
        bare_cycles(Seq::empty(), refills, envelope, buffer_size),
        bare_ends(concatenated(refills), envelope.delimiter),
        rejoined(Seq::empty(), refills, envelope, buffer_size) is Some,
        framed(concatenated(refills), envelope, envelope.delimiter, whole_size) matches Ok(whole)
            && whole.is_final,
    ensures
        rejoined(Seq::empty(), refills, envelope, buffer_size) == Some(
            framed(concatenated(refills), envelope, envelope.delimiter, whole_size)->Ok_0.ready,
        ),
{
    let d = envelope.delimiter;
    let stream = concatenated(refills);
    let whole = framed(stream, envelope, d, whole_size)->Ok_0;
    let handed = rejoined(Seq::empty(), refills, envelope, buffer_size)->Some_0;
    lemma_rejoined_is_the_stream(Seq::empty(), refills, envelope, buffer_size);
    assert(Seq::<u8>::empty() + stream =~= stream);
    lemma_last_occurrence(stream, d);
    let tail = tail_of(stream, d);
    assert(tail.subrange(tail.len() - envelope.suffix.len(), tail.len() as int)
        =~= stream.subrange(stream.len() - envelope.suffix.len(), stream.len() as int));
    assert(whole.ready + envelope.suffix =~= stream);
    assert(handed =~= (handed + envelope.suffix).subrange(0, handed.len() as int));
    assert(whole.ready =~= (whole.ready + envelope.suffix).subrange(0, whole.ready.len() as int));
}

/// A record is clean when no delimiter begins inside it, not even one that
/// would be completed by the delimiter that follows the record.
pub open spec fn clean_record(record: Seq<u8>, delimiter: Seq<u8>) -> bool {
    forall|i: int| 0 <= i < record.len() ==> !occurs_at(record + delimiter, delimiter, i)
}

/// Replacing a pattern by itself changes nothing.
pub proof fn law_replace_by_itself(text: Seq<u8>, pattern: Seq<u8>)
    ensures
        replace_all(text, pattern, pattern) == text,
    decreases text.len(),
{
    if text.len() == 0 {
    } else if pattern.len() > 0 && has_prefix(text, pattern) {
        let rest = text.subrange(pattern.len() as int, text.len() as int);
        law_replace_by_itself(rest, pattern);
        assert(pattern + rest =~= text);
    } else {
        let rest = text.subrange(1, text.len() as int);
        law_replace_by_itself(rest, pattern);
        assert(seq![text[0]] + rest =~= text);
    }
}

/// A clean record that stands before a delimiter is passed over unchanged,
/// and the delimiter behind it is the next one to be replaced.
pub proof fn lemma_replace_after_record(
    record: Seq<u8>,
    rest: Seq<u8>,
    delimiter: Seq<u8>,
    separator: Seq<u8>,
)
    requires
        delimiter.len() > 0,
        clean_record(record, delimiter),
    ensures
        replace_all(record + delimiter + rest, delimiter, separator) == record + separator
            + replace_all(rest, delimiter, separator),
    decreases record.len(),
{
    let text = record + delimiter + rest;
    if record.len() == 0 {
        assert(text.subrange(0, delimiter.len() as int) =~= delimiter);
        assert(text.subrange(delimiter.len() as int, text.len() as int) =~= rest);
        assert(record + separator + replace_all(rest, delimiter, separator) =~= separator
            + replace_all(rest, delimiter, separator));
    } else {
        if has_prefix(text, delimiter) {
            assert((record + delimiter).subrange(0, delimiter.len() as int) =~= text.subrange(
                0,
                delimiter.len() as int,
            ));
            assert(occurs_at(record + delimiter, delimiter, 0));
        }
        let shorter = record.subrange(1, record.len() as int);
        assert forall|i: int| 0 <= i < shorter.len() implies !occurs_at(
            shorter + delimiter,
            delimiter,
            i,
        ) by {
            if occurs_at(shorter + delimiter, delimiter, i) {
                assert((record + delimiter).subrange(i + 1, i + 1 + delimiter.len())
                    =~= (shorter + delimiter).subrange(i, i + delimiter.len()));
                assert(occurs_at(record + delimiter, delimiter, i + 1));
            }
        }
        lemma_replace_after_record(shorter, rest, delimiter, separator);
        assert(text.subrange(1, text.len() as int) =~= shorter + delimiter + rest);
        assert(seq![text[0]] + (shorter + separator + replace_all(rest, delimiter, separator))
            =~= record + separator + replace_all(rest, delimiter, separator));
    }
}

/// A text in which the pattern occurs nowhere is left as it is.
pub proof fn lemma_replace_without_occurrence(text: Seq<u8>, from: Seq<u8>, to: Seq<u8>)
    requires
        !contains_pattern(text, from),
    ensures
        replace_all(text, from, to) == text,
    decreases text.len(),
{
    if text.len() > 0 {
        if has_prefix(text, from) {
            assert(occurs_at(text, from, 0));
        }
        let rest = text.subrange(1, text.len() as int);
        assert forall|i: int| !occurs_at(rest, from, i) by {
            if occurs_at(rest, from, i) {
                assert(text.subrange(i + 1, i + 1 + from.len()) =~= rest.subrange(
                    i,
                    i + from.len(),
                ));
                assert(occurs_at(text, from, i + 1));
            }
        }
        lemma_replace_without_occurrence(rest, from, to);
        assert(seq![text[0]] + rest =~= text);
    }
}

/// Normalizing keeps the records and their order: clean records joined by
/// the delimiter become the same records joined by the separator.
pub proof fn law_normalized_records(
    records: Seq<Seq<u8>>,
    delimiter: Seq<u8>,
    separator: Seq<u8>,
)
    requires
        delimiter.len() > 0,
        forall|k: int| 0 <= k < records.len() ==> clean_record(#[trigger] records[k], delimiter),
    ensures
        normalized(joined(records, delimiter), delimiter, separator) == joined(
            records,
            separator,
        ),
    decreases records.len(),
{
    if delimiter == separator {
    } else if records.len() == 0 {
    } else if records.len() == 1 {
        let record = records[0];
        assert forall|i: int| !occurs_at(record, delimiter, i) by {
            if occurs_at(record, delimiter, i) {
                assert((record + delimiter).subrange(i, i + delimiter.len()) =~= record.subrange(
                    i,
                    i + delimiter.len(),
                ));
                assert(occurs_at(record + delimiter, delimiter, i));
            }
        }
        lemma_replace_without_occurrence(record, delimiter, separator);
    } else {
        let rest = records.drop_first();
        assert forall|k: int| 0 <= k < rest.len() implies clean_record(
            #[trigger] rest[k],
            delimiter,
        ) by {
            assert(rest[k] == records[k + 1]);
        }
        law_normalized_records(rest, delimiter, separator);
        lemma_replace_after_record(
            records[0],
            joined(rest, delimiter),
            delimiter,
            separator,
        );
    }
}

} // verus!
