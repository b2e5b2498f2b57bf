//! Splitting keeps text: what is cut out of valid UTF-8 at a delimiter that
//! is itself valid UTF-8 is valid UTF-8 again.

use vstd::prelude::*;
use vstd::utf8::is_char_boundary;
use vstd::utf8::is_char_boundary_iff_not_is_continuation_byte;
use vstd::utf8::is_continuation_byte;
use vstd::utf8::length_of_first_scalar;
use vstd::utf8::pop_first_scalar;
use vstd::utf8::valid_utf8;
use vstd::utf8::valid_utf8_concat;
use vstd::utf8::valid_utf8_split;

use crate::envelope::EnvelopeView;
use crate::framer::framed;
use crate::framer::ready_of;
use crate::framer::strip_leading;
use crate::framer::tail_of;
use crate::framer::trim_delimiter;
use crate::pattern::has_prefix;
use crate::pattern::last_occurrence;
use crate::pattern::lemma_last_occurrence;
use crate::pattern::occurs_at;
use crate::pattern::replace_all;

verus! {

/// What follows valid text inside valid text is valid text.
pub proof fn lemma_text_behind_text(front: Seq<u8>, rest: Seq<u8>)
    requires
        valid_utf8(front + rest),
        valid_utf8(front),
    ensures
        valid_utf8(rest),
    decreases front.len(),
{
    if front.len() == 0 {
        assert(front + rest =~= rest);
    } else {
        let whole = front + rest;
        assert(whole[0] == front[0]);
        assert(front.len() >= length_of_first_scalar(front));
        assert(forall|j: int| 0 <= j < front.len() ==> whole[j] == front[j]);
        assert(pop_first_scalar(whole) =~= pop_first_scalar(front) + rest);
        lemma_text_behind_text(pop_first_scalar(front), rest);
    }
}

/// Text begins with a byte that starts a character.
pub proof fn lemma_text_begins_a_character(text: Seq<u8>)
    requires
        valid_utf8(text),
        text.len() > 0,
    ensures
        !is_continuation_byte(text[0]),
{
}

/// Where a pattern that is text occurs in text, text lies in front of it and
/// text lies behind it.
pub proof fn lemma_text_around_pattern(text: Seq<u8>, pat: Seq<u8>, i: int)
    requires
        valid_utf8(text),
        valid_utf8(pat),
        pat.len() > 0,
        occurs_at(text, pat, i),
    ensures
        valid_utf8(text.subrange(0, i)),
        valid_utf8(text.subrange(i + pat.len(), text.len() as int)),
{
    lemma_text_begins_a_character(pat);
    assert(text.subrange(i, i + pat.len())[0] == pat[0]);
    is_char_boundary_iff_not_is_continuation_byte(text, i);
    valid_utf8_split(text, i);
    let behind = text.subrange(i + pat.len(), text.len() as int);
    assert(text.subrange(i, text.len() as int) =~= pat + behind);
    lemma_text_behind_text(pat, behind);
}

/// Where the pattern begins at none of the first `k` bytes, replacing passes
/// those bytes on as they are.
pub proof fn lemma_replace_passes_over(text: Seq<u8>, from: Seq<u8>, to: Seq<u8>, k: int)
    requires
        0 <= k <= text.len(),
        from.len() > 0,
        forall|j: int| 0 <= j < k ==> !occurs_at(text, from, j),
    ensures
        replace_all(text, from, to) == text.subrange(0, k) + replace_all(
            text.subrange(k, text.len() as int),
            from,
            to,
        ),
    decreases k,
{
    if k == 0 {
        assert(text.subrange(0, text.len() as int) =~= text);
        assert(text.subrange(0, 0) + replace_all(text, from, to) =~= replace_all(text, from, to));
    } else {
        assert(!occurs_at(text, from, 0));
        let rest = text.subrange(1, text.len() as int);
        assert forall|j: int| 0 <= j < k - 1 implies !occurs_at(rest, from, j) by {
            if occurs_at(rest, from, j) {
                assert(text.subrange(j + 1, j + 1 + from.len()) =~= rest.subrange(
                    j,
                    j + from.len(),
                ));
                assert(occurs_at(text, from, j + 1));
            }
        }
        lemma_replace_passes_over(rest, from, to, k - 1);
        assert(rest.subrange(k - 1, rest.len() as int) =~= text.subrange(k, text.len() as int));
        assert(seq![text[0]] + rest.subrange(0, k - 1) =~= text.subrange(0, k));
        assert(seq![text[0]] + (rest.subrange(0, k - 1) + replace_all(
            text.subrange(k, text.len() as int),
            from,
            to,
        )) =~= text.subrange(0, k) + replace_all(text.subrange(k, text.len() as int), from, to));
    }
}

/// Replacing text by text in text gives text.
pub proof fn lemma_replace_keeps_text(text: Seq<u8>, from: Seq<u8>, to: Seq<u8>)
    requires
        valid_utf8(text),
        valid_utf8(from),
        valid_utf8(to),
        from.len() > 0,
    ensures
        valid_utf8(replace_all(text, from, to)),
    decreases text.len(),
{
    if text.len() == 0 {
    } else if has_prefix(text, from) {
        let rest = text.subrange(from.len() as int, text.len() as int);
        lemma_text_around_pattern(text, from, 0);
        lemma_replace_keeps_text(rest, from, to);
        valid_utf8_concat(to, replace_all(rest, from, to));
    } else {
        let width = length_of_first_scalar(text);
        let rest = pop_first_scalar(text);
        lemma_text_begins_a_character(from);
        assert forall|j: int| 0 <= j < width implies !occurs_at(text, from, j) by {
            if occurs_at(text, from, j) {
                assert(text.subrange(j, j + from.len())[0] == from[0]);
                assert(j > 0);
                assert(is_continuation_byte(text[j]));
            }
        }
        lemma_replace_passes_over(text, from, to, width);
        assert(is_char_boundary(text, width)) by {
            reveal_with_fuel(is_char_boundary, 2);
            if rest.len() > 0 {
                assert(is_char_boundary(rest, 0));
            }
        }
        valid_utf8_split(text, width);
        lemma_replace_keeps_text(rest, from, to);
        valid_utf8_concat(text.subrange(0, width), replace_all(rest, from, to));
    }
}

/// The parts of an envelope and the separator are text.
pub open spec fn textual(envelope: EnvelopeView, separator: Seq<u8>) -> bool {
    &&& valid_utf8(envelope.delimiter)
    &&& valid_utf8(envelope.suffix)
    &&& valid_utf8(separator)
}

/// Trimming text gives text.
pub proof fn lemma_trim_keeps_text(text: Seq<u8>, delimiter: Seq<u8>)
    requires
        valid_utf8(text),
        valid_utf8(delimiter),
        delimiter.len() > 0,
    ensures
        valid_utf8(trim_delimiter(text, delimiter)),
{
    let front = strip_leading(text, delimiter);
    if has_prefix(text, delimiter) {
        lemma_text_around_pattern(text, delimiter, 0);
    }
    if occurs_at(front, delimiter, front.len() - delimiter.len()) {
        lemma_text_around_pattern(front, delimiter, front.len() - delimiter.len());
    }
}

/// Splitting keeps text: where the buffer holds text and the envelope and
/// the separator are text, the ready span is text and so is what is carried
/// over. No character is ever cut in two by a split.
pub proof fn law_split_keeps_text(
    text: Seq<u8>,
    envelope: EnvelopeView,
    separator: Seq<u8>,
    buffer_size: int,
)
    requires
        valid_utf8(text),
        textual(envelope, separator),
        envelope.delimiter.len() > 0,
    ensures
        framed(text, envelope, separator, buffer_size) matches Ok(parts) ==> valid_utf8(
            parts.ready,
        ) && valid_utf8(parts.carry),
{
    let d = envelope.delimiter;
    let s = envelope.suffix;
    let trimmed = trim_delimiter(text, d);
    lemma_trim_keeps_text(text, d);
    lemma_last_occurrence(trimmed, d);
    let tail = tail_of(trimmed, d);
    match last_occurrence(trimmed, d) {
        Some(p) => {
            lemma_text_around_pattern(trimmed, d, p);
        },
        None => {
            assert(tail =~= trimmed);
        },
    }
    let ready = ready_of(trimmed, d, s);
    if occurs_at(tail, s, tail.len() - s.len()) {
        if s.len() == 0 {
            assert(ready =~= trimmed);
        } else {
            assert(tail.subrange(tail.len() - s.len(), tail.len() as int) =~= trimmed.subrange(
                trimmed.len() - s.len(),
                trimmed.len() as int,
            ));
            lemma_text_around_pattern(trimmed, s, trimmed.len() - s.len());
        }
    }
    assert(valid_utf8(ready));
    lemma_replace_keeps_text(ready, d, separator);
}

} // verus!
