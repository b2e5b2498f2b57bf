//! The chunk framer: cuts the text of a bounded buffer into the records that
//! are complete and the tail that has to wait for more bytes.
//!
//! One split works on the whole text of the buffer, which is what the last
//! split carried over followed by what was read since:
//!
//! 1. One occurrence of the delimiter is taken off the front of the text, and
//!    then one off its end.
//! 2. The last occurrence of the delimiter in what is left is looked up. If
//!    there is none, the text is one record that is not yet complete, or
//!    the last one with the suffix behind it. Such a text that ends with a
//!    suffix that is not empty closes the stream, whatever its length.
//!    Otherwise, if it is `buffer_size` bytes long or longer, the record and
//!    what follows it up to the next delimiter or suffix do not fit into the
//!    buffer: the split fails. The length that counts is the one after step
//!    1. The empty suffix does not save a text from this test, since every
//!    text ends with it.
//! 3. The text is cut at that last delimiter (at its start when there is
//!    none). In front of the delimiter lie complete records, behind it the
//!    tail; the delimiter itself belongs to neither.
//! 4. A tail that ends with the suffix closes the stream: without the suffix
//!    it is the last record, and the ready span is the whole text up to the
//!    suffix. Otherwise the ready span is what lies in front of the last
//!    delimiter, and the tail is carried into the next split. Every tail
//!    ends with the empty suffix, so a stream without a suffix is closed by
//!    its first split and has to fit into one buffer.
//! 5. Where the transformer separates records otherwise than the stream does,
//!    each delimiter in the ready span is replaced by that separator.
//!
//! All matching is of bytes. In UTF-8 the bytes of one text occur in another
//! only where its characters do, so for text this is matching of characters,
//! and no split cuts a character in two (see `text_laws`).

use vstd::prelude::*;
use vstd::slice::slice_subrange;

use crate::envelope::EnvelopeConfig;
use crate::envelope::EnvelopeView;
use crate::error::StreamError;
use crate::pattern::copy_range;
use crate::pattern::ends_with;
use crate::pattern::has_prefix;
use crate::pattern::has_suffix;
use crate::pattern::last_occurrence;
use crate::pattern::lemma_last_occurrence;
use crate::pattern::occurs_at;
use crate::pattern::replace;
use crate::pattern::replace_all;
use crate::pattern::rfind;
use crate::pattern::starts_with;

verus! {

/// What one split yields.
#[derive(Debug)]
pub struct Split {
    /// The complete records, separated as the transformer expects them.
    pub ready: Vec<u8>,
    /// The tail to put in front of the bytes read next.
    pub carry: Vec<u8>,
    /// Whether the closing suffix was seen, so that `ready` ends the stream.
    pub is_final: bool,
}

/// A split as byte sequences.
pub struct SplitView {
    pub ready: Seq<u8>,
    pub carry: Seq<u8>,
    pub is_final: bool,
}

impl View for Split {
    type V = SplitView;

    open spec fn view(&self) -> SplitView {
        SplitView { ready: self.ready@, carry: self.carry@, is_final: self.is_final }
    }
}

/// `text` without `pat` at its front, if it begins with `pat`.
pub open spec fn strip_leading(text: Seq<u8>, pat: Seq<u8>) -> Seq<u8> {
    if has_prefix(text, pat) {
        text.subrange(pat.len() as int, text.len() as int)
    } else {
        text
    }
}

/// `text` without `pat` at its end, if it ends with `pat`.
pub open spec fn strip_trailing(text: Seq<u8>, pat: Seq<u8>) -> Seq<u8> {
    if has_suffix(text, pat) {
        text.subrange(0, text.len() - pat.len())
    } else {
        text
    }
}

/// `text` with one occurrence of the delimiter taken off its front and then
/// one off its end.
pub open spec fn trim_delimiter(text: Seq<u8>, delimiter: Seq<u8>) -> Seq<u8> {
    strip_trailing(strip_leading(text, delimiter), delimiter)
}

/// Where a trimmed text is cut: behind its last delimiter, or at its start
/// when it holds none.
pub open spec fn cut_point(trimmed: Seq<u8>, delimiter: Seq<u8>) -> int {
    match last_occurrence(trimmed, delimiter) {
        Some(p) => p + delimiter.len(),
        None => 0,
    }
}

/// A trimmed text is oversized when it holds no delimiter, is `buffer_size`
/// bytes long or longer, and does not end with a suffix that is not empty.
pub open spec fn oversized(
    trimmed: Seq<u8>,
    delimiter: Seq<u8>,
    suffix: Seq<u8>,
    buffer_size: int,
) -> bool {
    &&& last_occurrence(trimmed, delimiter) is None
    &&& trimmed.len() >= buffer_size
    &&& !(suffix.len() > 0 && has_suffix(trimmed, suffix))
}

/// The tail of a trimmed text: what lies behind the cut.
pub open spec fn tail_of(trimmed: Seq<u8>, delimiter: Seq<u8>) -> Seq<u8> {
    trimmed.subrange(cut_point(trimmed, delimiter), trimmed.len() as int)
}

/// A trimmed text closes the stream when its tail ends with the suffix.
pub open spec fn closes_stream(trimmed: Seq<u8>, delimiter: Seq<u8>, suffix: Seq<u8>) -> bool {
    has_suffix(tail_of(trimmed, delimiter), suffix)
}

/// The complete records of a trimmed text, delimiters as in the stream: the
/// text up to the suffix when it closes the stream, else what lies in front of
/// the last delimiter.
pub open spec fn ready_of(trimmed: Seq<u8>, delimiter: Seq<u8>, suffix: Seq<u8>) -> Seq<u8> {
    if closes_stream(trimmed, delimiter, suffix) {
        trimmed.subrange(0, trimmed.len() - suffix.len())
    } else {
        match last_occurrence(trimmed, delimiter) {
            Some(p) => trimmed.subrange(0, p),
            None => Seq::empty(),
        }
    }
}

/// What a trimmed text leaves for the next split: nothing when it closes the
/// stream, else its tail.
pub open spec fn carry_of(trimmed: Seq<u8>, delimiter: Seq<u8>, suffix: Seq<u8>) -> Seq<u8> {
    if closes_stream(trimmed, delimiter, suffix) {
        Seq::empty()
    } else {
        tail_of(trimmed, delimiter)
    }
}

/// A ready span with the stream's delimiter replaced by the transformer's
/// separator, where the two differ.
pub open spec fn normalized(ready: Seq<u8>, delimiter: Seq<u8>, separator: Seq<u8>) -> Seq<u8> {
    if delimiter == separator {
        ready
    } else {
        replace_all(ready, delimiter, separator)
    }
}

/// The split of a buffer text, or the failure to split it.
pub open spec fn framed(
    text: Seq<u8>,
    envelope: EnvelopeView,
    separator: Seq<u8>,
    buffer_size: int,
) -> Result<SplitView, StreamError> {
    let trimmed = trim_delimiter(text, envelope.delimiter);
    if oversized(trimmed, envelope.delimiter, envelope.suffix, buffer_size) {
        Err(StreamError::OversizedEntity)
    } else {
        Ok(
            SplitView {
                ready: normalized(
                    ready_of(trimmed, envelope.delimiter, envelope.suffix),
                    envelope.delimiter,
                    separator,
                ),
                carry: carry_of(trimmed, envelope.delimiter, envelope.suffix),
                is_final: closes_stream(trimmed, envelope.delimiter, envelope.suffix),
            },
        )
    }
}

/// Trimming never lengthens a text.
pub proof fn lemma_trim_is_no_longer(text: Seq<u8>, delimiter: Seq<u8>)
    ensures
        trim_delimiter(text, delimiter).len() <= text.len(),
{
}

/// A split leaves less than a full buffer behind: when the text fits into the
/// buffer, what is carried over is shorter than `buffer_size`.
pub proof fn lemma_framed_carry_is_shorter(
    text: Seq<u8>,
    envelope: EnvelopeView,
    separator: Seq<u8>,
    buffer_size: int,
)
    requires
        envelope.delimiter.len() > 0,
        buffer_size > 0,
        text.len() <= buffer_size,
    ensures
        framed(text, envelope, separator, buffer_size) matches Ok(parts) ==> parts.carry.len()
            < buffer_size,
{
    let trimmed = trim_delimiter(text, envelope.delimiter);
    lemma_trim_is_no_longer(text, envelope.delimiter);
    lemma_last_occurrence(trimmed, envelope.delimiter);
    if last_occurrence(trimmed, envelope.delimiter) is None {
        assert(tail_of(trimmed, envelope.delimiter) =~= trimmed);
    }
}

/// Takes one occurrence of the delimiter off the front of `text` and then one
/// off its end.
pub fn trim<'a>(text: &'a [u8], delimiter: &[u8]) -> (trimmed: &'a [u8])
    ensures
        trimmed@ == trim_delimiter(text@, delimiter@),
{
    let front: &[u8] = if starts_with(text, delimiter) {
        slice_subrange(text, delimiter.len(), text.len())
    } else {
        text
    };
    if ends_with(front, delimiter) {
        slice_subrange(front, 0, front.len() - delimiter.len())
    } else {
        front
    }
}

/// Replaces the stream's delimiter in a ready span by the transformer's
/// separator, where the two differ.
pub fn normalize(ready: Vec<u8>, delimiter: &[u8], separator: &[u8]) -> (out: Vec<u8>)
    ensures
        out@ == normalized(ready@, delimiter@, separator@),
{
    if same_bytes(delimiter, separator) {
        ready
    } else {
        replace(ready.as_slice(), delimiter, separator)
    }
}

/// Tests whether two byte texts are equal.
pub fn same_bytes(a: &[u8], b: &[u8]) -> (same: bool)
    ensures
        same == (a@ == b@),
{
    if a.len() != b.len() {
        return false;
    }
    let mut i: usize = 0;
    while i < a.len()
        invariant
            a@.len() == b@.len(),
            i <= a@.len(),
            forall|j: int| 0 <= j < i ==> a@[j] == b@[j],
        decreases a@.len() - i,
    {
        if a[i] != b[i] {
            return false;
        }
        i += 1;
    }
    assert(a@ =~= b@);
    true
}

/// Splits the text of the buffer into the records that are complete and the
/// tail to carry over.
///
/// Fails with `OversizedEntity`, and with nothing else, exactly when the
/// text, trimmed of its delimiters at both ends, holds no delimiter, is
/// `buffer_size` bytes long or longer, and does not end with a suffix that
/// is not empty.
pub fn split(text: &[u8], config: &EnvelopeConfig, separator: &[u8], buffer_size: usize) -> (out:
    Result<Split, StreamError>)
    ensures
        match out {
            Ok(s) => framed(text@, config@, separator@, buffer_size as int) == Ok::<
                SplitView,
                StreamError,
            >(s@),
            Err(e) => framed(text@, config@, separator@, buffer_size as int) == Err::<
                SplitView,
                StreamError,
            >(e),
        },
{
    let delimiter = config.delimiter();
    let suffix = config.suffix();
    let trimmed = trim(text, delimiter);
    let found = rfind(trimmed, delimiter);
    let length: usize = trimmed.len();
    proof {
        lemma_last_occurrence(trimmed@, delimiter@);
    }
    let cut: usize = match found {
        Some(p) => {
            assert(occurs_at(trimmed@, delimiter@, p as int));
            p + delimiter.len()
        },
        None => {
            if length >= buffer_size && !(suffix.len() > 0 && ends_with(trimmed, suffix)) {
                return Err(StreamError::OversizedEntity);
            }
            0
        },
    };
    let tail = slice_subrange(trimmed, cut, length);
    if ends_with(tail, suffix) {
        let ready = copy_range(trimmed, 0, length - suffix.len());
        Ok(Split { ready: normalize(ready, delimiter, separator), carry: Vec::new(), is_final: true })
    } else {
        let ready = match found {
            Some(p) => copy_range(trimmed, 0, p),
            None => Vec::new(),
        };
        let carry = copy_range(tail, 0, tail.len());
        assert(carry@ =~= tail@);
        Ok(Split { ready: normalize(ready, delimiter, separator), carry, is_final: false })
    }
}

} // verus!
