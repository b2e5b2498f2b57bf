//! Literal byte patterns inside a byte text: where a pattern occurs, where it
//! occurs last, and the text with every occurrence replaced.
//!
//! Everything here is exact literal matching. There is no escaping and no
//! grammar: a pattern occurs at an index when the bytes starting there are the
//! bytes of the pattern.

use vstd::prelude::*;

verus! {

/// The pattern `pat` occurs in `text` starting at index `i`.
pub open spec fn occurs_at(text: Seq<u8>, pat: Seq<u8>, i: int) -> bool {
    &&& 0 <= i
    &&& i + pat.len() <= text.len()
    &&& text.subrange(i, i + pat.len()) == pat
}

/// `text` begins with `pat`.
pub open spec fn has_prefix(text: Seq<u8>, pat: Seq<u8>) -> bool {
    occurs_at(text, pat, 0)
}

/// `text` ends with `pat`.
pub open spec fn has_suffix(text: Seq<u8>, pat: Seq<u8>) -> bool {
    occurs_at(text, pat, text.len() - pat.len())
}

/// `pat` occurs somewhere in `text`.
pub open spec fn contains_pattern(text: Seq<u8>, pat: Seq<u8>) -> bool {
    exists|i: int| occurs_at(text, pat, i)
}

/// The greatest index not above `from` at which `pat` occurs in `text`.
pub open spec fn last_occurrence_from(text: Seq<u8>, pat: Seq<u8>, from: int) -> Option<int>
    decreases from + 1,
{
    if from < 0 {
        None
    } else if occurs_at(text, pat, from) {
        Some(from)
    } else {
        last_occurrence_from(text, pat, from - 1)
    }
}

/// The greatest index at which `pat` occurs in `text`, if it occurs at all.
pub open spec fn last_occurrence(text: Seq<u8>, pat: Seq<u8>) -> Option<int> {
    last_occurrence_from(text, pat, text.len() - pat.len())
}

/// `text` with every occurrence of `from` replaced by `to`, scanning from the
/// left and never matching inside bytes that an earlier match has consumed.
/// An empty `from` matches nowhere.
pub open spec fn replace_all(text: Seq<u8>, from: Seq<u8>, to: Seq<u8>) -> Seq<u8>
    decreases text.len(),
{
    if text.len() == 0 {
        text
    } else if from.len() > 0 && has_prefix(text, from) {
        to + replace_all(text.subrange(from.len() as int, text.len() as int), from, to)
    } else {
        seq![text[0]] + replace_all(text.subrange(1, text.len() as int), from, to)
    }
}

/// `last_occurrence_from` returns an occurrence, and no occurrence lies
/// between it and `from`; it returns `None` only when none lies at or below
/// `from`.
pub proof fn lemma_last_occurrence_from(text: Seq<u8>, pat: Seq<u8>, from: int)
    ensures
        match last_occurrence_from(text, pat, from) {
            Some(p) => {
                &&& p <= from
                &&& occurs_at(text, pat, p)
                &&& forall|j: int| p < j <= from ==> !occurs_at(text, pat, j)
            },
            None => forall|j: int| j <= from ==> !occurs_at(text, pat, j),
        },
    decreases from + 1,
{
    if from >= 0 && !occurs_at(text, pat, from) {
        lemma_last_occurrence_from(text, pat, from - 1);
    }
}

/// `last_occurrence` is the greatest index of an occurrence: it names an
/// occurrence that no other follows, and it is `None` exactly when the pattern
/// occurs nowhere.
pub proof fn lemma_last_occurrence(text: Seq<u8>, pat: Seq<u8>)
    ensures
        match last_occurrence(text, pat) {
            Some(p) => {
                &&& occurs_at(text, pat, p)
                &&& forall|j: int| p < j ==> !occurs_at(text, pat, j)
            },
            None => !contains_pattern(text, pat),
        },
{
    lemma_last_occurrence_from(text, pat, text.len() - pat.len());
}

/// Tests whether `pat` occurs in `text` at index `i`.
pub fn matches_at(text: &[u8], pat: &[u8], i: usize) -> (found: bool)
    ensures
        found == occurs_at(text@, pat@, i as int),
{
    let n: usize = text.len();
    let m: usize = pat.len();
    if i > n || m > n - i {
        return false;
    }
    let mut k: usize = 0;
    while k < m
        invariant
            n == text@.len(),
            m == pat@.len(),
            i + m <= n,
            k <= m,
            forall|j: int| 0 <= j < k ==> text@[i + j] == pat@[j],
        decreases m - k,
    {
        if text[i + k] != pat[k] {
            proof {
                let window = text@.subrange(i as int, i + m);
                assert(window[k as int] == text@[i + k]);
            }
            return false;
        }
        k += 1;
    }
    assert(text@.subrange(i as int, i + m) =~= pat@);
    true
}

/// Tests whether `text` begins with `pat`.
pub fn starts_with(text: &[u8], pat: &[u8]) -> (found: bool)
    ensures
        found == has_prefix(text@, pat@),
{
    matches_at(text, pat, 0)
}

/// Tests whether `text` ends with `pat`.
pub fn ends_with(text: &[u8], pat: &[u8]) -> (found: bool)
    ensures
        found == has_suffix(text@, pat@),
{
    if pat.len() > text.len() {
        return false;
    }
    matches_at(text, pat, text.len() - pat.len())
}

/// Finds the last occurrence of `pat` in `text`.
pub fn rfind(text: &[u8], pat: &[u8]) -> (found: Option<usize>)
    ensures
        match found {
            Some(p) => last_occurrence(text@, pat@) == Some(p as int),
            None => last_occurrence(text@, pat@) is None,
        },
{
    if pat.len() > text.len() {
        return None;
    }
    let top: usize = text.len() - pat.len();
    let mut i: usize = top;
    loop
        invariant
            top == text@.len() - pat@.len(),
            i <= top,
            last_occurrence(text@, pat@) == last_occurrence_from(text@, pat@, i as int),
        decreases i,
    {
        if matches_at(text, pat, i) {
            return Some(i);
        }
        if i == 0 {
            return None;
        }
        i -= 1;
    }
}

/// Copies the bytes of `text` from index `start` up to, not including, `end`.
pub fn copy_range(text: &[u8], start: usize, end: usize) -> (out: Vec<u8>)
    requires
        start <= end <= text@.len(),
    ensures
        out@ == text@.subrange(start as int, end as int),
{
    let mut out: Vec<u8> = Vec::new();
    let mut i: usize = start;
    while i < end
        invariant
            start <= i <= end <= text@.len(),
            out@ == text@.subrange(start as int, i as int),
        decreases end - i,
    {
        out.push(text[i]);
        i += 1;
        assert(out@ =~= text@.subrange(start as int, i as int));
    }
    out
}

/// Appends every byte of `more` to `out`.
pub fn append_bytes(out: &mut Vec<u8>, more: &[u8])
    ensures
        final(out)@ == old(out)@ + more@,
{
    let mut i: usize = 0;
    while i < more.len()
        invariant
            i <= more@.len(),
            out@ == old(out)@ + more@.subrange(0, i as int),
        decreases more@.len() - i,
    {
        out.push(more[i]);
        i += 1;
        assert(out@ =~= old(out)@ + more@.subrange(0, i as int));
    }
    assert(more@.subrange(0, more@.len() as int) =~= more@);
}

/// Replaces every occurrence of `from` in `text` by `to`.
pub fn replace(text: &[u8], from: &[u8], to: &[u8]) -> (out: Vec<u8>)
    ensures
        out@ == replace_all(text@, from@, to@),
{
    let n: usize = text.len();
    let mut out: Vec<u8> = Vec::new();
    let mut i: usize = 0;
    proof {
        assert(text@.subrange(0, n as int) =~= text@);
        assert(out@ + replace_all(text@, from@, to@) =~= replace_all(text@, from@, to@));
    }
    while i < n
        invariant
            n == text@.len(),
            i <= n,
            out@ + replace_all(text@.subrange(i as int, n as int), from@, to@) == replace_all(
                text@,
                from@,
                to@,
            ),
        decreases n - i,
    {
        let ghost rest = text@.subrange(i as int, n as int);
        if from.len() > 0 && matches_at(text, from, i) {
            proof {
                assert(rest.subrange(0, from@.len() as int) =~= text@.subrange(
                    i as int,
                    i + from@.len(),
                ));
                assert(rest.subrange(from@.len() as int, rest.len() as int) =~= text@.subrange(
                    i + from@.len(),
                    n as int,
                ));
            }
            let ghost before = out@;
            append_bytes(&mut out, to);
            i += from.len();
            assert(out@ + replace_all(text@.subrange(i as int, n as int), from@, to@) =~= before
                + replace_all(rest, from@, to@));
        } else {
            proof {
                if from@.len() > 0 && has_prefix(rest, from@) {
                    assert(rest.subrange(0, from@.len() as int) =~= text@.subrange(
                        i as int,
                        i + from@.len(),
                    ));
                }
                assert(rest.subrange(1, rest.len() as int) =~= text@.subrange(i + 1, n as int));
            }
            let ghost before = out@;
            out.push(text[i]);
            i += 1;
            assert(out@ + replace_all(text@.subrange(i as int, n as int), from@, to@) =~= before
                + replace_all(rest, from@, to@));
        }
    }
    assert(text@.subrange(n as int, n as int) =~= Seq::<u8>::empty());
    assert(out@ + Seq::<u8>::empty() =~= out@);
    out
}

} // verus!
