use jbzip2::pattern::append_bytes;
use jbzip2::pattern::copy_range;
use jbzip2::pattern::ends_with;
use jbzip2::pattern::matches_at;
use jbzip2::pattern::replace;
use jbzip2::pattern::rfind;
use jbzip2::pattern::starts_with;

#[test]
fn matches_at_finds_the_pattern_only_where_it_stands() {
    let text = b"ab,\ncd,\nef";
    assert!(matches_at(text, b",\n", 2));
    assert!(matches_at(text, b",\n", 6));
    assert!(!matches_at(text, b",\n", 0));
    assert!(!matches_at(text, b",\n", 3));
    assert!(matches_at(text, b"ef", 8));
}

#[test]
fn matches_at_is_false_where_the_pattern_does_not_fit() {
    let text = b"abc";
    assert!(!matches_at(text, b"c,", 2));
    assert!(!matches_at(text, b"abcd", 0));
    assert!(!matches_at(text, b"a", 3));
    assert!(!matches_at(text, b"a", usize::MAX));
}

#[test]
fn the_empty_pattern_occurs_at_every_index_up_to_the_end() {
    assert!(matches_at(b"abc", b"", 0));
    assert!(matches_at(b"abc", b"", 3));
    assert!(!matches_at(b"abc", b"", 4));
    assert!(starts_with(b"", b""));
    assert!(ends_with(b"", b""));
    assert!(ends_with(b"abc", b""));
}

#[test]
fn starts_with_and_ends_with() {
    assert!(starts_with(b"[\n{}", b"[\n"));
    assert!(!starts_with(b"{}[\n", b"[\n"));
    assert!(!starts_with(b"[", b"[\n"));
    assert!(ends_with(b"{}\n]", b"\n]"));
    assert!(!ends_with(b"\n]{}", b"\n]"));
    assert!(!ends_with(b"]", b"\n]"));
    assert!(starts_with(b"abc", b"abc"));
    assert!(ends_with(b"abc", b"abc"));
}

#[test]
fn rfind_returns_the_last_occurrence() {
    assert_eq!(rfind(b"a,\nb,\nc", b",\n"), Some(4));
    assert_eq!(rfind(b",\nabc", b",\n"), Some(0));
    assert_eq!(rfind(b"abc,\n", b",\n"), Some(3));
    assert_eq!(rfind(b"abc", b",\n"), None);
    assert_eq!(rfind(b"", b"\n"), None);
    assert_eq!(rfind(b"a", b"ab"), None);
}

#[test]
fn rfind_of_overlapping_occurrences_is_the_rightmost() {
    assert_eq!(rfind(b"aaaa", b"aa"), Some(2));
    assert_eq!(rfind(b"xaaay", b"aa"), Some(2));
}

#[test]
fn rfind_of_the_empty_pattern_is_the_end() {
    assert_eq!(rfind(b"abc", b""), Some(3));
    assert_eq!(rfind(b"", b""), Some(0));
}

#[test]
fn replace_rewrites_every_occurrence() {
    assert_eq!(replace(b"a,\nb,\nc", b",\n", b"\n"), b"a\nb\nc".to_vec());
    assert_eq!(replace(b",\n,\n", b",\n", b"|"), b"||".to_vec());
    assert_eq!(replace(b"abc", b",\n", b"\n"), b"abc".to_vec());
    assert_eq!(replace(b"", b",\n", b"\n"), Vec::<u8>::new());
    assert_eq!(replace(b"a,b", b",", b""), b"ab".to_vec());
    assert_eq!(replace(b"a,b", b",", b", "), b"a, b".to_vec());
}

#[test]
fn replace_scans_from_the_left_without_overlap() {
    assert_eq!(replace(b"aaa", b"aa", b"b"), b"ba".to_vec());
    assert_eq!(replace(b"aaaa", b"aa", b"b"), b"bb".to_vec());
    assert_eq!(replace(b"xaaay", b"aa", b"-"), b"x-ay".to_vec());
}

#[test]
fn replace_is_literal_and_not_a_regular_expression() {
    assert_eq!(replace(b"a.b.c", b".", b"-"), b"a-b-c".to_vec());
    assert_eq!(replace(b"a+b", b".", b"-"), b"a+b".to_vec());
    assert_eq!(replace(b"a.*b", b".*", b""), b"ab".to_vec());
}

#[test]
fn replace_of_the_empty_pattern_changes_nothing() {
    assert_eq!(replace(b"abc", b"", b"-"), b"abc".to_vec());
}

#[test]
fn replace_agrees_with_the_standard_library_on_text() {
    let texts = ["a,\nb,\nc", ",\n", "", "x,,\n\n,\ny", "no delimiter here", ",\n,\n,\n"];
    for t in texts {
        let expected = t.replace(",\n", "\n");
        assert_eq!(replace(t.as_bytes(), b",\n", b"\n"), expected.as_bytes().to_vec());
    }
}

#[test]
fn rfind_agrees_with_the_standard_library_on_text() {
    let texts = ["a,\nb,\nc", ",\n", "", "x,,\n\n,\ny", "no delimiter here", ",\n,\n,\n"];
    for t in texts {
        assert_eq!(rfind(t.as_bytes(), b",\n"), t.rfind(",\n"));
    }
}

#[test]
fn copy_range_copies_the_bytes_between_the_bounds() {
    assert_eq!(copy_range(b"abcdef", 1, 4), b"bcd".to_vec());
    assert_eq!(copy_range(b"abcdef", 0, 6), b"abcdef".to_vec());
    assert_eq!(copy_range(b"abcdef", 3, 3), Vec::<u8>::new());
}

#[test]
fn append_bytes_puts_the_new_bytes_behind_the_old() {
    let mut out = b"ab".to_vec();
    append_bytes(&mut out, b"cd");
    assert_eq!(out, b"abcd".to_vec());
    append_bytes(&mut out, b"");
    assert_eq!(out, b"abcd".to_vec());
}
