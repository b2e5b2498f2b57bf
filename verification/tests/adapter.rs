use jbzip2::adapter::payload;
use jbzip2::adapter::verdict;
use jbzip2::adapter::LineVerdict;

#[test]
fn payload_of_a_plain_batch_is_the_ready_span() {
    assert_eq!(payload(b"{\"id\":1}\n{\"id\":2}", false), b"{\"id\":1}\n{\"id\":2}".to_vec());
    assert_eq!(payload(b"", false), Vec::<u8>::new());
}

#[test]
fn payload_of_an_array_batch_is_the_ready_span_in_brackets() {
    assert_eq!(payload(b"{\"id\":1},\n{\"id\":2}", true), b"[{\"id\":1},\n{\"id\":2}]".to_vec());
    assert_eq!(payload(b"", true), b"[]".to_vec());
}

#[test]
fn a_line_that_arrived_is_forwarded() {
    assert_eq!(verdict(true, false), LineVerdict::Forward);
    assert_eq!(verdict(true, true), LineVerdict::Forward);
}

#[test]
fn a_failure_is_skipped_or_ends_the_run() {
    assert_eq!(verdict(false, true), LineVerdict::Skip);
    assert_eq!(verdict(false, false), LineVerdict::Abort);
}
