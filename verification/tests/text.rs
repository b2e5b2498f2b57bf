use jbzip2::error::StreamError;
use jbzip2::text::check_text;

#[test]
fn ascii_and_multibyte_text_is_accepted() {
    assert_eq!(check_text(b""), Ok(()));
    assert_eq!(check_text(b"{\"id\":1}"), Ok(()));
    assert_eq!(check_text("Zürich — 東京 🚀".as_bytes()), Ok(()));
}

#[test]
fn bytes_that_are_not_text_are_refused() {
    assert_eq!(check_text(&[0xff]), Err(StreamError::EncodingError));
    assert_eq!(check_text(&[b'a', 0x80, b'b']), Err(StreamError::EncodingError));
    assert_eq!(check_text(&[0xc0, 0xaf]), Err(StreamError::EncodingError));
    assert_eq!(check_text(&[0xed, 0xa0, 0x80]), Err(StreamError::EncodingError));
    assert_eq!(check_text(&[0xf4, 0x90, 0x80, 0x80]), Err(StreamError::EncodingError));
}

#[test]
fn a_character_cut_in_two_is_refused() {
    let text = "é".as_bytes();
    assert_eq!(text.len(), 2);
    assert_eq!(check_text(&text[..1]), Err(StreamError::EncodingError));
    assert_eq!(check_text(&text[1..]), Err(StreamError::EncodingError));
    let text = "a🚀".as_bytes();
    assert_eq!(check_text(&text[..3]), Err(StreamError::EncodingError));
    assert_eq!(check_text(&text[..1]), Ok(()));
}

#[test]
fn check_text_agrees_with_the_standard_library() {
    let mut state: u32 = 12345;
    let mut round: u32 = 0;
    while round < 20000 {
        let mut bytes: Vec<u8> = Vec::new();
        let mut k: u32 = 0;
        while k < 1 + round % 6 {
            state = state.wrapping_mul(1664525).wrapping_add(1013904223);
            let pick = (state >> 24) as u8;
            bytes.push(if round % 3 == 0 { pick } else { pick | 0x80 });
            k += 1;
        }
        assert_eq!(check_text(&bytes).is_ok(), std::str::from_utf8(&bytes).is_ok());
        round += 1;
    }
}
