//! Bytes read from the source are text only if they are valid UTF-8.

use vstd::prelude::*;
use vstd::string::StringSliceAdditionalSpecFns;
use vstd::utf8::valid_utf8;

use crate::error::StreamError;

verus! {

/// The error of `simdutf8::basic::from_utf8`: a value without content.
#[verifier::external_type_specification]
#[verifier::external_body]
pub struct ExUtf8Error(simdutf8::basic::Utf8Error);

/// `simdutf8::basic::from_utf8` checks a whole byte slice. It returns `Ok`
/// exactly when the bytes are valid UTF-8, and the text it then returns is the
/// slice it was given. This is taken from the documentation of that
/// function and is not proved here.
pub assume_specification[ simdutf8::basic::from_utf8 ](input: &[u8]) -> (checked: Result<
    &str,
    simdutf8::basic::Utf8Error,
>)
    ensures
        checked is Ok <==> valid_utf8(input@),
        checked matches Ok(text) ==> text.spec_bytes() == input@,
;

/// Accepts the bytes of one read as text, or refuses them with
/// `EncodingError` when they are not valid UTF-8, as happens when a read ends
/// inside a character of several bytes.
pub fn check_text(bytes: &[u8]) -> (checked: Result<(), StreamError>)
    ensures
        checked is Ok <==> valid_utf8(bytes@),
        checked matches Err(e) ==> e == StreamError::EncodingError,
{
    match simdutf8::basic::from_utf8(bytes) {
        Ok(_) => Ok(()),
        Err(_) => Err(StreamError::EncodingError),
    }
}

} // verus!
