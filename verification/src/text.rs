//! Text fields: bytes that are to be read as UTF-8.

use vstd::prelude::*;
use vstd::utf8::{encode_utf8, valid_utf8};
use std::string::FromUtf8Error;

verus! {

/// `std::string::FromUtf8Error`, the error of `String::from_utf8`. The
/// library only tells it apart from success.
#[verifier::external_type_specification]
#[verifier::external_body]
pub struct ExFromUtf8Error(std::string::FromUtf8Error);

/// `String::from_utf8` succeeds exactly when the bytes are valid UTF-8, and
/// the string then consists of those bytes.
pub assume_specification[ String::from_utf8 ](vec: Vec<u8>) -> (text: Result<
    String,
    FromUtf8Error,
>)
    ensures
        text is Ok <==> valid_utf8(vec@),
        text matches Ok(s) ==> encode_utf8(s@) == vec@,
;

} // verus!
