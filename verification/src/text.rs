//! Strings and their UTF-8 bytes.

use std::string::FromUtf8Error;
use vstd::prelude::*;
use vstd::utf8::{encode_utf8, valid_utf8};

verus! {

/// What the standard library says of bytes that are not UTF-8.
#[verifier::external_type_specification]
#[verifier::external_body]
pub struct ExFromUtf8Error(FromUtf8Error);

/// `String::from_utf8`: bytes that are valid UTF-8 come back as the string that
/// they encode, and other bytes are refused.
pub assume_specification[ String::from_utf8 ](vec: Vec<u8>) -> (text: Result<
    String,
    FromUtf8Error,
>)
    ensures
        match text {
            Ok(s) => valid_utf8(vec@) && encode_utf8(s@) == vec@,
            Err(_) => !valid_utf8(vec@),
        },
;

/// `String::into_bytes`: the UTF-8 bytes of the string.
pub assume_specification[ String::into_bytes ](s: String) -> (bytes: Vec<u8>)
    ensures
        bytes@ == encode_utf8(s@),
;

} // verus!
