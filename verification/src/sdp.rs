//! Session descriptions as short texts: brotli, then base64.

use crate::base64url::{
    base64_bytes, base64_text, decode_base64, encode_base64, law_base64_reads_back,
};
use base64::DecodeError;
use std::io::{Read, Write};
use std::string::FromUtf8Error;
use vstd::pervasive::unreached;
use vstd::prelude::*;
use vstd::utf8::{
    decode_utf8, decode_utf8_encode_utf8, encode_utf8, encode_utf8_decode_utf8,
    encode_utf8_valid_utf8, valid_utf8,
};

verus! {

/// What the brotli stream `z` decompresses to, if it is one.
pub uninterp spec fn brotli_decompressed(z: Seq<u8>) -> Option<Seq<u8>>;

/// `brotli::CompressorWriter`, written to once and then closed, with a window
/// of 24 bits and the best compression: the stream that comes out decompresses
/// to `data`. It is never empty, since it starts with the size of its window and
/// ends with a mark. Which of the streams that do so it is, and how long it is, rests
/// on rounding in the encoder's cost estimates and is not stated.
#[verifier::external_body]
fn compress(data: &[u8]) -> (z: Vec<u8>)
    ensures
        brotli_decompressed(z@) == Some(data@),
        z@.len() > 0,
{
    let mut compressor = brotli::CompressorWriter::new(Vec::new(), 4096, 11, 24);
    compressor.write_all(data).expect("Compression of SDP failed");
    compressor.into_inner()
}

/// `brotli::Decompressor`, read to its end: what the stream decompresses to, or
/// nothing where it is cut short or is no brotli stream.
#[verifier::external_body]
fn decompress(z: &[u8]) -> (data: Option<Vec<u8>>)
    ensures
        match data {
            Some(bytes) => brotli_decompressed(z@) == Some(bytes@),
            None => brotli_decompressed(z@) is None,
        },
{
    let mut decompressed = Vec::new();
    match brotli::Decompressor::new(z, 4096).read_to_end(&mut decompressed) {
        Ok(_) => Some(decompressed),
        Err(_) => None,
    }
}

/// Why a text is not a session description.
pub enum SdpError {
    /// It is not base64.
    Base64(DecodeError),
    /// What it decompresses to is not UTF-8.
    Utf8(FromUtf8Error),
}

/// What a text says when it is read as a session description.
pub enum SdpReading {
    /// It is not base64.
    NotBase64,
    /// Its base64 is not a brotli stream.
    NotBrotli,
    /// Its brotli stream does not hold UTF-8.
    NotUtf8,
    /// It is this session description.
    Sdp(Seq<char>),
}

/// What decompressed bytes say.
pub open spec fn read_utf8(bytes: Seq<u8>) -> SdpReading {
    if valid_utf8(bytes) {
        SdpReading::Sdp(decode_utf8(bytes))
    } else {
        SdpReading::NotUtf8
    }
}

/// What the bytes behind the base64 say.
pub open spec fn read_brotli(z: Seq<u8>) -> SdpReading {
    match brotli_decompressed(z) {
        None => SdpReading::NotBrotli,
        Some(bytes) => read_utf8(bytes),
    }
}

/// What `text` says.
pub open spec fn read_sdp(text: Seq<char>) -> SdpReading {
    match base64_bytes(text) {
        None => SdpReading::NotBase64,
        Some(z) => read_brotli(z),
    }
}

/// The text for a compressed session description.
pub fn text_of_compressed(z: &[u8]) -> (text: String)
    ensures
        text@ == base64_text(z@),
{
    encode_base64(z)
}

/// The session description that decompressed bytes hold.
pub fn sdp_of_decompressed(bytes: Vec<u8>) -> (sdp: Result<String, SdpError>)
    ensures
        match sdp {
            Ok(s) => read_utf8(bytes@) == SdpReading::Sdp(s@),
            Err(SdpError::Utf8(_)) => read_utf8(bytes@) == SdpReading::NotUtf8,
            Err(SdpError::Base64(_)) => false,
        },
{
    match String::from_utf8(bytes) {
        Ok(s) => {
            proof {
                encode_utf8_decode_utf8(s@);
            }
            Ok(s)
        },
        Err(e) => Err(SdpError::Utf8(e)),
    }
}

/// A text for the session description `s`: what is read from it is `s` again.
/// It is never empty, not for the empty description either.
pub fn encode_sdp(s: &str) -> (text: String)
    ensures
        text@.len() >= 2,
        read_sdp(text@) == SdpReading::Sdp(s@),
{
    let z = compress(s.as_bytes());
    proof {
        law_a_compressed_description_is_read_back(s@, z@);
    }
    text_of_compressed(z.as_slice())
}

/// Whichever brotli stream a session description was compressed to, the text for
/// that stream is read as the same description again.
pub proof fn law_a_compressed_description_is_read_back(sdp: Seq<char>, z: Seq<u8>)
    requires
        brotli_decompressed(z) == Some(encode_utf8(sdp)),
    ensures
        read_sdp(base64_text(z)) == SdpReading::Sdp(sdp),
{
    law_base64_reads_back(z);
    encode_utf8_valid_utf8(sdp);
    encode_utf8_decode_utf8(sdp);
}

/// What a text says: a session description where it is the base64 of a brotli
/// stream that holds the UTF-8 of that description, and else what is missing, base64
/// first, then brotli, then UTF-8.
pub proof fn law_what_a_text_says(text: Seq<char>, z: Seq<u8>, bytes: Seq<u8>, sdp: Seq<char>)
    ensures
        read_sdp(text) == SdpReading::NotBase64 <==> forall|other: Seq<u8>| #[trigger]
            base64_text(other) != text,
        base64_text(z) == text ==> {
            &&& read_sdp(text) == SdpReading::NotBrotli <==> brotli_decompressed(z) is None
            &&& brotli_decompressed(z) == Some(bytes) ==> {
                &&& read_sdp(text) == SdpReading::NotUtf8 <==> !valid_utf8(bytes)
                &&& read_sdp(text) == SdpReading::Sdp(sdp) <==> bytes == encode_utf8(sdp)
            }
        },
{
    if base64_text(z) == text {
        law_base64_reads_back(z);
        if brotli_decompressed(z) == Some(bytes) {
            if bytes == encode_utf8(sdp) {
                encode_utf8_valid_utf8(sdp);
                encode_utf8_decode_utf8(sdp);
            }
            if valid_utf8(bytes) {
                decode_utf8_encode_utf8(bytes);
            }
        }
    }
}

/// Different session descriptions have different texts.
pub proof fn law_different_descriptions_have_different_texts(
    one: Seq<char>,
    other: Seq<char>,
    one_text: Seq<char>,
    other_text: Seq<char>,
)
    requires
        one != other,
        read_sdp(one_text) == SdpReading::Sdp(one),
        read_sdp(other_text) == SdpReading::Sdp(other),
    ensures
        one_text != other_text,
{
}

/// Reads the session description that `s` stands for. Base64 whose bytes are
/// not a brotli stream must not be given.
pub fn decode_sdp(s: &str) -> (sdp: Result<String, SdpError>)
    requires
        read_sdp(s@) != SdpReading::NotBrotli,
    ensures
        match sdp {
            Ok(t) => read_sdp(s@) == SdpReading::Sdp(t@),
            Err(SdpError::Base64(_)) => read_sdp(s@) == SdpReading::NotBase64,
            Err(SdpError::Utf8(_)) => read_sdp(s@) == SdpReading::NotUtf8,
        },
{
    match decode_base64(s) {
        Err(e) => Err(SdpError::Base64(e)),
        Ok(z) => {
            proof {
                law_base64_reads_back(z@);
            }
            match decompress(z.as_slice()) {
                Some(bytes) => sdp_of_decompressed(bytes),
                None => unreached(),
            }
        },
    }
}

/// [`decode_sdp`] on any text: nothing where the base64 holds no brotli stream.
pub fn checked_decode_sdp(s: &str) -> (sdp: Option<Result<String, SdpError>>)
    ensures
        match sdp {
            None => read_sdp(s@) == SdpReading::NotBrotli,
            Some(Ok(t)) => read_sdp(s@) == SdpReading::Sdp(t@),
            Some(Err(SdpError::Base64(_))) => read_sdp(s@) == SdpReading::NotBase64,
            Some(Err(SdpError::Utf8(_))) => read_sdp(s@) == SdpReading::NotUtf8,
        },
{
    if let Ok(z) = decode_base64(s) {
        proof {
            law_base64_reads_back(z@);
        }
        if decompress(z.as_slice()).is_none() {
            return None;
        }
    }
    Some(decode_sdp(s))
}

} // verus!
