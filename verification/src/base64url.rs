//! Unpadded URL-safe base64, as the `base64` crate writes and reads it.

use base64::engine::general_purpose::URL_SAFE_NO_PAD;
use base64::{DecodeError, Engine};
use vstd::prelude::*;

verus! {

/// What the `base64` crate says of a text that is not base64.
#[verifier::external_type_specification]
#[verifier::external_body]
pub struct ExDecodeError(DecodeError);

/// The symbol for six bits: `A` to `Z`, `a` to `z`, `0` to `9`, `-`, `_`.
pub open spec fn symbol(bits: int) -> char {
    if bits < 26 {
        ('A' as int + bits) as char
    } else if bits < 52 {
        ('a' as int + bits - 26) as char
    } else if bits < 62 {
        ('0' as int + bits - 52) as char
    } else if bits == 62 {
        '-'
    } else {
        '_'
    }
}

/// Byte `i`, or zero behind the last one.
pub open spec fn byte_or_zero(bytes: Seq<u8>, i: int) -> int {
    if i < bytes.len() {
        bytes[i] as int
    } else {
        0
    }
}

/// Bits `6 * k` to `6 * k + 5` of the bytes, most significant bit first.
pub open spec fn sextet(bytes: Seq<u8>, k: int) -> int {
    let first = byte_or_zero(bytes, 3 * (k / 4));
    let second = byte_or_zero(bytes, 3 * (k / 4) + 1);
    let third = byte_or_zero(bytes, 3 * (k / 4) + 2);
    if k % 4 == 0 {
        first / 4
    } else if k % 4 == 1 {
        first % 4 * 16 + second / 16
    } else if k % 4 == 2 {
        second % 16 * 4 + third / 64
    } else {
        third % 64
    }
}

/// How many symbols `n` bytes take: one for each six bits or part of them.
pub open spec fn text_len(n: nat) -> nat {
    (4 * n + 2) / 3
}

/// The base64 text of `bytes`.
pub open spec fn base64_text(bytes: Seq<u8>) -> Seq<char> {
    Seq::new(text_len(bytes.len()), |k: int| symbol(sextet(bytes, k)))
}

/// The bytes whose base64 text is `text`, if there are any.
pub open spec fn base64_bytes(text: Seq<char>) -> Option<Seq<u8>> {
    if exists|bytes: Seq<u8>| #[trigger] base64_text(bytes) == text {
        Some(choose|bytes: Seq<u8>| #[trigger] base64_text(bytes) == text)
    } else {
        None
    }
}

/// `Engine::encode` of `URL_SAFE_NO_PAD`: the base64 text of `data`. The text is
/// a third longer than the data, and no allocation is longer than `isize::MAX`
/// bytes. It panics where the memory for the text cannot be had; that it can is
/// not claimed.
#[verifier::external_body]
pub(crate) fn encode_base64(data: &[u8]) -> (text: String)
    ensures
        text@ == base64_text(data@),
{
    URL_SAFE_NO_PAD.encode(data)
}

/// `Engine::decode` of `URL_SAFE_NO_PAD`: the bytes whose base64 text is `text`.
/// A text that no bytes have is refused: one with a symbol outside the alphabet,
/// with padding, of an impossible length, or with bits set behind the last byte.
#[verifier::external_body]
pub(crate) fn decode_base64(text: &str) -> (data: Result<Vec<u8>, DecodeError>)
    ensures
        match data {
            Ok(bytes) => base64_text(bytes@) == text@,
            Err(_) => forall|bytes: Seq<u8>| #[trigger] base64_text(bytes) != text@,
        },
{
    URL_SAFE_NO_PAD.decode(text)
}

/// Different bytes have different texts.
pub proof fn law_base64_is_injective(a: Seq<u8>, b: Seq<u8>)
    requires
        base64_text(a) == base64_text(b),
    ensures
        a == b,
{
    let text = base64_text(a);
    assert(text.len() == text_len(a.len()) && text.len() == text_len(b.len()));
    assert(a.len() == b.len());
    assert forall|i: int| 0 <= i < a.len() implies a[i] == b[i] by {
        let k = 4 * (i / 3) + i % 3;
        lemma_same_sextet(a, b, k);
        lemma_same_sextet(a, b, k + 1);
    }
    assert(a =~= b);
}

/// The same symbol stands for the same six bits.
proof fn lemma_same_sextet(a: Seq<u8>, b: Seq<u8>, k: int)
    requires
        base64_text(a) == base64_text(b),
        0 <= k < text_len(a.len()),
    ensures
        sextet(a, k) == sextet(b, k),
{
    assert(base64_text(a)[k] == symbol(sextet(a, k)));
    assert(base64_text(b).len() == text_len(a.len()));
    assert(base64_text(b)[k] == symbol(sextet(b, k)));
}

/// Reading the text of some bytes gives those bytes back.
pub proof fn law_base64_reads_back(bytes: Seq<u8>)
    ensures
        base64_bytes(base64_text(bytes)) == Some(bytes),
{
    let read = choose|other: Seq<u8>| #[trigger] base64_text(other) == base64_text(bytes);
    law_base64_is_injective(read, bytes);
}

} // verus!
