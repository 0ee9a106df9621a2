//! The byte buffers of the `bytes` crate: what they hold, and what each call on
//! them does to it.

use bytes::{Bytes, BytesMut};
use vstd::prelude::*;

verus! {

/// A growing byte buffer of the `bytes` crate.
#[verifier::external_type_specification]
#[verifier::external_body]
pub struct ExBytesMut(BytesMut);

/// A frozen byte buffer of the `bytes` crate.
#[verifier::external_type_specification]
#[verifier::external_body]
pub struct ExBytes(Bytes);

/// The bytes that a growing buffer holds, first to last.
pub uninterp spec fn buffer_bytes(b: BytesMut) -> Seq<u8>;

/// The bytes that a frozen buffer holds, first to last.
pub uninterp spec fn frozen_bytes(b: Bytes) -> Seq<u8>;

/// `BytesMut::with_capacity`: the new buffer holds nothing. A capacity beyond
/// `isize::MAX` cannot be allocated.
pub assume_specification[ BytesMut::with_capacity ](capacity: usize) -> (b: BytesMut)
    requires
        capacity <= isize::MAX,
    ensures
        buffer_bytes(b) == Seq::<u8>::empty(),
;

/// `BytesMut::new`: the new buffer holds nothing.
pub assume_specification[ BytesMut::new ]() -> (b: BytesMut)
    ensures
        buffer_bytes(b) == Seq::<u8>::empty(),
;

/// `BytesMut::len`: the number of bytes held.
pub assume_specification[ BytesMut::len ](b: &BytesMut) -> (n: usize)
    ensures
        n == buffer_bytes(*b).len(),
;

/// `BytesMut::is_empty`: whether nothing is held.
pub assume_specification[ BytesMut::is_empty ](b: &BytesMut) -> (empty: bool)
    ensures
        empty == (buffer_bytes(*b).len() == 0),
;

/// `BytesMut::extend_from_slice`: the given bytes come behind those held. What
/// the buffer then holds has to fit into one allocation, which is at most
/// `isize::MAX` bytes long. A buffer that grows may ask for more than it is to
/// hold, since it keeps the space in front of its bytes and doubles what it had;
/// that the memory it asks for can be had is not claimed.
pub assume_specification[ BytesMut::extend_from_slice ](b: &mut BytesMut, extend: &[u8])
    requires
        buffer_bytes(*old(b)).len() + extend@.len() <= isize::MAX,
    ensures
        buffer_bytes(*final(b)) == buffer_bytes(*old(b)) + extend@,
;

/// `BytesMut::split_to`: the first `at` bytes leave the buffer and come back as
/// a buffer of their own. It panics where fewer than `at` are held.
pub assume_specification[ BytesMut::split_to ](b: &mut BytesMut, at: usize) -> (front: BytesMut)
    requires
        at <= buffer_bytes(*old(b)).len(),
    ensures
        buffer_bytes(front) == buffer_bytes(*old(b)).take(at as int),
        buffer_bytes(*final(b)) == buffer_bytes(*old(b)).skip(at as int),
;

/// `BytesMut::freeze`: the frozen buffer holds what the growing one held.
pub assume_specification[ BytesMut::freeze ](b: BytesMut) -> (f: Bytes)
    ensures
        frozen_bytes(f) == buffer_bytes(b),
;

} // verus!
