//! Putting a message together again from the parts that a channel delivers.

use crate::buffer::{buffer_bytes, frozen_bytes};
use crate::chunks::{chunks_of, joined, law_chunks_keep_the_data};
use bytes::{Bytes, BytesMut};
use std::string::FromUtf8Error;
use vstd::prelude::*;
use vstd::utf8::{encode_utf8, valid_utf8};

verus! {

/// `<[u8]>::to_vec` on what a `Bytes` holds: those bytes.
#[verifier::external_body]
fn frozen_to_vec(b: &Bytes) -> (v: Vec<u8>)
    ensures
        v@ == frozen_bytes(*b),
{
    b.to_vec()
}

/// A message of a channel: text or binary, and its bytes.
pub struct MessageModel {
    pub is_string: bool,
    pub data: Seq<u8>,
}

/// What is held when a message has come to what was `held`: a binary one goes
/// behind it, a text one ends it.
pub open spec fn held_after(held: Seq<u8>, message: MessageModel) -> Seq<u8> {
    if message.is_string {
        Seq::empty()
    } else {
        held + message.data
    }
}

/// The binary messages since the last text.
pub struct Assembly {
    buffer: BytesMut,
}

impl View for Assembly {
    type V = Seq<u8>;

    closed spec fn view(&self) -> Seq<u8> {
        buffer_bytes(self.buffer)
    }
}

impl Assembly {
    /// Nothing has come yet.
    pub fn new() -> (a: Assembly)
        ensures
            a@ == Seq::<u8>::empty(),
    {
        Assembly { buffer: BytesMut::new() }
    }

    /// Whether there is room for `data` behind what has come.
    pub fn has_room(&self, data: &[u8]) -> (yes: bool)
        ensures
            yes == (self@.len() + data@.len() <= isize::MAX),
    {
        let room: usize = isize::MAX as usize;
        data.len() <= room && self.buffer.len() <= room - data.len()
    }

    /// Takes in a message. A binary one goes behind those before it. A text one,
    /// whatever it says, ends them: they come out as one string, if they are
    /// UTF-8.
    pub fn take_in(&mut self, is_string: bool, data: &[u8]) -> (whole: Option<
        Result<String, FromUtf8Error>,
    >)
        requires
            is_string || old(self)@.len() + data@.len() <= isize::MAX,
        ensures
            final(self)@ == held_after(old(self)@, MessageModel { is_string, data: data@ }),
            match whole {
                None => !is_string,
                Some(Ok(text)) => is_string && encode_utf8(text@) == old(self)@,
                Some(Err(_)) => is_string && !valid_utf8(old(self)@),
            },
    {
        if is_string {
            let mut buffer = BytesMut::new();
            std::mem::swap(&mut buffer, &mut self.buffer);
            let bytes = frozen_to_vec(&buffer.freeze());
            Some(String::from_utf8(bytes))
        } else {
            self.buffer.extend_from_slice(data);
            None
        }
    }
}

/// What is held after some messages.
pub open spec fn held(messages: Seq<MessageModel>) -> Seq<u8>
    decreases messages.len(),
{
    if messages.len() == 0 {
        Seq::empty()
    } else {
        held_after(held(messages.drop_last()), messages.last())
    }
}

/// What the texts among some messages have ended, one after the other.
pub open spec fn assembled(messages: Seq<MessageModel>) -> Seq<Seq<u8>>
    decreases messages.len(),
{
    if messages.len() == 0 {
        Seq::empty()
    } else if messages.last().is_string {
        assembled(messages.drop_last()).push(held(messages.drop_last()))
    } else {
        assembled(messages.drop_last())
    }
}

/// Each chunk as a binary message.
pub open spec fn as_binaries(chunks: Seq<Seq<u8>>) -> Seq<MessageModel> {
    chunks.map_values(|chunk: Seq<u8>| MessageModel { is_string: false, data: chunk })
}

/// The messages that carry `data` in chunks, with the empty text that marks
/// their end.
pub open spec fn in_chunks(data: Seq<u8>) -> Seq<MessageModel> {
    as_binaries(chunks_of(data)).push(MessageModel { is_string: true, data: Seq::empty() })
}

/// What goes out in chunks is put together again whole.
pub proof fn law_chunks_are_put_together(data: Seq<u8>)
    ensures
        assembled(in_chunks(data)) == seq![data],
        held(in_chunks(data)) == Seq::<u8>::empty(),
{
    assert(in_chunks(data).drop_last() =~= as_binaries(chunks_of(data)));
    lemma_binaries_are_held(chunks_of(data));
    law_chunks_keep_the_data(data);
    assert(assembled(in_chunks(data)) =~= seq![data]);
}

/// Whatever was held and whatever a message says: a binary one goes behind what was
/// held, byte for byte, and a text leaves nothing held.
pub proof fn law_a_message_is_held_as_it_is(held: Seq<u8>, data: Seq<u8>)
    ensures
        held_after(held, MessageModel { is_string: false, data }) == held + data,
        held_after(held, MessageModel { is_string: true, data }) == Seq::<u8>::empty(),
{
}

/// Binary messages of any lengths that a text ends, whatever it says, come out as
/// one: their bytes, one message behind the other.
pub proof fn law_a_text_ends_the_messages_before_it(parts: Seq<Seq<u8>>, said: Seq<u8>)
    ensures
        assembled(as_binaries(parts).push(MessageModel { is_string: true, data: said })) == seq![
            joined(parts),
        ],
{
    let messages = as_binaries(parts).push(MessageModel { is_string: true, data: said });
    assert(messages.drop_last() =~= as_binaries(parts));
    lemma_binaries_are_held(parts);
    assert(assembled(messages) =~= seq![joined(parts)]);
}

/// What a text has ended stays apart from what comes after it.
pub proof fn law_what_was_ended_stays_apart(
    before: Seq<MessageModel>,
    after: Seq<MessageModel>,
)
    requires
        before.len() == 0 || before.last().is_string,
    ensures
        assembled(before + after) == assembled(before) + assembled(after),
        held(before + after) == held(after),
    decreases after.len(),
{
    if after.len() == 0 {
        assert(before + after =~= before);
        assert(assembled(before) + assembled(after) =~= assembled(before));
    } else {
        law_what_was_ended_stays_apart(before, after.drop_last());
        assert((before + after).drop_last() =~= before + after.drop_last());
        assert((before + after).last() == after.last());
        assert(assembled(before + after) =~= assembled(before) + assembled(after));
    }
}

/// Binary messages alone end nothing.
proof fn lemma_binaries_are_held(chunks: Seq<Seq<u8>>)
    ensures
        held(as_binaries(chunks)) == joined(chunks),
        assembled(as_binaries(chunks)) == Seq::<Seq<u8>>::empty(),
    decreases chunks.len(),
{
    if chunks.len() > 0 {
        lemma_binaries_are_held(chunks.drop_last());
        assert(as_binaries(chunks).drop_last() =~= as_binaries(chunks.drop_last()));
    }
}

} // verus!
