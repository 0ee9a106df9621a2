//! Cutting a stream of bytes into messages of at most [`CHUNK_SIZE`] bytes.

use crate::buffer::{buffer_bytes, frozen_bytes};
use bytes::{Bytes, BytesMut};
use vstd::prelude::*;
use vstd::utf8::encode_utf8;

verus! {

/// The length of a chunk: 16 KiB.
pub const CHUNK_SIZE: usize = 16 * 1024;

/// Where chunk `i` starts: [`CHUNK_SIZE`] bytes, which are 16384, for each
/// chunk before it.
pub open spec fn chunk_start(i: int) -> int {
    16384 * i
}

/// How many chunks `n` bytes make: one for each whole [`CHUNK_SIZE`] bytes, and
/// one for what is left.
pub open spec fn chunk_count(n: nat) -> nat {
    (n + 16383) / 16384
}

/// Chunk `i` of `data`: [`CHUNK_SIZE`] bytes from where it starts, or as many
/// as are left there.
pub open spec fn chunk_at(data: Seq<u8>, i: int) -> Seq<u8> {
    if chunk_start(i + 1) <= data.len() {
        data.subrange(chunk_start(i), chunk_start(i + 1))
    } else {
        data.skip(chunk_start(i))
    }
}

/// The chunks that `data` is cut into, first to last.
pub open spec fn chunks_of(data: Seq<u8>) -> Seq<Seq<u8>> {
    Seq::new(chunk_count(data.len()), |i: int| chunk_at(data, i))
}

/// What `pieces` hold, one behind the other.
pub open spec fn joined(pieces: Seq<Seq<u8>>) -> Seq<u8>
    decreases pieces.len(),
{
    if pieces.len() == 0 {
        Seq::empty()
    } else {
        joined(pieces.drop_last()) + pieces.last()
    }
}

/// The contents of each vector.
pub open spec fn contents(pieces: Seq<Vec<u8>>) -> Seq<Seq<u8>> {
    pieces.map_values(|piece: Vec<u8>| piece@)
}

/// Each piece fits into one allocation together with what the pieces before it
/// leave over when whole chunks are taken away.
pub open spec fn fit_one_buffer(pieces: Seq<Seq<u8>>) -> bool {
    forall|i: int|
        0 <= i < pieces.len() ==> joined(pieces.take(i)).len() % 16384 + (
        #[trigger] pieces[i]).len() <= isize::MAX
}

/// The first `n` of `chunks` were handed to `callback`, in order, and each time
/// it returned the channel that the next chunk is handed to: `channels` are the
/// one before the first call and those that came back.
pub open spec fn accepted<T, E, F: FnMut(T, Bytes) -> Result<T, E>>(
    callback: F,
    chunks: Seq<Seq<u8>>,
    channels: Seq<T>,
    n: nat,
) -> bool {
    &&& n <= chunks.len()
    &&& channels.len() == n + 1
    &&& forall|i: int|
        0 <= i < n ==> answered(callback, channels[i], #[trigger] chunks[i], Ok(channels[i + 1]))
}

/// `callback` may give `answer` when it is handed `channel` and the bytes of
/// `chunk`.
pub open spec fn answered<T, E, F: FnMut(T, Bytes) -> Result<T, E>>(
    callback: F,
    channel: T,
    chunk: Seq<u8>,
    answer: Result<T, E>,
) -> bool {
    exists|b: Bytes|
        frozen_bytes(b) == chunk && #[trigger] call_ensures(callback, (channel, b), answer)
}

/// Every one of `chunks` was handed to `callback`, in order and from `channel`
/// on, and accepted.
pub open spec fn all_accepted<T, E, F: FnMut(T, Bytes) -> Result<T, E>>(
    callback: F,
    channel: T,
    chunks: Seq<Seq<u8>>,
) -> bool {
    exists|channels: Seq<T>| #[trigger]
        accepted(callback, chunks, channels, chunks.len()) && channels[0] == channel
}

/// Some of `chunks` were handed to `callback`, in order and from `channel` on,
/// and accepted; the next one was handed to it and answered with `error`.
pub open spec fn refused<T, E, F: FnMut(T, Bytes) -> Result<T, E>>(
    callback: F,
    channel: T,
    chunks: Seq<Seq<u8>>,
    error: E,
) -> bool {
    exists|channels: Seq<T>, n: nat| #[trigger]
        accepted(callback, chunks, channels, n) && channels[0] == channel && n < chunks.len()
            && answered(callback, channels[n as int], chunks[n as int], Err(error))
}

/// `callback` can be called on each of `chunks` in turn, from `channel` on, as
/// long as it has accepted those before; nothing is asked of it on other bytes,
/// on another channel or out of turn.
pub open spec fn callable<T, E, F: FnMut(T, Bytes) -> Result<T, E>>(
    callback: F,
    channel: T,
    chunks: Seq<Seq<u8>>,
) -> bool {
    forall|channels: Seq<T>, n: nat, b: Bytes|
        #![trigger accepted(callback, chunks, channels, n), frozen_bytes(b)]
        accepted(callback, chunks, channels, n) && channels[0] == channel && n < chunks.len()
            && frozen_bytes(b) == chunks[n as int] ==> call_requires(
            callback,
            (channels[n as int], b),
        )
}

/// Bytes on their way into chunks.
pub struct Chunker {
    buffer: BytesMut,
}

impl View for Chunker {
    type V = Seq<u8>;

    closed spec fn view(&self) -> Seq<u8> {
        buffer_bytes(self.buffer)
    }
}

impl Chunker {
    /// A chunker that holds nothing.
    pub fn new() -> (c: Chunker)
        ensures
            c@ == Seq::<u8>::empty(),
    {
        Chunker { buffer: BytesMut::with_capacity(CHUNK_SIZE) }
    }

    /// How many bytes are held.
    pub fn len(&self) -> (n: usize)
        ensures
            n == self@.len(),
    {
        self.buffer.len()
    }

    /// Puts `data` behind what is held.
    pub fn feed(&mut self, data: &[u8])
        requires
            old(self)@.len() + data@.len() <= isize::MAX,
        ensures
            final(self)@ == old(self)@ + data@,
    {
        self.buffer.extend_from_slice(data);
    }

    /// Takes a whole chunk from the front, if one is held.
    pub fn next_chunk(&mut self) -> (chunk: Option<Bytes>)
        ensures
            match chunk {
                Some(b) => {
                    &&& old(self)@.len() >= CHUNK_SIZE
                    &&& frozen_bytes(b) == old(self)@.take(CHUNK_SIZE as int)
                    &&& final(self)@ == old(self)@.skip(CHUNK_SIZE as int)
                },
                None => old(self)@.len() < CHUNK_SIZE && final(self)@ == old(self)@,
            },
    {
        if self.buffer.len() >= CHUNK_SIZE {
            Some(self.buffer.split_to(CHUNK_SIZE).freeze())
        } else {
            None
        }
    }

    /// Takes everything that is held, if there is anything.
    pub fn take_rest(&mut self) -> (rest: Option<Bytes>)
        ensures
            final(self)@ == Seq::<u8>::empty(),
            match rest {
                Some(b) => old(self)@.len() > 0 && frozen_bytes(b) == old(self)@,
                None => old(self)@.len() == 0,
            },
    {
        let mut buffer = BytesMut::new();
        std::mem::swap(&mut buffer, &mut self.buffer);
        if buffer.is_empty() {
            None
        } else {
            Some(buffer.freeze())
        }
    }

    /// Takes the next chunk of data that is held to its end: a whole chunk, or
    /// what is left.
    pub fn next_part(&mut self) -> (part: Option<Bytes>)
        ensures
            final(self)@ == after_part(old(self)@),
            match part {
                Some(b) => old(self)@.len() > 0 && frozen_bytes(b) == part_of(old(self)@),
                None => old(self)@.len() == 0,
            },
    {
        match self.next_chunk() {
            Some(chunk) => Some(chunk),
            None => self.take_rest(),
        }
    }
}

/// The first chunk of `data`.
pub open spec fn part_of(data: Seq<u8>) -> Seq<u8> {
    if data.len() >= CHUNK_SIZE {
        data.take(CHUNK_SIZE as int)
    } else {
        data
    }
}

/// What is behind the first chunk of `data`.
pub open spec fn after_part(data: Seq<u8>) -> Seq<u8> {
    if data.len() >= CHUNK_SIZE {
        data.skip(CHUNK_SIZE as int)
    } else {
        Seq::empty()
    }
}

/// Taking one piece more puts that piece behind what the others hold.
proof fn lemma_joined_push(pieces: Seq<Seq<u8>>, i: int)
    requires
        0 <= i < pieces.len(),
    ensures
        joined(pieces.take(i + 1)) == joined(pieces.take(i)) + pieces[i],
{
    assert(pieces.take(i + 1).drop_last() =~= pieces.take(i));
}

/// What the first pieces hold is a prefix of what all of them hold.
proof fn lemma_joined_prefix(pieces: Seq<Seq<u8>>, i: int)
    requires
        0 <= i <= pieces.len(),
    ensures
        joined(pieces.take(i)).len() <= joined(pieces).len(),
        joined(pieces.take(i)) == joined(pieces).take(joined(pieces.take(i)).len() as int),
    decreases pieces.len() - i,
{
    if i == pieces.len() {
        assert(pieces.take(i) =~= pieces);
    } else {
        lemma_joined_prefix(pieces, i + 1);
        lemma_joined_push(pieces, i);
    }
}

/// A piece behind a prefix of `data`, where the two are a prefix themselves.
proof fn lemma_prefix_grows(data: Seq<u8>, start: int, prefix: Seq<u8>, piece: Seq<u8>)
    requires
        0 <= start <= prefix.len(),
        prefix.len() + piece.len() <= data.len(),
        prefix + piece == data.take((prefix + piece).len() as int),
    ensures
        data.subrange(start, prefix.len() as int) + piece == data.subrange(
            start,
            (prefix.len() + piece.len()) as int,
        ),
{
    let both = prefix + piece;
    assert(forall|k: int| 0 <= k < both.len() ==> both[k] == data[k]);
    assert forall|k: int| 0 <= k < piece.len() implies piece[k] == data[prefix.len() + k] by {
        assert(both[prefix.len() + k] == piece[k]);
    }
}

/// Where a whole chunk more is held, it is chunk `n`.
proof fn lemma_whole_chunk(data: Seq<u8>, n: nat)
    requires
        chunk_start(n as int + 1) <= data.len(),
    ensures
        n < chunks_of(data).len(),
        chunks_of(data)[n as int] == data.subrange(chunk_start(n as int), chunk_start(n as int + 1)),
{
}

/// Where less than a chunk is left behind the first `n`, it is the last chunk;
/// where nothing is left, there is none.
proof fn lemma_last_chunk(data: Seq<u8>, n: nat)
    requires
        chunk_start(n as int) <= data.len() < chunk_start(n as int + 1),
    ensures
        chunk_start(n as int) == data.len() ==> chunks_of(data).len() == n,
        chunk_start(n as int) < data.len() ==> {
            &&& chunks_of(data).len() == n + 1
            &&& chunks_of(data)[n as int] == data.skip(chunk_start(n as int))
        },
{
}

/// One chunk more was accepted.
proof fn lemma_accepted_next<T, E, F: FnMut(T, Bytes) -> Result<T, E>>(
    callback: F,
    chunks: Seq<Seq<u8>>,
    channels: Seq<T>,
    n: nat,
    next: T,
)
    requires
        accepted(callback, chunks, channels, n),
        n < chunks.len(),
        answered(callback, channels[n as int], chunks[n as int], Ok(next)),
    ensures
        accepted(callback, chunks, channels.push(next), n + 1),
{
    let after = channels.push(next);
    assert forall|j: int| 0 <= j < n + 1 implies answered(
        callback,
        after[j],
        #[trigger] chunks[j],
        Ok(after[j + 1]),
    ) by {
        if j < n {
            assert(after[j] == channels[j] && after[j + 1] == channels[j + 1]);
        }
    }
}

/// Cuts `pieces` into chunks, whatever their own lengths, and hands each chunk
/// to `callback` as soon as it is whole; what is left when the pieces have run
/// out goes last. `callback` returns the channel that the next chunk goes to,
/// and its first error ends the work. It is called on nothing but the chunks,
/// once on each.
pub fn process_in_chunks<T, E, F: FnMut(T, Bytes) -> Result<T, E>>(
    data_channel: T,
    pieces: Vec<Vec<u8>>,
    callback: F,
) -> (result: Result<(), E>)
    requires
        fit_one_buffer(contents(pieces@)),
        callable(callback, data_channel, chunks_of(joined(contents(pieces@)))),
    ensures
        match result {
            Ok(()) => all_accepted(callback, data_channel, chunks_of(joined(contents(pieces@)))),
            Err(e) => refused(callback, data_channel, chunks_of(joined(contents(pieces@))), e),
        },
{
    let ghost data = joined(contents(pieces@));
    let ghost chunks = chunks_of(data);
    let ghost mut channels: Seq<T> = seq![data_channel];
    let ghost mut n: nat = 0;
    let mut call = callback;
    let mut channel = data_channel;
    let mut chunker = Chunker::new();
    let mut i: usize = 0;
    while i < pieces.len()
        invariant
            fit_one_buffer(contents(pieces@)),
            callable(callback, data_channel, chunks),
            call == callback,
            data == joined(contents(pieces@)),
            chunks == chunks_of(data),
            i <= pieces@.len(),
            chunker@.len() < CHUNK_SIZE,
            chunk_start(n as int) + chunker@.len() == joined(contents(pieces@).take(i as int)).len(),
            chunk_start(n as int) + chunker@.len() <= data.len(),
            chunker@ == data.subrange(chunk_start(n as int), chunk_start(n as int) + chunker@.len()),
            accepted(callback, chunks, channels, n),
            channels[0] == data_channel,
            channels[n as int] == channel,
        decreases pieces@.len() - i,
    {
        proof {
            let c = contents(pieces@);
            assert(c[i as int] == pieces@[i as int]@);
            lemma_joined_push(c, i as int);
            lemma_joined_prefix(c, i + 1);
        }
        chunker.feed(pieces[i].as_slice());
        i += 1;
        proof {
            let c = contents(pieces@);
            lemma_joined_push(c, i - 1);
            lemma_joined_prefix(c, i as int);
            lemma_prefix_grows(
                data,
                chunk_start(n as int),
                joined(c.take(i - 1)),
                pieces@[i - 1]@,
            );
        }
        loop
            invariant_except_break
                callable(callback, data_channel, chunks),
                call == callback,
                data == joined(contents(pieces@)),
                chunks == chunks_of(data),
                chunk_start(n as int) + chunker@.len() == joined(contents(pieces@).take(i as int)).len(),
                chunk_start(n as int) + chunker@.len() <= data.len(),
                chunker@ == data.subrange(chunk_start(n as int), chunk_start(n as int) + chunker@.len()),
                accepted(callback, chunks, channels, n),
                channels[0] == data_channel,
                channels[n as int] == channel,
            ensures
                call == callback,
                chunker@.len() < CHUNK_SIZE,
                chunk_start(n as int) + chunker@.len() == joined(contents(pieces@).take(i as int)).len(),
                chunk_start(n as int) + chunker@.len() <= data.len(),
                chunker@ == data.subrange(chunk_start(n as int), chunk_start(n as int) + chunker@.len()),
                accepted(callback, chunks, channels, n),
                channels[0] == data_channel,
                channels[n as int] == channel,
            decreases chunker@.len(),
        {
            match chunker.next_chunk() {
                None => {
                    break ;
                },
                Some(chunk) => {
                    proof {
                        lemma_whole_chunk(data, n);
                        assert(frozen_bytes(chunk) =~= chunks[n as int]);
                    }
                    match call(channel, chunk) {
                        Ok(next) => {
                            proof {
                                assert(answered(callback, channel, chunks[n as int], Ok(next)));
                                lemma_accepted_next(callback, chunks, channels, n, next);
                                channels = channels.push(next);
                                n = n + 1;
                            }
                            channel = next;
                        },
                        Err(e) => {
                            assert(answered(callback, channel, chunks[n as int], Err(e)));
                            return Err(e);
                        },
                    }
                },
            }
        }
    }
    proof {
        assert(contents(pieces@).take(i as int) =~= contents(pieces@));
        lemma_last_chunk(data, n);
        assert(chunker@ =~= data.skip(chunk_start(n as int)));
    }
    match chunker.take_rest() {
        None => Ok(()),
        Some(rest) => match call(channel, rest) {
            Ok(next) => {
                proof {
                    assert(answered(callback, channel, chunks[n as int], Ok(next)));
                    lemma_accepted_next(callback, chunks, channels, n, next);
                }
                Ok(())
            },
            Err(e) => Err(e),
        },
    }
}

/// [`process_in_chunks`] on the UTF-8 bytes of one string.
pub fn process_string_in_chunks<T, E, F: FnMut(T, Bytes) -> Result<T, E>>(
    data_channel: T,
    string: String,
    callback: F,
) -> (result: Result<(), E>)
    requires
        encode_utf8(string@).len() <= isize::MAX,
        callable(callback, data_channel, chunks_of(encode_utf8(string@))),
    ensures
        match result {
            Ok(()) => all_accepted(callback, data_channel, chunks_of(encode_utf8(string@))),
            Err(e) => refused(callback, data_channel, chunks_of(encode_utf8(string@)), e),
        },
{
    let bytes = string.into_bytes();
    let ghost data = bytes@;
    let mut pieces: Vec<Vec<u8>> = Vec::new();
    pieces.push(bytes);
    proof {
        assert(contents(pieces@) =~= seq![data]);
        law_a_string_is_one_piece(string@);
    }
    process_in_chunks(data_channel, pieces, callback)
}

/// Nothing is lost, added or moved by the cutting: the chunks, put together
/// again, are the data.
pub proof fn law_chunks_keep_the_data(data: Seq<u8>)
    ensures
        joined(chunks_of(data)) == data,
{
    let chunks = chunks_of(data);
    lemma_first_chunks(data, chunks.len());
    assert(chunks.take(chunks.len() as int) =~= chunks);
}

/// What the first `n` chunks hold is where chunk `n` starts, or all of the data.
proof fn lemma_first_chunks(data: Seq<u8>, n: nat)
    requires
        n <= chunks_of(data).len(),
    ensures
        joined(chunks_of(data).take(n as int)) == data.take(
            if chunk_start(n as int) <= data.len() {
                chunk_start(n as int)
            } else {
                data.len() as int
            },
        ),
    decreases n,
{
    let chunks = chunks_of(data);
    if n > 0 {
        lemma_first_chunks(data, (n - 1) as nat);
        lemma_joined_push(chunks, n - 1);
    }
}

/// What is left of `data` when the first `n` chunks are gone.
pub open spec fn behind_chunks(data: Seq<u8>, n: int) -> Seq<u8> {
    if chunk_start(n) <= data.len() {
        data.skip(chunk_start(n))
    } else {
        Seq::empty()
    }
}

/// Taking parts off data that is held to its end gives its chunks, one after the
/// other, until nothing is left.
pub proof fn law_parts_are_the_chunks(data: Seq<u8>, n: int)
    requires
        0 <= n,
    ensures
        behind_chunks(data, 0) == data,
        behind_chunks(data, n).len() > 0 <==> n < chunks_of(data).len(),
        n < chunks_of(data).len() ==> {
            &&& part_of(behind_chunks(data, n)) == chunks_of(data)[n]
            &&& after_part(behind_chunks(data, n)) == behind_chunks(data, n + 1)
        },
{
    assert(data.skip(0) =~= data);
    if n < chunks_of(data).len() {
        let left = behind_chunks(data, n);
        assert(part_of(left) =~= chunk_at(data, n));
        assert(after_part(left) =~= behind_chunks(data, n + 1));
    }
}

/// What pieces hold together is what the first of them hold, and behind it what
/// the others hold; one piece holds just its own bytes, whatever its length.
pub proof fn law_pieces_are_joined_end_to_end(
    first: Seq<Seq<u8>>,
    others: Seq<Seq<u8>>,
    piece: Seq<u8>,
)
    ensures
        joined(first + others) == joined(first) + joined(others),
        joined(seq![piece]) == piece,
        joined(Seq::<Seq<u8>>::empty()) == Seq::<u8>::empty(),
    decreases others.len(),
{
    assert(seq![piece].drop_last() =~= Seq::<Seq<u8>>::empty());
    assert(joined(seq![piece].drop_last()) =~= Seq::<u8>::empty());
    assert(joined(seq![piece]) =~= piece);
    if others.len() == 0 {
        assert(first + others =~= first);
        assert(joined(first) + joined(others) =~= joined(first));
    } else {
        law_pieces_are_joined_end_to_end(first, others.drop_last(), piece);
        assert((first + others).drop_last() =~= first + others.drop_last());
        assert((first + others).last() == others.last());
        assert(joined(first + others) =~= joined(first) + joined(others));
    }
}

/// Each vector is taken for the bytes that it holds.
pub proof fn law_contents_are_the_bytes(pieces: Seq<Vec<u8>>, i: int)
    requires
        0 <= i < pieces.len(),
    ensures
        contents(pieces).len() == pieces.len(),
        contents(pieces)[i] == pieces[i]@,
{
}

/// Where every chunk was accepted, `callback` was handed each of them, and took
/// it; where one was refused, it was handed that one, and answered with just that
/// error.
pub proof fn law_what_was_answered<T, E, F: FnMut(T, Bytes) -> Result<T, E>>(
    callback: F,
    channel: T,
    chunks: Seq<Seq<u8>>,
    error: E,
    i: int,
)
    ensures
        all_accepted(callback, channel, chunks) && 0 <= i < chunks.len() ==> exists|
            at: T,
            b: Bytes,
            next: T,
        |
            frozen_bytes(b) == chunks[i] && #[trigger] call_ensures(callback, (at, b), Ok(next)),
        refused(callback, channel, chunks, error) ==> exists|at: T, b: Bytes|
            chunks.contains(frozen_bytes(b)) && #[trigger] call_ensures(
                callback,
                (at, b),
                Err(error),
            ),
{
    if all_accepted(callback, channel, chunks) && 0 <= i < chunks.len() {
        let channels = choose|channels: Seq<T>| #[trigger]
            accepted(callback, chunks, channels, chunks.len()) && channels[0] == channel;
        assert(answered(callback, channels[i], chunks[i], Ok(channels[i + 1])));
    }
    if refused(callback, channel, chunks, error) {
        let (channels, n) = choose|channels: Seq<T>, n: nat| #[trigger]
            accepted(callback, chunks, channels, n) && channels[0] == channel && n < chunks.len()
                && answered(callback, channels[n as int], chunks[n as int], Err(error));
        let b = choose|b: Bytes|
            frozen_bytes(b) == chunks[n as int] && #[trigger] call_ensures(
                callback,
                (channels[n as int], b),
                Err(error),
            );
        assert(chunks.contains(frozen_bytes(b)));
    }
}

/// Two ways to split the same data into pieces lead to the same calls and the
/// same result.
pub proof fn law_the_pieces_do_not_matter<T, E, F: FnMut(T, Bytes) -> Result<T, E>>(
    callback: F,
    channel: T,
    one_way: Seq<Seq<u8>>,
    other_way: Seq<Seq<u8>>,
    error: E,
)
    requires
        joined(one_way) == joined(other_way),
    ensures
        callable(callback, channel, chunks_of(joined(one_way))) == callable(
            callback,
            channel,
            chunks_of(joined(other_way)),
        ),
        all_accepted(callback, channel, chunks_of(joined(one_way))) == all_accepted(
            callback,
            channel,
            chunks_of(joined(other_way)),
        ),
        refused(callback, channel, chunks_of(joined(one_way)), error) == refused(
            callback,
            channel,
            chunks_of(joined(other_way)),
            error,
        ),
{
}

/// A string is cut as its bytes are when they come in one piece.
pub proof fn law_a_string_is_one_piece(string: Seq<char>)
    ensures
        chunks_of(joined(seq![encode_utf8(string)])) == chunks_of(encode_utf8(string)),
        fit_one_buffer(seq![encode_utf8(string)]) <==> encode_utf8(string).len() <= isize::MAX,
{
    let data = encode_utf8(string);
    let c = seq![data];
    assert(c.drop_last() =~= Seq::<Seq<u8>>::empty());
    assert(c.take(0) =~= Seq::<Seq<u8>>::empty());
    assert(joined(c.drop_last()) =~= Seq::<u8>::empty());
    assert(joined(c) =~= data);
    assert(c[0] == data);
}

/// Every chunk but the last is [`CHUNK_SIZE`] bytes long, and the last one is
/// no longer and not empty.
pub proof fn law_chunk_lengths(data: Seq<u8>)
    ensures
        is_cut(chunks_of(data)),
{
}

/// Every one of `chunks` but the last is [`CHUNK_SIZE`] bytes long, and the
/// last one is no longer and not empty.
pub open spec fn is_cut(chunks: Seq<Seq<u8>>) -> bool {
    &&& forall|i: int| 0 <= i < chunks.len() - 1 ==> #[trigger] chunks[i].len() == CHUNK_SIZE
    &&& chunks.len() > 0 ==> 0 < chunks.last().len() <= CHUNK_SIZE
}

/// There is one way only to cut data so: chunks of these lengths are the chunks
/// of what they hold together.
pub proof fn law_one_way_to_cut(chunks: Seq<Seq<u8>>)
    requires
        is_cut(chunks),
    ensures
        chunks_of(joined(chunks)) == chunks,
{
    let data = joined(chunks);
    lemma_cut_lengths(chunks, chunks.len());
    assert(chunks.take(chunks.len() as int) =~= chunks);
    assert forall|i: int| 0 <= i < chunks.len() implies chunk_at(data, i) == #[trigger] chunks[i] by {
        lemma_cut_lengths(chunks, i as nat);
        lemma_joined_push(chunks, i);
        lemma_joined_prefix(chunks, i + 1);
        lemma_prefix_grows(data, chunk_start(i), joined(chunks.take(i)), chunks[i]);
        assert(data.subrange(chunk_start(i), chunk_start(i)) =~= Seq::<u8>::empty());
    }
    assert(chunks_of(data) =~= chunks);
}

/// Whole chunks in front of other data are its first chunks.
pub proof fn law_whole_chunks_come_first(whole: Seq<Seq<u8>>, pending: Seq<u8>)
    requires
        forall|i: int| 0 <= i < whole.len() ==> #[trigger] whole[i].len() == CHUNK_SIZE,
    ensures
        whole.len() <= chunks_of(joined(whole) + pending).len(),
        whole == chunks_of(joined(whole) + pending).take(whole.len() as int),
{
    let front = joined(whole);
    let data = front + pending;
    assert(is_cut(whole)) by {
        if whole.len() > 0 {
            assert(whole[whole.len() - 1].len() == CHUNK_SIZE);
        }
    }
    law_one_way_to_cut(whole);
    law_whole_chunk_lengths(whole);
    assert forall|i: int| 0 <= i < whole.len() implies #[trigger] whole[i] == chunks_of(data)[i] by {
        assert(chunks_of(front)[i] == whole[i]);
        assert(data.subrange(16384 * i, 16384 * (i + 1)) =~= front.subrange(
            16384 * i,
            16384 * (i + 1),
        ));
    }
    assert(whole =~= chunks_of(data).take(whole.len() as int));
}

/// How much whole chunks hold.
pub proof fn law_whole_chunk_lengths(whole: Seq<Seq<u8>>)
    requires
        forall|i: int| 0 <= i < whole.len() ==> #[trigger] whole[i].len() == CHUNK_SIZE,
    ensures
        joined(whole).len() == 16384 * whole.len(),
    decreases whole.len(),
{
    if whole.len() > 0 {
        let fewer = whole.drop_last();
        assert forall|i: int| 0 <= i < fewer.len() implies #[trigger] fewer[i].len()
            == CHUNK_SIZE by {
            assert(whole[i].len() == CHUNK_SIZE);
        }
        law_whole_chunk_lengths(fewer);
        assert(whole[whole.len() - 1].len() == CHUNK_SIZE);
    }
}

/// How much the first `n` chunks hold.
proof fn lemma_cut_lengths(chunks: Seq<Seq<u8>>, n: nat)
    requires
        is_cut(chunks),
        n <= chunks.len(),
    ensures
        n < chunks.len() ==> joined(chunks.take(n as int)).len() == chunk_start(n as int),
        n == chunks.len() && n > 0 ==> joined(chunks.take(n as int)).len() == chunk_start(n - 1)
            + chunks.last().len(),
        n == 0 ==> joined(chunks.take(n as int)).len() == 0,
    decreases n,
{
    if n > 0 {
        lemma_cut_lengths(chunks, (n - 1) as nat);
        lemma_joined_push(chunks, n - 1);
    }
}

} // verus!
