//! Cutting data into chunks while it comes in, piece by piece.
//!
//! [`ChunkStream`] decides; whoever drives it performs the [`StreamAction`] that
//! it was handed and comes back with the [`StreamEvent`] that the action led to.
//! `E` is the type of the errors that the driver meets.

use crate::buffer::frozen_bytes;
use crate::chunks::{
    chunks_of, is_cut, joined, law_one_way_to_cut, law_whole_chunk_lengths,
    law_whole_chunks_come_first, Chunker, CHUNK_SIZE,
};
use bytes::Bytes;
use vstd::pervasive::unreached;
use vstd::prelude::*;

verus! {

/// What came of the last action.
pub enum StreamEvent<E> {
    /// This piece came in.
    Data(Vec<u8>),
    /// No more will come in.
    NoMoreData,
    /// The chunk was handed on.
    Done,
    /// The chunk could not be handed on.
    Failed(E),
}

/// What is to be done next.
pub enum StreamAction<E> {
    /// Wait for a piece.
    Receive,
    /// Hand this chunk on.
    HandOn(Bytes),
    /// Nothing more: this is the outcome.
    Return(Result<(), E>),
}

/// What a stream waits for.
pub enum StreamPhase {
    /// A piece.
    Receiving,
    /// A whole chunk to be handed on.
    Handing,
    /// What was left at the end to be handed on.
    HandingRest,
    /// Nothing: it is over.
    Over,
}

/// Data on its way into chunks.
pub struct ChunkStream {
    phase: StreamPhase,
    chunker: Chunker,
}

/// What a [`StreamEvent`] says.
pub enum StreamEventModel<E> {
    Data(Seq<u8>),
    NoMoreData,
    Done,
    Failed(E),
}

/// What a [`StreamAction`] asks for.
pub enum StreamActionModel<E> {
    Receive,
    HandOn(Seq<u8>),
    Return(Result<(), E>),
}

/// A stream: what it waits for, and the bytes that it has yet to hand on.
pub struct StreamModel {
    pub phase: StreamPhase,
    pub pending: Seq<u8>,
}

impl<E> View for StreamEvent<E> {
    type V = StreamEventModel<E>;

    open spec fn view(&self) -> StreamEventModel<E> {
        match *self {
            StreamEvent::Data(piece) => StreamEventModel::Data(piece@),
            StreamEvent::NoMoreData => StreamEventModel::NoMoreData,
            StreamEvent::Done => StreamEventModel::Done,
            StreamEvent::Failed(e) => StreamEventModel::Failed(e),
        }
    }
}

impl<E> View for StreamAction<E> {
    type V = StreamActionModel<E>;

    open spec fn view(&self) -> StreamActionModel<E> {
        match *self {
            StreamAction::Receive => StreamActionModel::Receive,
            StreamAction::HandOn(chunk) => StreamActionModel::HandOn(frozen_bytes(chunk)),
            StreamAction::Return(result) => StreamActionModel::Return(result),
        }
    }
}

impl View for ChunkStream {
    type V = StreamModel;

    closed spec fn view(&self) -> StreamModel {
        StreamModel { phase: self.phase, pending: self.chunker@ }
    }
}

impl StreamModel {
    /// A stream that nothing has come into.
    pub open spec fn start() -> StreamModel {
        StreamModel { phase: StreamPhase::Receiving, pending: Seq::empty() }
    }

    /// The events that may come next: what the stream waits for.
    pub open spec fn accepts<E>(self, event: StreamEventModel<E>) -> bool {
        match self.phase {
            StreamPhase::Receiving => match event {
                StreamEventModel::Data(piece) => self.pending.len() + piece.len() <= isize::MAX,
                StreamEventModel::NoMoreData => true,
                _ => false,
            },
            StreamPhase::Over => false,
            _ => event is Done || event is Failed,
        }
    }

    /// It is over.
    pub open spec fn end<E>(self, result: Result<(), E>) -> (StreamModel, StreamActionModel<E>) {
        (StreamModel { phase: StreamPhase::Over, ..self }, StreamActionModel::Return(result))
    }

    /// The next whole chunk, or more data.
    pub open spec fn go_on<E>(self) -> (StreamModel, StreamActionModel<E>) {
        if self.pending.len() >= CHUNK_SIZE {
            (
                StreamModel {
                    phase: StreamPhase::Handing,
                    pending: self.pending.skip(CHUNK_SIZE as int),
                },
                StreamActionModel::HandOn(self.pending.take(CHUNK_SIZE as int)),
            )
        } else {
            (
                StreamModel { phase: StreamPhase::Receiving, ..self },
                StreamActionModel::Receive,
            )
        }
    }

    /// What is left at the end.
    pub open spec fn rest<E>(self) -> (StreamModel, StreamActionModel<E>) {
        if self.pending.len() > 0 {
            (
                StreamModel { phase: StreamPhase::HandingRest, pending: Seq::empty() },
                StreamActionModel::HandOn(self.pending),
            )
        } else {
            self.end(Ok(()))
        }
    }

    /// What an event leads to.
    pub open spec fn next<E>(self, event: StreamEventModel<E>) -> (
        StreamModel,
        StreamActionModel<E>,
    ) {
        match event {
            StreamEventModel::Data(piece) => StreamModel {
                pending: self.pending + piece,
                ..self
            }.go_on(),
            StreamEventModel::NoMoreData => self.rest(),
            StreamEventModel::Done => {
                if self.phase is Handing {
                    self.go_on()
                } else {
                    self.end(Ok(()))
                }
            },
            StreamEventModel::Failed(e) => self.end(Err(e)),
        }
    }
}

impl ChunkStream {
    /// A stream that nothing has come into, and what it does first.
    pub fn start<E>() -> (start: (ChunkStream, StreamAction<E>))
        ensures
            start.0@ == StreamModel::start(),
            start.1@ == StreamActionModel::<E>::Receive,
    {
        (
            ChunkStream { phase: StreamPhase::Receiving, chunker: Chunker::new() },
            StreamAction::Receive,
        )
    }

    /// Whether the stream waits for such an event.
    pub fn accepts<E>(&self, event: &StreamEvent<E>) -> (yes: bool)
        ensures
            yes == self@.accepts(event@),
    {
        match &self.phase {
            StreamPhase::Receiving => match event {
                StreamEvent::Data(piece) => {
                    let room: usize = isize::MAX as usize;
                    piece.len() <= room && self.chunker.len() <= room - piece.len()
                },
                StreamEvent::NoMoreData => true,
                _ => false,
            },
            StreamPhase::Over => false,
            _ => matches!(event, StreamEvent::Done | StreamEvent::Failed(_)),
        }
    }

    /// It is over.
    fn end<E>(&mut self, result: Result<(), E>) -> (action: StreamAction<E>)
        ensures
            (final(self)@, action@) == old(self)@.end(result),
    {
        self.phase = StreamPhase::Over;
        StreamAction::Return(result)
    }

    /// The next whole chunk, or more data.
    fn go_on<E>(&mut self) -> (action: StreamAction<E>)
        ensures
            (final(self)@, action@) == old(self)@.go_on::<E>(),
    {
        match self.chunker.next_chunk() {
            Some(chunk) => {
                self.phase = StreamPhase::Handing;
                StreamAction::HandOn(chunk)
            },
            None => {
                self.phase = StreamPhase::Receiving;
                StreamAction::Receive
            },
        }
    }

    /// What is left at the end.
    fn rest<E>(&mut self) -> (action: StreamAction<E>)
        ensures
            (final(self)@, action@) == old(self)@.rest::<E>(),
    {
        match self.chunker.take_rest() {
            Some(rest) => {
                self.phase = StreamPhase::HandingRest;
                StreamAction::HandOn(rest)
            },
            None => {
                assert(self@.pending =~= old(self)@.pending);
                self.end(Ok(()))
            },
        }
    }

    /// Takes in what came of the last action and says what is to be done next.
    pub fn step<E>(&mut self, event: StreamEvent<E>) -> (action: StreamAction<E>)
        requires
            old(self)@.accepts(event@),
        ensures
            (final(self)@, action@) == old(self)@.next(event@),
    {
        match event {
            StreamEvent::Data(piece) => {
                self.chunker.feed(piece.as_slice());
                self.go_on()
            },
            StreamEvent::NoMoreData => self.rest(),
            StreamEvent::Done => match &self.phase {
                StreamPhase::Handing => self.go_on(),
                StreamPhase::HandingRest => self.end(Ok(())),
                _ => unreached(),
            },
            StreamEvent::Failed(e) => self.end(Err(e)),
        }
    }
}

/// Where a stream stands after some events.
pub open spec fn run<E>(events: Seq<StreamEventModel<E>>) -> StreamModel
    decreases events.len(),
{
    if events.len() == 0 {
        StreamModel::start()
    } else {
        run(events.drop_last()).next(events.last()).0
    }
}

/// Each event is one that the stream was waiting for.
pub open spec fn is_run<E>(events: Seq<StreamEventModel<E>>) -> bool
    decreases events.len(),
{
    events.len() > 0 ==> is_run(events.drop_last()) && run(events.drop_last()).accepts(
        events.last(),
    )
}

/// What the last of some events led to.
pub open spec fn last_action<E>(events: Seq<StreamEventModel<E>>) -> StreamActionModel<E> {
    run(events.drop_last()).next(events.last()).1
}

/// The data that came in, one piece behind the other.
pub open spec fn received<E>(events: Seq<StreamEventModel<E>>) -> Seq<u8>
    decreases events.len(),
{
    if events.len() == 0 {
        Seq::empty()
    } else {
        match events.last() {
            StreamEventModel::Data(piece) => received(events.drop_last()) + piece,
            _ => received(events.drop_last()),
        }
    }
}

/// What was handed on, first to last.
pub open spec fn handed_on<E>(events: Seq<StreamEventModel<E>>) -> Seq<Seq<u8>>
    decreases events.len(),
{
    if events.len() == 0 {
        Seq::empty()
    } else {
        match last_action(events) {
            StreamActionModel::HandOn(chunk) => handed_on(events.drop_last()).push(chunk),
            _ => handed_on(events.drop_last()),
        }
    }
}

/// It was said that no more data will come.
pub open spec fn has_ended<E>(events: Seq<StreamEventModel<E>>) -> bool
    decreases events.len(),
{
    events.len() > 0 && (events.last() is NoMoreData || has_ended(events.drop_last()))
}

/// What a stream does next follows from the data that came in and from how many
/// chunks were handed on: an error is returned; else the next whole chunk is
/// handed on, if there is one; else more data is waited for, as long as more may
/// come; else what is left is handed on, if anything is; and only then the stream
/// succeeds.
pub proof fn law_what_a_stream_does_next<E>(events: Seq<StreamEventModel<E>>)
    requires
        is_run(events),
        events.len() > 0,
    ensures
        ({
            let data = received(events);
            let n = handed_on(events.drop_last()).len() as int;
            last_action(events) == match events.last() {
                StreamEventModel::Failed(e) => StreamActionModel::Return(Err(e)),
                _ => if n < data.len() / 16384 {
                    StreamActionModel::HandOn(chunks_of(data)[n])
                } else if !has_ended(events) {
                    StreamActionModel::Receive
                } else if n < chunks_of(data).len() {
                    StreamActionModel::HandOn(chunks_of(data)[n])
                } else {
                    StreamActionModel::Return(Ok(()))
                },
            }
        }),
{
    let fewer = events.drop_last();
    let handed = handed_on(fewer);
    let n = handed.len() as int;
    let before = run(fewer);
    let data = received(events);
    lemma_stream_so_far(fewer);
    lemma_when_it_has_ended(fewer);
    match last_action(events) {
        StreamActionModel::HandOn(chunk) => {
            let more = handed.push(chunk);
            assert(more.drop_last() =~= handed);
            let rest = run(events).pending;
            assert(joined(more) + rest =~= data);
            law_whole_chunk_lengths(handed);
            if chunk.len() == CHUNK_SIZE {
                assert forall|i: int| 0 <= i < more.len() implies #[trigger] more[i].len()
                    == CHUNK_SIZE by {
                    if i < handed.len() {
                        assert(handed[i].len() == CHUNK_SIZE);
                    }
                }
                law_whole_chunks_come_first(more, rest);
                assert(chunks_of(data).take(more.len() as int)[n] == more[n]);
            } else {
                assert(joined(more) =~= data);
                law_one_way_to_cut(more);
                assert(chunks_of(data)[n] == more[n]);
            }
        },
        StreamActionModel::Receive => {
            law_whole_chunk_lengths(handed);
            assert(joined(handed) + run(events).pending =~= data);
        },
        StreamActionModel::Return(_) => {
            if !(events.last() is Failed) {
                assert(joined(handed) =~= data);
                law_one_way_to_cut(handed);
            }
        },
    }
}

/// While a stream waits for data or hands whole chunks on, more may come; it
/// hands on what is left when no more will.
proof fn lemma_when_it_has_ended<E>(events: Seq<StreamEventModel<E>>)
    requires
        is_run(events),
    ensures
        run(events).phase is Receiving || run(events).phase is Handing ==> !has_ended(events),
        run(events).phase is HandingRest ==> has_ended(events),
    decreases events.len(),
{
    if events.len() > 0 {
        lemma_when_it_has_ended(events.drop_last());
    }
}

/// A stream takes whatever may come of what it asked for: any piece that fits
/// into memory and the end of the data where it waits for data, success and
/// failure where it handed a chunk on, and nothing when it is over.
pub proof fn law_a_stream_takes_what_it_asked_for<E>(
    events: Seq<StreamEventModel<E>>,
    event: StreamEventModel<E>,
)
    requires
        is_run(events),
    ensures
        run(events).accepts(event) == match (if events.len() == 0 {
            StreamActionModel::Receive
        } else {
            last_action(events)
        }) {
            StreamActionModel::Receive => match event {
                StreamEventModel::Data(piece) => received(events).len() % 16384 + piece.len()
                    <= isize::MAX,
                StreamEventModel::NoMoreData => true,
                _ => false,
            },
            StreamActionModel::HandOn(_) => event is Done || event is Failed,
            StreamActionModel::Return(_) => false,
        },
{
    if run(events).phase is Receiving {
        law_the_data_is_kept(events);
        lemma_stream_so_far(events);
        law_whole_chunk_lengths(handed_on(events));
        assert(received(events).len() == joined(handed_on(events)).len() + run(
            events,
        ).pending.len());
    }
}

/// A stream succeeds only when no more data will come; until that was said, and
/// as long as nothing failed, it waits for data or hands a chunk on.
pub proof fn law_a_stream_succeeds_only_at_the_end_of_the_data<E>(
    events: Seq<StreamEventModel<E>>,
)
    requires
        is_run(events),
        events.len() > 0,
    ensures
        last_action(events) == StreamActionModel::<E>::Return(Ok(())) ==> has_ended(events),
        !has_ended(events) && !(events.last() is Failed) ==> last_action(events) is Receive
            || last_action(events) is HandOn,
{
    law_what_a_stream_does_next(events);
}

/// A stream that succeeds has handed on the chunks of the data that came in,
/// in order, once each and nothing else, whatever the pieces were.
pub proof fn law_the_chunks_are_handed_on<E>(events: Seq<StreamEventModel<E>>)
    requires
        is_run(events),
        events.len() > 0,
        last_action(events) == StreamActionModel::<E>::Return(Ok(())),
    ensures
        handed_on(events) == chunks_of(received(events)),
{
    lemma_stream_so_far(events.drop_last());
    let fewer = events.drop_last();
    assert(joined(handed_on(fewer)) =~= received(fewer));
    law_one_way_to_cut(handed_on(fewer));
}

/// At any time, no byte of the data that came in is lost, added or moved: those
/// handed on and those pending are those that came in. While more is waited for,
/// every whole chunk of it has been handed on.
pub proof fn law_the_data_is_kept<E>(events: Seq<StreamEventModel<E>>)
    requires
        is_run(events),
    ensures
        joined(handed_on(events)) + run(events).pending == received(events),
        run(events).phase is Receiving ==> run(events).pending.len() < CHUNK_SIZE
            && handed_on(events).len() == received(events).len() / 16384,
{
    lemma_stream_so_far(events);
    if run(events).phase is Receiving {
        law_whole_chunk_lengths(handed_on(events));
        assert(received(events).len() == joined(handed_on(events)).len() + run(
            events,
        ).pending.len());
    }
}

/// At any time, what was handed on are the first chunks of the data that came
/// in.
pub proof fn law_the_first_chunks_are_handed_on<E>(events: Seq<StreamEventModel<E>>)
    requires
        is_run(events),
    ensures
        handed_on(events).len() <= chunks_of(received(events)).len(),
        handed_on(events) == chunks_of(received(events)).take(handed_on(events).len() as int),
{
    lemma_stream_so_far(events);
    let m = run(events);
    if m.pending.len() == 0 {
        assert(joined(handed_on(events)) =~= received(events));
        law_one_way_to_cut(handed_on(events));
        assert(handed_on(events) =~= chunks_of(received(events)).take(
            handed_on(events).len() as int,
        ));
    } else {
        law_whole_chunks_come_first(handed_on(events), m.pending);
    }
}

/// A stream fails where a chunk could not be handed on, at once and with just
/// that error; it succeeds where none failed.
pub proof fn law_the_first_failure_is_returned<E>(events: Seq<StreamEventModel<E>>)
    requires
        is_run(events),
        events.len() > 0,
    ensures
        forall|e: E|
            events.last() == StreamEventModel::<E>::Failed(e) <==> #[trigger] is_failure(
                last_action(events),
                e,
            ),
        forall|i: int| 0 <= i < events.len() - 1 ==> !(#[trigger] events[i] is Failed),
{
    lemma_goes_on_without_failure(events.drop_last());
    assert forall|i: int| 0 <= i < events.len() - 1 implies !(#[trigger] events[i] is Failed) by {
        assert(events[i] == events.drop_last()[i]);
    }
}

/// The outcome is the error `e`.
pub open spec fn is_failure<E>(action: StreamActionModel<E>, e: E) -> bool {
    action matches StreamActionModel::Return(Err(met)) && met == e
}

/// A stream that is not over has met no failure.
proof fn lemma_goes_on_without_failure<E>(events: Seq<StreamEventModel<E>>)
    requires
        is_run(events),
        !(run(events).phase is Over),
    ensures
        forall|i: int| 0 <= i < events.len() ==> !(#[trigger] events[i] is Failed),
    decreases events.len(),
{
    if events.len() > 0 {
        let fewer = events.drop_last();
        lemma_goes_on_without_failure(fewer);
        assert forall|i: int| 0 <= i < events.len() implies !(#[trigger] events[i] is Failed) by {
            if i < fewer.len() {
                assert(events[i] == fewer[i]);
            }
        }
    }
}

/// Each chunk holds at least one byte and at most [`CHUNK_SIZE`]; a shorter one
/// is handed on only when no more data will come, and nothing is handed on
/// after it. While data is waited for, less than a chunk is pending.
pub proof fn law_a_short_chunk_comes_last<E>(
    events: Seq<StreamEventModel<E>>,
    event: StreamEventModel<E>,
)
    requires
        is_run(events),
        events.len() > 0,
        run(events).accepts(event),
    ensures
        last_action(events) matches StreamActionModel::HandOn(chunk) ==> 0 < chunk.len()
            <= CHUNK_SIZE && (chunk.len() < CHUNK_SIZE ==> events.last() is NoMoreData && run(
            events,
        ).next(event).1 is Return),
        run(events).phase is Receiving ==> run(events).pending.len() < CHUNK_SIZE,
{
    lemma_stream_so_far(events.drop_last());
    lemma_stream_so_far(events);
}

/// What holds of a stream at any time.
proof fn lemma_stream_so_far<E>(events: Seq<StreamEventModel<E>>)
    requires
        is_run(events),
    ensures
        ({
            let m = run(events);
            let handed = handed_on(events);
            &&& joined(handed) + m.pending == received(events)
            &&& is_cut(handed)
            &&& m.phase is Receiving ==> m.pending.len() < CHUNK_SIZE
            &&& m.phase is HandingRest ==> m.pending.len() == 0
            &&& m.phase is Receiving || m.phase is Handing || m.pending.len() > 0 ==> forall|i: int|
                0 <= i < handed.len() ==> #[trigger] handed[i].len() == CHUNK_SIZE
        }),
    decreases events.len(),
{
    if events.len() == 0 {
        assert(joined(Seq::<Seq<u8>>::empty()) + StreamModel::start().pending =~= Seq::<
            u8,
        >::empty());
    } else {
        let fewer = events.drop_last();
        lemma_stream_so_far(fewer);
        let handed = handed_on(fewer);
        match last_action(events) {
            StreamActionModel::HandOn(chunk) => {
                assert(handed.push(chunk).drop_last() =~= handed);
                assert(joined(handed_on(events)) + run(events).pending =~= received(events));
            },
            _ => {
                assert(joined(handed_on(events)) + run(events).pending =~= received(events));
            },
        }
    }
}

/// Events that say the same hold the same: the same piece or error.
pub proof fn law_stream_events_are_told_apart<E>(a: StreamEvent<E>, b: StreamEvent<E>)
    requires
        a@ == b@,
    ensures
        match (a, b) {
            (StreamEvent::Data(x), StreamEvent::Data(y)) => x@ == y@,
            (StreamEvent::NoMoreData, StreamEvent::NoMoreData) => true,
            (StreamEvent::Done, StreamEvent::Done) => true,
            (StreamEvent::Failed(x), StreamEvent::Failed(y)) => x == y,
            _ => false,
        },
{
}

/// Actions that ask for the same hold the same: the same chunk or outcome.
pub proof fn law_stream_actions_are_told_apart<E>(a: StreamAction<E>, b: StreamAction<E>)
    requires
        a@ == b@,
    ensures
        match (a, b) {
            (StreamAction::Receive, StreamAction::Receive) => true,
            (StreamAction::HandOn(x), StreamAction::HandOn(y)) => frozen_bytes(x)
                == frozen_bytes(y),
            (StreamAction::Return(x), StreamAction::Return(y)) => x == y,
            _ => false,
        },
{
}

} // verus!
