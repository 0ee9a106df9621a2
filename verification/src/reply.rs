//! How the receiving side answers: it tells the sender which files it selected,
//! and the token for each.
//!
//! [`ReplySession`] decides; whoever drives it performs the [`ReplyAction`] that
//! it was handed and comes back with the [`ReplyEvent`] that the action led to.
//! `E` is the type of the errors that the driver meets.

use crate::buffer::frozen_bytes;
use crate::chunks::{after_part, part_of, Chunker};
use crate::tokens::FileTokens;
use bytes::Bytes;
use vstd::pervasive::unreached;
use vstd::prelude::*;
use vstd::utf8::encode_utf8;

verus! {

/// What came of the last action.
pub enum ReplyEvent<E> {
    /// Files were selected and have their tokens, or none will be selected.
    Selected(Option<FileTokens>),
    /// The reply was put into words, or could not be.
    Worded(Result<String, E>),
    /// The message was sent.
    Done,
    /// The message was not sent.
    Failed(E),
}

/// What is to be done next.
pub enum ReplyAction<E> {
    /// Wait for the selection.
    AwaitSelection,
    /// Put these tokens into words.
    Word(FileTokens),
    /// Send these bytes through the channel, as binary data.
    SendBinary(Bytes),
    /// Send this text through the channel.
    SendText(String),
    /// Nothing more; the whole transfer is broken off where `broken` says so.
    Stop { broken: bool, result: Result<(), E> },
}

/// Where the session stands: what it waits for.
enum ReplyPhase {
    Selecting,
    Wording,
    Sending,
    Marking,
    Stopped,
}

/// The reply of the receiving side.
pub struct ReplySession {
    phase: ReplyPhase,
    chunker: Chunker,
}

/// What a [`ReplyEvent`] says.
pub enum ReplyEventModel<E> {
    Selected(Option<Map<Seq<char>, Seq<char>>>),
    Worded(Result<Seq<char>, E>),
    Done,
    Failed(E),
}

/// What a [`ReplyAction`] asks for.
pub enum ReplyActionModel<E> {
    AwaitSelection,
    Word(Map<Seq<char>, Seq<char>>),
    SendBinary(Seq<u8>),
    SendText(Seq<char>),
    Stop { broken: bool, result: Result<(), E> },
}

/// Where a session stands.
pub enum ReplyPhaseModel {
    /// It waits for the selection.
    Selecting,
    /// It waits for the words.
    Wording,
    /// It sends the words.
    Sending,
    /// It marks their end.
    Marking,
    /// It is over.
    Stopped,
}

/// A session: where it stands, and the bytes that it has yet to send.
pub struct ReplyModel {
    pub phase: ReplyPhaseModel,
    pub pending: Seq<u8>,
}

impl<E> View for ReplyEvent<E> {
    type V = ReplyEventModel<E>;

    open spec fn view(&self) -> ReplyEventModel<E> {
        match *self {
            ReplyEvent::Selected(None) => ReplyEventModel::Selected(None),
            ReplyEvent::Selected(Some(tokens)) => ReplyEventModel::Selected(Some(tokens@)),
            ReplyEvent::Worded(Ok(text)) => ReplyEventModel::Worded(Ok(text@)),
            ReplyEvent::Worded(Err(e)) => ReplyEventModel::Worded(Err(e)),
            ReplyEvent::Done => ReplyEventModel::Done,
            ReplyEvent::Failed(e) => ReplyEventModel::Failed(e),
        }
    }
}

impl<E> View for ReplyAction<E> {
    type V = ReplyActionModel<E>;

    open spec fn view(&self) -> ReplyActionModel<E> {
        match *self {
            ReplyAction::AwaitSelection => ReplyActionModel::AwaitSelection,
            ReplyAction::Word(tokens) => ReplyActionModel::Word(tokens@),
            ReplyAction::SendBinary(bytes) => ReplyActionModel::SendBinary(frozen_bytes(bytes)),
            ReplyAction::SendText(text) => ReplyActionModel::SendText(text@),
            ReplyAction::Stop { broken, result } => ReplyActionModel::Stop { broken, result },
        }
    }
}

impl View for ReplyPhase {
    type V = ReplyPhaseModel;

    closed spec fn view(&self) -> ReplyPhaseModel {
        match self {
            ReplyPhase::Selecting => ReplyPhaseModel::Selecting,
            ReplyPhase::Wording => ReplyPhaseModel::Wording,
            ReplyPhase::Sending => ReplyPhaseModel::Sending,
            ReplyPhase::Marking => ReplyPhaseModel::Marking,
            ReplyPhase::Stopped => ReplyPhaseModel::Stopped,
        }
    }
}

impl View for ReplySession {
    type V = ReplyModel;

    closed spec fn view(&self) -> ReplyModel {
        ReplyModel { phase: self.phase@, pending: self.chunker@ }
    }
}

impl ReplyModel {
    /// A session that nothing has happened to.
    pub open spec fn start() -> ReplyModel {
        ReplyModel { phase: ReplyPhaseModel::Selecting, pending: Seq::empty() }
    }

    /// The events that may come next: what the session waits for.
    pub open spec fn accepts<E>(self, event: ReplyEventModel<E>) -> bool {
        match self.phase {
            ReplyPhaseModel::Selecting => event is Selected,
            ReplyPhaseModel::Wording => match event {
                ReplyEventModel::Worded(Ok(text)) => self.pending.len() + encode_utf8(text).len()
                    <= isize::MAX,
                ReplyEventModel::Worded(Err(_)) => true,
                _ => false,
            },
            ReplyPhaseModel::Stopped => false,
            _ => event is Done || event is Failed,
        }
    }

    /// It is over.
    pub open spec fn stop<E>(self, broken: bool, result: Result<(), E>) -> (
        ReplyModel,
        ReplyActionModel<E>,
    ) {
        (
            ReplyModel { phase: ReplyPhaseModel::Stopped, ..self },
            ReplyActionModel::Stop { broken, result },
        )
    }

    /// The next part of the words, or the mark behind them.
    pub open spec fn go_on<E>(self) -> (ReplyModel, ReplyActionModel<E>) {
        if self.pending.len() > 0 {
            (
                ReplyModel { phase: ReplyPhaseModel::Sending, pending: after_part(self.pending) },
                ReplyActionModel::SendBinary(part_of(self.pending)),
            )
        } else {
            (
                ReplyModel { phase: ReplyPhaseModel::Marking, ..self },
                ReplyActionModel::SendText(""@),
            )
        }
    }

    /// What an event leads to.
    pub open spec fn next<E>(self, event: ReplyEventModel<E>) -> (
        ReplyModel,
        ReplyActionModel<E>,
    ) {
        match (self.phase, event) {
            (ReplyPhaseModel::Selecting, ReplyEventModel::Selected(Some(tokens))) => (
                ReplyModel { phase: ReplyPhaseModel::Wording, ..self },
                ReplyActionModel::Word(tokens),
            ),
            (ReplyPhaseModel::Selecting, _) => self.stop(true, Ok(())),
            (ReplyPhaseModel::Wording, ReplyEventModel::Worded(Ok(text))) => ReplyModel {
                pending: self.pending + encode_utf8(text),
                ..self
            }.go_on(),
            (ReplyPhaseModel::Wording, ReplyEventModel::Worded(Err(e))) => self.stop(
                false,
                Err(e),
            ),
            (ReplyPhaseModel::Sending, ReplyEventModel::Failed(e)) => self.stop(true, Err(e)),
            (ReplyPhaseModel::Sending, _) => self.go_on(),
            (ReplyPhaseModel::Marking, ReplyEventModel::Failed(e)) => self.stop(false, Err(e)),
            _ => self.stop(false, Ok(())),
        }
    }
}

impl ReplySession {
    /// A session that nothing has happened to, and what it does first.
    pub fn start<E>() -> (start: (ReplySession, ReplyAction<E>))
        ensures
            start.0@ == ReplyModel::start(),
            start.1@ == ReplyActionModel::<E>::AwaitSelection,
    {
        (
            ReplySession { phase: ReplyPhase::Selecting, chunker: Chunker::new() },
            ReplyAction::AwaitSelection,
        )
    }

    /// Whether the session waits for such an event.
    pub fn accepts<E>(&self, event: &ReplyEvent<E>) -> (yes: bool)
        ensures
            yes == self@.accepts(event@),
    {
        match &self.phase {
            ReplyPhase::Selecting => matches!(event, ReplyEvent::Selected(_)),
            ReplyPhase::Wording => match event {
                ReplyEvent::Worded(Ok(text)) => {
                    let room: usize = isize::MAX as usize;
                    let n: usize = text.as_str().as_bytes().len();
                    n <= room && self.chunker.len() <= room - n
                },
                ReplyEvent::Worded(Err(_)) => true,
                _ => false,
            },
            ReplyPhase::Stopped => false,
            _ => matches!(event, ReplyEvent::Done | ReplyEvent::Failed(_)),
        }
    }

    /// It is over.
    fn stop<E>(&mut self, broken: bool, result: Result<(), E>) -> (action: ReplyAction<E>)
        ensures
            (final(self)@, action@) == old(self)@.stop(broken, result),
    {
        self.phase = ReplyPhase::Stopped;
        ReplyAction::Stop { broken, result }
    }

    /// The next part of the words, or the mark behind them.
    fn go_on<E>(&mut self) -> (action: ReplyAction<E>)
        ensures
            (final(self)@, action@) == old(self)@.go_on::<E>(),
    {
        match self.chunker.next_part() {
            Some(part) => {
                self.phase = ReplyPhase::Sending;
                ReplyAction::SendBinary(part)
            },
            None => {
                self.phase = ReplyPhase::Marking;
                assert(self@.pending =~= old(self)@.pending);
                ReplyAction::SendText("".to_owned())
            },
        }
    }

    /// Takes in what came of the last action and says what is to be done next.
    pub fn step<E>(&mut self, event: ReplyEvent<E>) -> (action: ReplyAction<E>)
        requires
            old(self)@.accepts(event@),
        ensures
            (final(self)@, action@) == old(self)@.next(event@),
    {
        match (&self.phase, event) {
            (ReplyPhase::Selecting, ReplyEvent::Selected(Some(tokens))) => {
                self.phase = ReplyPhase::Wording;
                ReplyAction::Word(tokens)
            },
            (ReplyPhase::Selecting, _) => self.stop(true, Ok(())),
            (ReplyPhase::Wording, ReplyEvent::Worded(Ok(text))) => {
                self.chunker.feed(text.as_str().as_bytes());
                self.go_on()
            },
            (ReplyPhase::Wording, ReplyEvent::Worded(Err(e))) => self.stop(false, Err(e)),
            (ReplyPhase::Sending, ReplyEvent::Failed(e)) => self.stop(true, Err(e)),
            (ReplyPhase::Sending, _) => self.go_on(),
            (ReplyPhase::Marking, ReplyEvent::Failed(e)) => self.stop(false, Err(e)),
            (ReplyPhase::Marking, _) => self.stop(false, Ok(())),
            _ => unreached(),
        }
    }
}

/// Events that say the same hold the same: the same selection, words or error.
pub proof fn law_reply_events_are_told_apart<E>(a: ReplyEvent<E>, b: ReplyEvent<E>)
    requires
        a@ == b@,
    ensures
        match (a, b) {
            (ReplyEvent::Selected(Some(x)), ReplyEvent::Selected(Some(y))) => x@ == y@,
            (ReplyEvent::Selected(None), ReplyEvent::Selected(None)) => true,
            (ReplyEvent::Worded(Ok(x)), ReplyEvent::Worded(Ok(y))) => x@ == y@,
            (ReplyEvent::Worded(Err(x)), ReplyEvent::Worded(Err(y))) => x == y,
            (ReplyEvent::Done, ReplyEvent::Done) => true,
            (ReplyEvent::Failed(x), ReplyEvent::Failed(y)) => x == y,
            _ => false,
        },
{
}

/// Actions that ask for the same hold the same: the same tokens, message or outcome.
pub proof fn law_reply_actions_are_told_apart<E>(a: ReplyAction<E>, b: ReplyAction<E>)
    requires
        a@ == b@,
    ensures
        match (a, b) {
            (ReplyAction::AwaitSelection, ReplyAction::AwaitSelection) => true,
            (ReplyAction::Word(x), ReplyAction::Word(y)) => x@ == y@,
            (ReplyAction::SendBinary(x), ReplyAction::SendBinary(y)) => frozen_bytes(x)
                == frozen_bytes(y),
            (ReplyAction::SendText(x), ReplyAction::SendText(y)) => x@ == y@,
            (
                ReplyAction::Stop { broken: p, result: x },
                ReplyAction::Stop { broken: q, result: y },
            ) => p == q && x == y,
            _ => false,
        },
{
}

} // verus!
