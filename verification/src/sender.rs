//! What the sending side does once its data channel is open.
//!
//! [`SendSession`] decides; whoever drives it performs the [`SendAction`] that
//! it was handed and comes back with the [`SendEvent`] that the action led to.
//! `E` is the type of the error that closing the connection may end in.

use crate::buffer::frozen_bytes;
use crate::chunks::{after_part, part_of, Chunker, CHUNK_SIZE};
use crate::messages::{FileHeader, RTCFileError, RTCStatus, StatusModel};
use crate::string_map::{texts, StringMap};
use crate::tokens::FileTokens;
use bytes::Bytes;
use vstd::pervasive::unreached;
use vstd::prelude::*;
use vstd::string::StringExecFns;
use vstd::utf8::encode_utf8;

verus! {

/// What came of the last action.
pub enum SendEvent<E> {
    /// It was done.
    Done,
    /// It failed, for this reason.
    Failed(String),
    /// The initial message was put into words.
    Worded(String),
    /// The tokens for the selected files were received, or none will come.
    Tokens(Option<FileTokens>),
    /// A file is to be sent, or no more will come.
    File(Option<String>),
    /// Bytes of the file were read, or it has ended.
    Data(Option<Vec<u8>>),
    /// The connection could not be closed in good order.
    NotClosed(E),
}

/// What is to be done next.
pub enum SendAction<E> {
    /// Report this status.
    SendStatus(RTCStatus),
    /// Report this status if there is room for it now.
    TryStatus(RTCStatus),
    /// Put the initial message into words.
    Word,
    /// Send these bytes through the channel, as binary data.
    SendBinary(Bytes),
    /// Send this header through the channel, as text.
    SendHeader(FileHeader),
    /// Wait for the tokens.
    ReceiveTokens,
    /// Make known which files were selected.
    Publish(Vec<String>),
    /// Wait for a file to send.
    ReceiveFile,
    /// Wait for bytes of the file.
    ReceiveData,
    /// Report that a file was not sent.
    ReportFile(RTCFileError),
    /// Close the data channel, when what was sent through it has gone out.
    CloseChannel,
    /// Close the connection to the peer.
    CloseConnection,
    /// Nothing more: this came of closing the connection.
    Stop(Result<(), E>),
}

/// An error that ends a session, and how it is reported: if there is room for it
/// now, or in any case.
enum Failure {
    Try(String),
    Send(String),
}

/// Where the session stands: what it waits for.
enum SendPhase {
    Announcing,
    Wording,
    Introducing,
    AwaitingTokens,
    Publishing,
    AwaitingFile,
    Heading(String),
    Reading(String),
    Sending(String),
    Ending(String),
    Reporting,
    Closing(Option<Failure>),
    Disconnecting(Option<Failure>),
    Failing,
    Finishing,
    Over,
}

/// The sending side of a transfer.
pub struct SendSession<E> {
    phase: SendPhase,
    tokens: FileTokens,
    chunker: Chunker,
    not_closed: Option<E>,
}

/// What a [`SendEvent`] says.
pub enum SendEventModel<E> {
    Done,
    Failed(Seq<char>),
    Worded(Seq<char>),
    Tokens(Option<Map<Seq<char>, Seq<char>>>),
    File(Option<Seq<char>>),
    Data(Option<Seq<u8>>),
    NotClosed(E),
}

/// What a [`SendAction`] asks for.
pub enum SendActionModel<E> {
    SendStatus(StatusModel),
    TryStatus(StatusModel),
    Word,
    SendBinary(Seq<u8>),
    SendHeader(Seq<char>, Seq<char>),
    ReceiveTokens,
    Publish(Set<Seq<char>>),
    ReceiveFile,
    ReceiveData,
    ReportFile(Seq<char>, Seq<char>),
    CloseChannel,
    CloseConnection,
    Stop(Result<(), E>),
}

/// What a [`Failure`] says.
pub enum FailureModel {
    /// This error is reported if there is room for it now.
    Try(Seq<char>),
    /// This error is reported.
    Send(Seq<char>),
}

/// Where a session stands.
pub enum SendPhaseModel {
    /// It says that the channel is open.
    Announcing,
    /// It waits for the words of the initial message.
    Wording,
    /// It sends the initial message.
    Introducing,
    /// It waits for the tokens.
    AwaitingTokens,
    /// It makes the selected files known.
    Publishing,
    /// It waits for a file.
    AwaitingFile,
    /// It sends the header of this file.
    Heading(Seq<char>),
    /// It waits for bytes of this file.
    Reading(Seq<char>),
    /// It sends a whole chunk of this file.
    Sending(Seq<char>),
    /// It sends the last bytes of this file.
    Ending(Seq<char>),
    /// It reports that a file was not sent.
    Reporting,
    /// It closes the channel; this error, if there is one, ended the session.
    Closing(Option<FailureModel>),
    /// It closes the connection; this error, if there is one, ended the session.
    Disconnecting(Option<FailureModel>),
    /// It reports the error that ended the session.
    Failing,
    /// It says that it has finished.
    Finishing,
    /// It is over.
    Over,
}

/// A session: where it stands, the tokens that it was given, the bytes that it
/// has yet to send, and the error that closing the connection ended in.
pub struct SendModel<E> {
    pub phase: SendPhaseModel,
    pub tokens: Map<Seq<char>, Seq<char>>,
    pub pending: Seq<u8>,
    pub not_closed: Option<E>,
}

impl<E> View for SendEvent<E> {
    type V = SendEventModel<E>;

    open spec fn view(&self) -> SendEventModel<E> {
        match *self {
            SendEvent::Done => SendEventModel::Done,
            SendEvent::Failed(e) => SendEventModel::Failed(e@),
            SendEvent::Worded(text) => SendEventModel::Worded(text@),
            SendEvent::Tokens(None) => SendEventModel::Tokens(None),
            SendEvent::Tokens(Some(tokens)) => SendEventModel::Tokens(Some(tokens@)),
            SendEvent::File(None) => SendEventModel::File(None),
            SendEvent::File(Some(id)) => SendEventModel::File(Some(id@)),
            SendEvent::Data(None) => SendEventModel::Data(None),
            SendEvent::Data(Some(bytes)) => SendEventModel::Data(Some(bytes@)),
            SendEvent::NotClosed(e) => SendEventModel::NotClosed(e),
        }
    }
}

impl<E> View for SendAction<E> {
    type V = SendActionModel<E>;

    open spec fn view(&self) -> SendActionModel<E> {
        match *self {
            SendAction::SendStatus(status) => SendActionModel::SendStatus(status@),
            SendAction::TryStatus(status) => SendActionModel::TryStatus(status@),
            SendAction::Word => SendActionModel::Word,
            SendAction::SendBinary(bytes) => SendActionModel::SendBinary(frozen_bytes(bytes)),
            SendAction::SendHeader(header) => SendActionModel::SendHeader(
                header.id@,
                header.token@,
            ),
            SendAction::ReceiveTokens => SendActionModel::ReceiveTokens,
            SendAction::Publish(ids) => SendActionModel::Publish(texts(ids@).to_set()),
            SendAction::ReceiveFile => SendActionModel::ReceiveFile,
            SendAction::ReceiveData => SendActionModel::ReceiveData,
            SendAction::ReportFile(e) => SendActionModel::ReportFile(e.file_id@, e.error@),
            SendAction::CloseChannel => SendActionModel::CloseChannel,
            SendAction::CloseConnection => SendActionModel::CloseConnection,
            SendAction::Stop(result) => SendActionModel::Stop(result),
        }
    }
}

impl View for Failure {
    type V = FailureModel;

    closed spec fn view(&self) -> FailureModel {
        match self {
            Failure::Try(e) => FailureModel::Try(e@),
            Failure::Send(e) => FailureModel::Send(e@),
        }
    }
}

impl View for SendPhase {
    type V = SendPhaseModel;

    closed spec fn view(&self) -> SendPhaseModel {
        match self {
            SendPhase::Announcing => SendPhaseModel::Announcing,
            SendPhase::Wording => SendPhaseModel::Wording,
            SendPhase::Introducing => SendPhaseModel::Introducing,
            SendPhase::AwaitingTokens => SendPhaseModel::AwaitingTokens,
            SendPhase::Publishing => SendPhaseModel::Publishing,
            SendPhase::AwaitingFile => SendPhaseModel::AwaitingFile,
            SendPhase::Heading(id) => SendPhaseModel::Heading(id@),
            SendPhase::Reading(id) => SendPhaseModel::Reading(id@),
            SendPhase::Sending(id) => SendPhaseModel::Sending(id@),
            SendPhase::Ending(id) => SendPhaseModel::Ending(id@),
            SendPhase::Reporting => SendPhaseModel::Reporting,
            SendPhase::Closing(None) => SendPhaseModel::Closing(None),
            SendPhase::Closing(Some(failure)) => SendPhaseModel::Closing(Some(failure@)),
            SendPhase::Disconnecting(None) => SendPhaseModel::Disconnecting(None),
            SendPhase::Disconnecting(Some(failure)) => SendPhaseModel::Disconnecting(
                Some(failure@),
            ),
            SendPhase::Failing => SendPhaseModel::Failing,
            SendPhase::Finishing => SendPhaseModel::Finishing,
            SendPhase::Over => SendPhaseModel::Over,
        }
    }
}

impl<E> View for SendSession<E> {
    type V = SendModel<E>;

    closed spec fn view(&self) -> SendModel<E> {
        SendModel {
            phase: self.phase@,
            tokens: self.tokens@,
            pending: self.chunker@,
            not_closed: self.not_closed,
        }
    }
}

impl<E> SendModel<E> {
    /// A session on a channel that has just opened.
    pub open spec fn start() -> SendModel<E> {
        SendModel {
            phase: SendPhaseModel::Announcing,
            tokens: Map::empty(),
            pending: Seq::empty(),
            not_closed: None,
        }
    }

    /// The same session, elsewhere.
    pub open spec fn at(self, phase: SendPhaseModel) -> SendModel<E> {
        SendModel { phase, ..self }
    }

    /// The same session with other bytes to send.
    pub open spec fn with(self, pending: Seq<u8>) -> SendModel<E> {
        SendModel { pending, ..self }
    }

    /// The events that may come next: what the session waits for.
    pub open spec fn accepts(self, event: SendEventModel<E>) -> bool {
        match self.phase {
            SendPhaseModel::Wording => match event {
                SendEventModel::Worded(text) => self.pending.len() + encode_utf8(text).len()
                    <= isize::MAX,
                _ => false,
            },
            SendPhaseModel::AwaitingTokens => event is Tokens,
            SendPhaseModel::AwaitingFile => event is File,
            SendPhaseModel::Reading(_) => match event {
                SendEventModel::Data(Some(bytes)) => self.pending.len() + bytes.len()
                    <= isize::MAX,
                SendEventModel::Data(None) => true,
                _ => false,
            },
            SendPhaseModel::Disconnecting(_) => event is Done || event is NotClosed,
            SendPhaseModel::Over => false,
            _ => event is Done || event is Failed,
        }
    }

    /// The next part of the initial message, or what follows it.
    pub open spec fn introduce(self) -> (SendModel<E>, SendActionModel<E>) {
        if self.pending.len() > 0 {
            (
                self.at(SendPhaseModel::Introducing).with(after_part(self.pending)),
                SendActionModel::SendBinary(part_of(self.pending)),
            )
        } else {
            (self.at(SendPhaseModel::AwaitingTokens), SendActionModel::ReceiveTokens)
        }
    }

    /// The next whole chunk of the file `id`, or more of its bytes.
    pub open spec fn go_on(self, id: Seq<char>) -> (SendModel<E>, SendActionModel<E>) {
        if self.pending.len() >= CHUNK_SIZE {
            (
                self.at(SendPhaseModel::Sending(id)).with(self.pending.skip(CHUNK_SIZE as int)),
                SendActionModel::SendBinary(self.pending.take(CHUNK_SIZE as int)),
            )
        } else {
            (self.at(SendPhaseModel::Reading(id)), SendActionModel::ReceiveData)
        }
    }

    /// On to the next file.
    pub open spec fn next_file(self) -> (SendModel<E>, SendActionModel<E>) {
        (self.at(SendPhaseModel::AwaitingFile), SendActionModel::ReceiveFile)
    }

    /// The file `id` is not sent.
    pub open spec fn give_up(self, id: Seq<char>, error: Seq<char>) -> (
        SendModel<E>,
        SendActionModel<E>,
    ) {
        (self.at(SendPhaseModel::Reporting), SendActionModel::ReportFile(id, error))
    }

    /// The session comes to its end: the channel and then the connection are
    /// closed before anything is said of it.
    pub open spec fn close(self, failure: Option<FailureModel>) -> (
        SendModel<E>,
        SendActionModel<E>,
    ) {
        (self.at(SendPhaseModel::Closing(failure)), SendActionModel::CloseChannel)
    }

    /// The connection is closed, or is not: the session says how it ended.
    pub open spec fn tell(self, failure: Option<FailureModel>) -> (
        SendModel<E>,
        SendActionModel<E>,
    ) {
        match failure {
            Some(FailureModel::Try(e)) => (
                self.at(SendPhaseModel::Failing),
                SendActionModel::TryStatus(StatusModel::Error(e)),
            ),
            Some(FailureModel::Send(e)) => (
                self.at(SendPhaseModel::Failing),
                SendActionModel::SendStatus(StatusModel::Error(e)),
            ),
            None => self.finish(),
        }
    }

    /// The last status.
    pub open spec fn finish(self) -> (SendModel<E>, SendActionModel<E>) {
        (
            self.at(SendPhaseModel::Finishing),
            SendActionModel::SendStatus(StatusModel::Finished),
        )
    }

    /// What an event leads to.
    pub open spec fn next(self, event: SendEventModel<E>) -> (SendModel<E>, SendActionModel<E>) {
        match (self.phase, event) {
            (SendPhaseModel::Announcing, SendEventModel::Failed(e)) => self.close(
                Some(FailureModel::Try(e)),
            ),
            (SendPhaseModel::Announcing, _) => (
                self.at(SendPhaseModel::Wording),
                SendActionModel::Word,
            ),
            (SendPhaseModel::Wording, SendEventModel::Worded(text)) => self.with(
                self.pending + encode_utf8(text),
            ).introduce(),
            (SendPhaseModel::Introducing, SendEventModel::Failed(e)) => self.close(
                Some(FailureModel::Try("Failed to send initial message: "@ + e)),
            ),
            (SendPhaseModel::Introducing, _) => self.introduce(),
            (SendPhaseModel::AwaitingTokens, SendEventModel::Tokens(Some(tokens))) => (
                SendModel { tokens, ..self.at(SendPhaseModel::Publishing) },
                SendActionModel::Publish(tokens.dom()),
            ),
            (SendPhaseModel::AwaitingTokens, _) => self.close(
                Some(FailureModel::Send("Failed to receive file tokens"@)),
            ),
            (SendPhaseModel::Publishing, SendEventModel::Failed(e)) => self.close(
                Some(FailureModel::Send(e)),
            ),
            (SendPhaseModel::Publishing, _) => self.next_file(),
            (SendPhaseModel::AwaitingFile, SendEventModel::File(Some(id))) => {
                if self.tokens.contains_key(id) {
                    (
                        self.at(SendPhaseModel::Heading(id)),
                        SendActionModel::SendHeader(id, self.tokens[id]),
                    )
                } else {
                    self.give_up(id, "Failed to get file token"@)
                }
            },
            (SendPhaseModel::AwaitingFile, _) => self.close(None),
            (SendPhaseModel::Heading(id), SendEventModel::Failed(e)) => self.give_up(id, e),
            (SendPhaseModel::Heading(id), _) => self.with(Seq::empty()).go_on(id),
            (SendPhaseModel::Reading(id), SendEventModel::Data(Some(bytes))) => self.with(
                self.pending + bytes,
            ).go_on(id),
            (SendPhaseModel::Reading(id), _) => {
                if self.pending.len() > 0 {
                    (
                        self.at(SendPhaseModel::Ending(id)).with(Seq::empty()),
                        SendActionModel::SendBinary(self.pending),
                    )
                } else {
                    self.next_file()
                }
            },
            (SendPhaseModel::Sending(id), SendEventModel::Failed(e)) => self.give_up(id, e),
            (SendPhaseModel::Sending(id), _) => self.go_on(id),
            (SendPhaseModel::Ending(id), SendEventModel::Failed(e)) => self.give_up(id, e),
            (SendPhaseModel::Ending(id), _) => self.next_file(),
            (SendPhaseModel::Reporting, _) => self.next_file(),
            (SendPhaseModel::Closing(failure), _) => (
                self.at(SendPhaseModel::Disconnecting(failure)),
                SendActionModel::CloseConnection,
            ),
            (SendPhaseModel::Disconnecting(failure), SendEventModel::NotClosed(e)) => SendModel {
                not_closed: Some(e),
                ..self
            }.tell(failure),
            (SendPhaseModel::Disconnecting(failure), _) => self.tell(failure),
            (SendPhaseModel::Failing, _) => self.finish(),
            _ => (
                SendModel { not_closed: None, ..self.at(SendPhaseModel::Over) },
                SendActionModel::Stop(
                    match self.not_closed {
                        Some(e) => Err(e),
                        None => Ok(()),
                    },
                ),
            ),
        }
    }
}

impl<E> SendSession<E> {
    /// A session on a channel that has just opened, and what it does first.
    pub fn open() -> (start: (SendSession<E>, SendAction<E>))
        ensures
            start.0@ == SendModel::<E>::start(),
            start.1@ == SendActionModel::<E>::SendStatus(StatusModel::Connected),
    {
        let session = SendSession {
            phase: SendPhase::Announcing,
            tokens: StringMap::new(),
            chunker: Chunker::new(),
            not_closed: None,
        };
        (session, SendAction::SendStatus(RTCStatus::Connected))
    }

    /// The next part of the initial message, or what follows it.
    fn introduce(&mut self) -> (action: SendAction<E>)
        ensures
            (final(self)@, action@) == old(self)@.introduce(),
    {
        match self.chunker.next_part() {
            Some(part) => {
                self.phase = SendPhase::Introducing;
                SendAction::SendBinary(part)
            },
            None => {
                self.phase = SendPhase::AwaitingTokens;
                assert(self@.pending =~= old(self)@.pending);
                SendAction::ReceiveTokens
            },
        }
    }

    /// The next whole chunk of the file `id`, or more of its bytes.
    fn go_on(&mut self, id: String) -> (action: SendAction<E>)
        ensures
            (final(self)@, action@) == old(self)@.go_on(id@),
    {
        match self.chunker.next_chunk() {
            Some(chunk) => {
                self.phase = SendPhase::Sending(id);
                SendAction::SendBinary(chunk)
            },
            None => {
                self.phase = SendPhase::Reading(id);
                SendAction::ReceiveData
            },
        }
    }

    /// On to the next file.
    fn next_file(&mut self) -> (action: SendAction<E>)
        ensures
            (final(self)@, action@) == old(self)@.next_file(),
    {
        self.phase = SendPhase::AwaitingFile;
        SendAction::ReceiveFile
    }

    /// The file `id` is not sent.
    fn give_up(&mut self, id: String, error: String) -> (action: SendAction<E>)
        ensures
            (final(self)@, action@) == old(self)@.give_up(id@, error@),
    {
        self.phase = SendPhase::Reporting;
        SendAction::ReportFile(RTCFileError { file_id: id, error })
    }

    /// The session comes to its end.
    fn close(&mut self, failure: Option<Failure>) -> (action: SendAction<E>)
        ensures
            (final(self)@, action@) == old(self)@.close(
                match failure {
                    Some(f) => Some(f@),
                    None => None,
                },
            ),
    {
        self.phase = SendPhase::Closing(failure);
        SendAction::CloseChannel
    }

    /// The connection is closed, or is not: the session says how it ended.
    fn tell(&mut self, failure: Option<Failure>) -> (action: SendAction<E>)
        ensures
            (final(self)@, action@) == old(self)@.tell(
                match failure {
                    Some(f) => Some(f@),
                    None => None,
                },
            ),
    {
        match failure {
            Some(Failure::Try(e)) => {
                self.phase = SendPhase::Failing;
                SendAction::TryStatus(RTCStatus::Error(e))
            },
            Some(Failure::Send(e)) => {
                self.phase = SendPhase::Failing;
                SendAction::SendStatus(RTCStatus::Error(e))
            },
            None => self.finish(),
        }
    }

    /// The last status.
    fn finish(&mut self) -> (action: SendAction<E>)
        ensures
            (final(self)@, action@) == old(self)@.finish(),
    {
        self.phase = SendPhase::Finishing;
        SendAction::SendStatus(RTCStatus::Finished)
    }

    /// Whether the session waits for such an event.
    pub fn accepts(&self, event: &SendEvent<E>) -> (yes: bool)
        ensures
            yes == self@.accepts(event@),
    {
        match &self.phase {
            SendPhase::Wording => match event {
                SendEvent::Worded(text) => {
                    let room: usize = isize::MAX as usize;
                    let n: usize = text.as_str().as_bytes().len();
                    n <= room && self.chunker.len() <= room - n
                },
                _ => false,
            },
            SendPhase::AwaitingTokens => matches!(event, SendEvent::Tokens(_)),
            SendPhase::AwaitingFile => matches!(event, SendEvent::File(_)),
            SendPhase::Reading(_) => match event {
                SendEvent::Data(Some(bytes)) => {
                    let room: usize = isize::MAX as usize;
                    bytes.len() <= room && self.chunker.len() <= room - bytes.len()
                },
                SendEvent::Data(None) => true,
                _ => false,
            },
            SendPhase::Disconnecting(_) => matches!(
                event,
                SendEvent::Done | SendEvent::NotClosed(_)
            ),
            SendPhase::Over => false,
            _ => matches!(event, SendEvent::Done | SendEvent::Failed(_)),
        }
    }

    /// Takes in what came of the last action and says what is to be done next.
    pub fn step(&mut self, event: SendEvent<E>) -> (action: SendAction<E>)
        requires
            old(self)@.accepts(event@),
        ensures
            (final(self)@, action@) == old(self)@.next(event@),
    {
        let mut phase = SendPhase::Over;
        std::mem::swap(&mut phase, &mut self.phase);
        match (phase, event) {
            (SendPhase::Announcing, SendEvent::Failed(e)) => self.close(Some(Failure::Try(e))),
            (SendPhase::Announcing, _) => {
                self.phase = SendPhase::Wording;
                SendAction::Word
            },
            (SendPhase::Wording, SendEvent::Worded(text)) => {
                self.chunker.feed(text.as_str().as_bytes());
                self.introduce()
            },
            (SendPhase::Introducing, SendEvent::Failed(e)) => {
                let mut text = "Failed to send initial message: ".to_owned();
                text.append(e.as_str());
                self.close(Some(Failure::Try(text)))
            },
            (SendPhase::Introducing, _) => self.introduce(),
            (SendPhase::AwaitingTokens, SendEvent::Tokens(Some(tokens))) => {
                let ids = tokens.keys();
                self.tokens = tokens;
                self.phase = SendPhase::Publishing;
                SendAction::Publish(ids)
            },
            (SendPhase::AwaitingTokens, _) => self.close(
                Some(Failure::Send("Failed to receive file tokens".to_owned())),
            ),
            (SendPhase::Publishing, SendEvent::Failed(e)) => self.close(Some(Failure::Send(e))),
            (SendPhase::Publishing, _) => self.next_file(),
            (SendPhase::AwaitingFile, SendEvent::File(Some(id))) => {
                match self.tokens.get(&id) {
                    Some(token) => {
                        let header = FileHeader { id: id.clone(), token: token.clone() };
                        self.phase = SendPhase::Heading(id);
                        SendAction::SendHeader(header)
                    },
                    None => self.give_up(id, "Failed to get file token".to_owned()),
                }
            },
            (SendPhase::AwaitingFile, _) => self.close(None),
            (SendPhase::Heading(id), SendEvent::Failed(e)) => self.give_up(id, e),
            (SendPhase::Heading(id), _) => {
                self.chunker = Chunker::new();
                self.go_on(id)
            },
            (SendPhase::Reading(id), SendEvent::Data(Some(bytes))) => {
                self.chunker.feed(bytes.as_slice());
                self.go_on(id)
            },
            (SendPhase::Reading(id), _) => {
                match self.chunker.take_rest() {
                    Some(rest) => {
                        self.phase = SendPhase::Ending(id);
                        SendAction::SendBinary(rest)
                    },
                    None => {
                        assert(self@.pending =~= old(self)@.pending);
                        self.next_file()
                    },
                }
            },
            (SendPhase::Sending(id), SendEvent::Failed(e)) => self.give_up(id, e),
            (SendPhase::Sending(id), _) => self.go_on(id),
            (SendPhase::Ending(id), SendEvent::Failed(e)) => self.give_up(id, e),
            (SendPhase::Ending(_), _) => self.next_file(),
            (SendPhase::Reporting, _) => self.next_file(),
            (SendPhase::Closing(failure), _) => {
                self.phase = SendPhase::Disconnecting(failure);
                SendAction::CloseConnection
            },
            (SendPhase::Disconnecting(failure), SendEvent::NotClosed(e)) => {
                self.not_closed = Some(e);
                self.tell(failure)
            },
            (SendPhase::Disconnecting(failure), _) => self.tell(failure),
            (SendPhase::Failing, _) => self.finish(),
            (SendPhase::Finishing, _) => {
                self.phase = SendPhase::Over;
                match self.not_closed.take() {
                    Some(e) => SendAction::Stop(Err(e)),
                    None => SendAction::Stop(Ok(())),
                }
            },
            _ => unreached(),
        }
    }
}

/// Events that say the same hold the same: the same words, tokens, file, bytes or
/// error.
pub proof fn law_send_events_are_told_apart<E>(a: SendEvent<E>, b: SendEvent<E>)
    requires
        a@ == b@,
    ensures
        match (a, b) {
            (SendEvent::Done, SendEvent::Done) => true,
            (SendEvent::Failed(x), SendEvent::Failed(y)) => x@ == y@,
            (SendEvent::Worded(x), SendEvent::Worded(y)) => x@ == y@,
            (SendEvent::Tokens(Some(x)), SendEvent::Tokens(Some(y))) => x@ == y@,
            (SendEvent::Tokens(None), SendEvent::Tokens(None)) => true,
            (SendEvent::File(Some(x)), SendEvent::File(Some(y))) => x@ == y@,
            (SendEvent::File(None), SendEvent::File(None)) => true,
            (SendEvent::Data(Some(x)), SendEvent::Data(Some(y))) => x@ == y@,
            (SendEvent::Data(None), SendEvent::Data(None)) => true,
            (SendEvent::NotClosed(x), SendEvent::NotClosed(y)) => x == y,
            _ => false,
        },
{
}

/// Actions that ask for the same hold the same: the same status, bytes, header,
/// selection, report or outcome.
pub proof fn law_send_actions_are_told_apart<E>(a: SendAction<E>, b: SendAction<E>)
    requires
        a@ == b@,
    ensures
        match (a, b) {
            (SendAction::SendStatus(x), SendAction::SendStatus(y)) => x@ == y@,
            (SendAction::TryStatus(x), SendAction::TryStatus(y)) => x@ == y@,
            (SendAction::Word, SendAction::Word) => true,
            (SendAction::SendBinary(x), SendAction::SendBinary(y)) => frozen_bytes(x)
                == frozen_bytes(y),
            (SendAction::SendHeader(x), SendAction::SendHeader(y)) => x.id@ == y.id@ && x.token@
                == y.token@,
            (SendAction::ReceiveTokens, SendAction::ReceiveTokens) => true,
            (SendAction::Publish(x), SendAction::Publish(y)) => forall|id: Seq<char>|
                texts(x@).contains(id) <==> #[trigger] texts(y@).contains(id),
            (SendAction::ReceiveFile, SendAction::ReceiveFile) => true,
            (SendAction::ReceiveData, SendAction::ReceiveData) => true,
            (SendAction::ReportFile(x), SendAction::ReportFile(y)) => x.file_id@ == y.file_id@
                && x.error@ == y.error@,
            (SendAction::CloseChannel, SendAction::CloseChannel) => true,
            (SendAction::CloseConnection, SendAction::CloseConnection) => true,
            (SendAction::Stop(x), SendAction::Stop(y)) => x == y,
            _ => false,
        },
{
    if let (SendAction::Publish(x), SendAction::Publish(y)) = (a, b) {
        assert forall|id: Seq<char>|
            texts(x@).contains(id) <==> #[trigger] texts(y@).contains(id) by {
            assert(texts(x@).to_set().contains(id) == texts(y@).to_set().contains(id));
        }
    }
}

} // verus!
