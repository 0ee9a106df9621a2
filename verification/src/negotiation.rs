//! How the two sides agree on a connection: one offers it, the other answers.
//!
//! [`Negotiation`] decides; whoever drives it performs the [`NegotiationAction`]
//! that it was handed and comes back with the [`NegotiationEvent`] that the
//! action led to. `E` is the type of the errors that the driver meets.

use crate::messages::{RTCStatus, StatusModel};
use crate::sdp::{checked_decode_sdp, encode_sdp, read_sdp, SdpError, SdpReading};
use crate::tokens::{is_random_uuid, new_session_id, was_drawn};
use vstd::pervasive::unreached;
use vstd::prelude::*;

verus! {

/// Which of the two sides this is.
pub enum Role {
    /// It offers the connection and will send the files.
    Offering,
    /// It answers the offer and will receive them.
    Answering,
}

/// What came of the last action.
pub enum NegotiationEvent<E> {
    /// It was done.
    Done,
    /// It failed.
    Failed(E),
    /// The session description of this side, if there is one.
    Local(Option<String>),
    /// The other side has answered with this text.
    Answer(String),
}

/// Why a negotiation failed.
pub enum NegotiationError<E> {
    /// The driver met this error.
    Met(E),
    /// What the other side sent is not a session description.
    Sdp(SdpError),
    /// This side has no session description, in words.
    NoLocalDescription(String),
}

/// What is to be done next.
pub enum NegotiationAction<E> {
    /// Create the connection to the peer. The side that answers also makes
    /// ready to receive.
    CreatePeer,
    /// Create the data channel and make ready to send.
    CreateChannel,
    /// Describe what this side offers or answers.
    Describe,
    /// Settle on that description, and wait until this side knows its addresses.
    SetLocal,
    /// Read the session description of this side.
    ReadLocal,
    /// Send the text for it to the other side.
    Send { session_id: String, text: String },
    /// Wait for the answer in this session.
    AwaitAnswer(String),
    /// Report this status.
    SendStatus(RTCStatus),
    /// Settle on this session description of the other side.
    SetRemote(String),
    /// Wait until the transfer is over. It fails where the transfer closed the
    /// connection and could not do so in good order.
    AwaitEnd,
    /// Close the connection to the peer.
    ClosePeer,
    /// Nothing more: this is the outcome.
    Return(Result<(), NegotiationError<E>>),
    /// Nothing more, and no outcome: what the other side sent holds no brotli
    /// stream.
    Abort,
}

/// What a negotiation waits for.
pub enum Step {
    CreatePeer,
    CreateChannel,
    Describe,
    SetLocal,
    ReadLocal,
    Send,
    AwaitAnswer,
    SendStatus,
    SetRemote,
    AwaitEnd,
    ClosePeer,
    /// It is over.
    Over,
}

/// One side of a negotiation.
pub struct Negotiation<E> {
    role: Role,
    step: Step,
    session_id: String,
    remote: String,
    failure: Option<E>,
}

/// What a [`NegotiationEvent`] says.
pub enum NegotiationEventModel<E> {
    Done,
    Failed(E),
    Local(Option<Seq<char>>),
    Answer(Seq<char>),
}

/// What a [`NegotiationError`] says.
pub enum NegotiationErrorModel<E> {
    Met(E),
    NotBase64,
    NotUtf8,
    NoLocalDescription(Seq<char>),
}

/// What a [`NegotiationAction`] asks for.
pub enum NegotiationActionModel<E> {
    CreatePeer,
    CreateChannel,
    Describe,
    SetLocal,
    ReadLocal,
    Send { session_id: Seq<char>, text: Seq<char> },
    AwaitAnswer(Seq<char>),
    SendStatus(StatusModel),
    SetRemote(Seq<char>),
    AwaitEnd,
    ClosePeer,
    Return(Result<(), NegotiationErrorModel<E>>),
    Abort,
}

/// A negotiation: which side it is, what it waits for, the session that it
/// speaks of, the text that the other side sent, and the error that it returns
/// once the connection is closed.
pub struct NegotiationModel<E> {
    pub role: Role,
    pub step: Step,
    pub session_id: Seq<char>,
    pub remote: Seq<char>,
    pub failure: Option<E>,
}

impl<E> View for NegotiationEvent<E> {
    type V = NegotiationEventModel<E>;

    open spec fn view(&self) -> NegotiationEventModel<E> {
        match *self {
            NegotiationEvent::Done => NegotiationEventModel::Done,
            NegotiationEvent::Failed(e) => NegotiationEventModel::Failed(e),
            NegotiationEvent::Local(None) => NegotiationEventModel::Local(None),
            NegotiationEvent::Local(Some(sdp)) => NegotiationEventModel::Local(Some(sdp@)),
            NegotiationEvent::Answer(text) => NegotiationEventModel::Answer(text@),
        }
    }
}

impl<E> View for NegotiationError<E> {
    type V = NegotiationErrorModel<E>;

    open spec fn view(&self) -> NegotiationErrorModel<E> {
        match *self {
            NegotiationError::Met(e) => NegotiationErrorModel::Met(e),
            NegotiationError::Sdp(SdpError::Base64(_)) => NegotiationErrorModel::NotBase64,
            NegotiationError::Sdp(SdpError::Utf8(_)) => NegotiationErrorModel::NotUtf8,
            NegotiationError::NoLocalDescription(text) => {
                NegotiationErrorModel::NoLocalDescription(text@)
            },
        }
    }
}

impl<E> View for NegotiationAction<E> {
    type V = NegotiationActionModel<E>;

    open spec fn view(&self) -> NegotiationActionModel<E> {
        match *self {
            NegotiationAction::CreatePeer => NegotiationActionModel::CreatePeer,
            NegotiationAction::CreateChannel => NegotiationActionModel::CreateChannel,
            NegotiationAction::Describe => NegotiationActionModel::Describe,
            NegotiationAction::SetLocal => NegotiationActionModel::SetLocal,
            NegotiationAction::ReadLocal => NegotiationActionModel::ReadLocal,
            NegotiationAction::Send { session_id, text } => NegotiationActionModel::Send {
                session_id: session_id@,
                text: text@,
            },
            NegotiationAction::AwaitAnswer(id) => NegotiationActionModel::AwaitAnswer(id@),
            NegotiationAction::SendStatus(status) => NegotiationActionModel::SendStatus(status@),
            NegotiationAction::SetRemote(sdp) => NegotiationActionModel::SetRemote(sdp@),
            NegotiationAction::AwaitEnd => NegotiationActionModel::AwaitEnd,
            NegotiationAction::ClosePeer => NegotiationActionModel::ClosePeer,
            NegotiationAction::Return(Ok(_)) => NegotiationActionModel::Return(Ok(())),
            NegotiationAction::Return(Err(e)) => NegotiationActionModel::Return(Err(e@)),
            NegotiationAction::Abort => NegotiationActionModel::Abort,
        }
    }
}

impl<E> View for Negotiation<E> {
    type V = NegotiationModel<E>;

    closed spec fn view(&self) -> NegotiationModel<E> {
        NegotiationModel {
            role: self.role,
            step: self.step,
            session_id: self.session_id@,
            remote: self.remote@,
            failure: self.failure,
        }
    }
}

impl<E> NegotiationModel<E> {
    /// A negotiation that nothing has happened to.
    pub open spec fn start(role: Role, session_id: Seq<char>, remote: Seq<char>) -> Self {
        NegotiationModel { role, step: Step::CreatePeer, session_id, remote, failure: None }
    }

    /// The events that may come next: what the negotiation waits for.
    pub open spec fn accepts(self, event: NegotiationEventModel<E>) -> bool {
        match self.step {
            Step::ReadLocal => event is Local,
            Step::AwaitAnswer => event is Answer || event is Failed,
            Step::Over => false,
            _ => event is Done || event is Failed,
        }
    }

    /// The same negotiation, one step on.
    pub open spec fn at(self, step: Step) -> Self {
        NegotiationModel { step, ..self }
    }

    /// It is over.
    pub open spec fn end(self, result: Result<(), NegotiationErrorModel<E>>) -> (
        Self,
        NegotiationActionModel<E>,
    ) {
        (
            NegotiationModel { step: Step::Over, failure: None, ..self },
            NegotiationActionModel::Return(result),
        )
    }

    /// What the text of the other side leads to.
    pub open spec fn read_remote(self) -> (Self, NegotiationActionModel<E>) {
        match read_sdp(self.remote) {
            SdpReading::Sdp(sdp) => (
                self.at(Step::SetRemote),
                NegotiationActionModel::SetRemote(sdp),
            ),
            SdpReading::NotBase64 => self.end(Err(NegotiationErrorModel::NotBase64)),
            SdpReading::NotUtf8 => self.end(Err(NegotiationErrorModel::NotUtf8)),
            SdpReading::NotBrotli => (self.at(Step::Over), NegotiationActionModel::Abort),
        }
    }

    /// That the two descriptions are exchanged is said.
    pub open spec fn say_exchanged(self) -> (Self, NegotiationActionModel<E>) {
        (
            self.at(Step::SendStatus),
            NegotiationActionModel::SendStatus(StatusModel::SdpExchanged),
        )
    }

    /// What a step that was done leads to.
    pub open spec fn done(self) -> (Self, NegotiationActionModel<E>) {
        match (self.step, self.role) {
            (Step::CreatePeer, Role::Offering) => (
                self.at(Step::CreateChannel),
                NegotiationActionModel::CreateChannel,
            ),
            (Step::CreatePeer, Role::Answering) => self.read_remote(),
            (Step::CreateChannel, _) => (
                self.at(Step::Describe),
                NegotiationActionModel::Describe,
            ),
            (Step::Describe, _) => (self.at(Step::SetLocal), NegotiationActionModel::SetLocal),
            (Step::SetLocal, _) => (self.at(Step::ReadLocal), NegotiationActionModel::ReadLocal),
            (Step::Send, Role::Offering) => (
                self.at(Step::AwaitAnswer),
                NegotiationActionModel::AwaitAnswer(self.session_id),
            ),
            (Step::Send, Role::Answering) => self.say_exchanged(),
            (Step::SendStatus, Role::Offering) => self.read_remote(),
            (Step::SendStatus, Role::Answering) => (
                self.at(Step::AwaitEnd),
                NegotiationActionModel::AwaitEnd,
            ),
            (Step::SetRemote, Role::Offering) => (
                self.at(Step::AwaitEnd),
                NegotiationActionModel::AwaitEnd,
            ),
            (Step::SetRemote, Role::Answering) => (
                self.at(Step::Describe),
                NegotiationActionModel::Describe,
            ),
            (Step::AwaitEnd, _) => (self.at(Step::ClosePeer), NegotiationActionModel::ClosePeer),
            _ => match self.failure {
                None => self.end(Ok(())),
                Some(e) => self.end(Err(NegotiationErrorModel::Met(e))),
            },
        }
    }

    /// What a step that failed leads to: the error is returned, but where it was
    /// the status that could not be reported the connection is closed first.
    pub open spec fn failed(self, e: E) -> (Self, NegotiationActionModel<E>) {
        if self.step is SendStatus {
            (
                NegotiationModel { step: Step::ClosePeer, failure: Some(e), ..self },
                NegotiationActionModel::ClosePeer,
            )
        } else {
            self.end(Err(NegotiationErrorModel::Met(e)))
        }
    }

    /// How the side says that it has no session description.
    pub open spec fn no_description(self) -> Seq<char> {
        if self.role is Offering {
            "Could not generate local_description"@
        } else {
            "generate local_description failed!"@
        }
    }

    /// What an event leads to. Where it brings the session description of this
    /// side, `text` is the text for it.
    pub open spec fn next(self, event: NegotiationEventModel<E>, text: Seq<char>) -> (
        Self,
        NegotiationActionModel<E>,
    ) {
        match event {
            NegotiationEventModel::Done => self.done(),
            NegotiationEventModel::Failed(e) => self.failed(e),
            NegotiationEventModel::Local(None) => self.end(
                Err(NegotiationErrorModel::NoLocalDescription(self.no_description())),
            ),
            NegotiationEventModel::Local(Some(_)) => (
                self.at(Step::Send),
                NegotiationActionModel::Send { session_id: self.session_id, text },
            ),
            NegotiationEventModel::Answer(remote) => NegotiationModel {
                remote,
                ..self
            }.say_exchanged(),
        }
    }
}

/// `text` stands for the session description that an event brings, if it brings
/// one.
pub open spec fn encodes_local<E>(event: NegotiationEventModel<E>, text: Seq<char>) -> bool {
    event matches NegotiationEventModel::Local(Some(sdp)) ==> read_sdp(text) == SdpReading::Sdp(
        sdp,
    )
}

/// Starts to offer a connection, in a new session.
pub fn send_offer<E>() -> (start: (Negotiation<E>, NegotiationAction<E>))
    ensures
        is_random_uuid(start.0@.session_id),
        was_drawn(start.0@.session_id),
        start.0@ == NegotiationModel::<E>::start(Role::Offering, start.0@.session_id, ""@),
        start.1@ == NegotiationActionModel::<E>::CreatePeer,
{
    let side = Negotiation {
        role: Role::Offering,
        step: Step::CreatePeer,
        session_id: new_session_id(),
        remote: "".to_owned(),
        failure: None,
    };
    (side, NegotiationAction::CreatePeer)
}

/// Starts to answer the offer `sdp` that came in the session `session_id`.
pub fn accept_offer<E>(session_id: String, sdp: String) -> (start: (
    Negotiation<E>,
    NegotiationAction<E>,
))
    ensures
        start.0@ == NegotiationModel::<E>::start(Role::Answering, session_id@, sdp@),
        start.1@ == NegotiationActionModel::<E>::CreatePeer,
{
    let side = Negotiation {
        role: Role::Answering,
        step: Step::CreatePeer,
        session_id,
        remote: sdp,
        failure: None,
    };
    (side, NegotiationAction::CreatePeer)
}

impl<E> Negotiation<E> {
    /// Whether the negotiation waits for such an event.
    pub fn accepts(&self, event: &NegotiationEvent<E>) -> (yes: bool)
        ensures
            yes == self@.accepts(event@),
    {
        match &self.step {
            Step::ReadLocal => matches!(event, NegotiationEvent::Local(_)),
            Step::AwaitAnswer => matches!(
                event,
                NegotiationEvent::Answer(_) | NegotiationEvent::Failed(_)
            ),
            Step::Over => false,
            _ => matches!(event, NegotiationEvent::Done | NegotiationEvent::Failed(_)),
        }
    }

    /// It is over.
    fn end(&mut self, result: Result<(), NegotiationError<E>>) -> (action: NegotiationAction<E>)
        ensures
            (final(self)@, action@) == old(self)@.end(
                match result {
                    Ok(_) => Ok(()),
                    Err(e) => Err(e@),
                },
            ),
    {
        self.step = Step::Over;
        self.failure = None;
        NegotiationAction::Return(result)
    }

    /// What the text of the other side leads to.
    fn read_remote(&mut self) -> (action: NegotiationAction<E>)
        ensures
            (final(self)@, action@) == old(self)@.read_remote(),
    {
        match checked_decode_sdp(self.remote.as_str()) {
            None => {
                self.step = Step::Over;
                NegotiationAction::Abort
            },
            Some(Ok(sdp)) => {
                self.step = Step::SetRemote;
                NegotiationAction::SetRemote(sdp)
            },
            Some(Err(e)) => self.end(Err(NegotiationError::Sdp(e))),
        }
    }

    /// That the two descriptions are exchanged is said.
    fn say_exchanged(&mut self) -> (action: NegotiationAction<E>)
        ensures
            (final(self)@, action@) == old(self)@.say_exchanged(),
    {
        self.step = Step::SendStatus;
        NegotiationAction::SendStatus(RTCStatus::SdpExchanged)
    }

    /// What a step that was done leads to.
    fn done(&mut self) -> (action: NegotiationAction<E>)
        requires
            !(old(self)@.step is Over),
        ensures
            (final(self)@, action@) == old(self)@.done(),
    {
        match (&self.step, &self.role) {
            (Step::CreatePeer, Role::Offering) => {
                self.step = Step::CreateChannel;
                NegotiationAction::CreateChannel
            },
            (Step::CreatePeer, Role::Answering) => self.read_remote(),
            (Step::CreateChannel, _) => {
                self.step = Step::Describe;
                NegotiationAction::Describe
            },
            (Step::Describe, _) => {
                self.step = Step::SetLocal;
                NegotiationAction::SetLocal
            },
            (Step::SetLocal, _) => {
                self.step = Step::ReadLocal;
                NegotiationAction::ReadLocal
            },
            (Step::Send, Role::Offering) => {
                self.step = Step::AwaitAnswer;
                NegotiationAction::AwaitAnswer(self.session_id.clone())
            },
            (Step::Send, Role::Answering) => self.say_exchanged(),
            (Step::SendStatus, Role::Offering) => self.read_remote(),
            (Step::SendStatus, Role::Answering) => {
                self.step = Step::AwaitEnd;
                NegotiationAction::AwaitEnd
            },
            (Step::SetRemote, Role::Offering) => {
                self.step = Step::AwaitEnd;
                NegotiationAction::AwaitEnd
            },
            (Step::SetRemote, Role::Answering) => {
                self.step = Step::Describe;
                NegotiationAction::Describe
            },
            (Step::AwaitEnd, _) => {
                self.step = Step::ClosePeer;
                NegotiationAction::ClosePeer
            },
            (Step::Over, _) => unreached(),
            _ => match self.failure.take() {
                None => self.end(Ok(())),
                Some(e) => self.end(Err(NegotiationError::Met(e))),
            },
        }
    }

    /// What a step that failed leads to.
    fn failed(&mut self, e: E) -> (action: NegotiationAction<E>)
        ensures
            (final(self)@, action@) == old(self)@.failed(e),
    {
        if matches!(self.step, Step::SendStatus) {
            self.step = Step::ClosePeer;
            self.failure = Some(e);
            NegotiationAction::ClosePeer
        } else {
            self.end(Err(NegotiationError::Met(e)))
        }
    }

    /// How the side says that it has no session description.
    fn no_description(&self) -> (text: String)
        ensures
            text@ == self@.no_description(),
    {
        match self.role {
            Role::Offering => "Could not generate local_description".to_owned(),
            Role::Answering => "generate local_description failed!".to_owned(),
        }
    }

    /// Takes in what came of the last action and says what is to be done next.
    pub fn step(&mut self, event: NegotiationEvent<E>) -> (action: NegotiationAction<E>)
        requires
            old(self)@.accepts(event@),
        ensures
            exists|text: Seq<char>| #[trigger]
                encodes_local(event@, text) && (final(self)@, action@) == old(self)@.next(
                    event@,
                    text,
                ),
    {
        let ghost none = Seq::<char>::empty();
        match event {
            NegotiationEvent::Done => {
                assert(encodes_local(event@, none));
                self.done()
            },
            NegotiationEvent::Failed(e) => {
                assert(encodes_local(event@, none));
                self.failed(e)
            },
            NegotiationEvent::Local(None) => {
                assert(encodes_local(event@, none));
                let text = self.no_description();
                self.end(Err(NegotiationError::NoLocalDescription(text)))
            },
            NegotiationEvent::Local(Some(sdp)) => {
                let text = encode_sdp(sdp.as_str());
                assert(encodes_local(event@, text@));
                self.step = Step::Send;
                NegotiationAction::Send { session_id: self.session_id.clone(), text }
            },
            NegotiationEvent::Answer(remote) => {
                assert(encodes_local(event@, none));
                self.remote = remote;
                self.say_exchanged()
            },
        }
    }
}

/// Events that say the same hold the same: the same description, answer or error.
pub proof fn law_negotiation_events_are_told_apart<E>(
    a: NegotiationEvent<E>,
    b: NegotiationEvent<E>,
)
    requires
        a@ == b@,
    ensures
        match (a, b) {
            (NegotiationEvent::Done, NegotiationEvent::Done) => true,
            (NegotiationEvent::Failed(x), NegotiationEvent::Failed(y)) => x == y,
            (NegotiationEvent::Local(Some(x)), NegotiationEvent::Local(Some(y))) => x@ == y@,
            (NegotiationEvent::Local(None), NegotiationEvent::Local(None)) => true,
            (NegotiationEvent::Answer(x), NegotiationEvent::Answer(y)) => x@ == y@,
            _ => false,
        },
{
}

/// Actions that ask for the same hold the same: the same session, text, description
/// or outcome.
pub proof fn law_negotiation_actions_are_told_apart<E>(
    a: NegotiationAction<E>,
    b: NegotiationAction<E>,
)
    requires
        a@ == b@,
    ensures
        match (a, b) {
            (
                NegotiationAction::Send { session_id: i, text: x },
                NegotiationAction::Send { session_id: j, text: y },
            ) => i@ == j@ && x@ == y@,
            (NegotiationAction::AwaitAnswer(x), NegotiationAction::AwaitAnswer(y)) => x@ == y@,
            (NegotiationAction::SendStatus(x), NegotiationAction::SendStatus(y)) => x@ == y@,
            (NegotiationAction::SetRemote(x), NegotiationAction::SetRemote(y)) => x@ == y@,
            (NegotiationAction::Return(Ok(_)), NegotiationAction::Return(Ok(_))) => true,
            (NegotiationAction::Return(Err(x)), NegotiationAction::Return(Err(y))) => match (x, y) {
                (NegotiationError::Met(e), NegotiationError::Met(f)) => e == f,
                (
                    NegotiationError::Sdp(SdpError::Base64(_)),
                    NegotiationError::Sdp(SdpError::Base64(_)),
                ) => true,
                (
                    NegotiationError::Sdp(SdpError::Utf8(_)),
                    NegotiationError::Sdp(SdpError::Utf8(_)),
                ) => true,
                (
                    NegotiationError::NoLocalDescription(t),
                    NegotiationError::NoLocalDescription(u),
                ) => t@ == u@,
                _ => false,
            },
            (NegotiationAction::CreatePeer, NegotiationAction::CreatePeer) => true,
            (NegotiationAction::CreateChannel, NegotiationAction::CreateChannel) => true,
            (NegotiationAction::Describe, NegotiationAction::Describe) => true,
            (NegotiationAction::SetLocal, NegotiationAction::SetLocal) => true,
            (NegotiationAction::ReadLocal, NegotiationAction::ReadLocal) => true,
            (NegotiationAction::AwaitEnd, NegotiationAction::AwaitEnd) => true,
            (NegotiationAction::ClosePeer, NegotiationAction::ClosePeer) => true,
            (NegotiationAction::Abort, NegotiationAction::Abort) => true,
            _ => false,
        },
{
}

} // verus!
