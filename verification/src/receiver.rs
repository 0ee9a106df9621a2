//! What the receiving side does from the time that it waits for a data channel.
//!
//! [`ReceiveTask`] decides; whoever drives it performs the [`ReceiveAction`]
//! that it was handed and comes back with the [`ReceiveEvent`] that the action
//! led to. `E` is the type of the error that closing the connection may end in.

use crate::messages::{RTCStatus, StatusModel};
use vstd::pervasive::unreached;
use vstd::prelude::*;

verus! {

/// What came to pass first while the channel was served.
pub enum ServiceEnd {
    /// The reply came to its end, whatever that was.
    Replied,
    /// The transfer was broken off.
    Broken,
    /// The connection to the peer was lost.
    Lost,
}

/// What came of the last action.
pub enum ReceiveEvent<E> {
    /// The channel has opened.
    Opened,
    /// No channel will open.
    NeverOpened,
    /// The status was reported or dropped, or the connection closed.
    Done,
    /// The connection could not be closed in good order.
    NotClosed(E),
    /// The channel is no longer served.
    Served(ServiceEnd),
}

/// What is to be done next.
pub enum ReceiveAction<E> {
    /// Wait for the channel to open.
    AwaitChannel,
    /// Report this status if there is room for it now.
    TryStatus(RTCStatus),
    /// Take in the messages of the channel and reply, until one of the things
    /// that [`ServiceEnd`] names comes to pass.
    Serve,
    /// Close the connection to the peer.
    CloseConnection,
    /// Report this status.
    SendStatus(RTCStatus),
    /// Nothing more: this came of closing the connection, where the task did so.
    Stop(Result<(), E>),
}

/// Where the task stands: what it waits for.
pub enum ReceivePhase {
    /// It waits for the channel.
    AwaitingChannel,
    /// It says that the channel is open.
    Announcing,
    /// It serves the channel.
    Serving,
    /// It closes the connection, which was lost or else is broken off.
    Closing { lost: bool },
    /// It says how the service ended.
    Reporting,
    /// It is over.
    Stopped,
}

/// The receiving side of a transfer.
pub struct ReceiveTask<E> {
    phase: ReceivePhase,
    not_closed: Option<E>,
}

/// A task: where it stands, and the error that closing the connection ended in.
pub struct ReceiveModel<E> {
    pub phase: ReceivePhase,
    pub not_closed: Option<E>,
}

/// What a [`ReceiveAction`] asks for.
pub enum ReceiveActionModel<E> {
    AwaitChannel,
    TryStatus(StatusModel),
    Serve,
    CloseConnection,
    SendStatus(StatusModel),
    Stop(Result<(), E>),
}

impl<E> View for ReceiveAction<E> {
    type V = ReceiveActionModel<E>;

    open spec fn view(&self) -> ReceiveActionModel<E> {
        match *self {
            ReceiveAction::AwaitChannel => ReceiveActionModel::AwaitChannel,
            ReceiveAction::TryStatus(status) => ReceiveActionModel::TryStatus(status@),
            ReceiveAction::Serve => ReceiveActionModel::Serve,
            ReceiveAction::CloseConnection => ReceiveActionModel::CloseConnection,
            ReceiveAction::SendStatus(status) => ReceiveActionModel::SendStatus(status@),
            ReceiveAction::Stop(result) => ReceiveActionModel::Stop(result),
        }
    }
}

impl<E> View for ReceiveTask<E> {
    type V = ReceiveModel<E>;

    closed spec fn view(&self) -> ReceiveModel<E> {
        ReceiveModel { phase: self.phase, not_closed: self.not_closed }
    }
}

impl<E> ReceiveModel<E> {
    /// A task that nothing has happened to.
    pub open spec fn start() -> ReceiveModel<E> {
        ReceiveModel { phase: ReceivePhase::AwaitingChannel, not_closed: None }
    }

    /// The same task, elsewhere.
    pub open spec fn at(self, phase: ReceivePhase) -> ReceiveModel<E> {
        ReceiveModel { phase, ..self }
    }

    /// The events that may come next: what the task waits for.
    pub open spec fn accepts(self, event: ReceiveEvent<E>) -> bool {
        match self.phase {
            ReceivePhase::AwaitingChannel => event is Opened || event is NeverOpened,
            ReceivePhase::Announcing => event is Done,
            ReceivePhase::Serving => event is Served,
            ReceivePhase::Closing { .. } => event is Done || event is NotClosed,
            ReceivePhase::Reporting => event is Done,
            ReceivePhase::Stopped => false,
        }
    }

    /// The connection is closed, or is not: the task says how the transfer ended.
    pub open spec fn tell(self, lost: bool) -> (ReceiveModel<E>, ReceiveActionModel<E>) {
        (
            self.at(ReceivePhase::Reporting),
            ReceiveActionModel::SendStatus(
                if lost {
                    StatusModel::Finished
                } else {
                    StatusModel::Error("Unknown Error"@)
                },
            ),
        )
    }

    /// What an event leads to.
    pub open spec fn next(self, event: ReceiveEvent<E>) -> (
        ReceiveModel<E>,
        ReceiveActionModel<E>,
    ) {
        match (self.phase, event) {
            (ReceivePhase::AwaitingChannel, ReceiveEvent::Opened) => (
                self.at(ReceivePhase::Announcing),
                ReceiveActionModel::TryStatus(StatusModel::Connected),
            ),
            (ReceivePhase::Announcing, _) => (
                self.at(ReceivePhase::Serving),
                ReceiveActionModel::Serve,
            ),
            (ReceivePhase::Serving, ReceiveEvent::Served(ServiceEnd::Broken)) => (
                self.at(ReceivePhase::Closing { lost: false }),
                ReceiveActionModel::CloseConnection,
            ),
            (ReceivePhase::Serving, ReceiveEvent::Served(ServiceEnd::Lost)) => (
                self.at(ReceivePhase::Closing { lost: true }),
                ReceiveActionModel::CloseConnection,
            ),
            (ReceivePhase::Closing { lost }, ReceiveEvent::NotClosed(e)) => ReceiveModel {
                not_closed: Some(e),
                ..self
            }.tell(lost),
            (ReceivePhase::Closing { lost }, _) => self.tell(lost),
            _ => (
                ReceiveModel { phase: ReceivePhase::Stopped, not_closed: None },
                ReceiveActionModel::Stop(
                    match self.not_closed {
                        Some(e) => Err(e),
                        None => Ok(()),
                    },
                ),
            ),
        }
    }
}

impl<E> ReceiveTask<E> {
    /// A task that nothing has happened to, and what it does first.
    pub fn start() -> (start: (ReceiveTask<E>, ReceiveAction<E>))
        ensures
            start.0@ == ReceiveModel::<E>::start(),
            start.1@ == ReceiveActionModel::<E>::AwaitChannel,
    {
        (
            ReceiveTask { phase: ReceivePhase::AwaitingChannel, not_closed: None },
            ReceiveAction::AwaitChannel,
        )
    }

    /// Whether the task waits for such an event.
    pub fn accepts(&self, event: &ReceiveEvent<E>) -> (yes: bool)
        ensures
            yes == self@.accepts(*event),
    {
        match &self.phase {
            ReceivePhase::AwaitingChannel => matches!(
                event,
                ReceiveEvent::Opened | ReceiveEvent::NeverOpened
            ),
            ReceivePhase::Announcing | ReceivePhase::Reporting => matches!(
                event,
                ReceiveEvent::Done
            ),
            ReceivePhase::Serving => matches!(event, ReceiveEvent::Served(_)),
            ReceivePhase::Closing { .. } => matches!(
                event,
                ReceiveEvent::Done | ReceiveEvent::NotClosed(_)
            ),
            ReceivePhase::Stopped => false,
        }
    }

    /// The connection is closed, or is not: the task says how the transfer ended.
    fn tell(&mut self, lost: bool) -> (action: ReceiveAction<E>)
        ensures
            (final(self)@, action@) == old(self)@.tell(lost),
    {
        self.phase = ReceivePhase::Reporting;
        if lost {
            ReceiveAction::SendStatus(RTCStatus::Finished)
        } else {
            ReceiveAction::SendStatus(RTCStatus::Error("Unknown Error".to_owned()))
        }
    }

    /// Takes in what came of the last action and says what is to be done next.
    pub fn step(&mut self, event: ReceiveEvent<E>) -> (action: ReceiveAction<E>)
        requires
            old(self)@.accepts(event),
        ensures
            (final(self)@, action@) == old(self)@.next(event),
    {
        let mut phase = ReceivePhase::Stopped;
        std::mem::swap(&mut phase, &mut self.phase);
        match (phase, event) {
            (ReceivePhase::AwaitingChannel, ReceiveEvent::Opened) => {
                self.phase = ReceivePhase::Announcing;
                ReceiveAction::TryStatus(RTCStatus::Connected)
            },
            (ReceivePhase::Announcing, _) => {
                self.phase = ReceivePhase::Serving;
                ReceiveAction::Serve
            },
            (ReceivePhase::Serving, ReceiveEvent::Served(ServiceEnd::Broken)) => {
                self.phase = ReceivePhase::Closing { lost: false };
                ReceiveAction::CloseConnection
            },
            (ReceivePhase::Serving, ReceiveEvent::Served(ServiceEnd::Lost)) => {
                self.phase = ReceivePhase::Closing { lost: true };
                ReceiveAction::CloseConnection
            },
            (ReceivePhase::Closing { lost }, ReceiveEvent::NotClosed(e)) => {
                self.not_closed = Some(e);
                self.tell(lost)
            },
            (ReceivePhase::Closing { lost }, _) => self.tell(lost),
            (ReceivePhase::Stopped, _) => unreached(),
            _ => match self.not_closed.take() {
                Some(e) => ReceiveAction::Stop(Err(e)),
                None => ReceiveAction::Stop(Ok(())),
            },
        }
    }
}

/// Where a task stands after some events.
pub open spec fn run<E>(events: Seq<ReceiveEvent<E>>) -> ReceiveModel<E>
    decreases events.len(),
{
    if events.len() == 0 {
        ReceiveModel::start()
    } else {
        run(events.drop_last()).next(events.last()).0
    }
}

/// Each event is one that the task was waiting for.
pub open spec fn is_run<E>(events: Seq<ReceiveEvent<E>>) -> bool
    decreases events.len(),
{
    events.len() > 0 ==> is_run(events.drop_last()) && run(events.drop_last()).accepts(
        events.last(),
    )
}

/// What the last of some events led to.
pub open spec fn last_action<E>(events: Seq<ReceiveEvent<E>>) -> ReceiveActionModel<E> {
    run(events.drop_last()).next(events.last()).1
}

/// What a task does next follows from what happened to it: an open channel is
/// announced and served; where the service was broken off or the connection lost,
/// the connection is closed, the user told which of the two it was, and what came
/// of the closing handed on; else nothing is left to do.
pub proof fn law_what_a_task_does_next<E>(events: Seq<ReceiveEvent<E>>)
    requires
        is_run(events),
        events.len() > 0,
    ensures
        ({
            let action = last_action(events);
            if events.len() == 1 {
                if events[0] is Opened {
                    action == ReceiveActionModel::<E>::TryStatus(StatusModel::Connected)
                } else {
                    events[0] is NeverOpened && action == ReceiveActionModel::<E>::Stop(Ok(()))
                }
            } else if events.len() == 2 {
                action is Serve
            } else if events.len() == 3 {
                match events[2] {
                    ReceiveEvent::Served(ServiceEnd::Replied) => action
                        == ReceiveActionModel::<E>::Stop(Ok(())),
                    ReceiveEvent::Served(_) => action is CloseConnection,
                    _ => false,
                }
            } else if events.len() == 4 {
                match events[2] {
                    ReceiveEvent::Served(ServiceEnd::Broken) => action
                        == ReceiveActionModel::<E>::SendStatus(
                        StatusModel::Error("Unknown Error"@),
                    ),
                    ReceiveEvent::Served(ServiceEnd::Lost) => action
                        == ReceiveActionModel::<E>::SendStatus(StatusModel::Finished),
                    _ => false,
                }
            } else {
                events.len() == 5 && action == match events[3] {
                    ReceiveEvent::NotClosed(e) => ReceiveActionModel::Stop(Err(e)),
                    _ => ReceiveActionModel::Stop(Ok(())),
                }
            }
        }),
{
    lemma_task_at(events.drop_last());
    lemma_progress(events.drop_last());
    assert(forall|i: int|
        0 <= i < events.len() - 1 ==> #[trigger] events.drop_last()[i] == events[i]);
}

/// What a task that goes on has kept of what happened to it.
proof fn lemma_task_at<E>(events: Seq<ReceiveEvent<E>>)
    requires
        is_run(events),
    ensures
        match run(events).phase {
            ReceivePhase::Closing { lost } => {
                &&& run(events).not_closed is None
                &&& events[2] == ReceiveEvent::<E>::Served(
                    if lost {
                        ServiceEnd::Lost
                    } else {
                        ServiceEnd::Broken
                    },
                )
            },
            ReceivePhase::Reporting => run(events).not_closed == match events[3] {
                ReceiveEvent::NotClosed(e) => Some(e),
                _ => None,
            },
            ReceivePhase::Stopped => true,
            _ => run(events).not_closed is None,
        },
    decreases events.len(),
{
    if events.len() > 0 {
        let fewer = events.drop_last();
        lemma_task_at(fewer);
        lemma_progress(fewer);
        assert(forall|i: int| 0 <= i < fewer.len() ==> #[trigger] fewer[i] == events[i]);
    }
}

/// A task takes whatever may come of what it asked for, and nothing when it is
/// over.
pub proof fn law_a_task_takes_what_it_asked_for<E>(
    events: Seq<ReceiveEvent<E>>,
    event: ReceiveEvent<E>,
)
    requires
        is_run(events),
    ensures
        run(events).accepts(event) == match (if events.len() == 0 {
            ReceiveActionModel::AwaitChannel
        } else {
            last_action(events)
        }) {
            ReceiveActionModel::AwaitChannel => event is Opened || event is NeverOpened,
            ReceiveActionModel::TryStatus(_) => event is Done,
            ReceiveActionModel::Serve => event is Served,
            ReceiveActionModel::CloseConnection => event is Done || event is NotClosed,
            ReceiveActionModel::SendStatus(_) => event is Done,
            ReceiveActionModel::Stop(_) => false,
        },
{
}

/// A channel is served only after it has opened and that was announced, and
/// then once.
pub proof fn law_an_open_channel_is_announced_and_served_once<E>(events: Seq<ReceiveEvent<E>>)
    requires
        is_run(events),
        events.len() > 0,
        last_action(events) is Serve,
    ensures
        events == seq![ReceiveEvent::<E>::Opened, ReceiveEvent::<E>::Done],
        last_action(events.drop_last()) == ReceiveActionModel::<E>::TryStatus(
            StatusModel::Connected,
        ),
{
    let fewer = events.drop_last();
    assert(run(fewer).phase is Announcing);
    lemma_announcing_comes_first(fewer);
    assert(events =~= fewer.push(events.last()));
    assert(events =~= seq![ReceiveEvent::<E>::Opened, ReceiveEvent::<E>::Done]);
}

/// The task announces the channel as soon as it has opened.
proof fn lemma_announcing_comes_first<E>(events: Seq<ReceiveEvent<E>>)
    requires
        is_run(events),
        run(events).phase is Announcing,
    ensures
        events == seq![ReceiveEvent::<E>::Opened],
        last_action(events) == ReceiveActionModel::<E>::TryStatus(StatusModel::Connected),
{
    let fewer = events.drop_last();
    assert(run(fewer).phase is AwaitingChannel);
    if fewer.len() > 0 {
        assert(!(run(fewer.drop_last()).next(fewer.last()).0.phase is AwaitingChannel));
    }
    assert(events =~= seq![ReceiveEvent::<E>::Opened]);
}

/// A task takes five events at most.
pub proof fn law_a_task_comes_to_its_end<E>(events: Seq<ReceiveEvent<E>>)
    requires
        is_run(events),
    ensures
        events.len() <= 5,
        events.len() == 5 ==> run(events).phase is Stopped,
{
    lemma_progress(events);
}

/// How many events lie behind a task.
proof fn lemma_progress<E>(events: Seq<ReceiveEvent<E>>)
    requires
        is_run(events),
    ensures
        match run(events).phase {
            ReceivePhase::AwaitingChannel => events.len() == 0,
            ReceivePhase::Announcing => events.len() == 1,
            ReceivePhase::Serving => events.len() == 2,
            ReceivePhase::Closing { .. } => events.len() == 3,
            ReceivePhase::Reporting => events.len() == 4,
            ReceivePhase::Stopped => 1 <= events.len() <= 5,
        },
    decreases events.len(),
{
    if events.len() > 0 {
        lemma_progress(events.drop_last());
    }
}

/// That the transfer failed or has finished is said when the connection is
/// closed and not before: the closing was the last thing that was done.
pub proof fn law_the_connection_is_closed_before_the_end_is_told<E>(events: Seq<ReceiveEvent<E>>)
    requires
        is_run(events),
        events.len() > 0,
        match last_action(events) {
            ReceiveActionModel::TryStatus(status) => status is Error || status is Finished,
            ReceiveActionModel::SendStatus(status) => status is Error || status is Finished,
            _ => false,
        },
    ensures
        events.len() > 1,
        last_action(events.drop_last()) is CloseConnection,
{
    assert(run(events.drop_last()).phase is Closing);
}

/// The user is told how the service ended just where it was broken off or the
/// connection was lost; a reply that came to its end leaves nothing to tell.
/// What came of closing the connection is handed on at the end.
pub proof fn law_what_is_said_at_the_end<E>(
    m: ReceiveModel<E>,
    end: ServiceEnd,
    event: ReceiveEvent<E>,
)
    requires
        m.not_closed is None,
        m.accepts(ReceiveEvent::Served(end)),
        event is Done || event is NotClosed,
    ensures
        ({
            let (closing, first) = m.next(ReceiveEvent::Served(end));
            let (reporting, second) = closing.next(event);
            let third = reporting.next(ReceiveEvent::Done).1;
            let told = if end is Broken {
                StatusModel::Error("Unknown Error"@)
            } else {
                StatusModel::Finished
            };
            if end is Replied {
                first == ReceiveActionModel::<E>::Stop(Ok(()))
            } else {
                &&& first is CloseConnection
                &&& second == ReceiveActionModel::<E>::SendStatus(told)
                &&& third == ReceiveActionModel::Stop(
                    match event {
                        ReceiveEvent::NotClosed(e) => Err(e),
                        _ => Ok(()),
                    },
                )
            }
        }),
{
}

/// Actions that ask for the same hold the same: the same status or outcome.
pub proof fn law_receive_actions_are_told_apart<E>(a: ReceiveAction<E>, b: ReceiveAction<E>)
    requires
        a@ == b@,
    ensures
        match (a, b) {
            (ReceiveAction::AwaitChannel, ReceiveAction::AwaitChannel) => true,
            (ReceiveAction::TryStatus(x), ReceiveAction::TryStatus(y)) => x@ == y@,
            (ReceiveAction::Serve, ReceiveAction::Serve) => true,
            (ReceiveAction::CloseConnection, ReceiveAction::CloseConnection) => true,
            (ReceiveAction::SendStatus(x), ReceiveAction::SendStatus(y)) => x@ == y@,
            (ReceiveAction::Stop(x), ReceiveAction::Stop(y)) => x == y,
            _ => false,
        },
{
}

} // verus!
