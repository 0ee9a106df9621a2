//! What holds of every negotiation, whatever happens to it.

use crate::messages::StatusModel;
use crate::negotiation::{
    encodes_local, NegotiationActionModel, NegotiationErrorModel, NegotiationEventModel,
    NegotiationModel, Role, Step,
};
use crate::sdp::{read_sdp, SdpReading};
use vstd::prelude::*;

verus! {

/// An event, and the text for the session description that it brings.
pub struct Turn<E> {
    pub event: NegotiationEventModel<E>,
    pub text: Seq<char>,
}

/// Where a negotiation stands after some turns.
pub open spec fn run<E>(start: NegotiationModel<E>, turns: Seq<Turn<E>>) -> NegotiationModel<E>
    decreases turns.len(),
{
    if turns.len() == 0 {
        start
    } else {
        run(start, turns.drop_last()).next(turns.last().event, turns.last().text).0
    }
}

/// What the last of some turns led to.
pub open spec fn last_action<E>(
    start: NegotiationModel<E>,
    turns: Seq<Turn<E>>,
) -> NegotiationActionModel<E> {
    run(start, turns.drop_last()).next(turns.last().event, turns.last().text).1
}

/// Each event is one that the negotiation was waiting for, and each text stands
/// for the session description that its event brings.
pub open spec fn is_run<E>(start: NegotiationModel<E>, turns: Seq<Turn<E>>) -> bool
    decreases turns.len(),
{
    turns.len() > 0 ==> {
        &&& is_run(start, turns.drop_last())
        &&& run(start, turns.drop_last()).accepts(turns.last().event)
        &&& encodes_local(turns.last().event, turns.last().text)
    }
}

/// The steps of a negotiation in which nothing fails, first to last.
pub open spec fn plan(role: Role) -> Seq<Step> {
    match role {
        Role::Offering => seq![
            Step::CreatePeer,
            Step::CreateChannel,
            Step::Describe,
            Step::SetLocal,
            Step::ReadLocal,
            Step::Send,
            Step::AwaitAnswer,
            Step::SendStatus,
            Step::SetRemote,
            Step::AwaitEnd,
            Step::ClosePeer,
        ],
        Role::Answering => seq![
            Step::CreatePeer,
            Step::SetRemote,
            Step::Describe,
            Step::SetLocal,
            Step::ReadLocal,
            Step::Send,
            Step::SendStatus,
            Step::AwaitEnd,
            Step::ClosePeer,
        ],
    }
}

/// A negotiation takes the steps of its plan, in order and leaving none out,
/// until it is over; the one way off it is to close the connection at once,
/// with an error to return.
pub proof fn law_the_steps_come_in_order<E>(
    role: Role,
    session_id: Seq<char>,
    remote: Seq<char>,
    turns: Seq<Turn<E>>,
)
    requires
        is_run(NegotiationModel::start(role, session_id, remote), turns),
    ensures
        ({
            let m = run(NegotiationModel::start(role, session_id, remote), turns);
            &&& m.role == role
            &&& m.session_id == session_id
            &&& m.step is Over || (m.step is ClosePeer && m.failure is Some) || (turns.len()
                < plan(role).len() && m.step == plan(role)[turns.len() as int] && m.failure is None)
        }),
    decreases turns.len(),
{
    if turns.len() > 0 {
        law_the_steps_come_in_order(role, session_id, remote, turns.drop_last());
    }
}

/// A negotiation succeeds when the connection was closed with no error to
/// return, and then only; every step of the plan lies behind it. So a
/// negotiation that succeeds leaves no connection open.
pub proof fn law_success_takes_the_whole_plan<E>(
    role: Role,
    session_id: Seq<char>,
    remote: Seq<char>,
    turns: Seq<Turn<E>>,
)
    requires
        is_run(NegotiationModel::start(role, session_id, remote), turns),
        turns.len() > 0,
    ensures
        ({
            let start = NegotiationModel::<E>::start(role, session_id, remote);
            let before = run(start, turns.drop_last());
            let succeeds = last_action(start, turns) == NegotiationActionModel::<E>::Return(Ok(()));
            &&& succeeds <==> before.step is ClosePeer && before.failure is None
                && turns.last().event is Done
            &&& succeeds ==> turns.len() == plan(role).len()
        }),
{
    law_the_steps_come_in_order(role, session_id, remote, turns.drop_last());
    let n = turns.len() - 1;
    if n < plan(role).len() - 1 {
        assert(!(plan(role)[n] is ClosePeer));
    }
}

/// No negotiation goes on for longer than its plan.
pub proof fn law_a_negotiation_comes_to_its_end<E>(
    role: Role,
    session_id: Seq<char>,
    remote: Seq<char>,
    turns: Seq<Turn<E>>,
)
    requires
        is_run(NegotiationModel::start(role, session_id, remote), turns),
    ensures
        turns.len() <= plan(role).len(),
        turns.len() == plan(role).len() ==> run(
            NegotiationModel::start(role, session_id, remote),
            turns,
        ).step is Over,
    decreases turns.len(),
{
    let start = NegotiationModel::<E>::start(role, session_id, remote);
    law_the_steps_come_in_order(role, session_id, remote, turns);
    lemma_closing_early(role, session_id, remote, turns);
    if turns.len() > 0 {
        let fewer = turns.drop_last();
        law_a_negotiation_comes_to_its_end(role, session_id, remote, fewer);
        if turns.len() > plan(role).len() {
            assert(run(start, fewer).step is Over);
        }
    }
}

/// A connection that is closed early is closed before the plan has run out.
proof fn lemma_closing_early<E>(
    role: Role,
    session_id: Seq<char>,
    remote: Seq<char>,
    turns: Seq<Turn<E>>,
)
    requires
        is_run(NegotiationModel::start(role, session_id, remote), turns),
    ensures
        run(NegotiationModel::start(role, session_id, remote), turns).failure is Some
            ==> turns.len() < plan(role).len(),
    decreases turns.len(),
{
    let start = NegotiationModel::<E>::start(role, session_id, remote);
    if turns.len() > 0 {
        let fewer = turns.drop_last();
        lemma_closing_early(role, session_id, remote, fewer);
        law_the_steps_come_in_order(role, session_id, remote, fewer);
        if run(start, turns).failure is Some {
            assert(run(start, fewer).step is SendStatus);
            let n = fewer.len() as int;
            if n == plan(role).len() - 1 {
                assert(plan(role)[n] is ClosePeer);
            }
        }
    }
}

/// The answer that came in, whatever it says, is the one that is settled on.
pub proof fn law_the_answer_is_settled_on<E>(
    m: NegotiationModel<E>,
    answer: Seq<char>,
    sdp: Seq<char>,
    text: Seq<char>,
)
    requires
        m.step is AwaitAnswer,
        m.role is Offering,
    ensures
        m.accepts(NegotiationEventModel::Answer(answer)),
        m.next(NegotiationEventModel::Answer(answer), text).0.remote == answer,
        m.next(NegotiationEventModel::Answer(answer), text).1 == NegotiationActionModel::<
            E,
        >::SendStatus(StatusModel::SdpExchanged),
        read_sdp(answer) == SdpReading::Sdp(sdp) ==> m.next(
            NegotiationEventModel::Answer(answer),
            text,
        ).0.next(NegotiationEventModel::Done, text).1 == NegotiationActionModel::<E>::SetRemote(
            sdp,
        ),
{
}

/// What is done with the text of the other side: it is settled on where it can be
/// read, and else is an error or the end.
pub open spec fn settling_on<E>(text: Seq<char>) -> NegotiationActionModel<E> {
    match read_sdp(text) {
        SdpReading::Sdp(sdp) => NegotiationActionModel::SetRemote(sdp),
        SdpReading::NotBase64 => NegotiationActionModel::Return(
            Err(NegotiationErrorModel::NotBase64),
        ),
        SdpReading::NotUtf8 => NegotiationActionModel::Return(Err(NegotiationErrorModel::NotUtf8)),
        SdpReading::NotBrotli => NegotiationActionModel::Abort,
    }
}

/// The outcome is the error `e`.
pub open spec fn ends_in<E>(e: E) -> NegotiationActionModel<E> {
    NegotiationActionModel::Return(Err(NegotiationErrorModel::Met(e)))
}

/// The error that came of sending the status, which was the turn `sending`.
pub open spec fn lost_status<E>(turns: Seq<Turn<E>>, sending: int) -> Option<E> {
    if 0 <= sending < turns.len() {
        match turns[sending].event {
            NegotiationEventModel::Failed(e) => Some(e),
            _ => None,
        }
    } else {
        None
    }
}

/// What the offering side does next follows from what happened to it: it creates
/// the connection and the channel, describes itself, sends the text for the
/// description, waits for the answer in its session, says so, settles on that
/// answer, waits for the end and closes the connection. An error ends it, and
/// closes the connection first where it was the status that got lost.
pub proof fn law_what_an_offer_does_next<E>(
    session_id: Seq<char>,
    remote: Seq<char>,
    turns: Seq<Turn<E>>,
)
    requires
        is_run(NegotiationModel::start(Role::Offering, session_id, remote), turns),
        turns.len() > 0,
    ensures
        ({
            let action = last_action(
                NegotiationModel::start(Role::Offering, session_id, remote),
                turns,
            );
            let n = turns.len();
            match turns.last().event {
                NegotiationEventModel::Failed(e) => action == if n == 8 {
                    NegotiationActionModel::ClosePeer
                } else {
                    ends_in(e)
                },
                NegotiationEventModel::Local(None) => n == 5 && action == (
                NegotiationActionModel::<E>::Return(
                    Err(
                        NegotiationErrorModel::NoLocalDescription(
                            "Could not generate local_description"@,
                        ),
                    ),
                )),
                NegotiationEventModel::Local(Some(sdp)) => {
                    &&& n == 5
                    &&& action == (NegotiationActionModel::<E>::Send {
                        session_id,
                        text: turns.last().text,
                    })
                    &&& read_sdp(turns.last().text) == SdpReading::Sdp(sdp)
                },
                NegotiationEventModel::Answer(_) => n == 7 && action
                    == NegotiationActionModel::<E>::SendStatus(StatusModel::SdpExchanged),
                NegotiationEventModel::Done => if n == 1 {
                    action is CreateChannel
                } else if n == 2 {
                    action is Describe
                } else if n == 3 {
                    action is SetLocal
                } else if n == 4 {
                    action is ReadLocal
                } else if n == 6 {
                    action == NegotiationActionModel::<E>::AwaitAnswer(session_id)
                } else if n == 8 {
                    turns[6].event matches NegotiationEventModel::Answer(answer) && action
                        == settling_on::<E>(answer)
                } else if n == 9 {
                    match lost_status(turns, 7) {
                        Some(e) => action == ends_in(e),
                        None => action is AwaitEnd,
                    }
                } else if n == 10 {
                    action is ClosePeer
                } else {
                    n == 11 && action == NegotiationActionModel::<E>::Return(Ok(()))
                },
            }
        }),
{
    let fewer = turns.drop_last();
    law_the_steps_come_in_order(Role::Offering, session_id, remote, fewer);
    lemma_negotiation_at(Role::Offering, session_id, remote, fewer);
    assert(forall|i: int| 0 <= i < fewer.len() ==> #[trigger] fewer[i] == turns[i]);
}

/// What the answering side does next follows from what happened to it: it creates
/// the connection, settles on the offer that it was given, describes itself, sends
/// the text for the description in the session of the offer, says so, waits for the
/// end and closes the connection. An error ends it, and closes the connection first
/// where it was the status that got lost.
pub proof fn law_what_an_answer_does_next<E>(
    session_id: Seq<char>,
    offer: Seq<char>,
    turns: Seq<Turn<E>>,
)
    requires
        is_run(NegotiationModel::start(Role::Answering, session_id, offer), turns),
        turns.len() > 0,
    ensures
        ({
            let action = last_action(
                NegotiationModel::start(Role::Answering, session_id, offer),
                turns,
            );
            let n = turns.len();
            match turns.last().event {
                NegotiationEventModel::Failed(e) => action == if n == 7 {
                    NegotiationActionModel::ClosePeer
                } else {
                    ends_in(e)
                },
                NegotiationEventModel::Local(None) => n == 5 && action == (
                NegotiationActionModel::<E>::Return(
                    Err(
                        NegotiationErrorModel::NoLocalDescription(
                            "generate local_description failed!"@,
                        ),
                    ),
                )),
                NegotiationEventModel::Local(Some(sdp)) => {
                    &&& n == 5
                    &&& action == (NegotiationActionModel::<E>::Send {
                        session_id,
                        text: turns.last().text,
                    })
                    &&& read_sdp(turns.last().text) == SdpReading::Sdp(sdp)
                },
                NegotiationEventModel::Answer(_) => false,
                NegotiationEventModel::Done => if n == 1 {
                    action == settling_on::<E>(offer)
                } else if n == 2 {
                    action is Describe
                } else if n == 3 {
                    action is SetLocal
                } else if n == 4 {
                    action is ReadLocal
                } else if n == 6 {
                    action == NegotiationActionModel::<E>::SendStatus(StatusModel::SdpExchanged)
                } else if n == 7 {
                    action is AwaitEnd
                } else if n == 8 {
                    match lost_status(turns, 6) {
                        Some(e) => action == ends_in(e),
                        None => action is ClosePeer,
                    }
                } else {
                    n == 9 && action == NegotiationActionModel::<E>::Return(Ok(()))
                },
            }
        }),
{
    let fewer = turns.drop_last();
    law_the_steps_come_in_order(Role::Answering, session_id, offer, fewer);
    lemma_negotiation_at(Role::Answering, session_id, offer, fewer);
    assert(forall|i: int| 0 <= i < fewer.len() ==> #[trigger] fewer[i] == turns[i]);
}

/// What a negotiation that goes on has kept of what happened to it.
proof fn lemma_negotiation_at<E>(
    role: Role,
    session_id: Seq<char>,
    remote: Seq<char>,
    turns: Seq<Turn<E>>,
)
    requires
        is_run(NegotiationModel::start(role, session_id, remote), turns),
    ensures
        ({
            let m = run(NegotiationModel::start(role, session_id, remote), turns);
            let sending = if role is Offering {
                7int
            } else {
                6int
            };
            !(m.step is Over) ==> {
                &&& if role is Offering && turns.len() >= 7 {
                    turns[6].event == NegotiationEventModel::<E>::Answer(m.remote)
                } else {
                    m.remote == remote
                }
                &&& m.failure == lost_status(turns, sending)
                &&& m.failure is Some ==> turns.len() == sending + 1 && m.step is ClosePeer
            }
        }),
    decreases turns.len(),
{
    if turns.len() > 0 {
        let fewer = turns.drop_last();
        lemma_negotiation_at(role, session_id, remote, fewer);
        law_the_steps_come_in_order(role, session_id, remote, fewer);
        assert(forall|i: int| 0 <= i < fewer.len() ==> #[trigger] fewer[i] == turns[i]);
    }
}

/// A negotiation takes whatever may come of what it asked for, and nothing when it
/// is over.
pub proof fn law_a_negotiation_takes_what_it_asked_for<E>(
    role: Role,
    session_id: Seq<char>,
    remote: Seq<char>,
    turns: Seq<Turn<E>>,
    event: NegotiationEventModel<E>,
)
    requires
        is_run(NegotiationModel::start(role, session_id, remote), turns),
    ensures
        ({
            let start = NegotiationModel::start(role, session_id, remote);
            run(start, turns).accepts(event) == match (if turns.len() == 0 {
                NegotiationActionModel::CreatePeer
            } else {
                last_action(start, turns)
            }) {
                NegotiationActionModel::ReadLocal => event is Local,
                NegotiationActionModel::AwaitAnswer(_) => event is Answer || event is Failed,
                NegotiationActionModel::Return(_) => false,
                NegotiationActionModel::Abort => false,
                _ => event is Done || event is Failed,
            }
        }),
{
    if turns.len() > 0 {
        law_the_steps_come_in_order(role, session_id, remote, turns.drop_last());
    }
}

/// Where the user can no longer be told that the descriptions are exchanged,
/// the connection is closed; the error comes back, or that of the closing.
pub proof fn law_a_lost_status_closes_the_connection<E>(
    m: NegotiationModel<E>,
    e: E,
    event: NegotiationEventModel<E>,
    text: Seq<char>,
)
    requires
        m.step is SendStatus,
        event is Done || event is Failed,
    ensures
        ({
            let (closing, action) = m.next(NegotiationEventModel::Failed(e), text);
            &&& action is ClosePeer
            &&& closing.accepts(event)
            &&& closing.next(event, text).1 == NegotiationActionModel::<E>::Return(
                Err(
                    NegotiationErrorModel::Met(
                        match event {
                            NegotiationEventModel::Failed(other) => other,
                            _ => e,
                        },
                    ),
                ),
            )
        }),
{
}

/// Where the connection could not be closed in good order, by the transfer or
/// after it, that error is the outcome.
pub proof fn law_a_failed_close_is_returned<E>(m: NegotiationModel<E>, e: E, text: Seq<char>)
    requires
        m.step is AwaitEnd || m.step is ClosePeer,
    ensures
        m.accepts(NegotiationEventModel::Failed(e)),
        m.next(NegotiationEventModel::Failed(e), text).1 == NegotiationActionModel::<E>::Return(
            Err(NegotiationErrorModel::Met(e)),
        ),
{
}

/// Each side settles on the session description that the other one has: the
/// text that goes out for it is read back as it was, on either side.
pub proof fn law_the_other_side_reads_the_description<E>(
    here: NegotiationModel<E>,
    sdp: Seq<char>,
    text: Seq<char>,
    there: NegotiationModel<E>,
)
    requires
        here.step is ReadLocal,
        encodes_local(NegotiationEventModel::<E>::Local(Some(sdp)), text),
        there.remote == text,
        there.role is Answering ==> there.step is CreatePeer,
        there.role is Offering ==> there.step is SendStatus,
    ensures
        here.next(NegotiationEventModel::Local(Some(sdp)), text).1 == (
        NegotiationActionModel::<E>::Send { session_id: here.session_id, text }),
        there.next(NegotiationEventModel::Done, text).1 == NegotiationActionModel::<E>::SetRemote(
            sdp,
        ),
{
}

/// A side speaks of one session only: what it sends goes out under the id that
/// it started with, and under that id it waits for the answer.
pub proof fn law_a_side_speaks_of_one_session<E>(
    start: NegotiationModel<E>,
    turns: Seq<Turn<E>>,
)
    requires
        is_run(start, turns),
        turns.len() > 0,
    ensures
        match last_action(start, turns) {
            NegotiationActionModel::Send { session_id, .. } => session_id == start.session_id,
            NegotiationActionModel::AwaitAnswer(session_id) => session_id == start.session_id,
            _ => true,
        },
{
    lemma_session_stays(start, turns.drop_last());
}

/// A negotiation stays in its session.
proof fn lemma_session_stays<E>(start: NegotiationModel<E>, turns: Seq<Turn<E>>)
    ensures
        run(start, turns).session_id == start.session_id,
    decreases turns.len(),
{
    if turns.len() > 0 {
        lemma_session_stays(start, turns.drop_last());
    }
}

} // verus!
