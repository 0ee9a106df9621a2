//! What holds of every reply of the receiving side, whatever happens to it.

use crate::assembly::{as_binaries, assembled, in_chunks, law_chunks_are_put_together, MessageModel};
use crate::chunks::{
    behind_chunks, chunks_of, is_cut, joined, law_one_way_to_cut, law_parts_are_the_chunks, CHUNK_SIZE,
};
use crate::reply::{ReplyActionModel, ReplyEventModel, ReplyModel};
use vstd::prelude::*;
use vstd::utf8::{encode_utf8, encode_utf8_decode_utf8};

verus! {

/// Where a reply stands after some events.
pub open spec fn run<E>(events: Seq<ReplyEventModel<E>>) -> ReplyModel
    decreases events.len(),
{
    if events.len() == 0 {
        ReplyModel::start()
    } else {
        run(events.drop_last()).next(events.last()).0
    }
}

/// What the last of some events led to.
pub open spec fn last_action<E>(events: Seq<ReplyEventModel<E>>) -> ReplyActionModel<E> {
    run(events.drop_last()).next(events.last()).1
}

/// The messages that went into the channel after some events.
pub open spec fn messages<E>(events: Seq<ReplyEventModel<E>>) -> Seq<MessageModel>
    decreases events.len(),
{
    if events.len() == 0 {
        Seq::empty()
    } else {
        let before = messages(events.drop_last());
        match last_action(events) {
            ReplyActionModel::SendBinary(data) => before.push(
                MessageModel { is_string: false, data },
            ),
            ReplyActionModel::SendText(text) => before.push(
                MessageModel { is_string: true, data: encode_utf8(text) },
            ),
            _ => before,
        }
    }
}

/// Each event is one that the reply was waiting for.
pub open spec fn is_run<E>(events: Seq<ReplyEventModel<E>>) -> bool
    decreases events.len(),
{
    events.len() > 0 ==> is_run(events.drop_last()) && run(events.drop_last()).accepts(
        events.last(),
    )
}

/// The action sends this message and nothing else.
pub open spec fn sends<E>(action: ReplyActionModel<E>, message: MessageModel) -> bool {
    match action {
        ReplyActionModel::SendBinary(data) => !message.is_string && data == message.data,
        ReplyActionModel::SendText(text) => message.is_string && encode_utf8(text)
            == message.data,
        _ => false,
    }
}

/// What is put into words is what was selected, for every selection; where nothing
/// will be selected, the transfer is broken off.
pub proof fn law_what_was_selected_is_put_into_words<E>(
    m: ReplyModel,
    tokens: Map<Seq<char>, Seq<char>>,
)
    requires
        m.phase is Selecting,
    ensures
        m.next(ReplyEventModel::<E>::Selected(Some(tokens))).1 == ReplyActionModel::<E>::Word(
            tokens,
        ),
        m.next(ReplyEventModel::<E>::Selected(None)).1 == (ReplyActionModel::<E>::Stop {
            broken: true,
            result: Ok(()),
        }),
{
}

/// What a reply does next follows from what happened to it: the selection is put
/// into words; the words go out as the messages of their chunks with the mark
/// behind them, one after the other; and an error ends it, and breaks the transfer
/// off where it hit a chunk.
pub proof fn law_what_a_reply_does_next<E>(events: Seq<ReplyEventModel<E>>)
    requires
        is_run(events),
        events.len() > 0,
    ensures
        match events[0] {
            ReplyEventModel::Selected(Some(tokens)) => events.len() == 1 ==> last_action(events)
                == ReplyActionModel::<E>::Word(tokens),
            ReplyEventModel::Selected(None) => events.len() == 1 && last_action(events) == (
            ReplyActionModel::<E>::Stop { broken: true, result: Ok(()) }),
            _ => false,
        },
        events.len() >= 2 ==> match events[1] {
            ReplyEventModel::Worded(Err(e)) => events.len() == 2 && last_action(events) == (
            ReplyActionModel::<E>::Stop { broken: false, result: Err(e) }),
            ReplyEventModel::Worded(Ok(text)) => {
                let messages = in_chunks(encode_utf8(text));
                let answered = events.len() - 2;
                &&& answered <= messages.len()
                &&& match events.last() {
                    ReplyEventModel::Failed(e) => last_action(events) == (
                    ReplyActionModel::<E>::Stop {
                        broken: !messages[answered - 1].is_string,
                        result: Err(e),
                    }),
                    _ => if answered < messages.len() {
                        sends(last_action(events), messages[answered])
                    } else {
                        last_action(events) == (ReplyActionModel::<E>::Stop {
                            broken: false,
                            result: Ok(()),
                        })
                    },
                }
            },
            _ => false,
        },
    decreases events.len(),
{
    let fewer = events.drop_last();
    if events.len() == 1 {
        assert(fewer =~= Seq::empty());
        assert(run(fewer) == ReplyModel::start());
    } else {
        law_what_a_reply_does_next(fewer);
        assert(fewer[0] == events[0]);
        if events.len() == 2 {
            let first = fewer.drop_last();
            assert(first =~= Seq::empty());
            assert(run(first) == ReplyModel::start());
            assert(fewer.last() == events[0]);
            assert(run(fewer) == ReplyModel::start().next(events[0]).0);
            if let ReplyEventModel::Worded(Ok(text)) = events[1] {
                lemma_reply_at(events, text);
            }
        } else {
            assert(fewer[1] == events[1]);
            assert(!(run(fewer).phase is Stopped));
            lemma_goes_well(fewer);
            let text = events[1]->Worded_0->Ok_0;
            lemma_reply_at(fewer, text);
            if events.last() is Done {
                assert forall|i: int| 2 <= i < events.len() implies #[trigger] events[i] is Done by {
                    if i < fewer.len() {
                        assert(fewer[i] is Done);
                    }
                }
                lemma_reply_at(events, text);
            }
        }
    }
}

/// A reply that is not over went well so far.
proof fn lemma_goes_well<E>(events: Seq<ReplyEventModel<E>>)
    requires
        is_run(events),
        events.len() >= 2,
        !(run(events).phase is Stopped),
    ensures
        events[1] is Worded,
        events[1]->Worded_0 is Ok,
        goes_well(events, events[1]->Worded_0->Ok_0),
    decreases events.len(),
{
    let fewer = events.drop_last();
    let first = fewer.drop_last();
    if events.len() == 2 {
        assert(first =~= Seq::empty());
        assert(run(first) == ReplyModel::start());
        assert(fewer.last() == events[0]);
        assert(run(fewer) == ReplyModel::start().next(events[0]).0);
        assert(first.len() == 0 && fewer.len() == 1);
        assert(is_run(fewer));
    } else {
        assert(!(run(fewer).phase is Stopped));
        lemma_goes_well(fewer);
        let text = fewer[1]->Worded_0->Ok_0;
        assert(fewer[1] == events[1] && fewer[0] == events[0]);
        lemma_reply_at(fewer, text);
        assert forall|i: int| 2 <= i < events.len() implies #[trigger] events[i] is Done by {
            if i < fewer.len() {
                assert(fewer[i] is Done);
            }
        }
    }
}

/// Where a reply that goes well stands: which chunk it sends, or how far behind the
/// last one it is.
proof fn lemma_reply_at<E>(events: Seq<ReplyEventModel<E>>, text: Seq<char>)
    requires
        is_run(events),
        goes_well(events, text),
    ensures
        ({
            let m = run(events);
            let data = encode_utf8(text);
            let k = events.len() - 2;
            &&& in_chunks(data).len() == chunks_of(data).len() + 1
            &&& m.phase is Sending ==> {
                &&& k < chunks_of(data).len()
                &&& m.pending == behind_chunks(data, k + 1)
                &&& sends(last_action(events), in_chunks(data)[k])
                &&& !in_chunks(data)[k].is_string
            }
            &&& m.phase is Marking ==> {
                &&& k == chunks_of(data).len()
                &&& sends(last_action(events), in_chunks(data)[k])
                &&& in_chunks(data)[k].is_string
            }
            &&& m.phase is Stopped ==> {
                &&& k == chunks_of(data).len() + 1
                &&& last_action(events) == (ReplyActionModel::<E>::Stop {
                    broken: false,
                    result: Ok(()),
                })
            }
            &&& m.phase is Sending || m.phase is Marking || m.phase is Stopped
        }),
    decreases events.len(),
{
    let fewer = events.drop_last();
    let data = encode_utf8(text);
    let k = events.len() - 2;
    reveal_strlit("");
    assert(""@ =~= Seq::<char>::empty());
    assert(encode_utf8(""@) =~= Seq::<u8>::empty());
    law_parts_are_the_chunks(data, 0);
    law_parts_are_the_chunks(data, k);
    if events.len() == 2 {
        let first = fewer.drop_last();
        assert(first =~= Seq::empty());
        assert(run(first) == ReplyModel::start());
        assert(fewer.last() == events[0]);
        assert(run(fewer) == ReplyModel::start().next(events[0]).0);
        assert(ReplyModel::start().pending + data =~= data);
    } else {
        assert forall|i: int| 2 <= i < fewer.len() implies #[trigger] fewer[i] is Done by {
            assert(events[i] is Done);
        }
        assert(events[events.len() - 1] is Done);
        lemma_reply_at(fewer, text);
    }
}

/// A reply takes whatever may come of what it asked for: any selection, any words
/// that fit into memory or an error, success or failure of a message, and nothing
/// when it is over.
pub proof fn law_a_reply_takes_what_it_asked_for<E>(
    events: Seq<ReplyEventModel<E>>,
    event: ReplyEventModel<E>,
)
    requires
        is_run(events),
    ensures
        run(events).accepts(event) == match (if events.len() == 0 {
            ReplyActionModel::AwaitSelection
        } else {
            last_action(events)
        }) {
            ReplyActionModel::AwaitSelection => event is Selected,
            ReplyActionModel::Word(_) => match event {
                ReplyEventModel::Worded(Ok(text)) => encode_utf8(text).len() <= isize::MAX,
                ReplyEventModel::Worded(Err(_)) => true,
                _ => false,
            },
            ReplyActionModel::SendBinary(_) => event is Done || event is Failed,
            ReplyActionModel::SendText(_) => event is Done || event is Failed,
            ReplyActionModel::Stop { .. } => false,
        },
{
    if events.len() > 0 {
        let fewer = events.drop_last();
        if run(events).phase is Wording {
            assert(run(fewer).phase is Selecting);
            if fewer.len() > 0 {
                assert(!(run(fewer.drop_last()).next(fewer.last()).0.phase is Selecting));
            }
            assert(run(fewer) == ReplyModel::start());
        }
    }
}

/// Files were selected, the reply was worded as `text`, and no message was lost.
pub open spec fn goes_well<E>(events: Seq<ReplyEventModel<E>>, text: Seq<char>) -> bool {
    &&& events.len() >= 2
    &&& events[0] matches ReplyEventModel::Selected(Some(_))
    &&& events[1] == ReplyEventModel::<E>::Worded(Ok(text))
    &&& forall|i: int| 2 <= i < events.len() ==> #[trigger] events[i] is Done
}

/// A reply that was sent to its end went through the channel as the chunks of
/// its bytes and the mark behind them, so that the other side puts just these
/// bytes together and reads the same text from them.
pub proof fn law_a_reply_is_put_together_on_the_other_side<E>(
    events: Seq<ReplyEventModel<E>>,
    text: Seq<char>,
)
    requires
        goes_well(events, text),
        run(events).phase is Stopped,
    ensures
        messages(events) == in_chunks(encode_utf8(text)),
        assembled(messages(events)) == seq![encode_utf8(text)],
        forall|read: Seq<char>| #[trigger]
            encode_utf8(read) == assembled(messages(events))[0] ==> read == text,
{
    let parts = lemma_reply_so_far(events, text);
    assert(joined(parts) =~= encode_utf8(text));
    law_one_way_to_cut(parts);
    law_chunks_are_put_together(encode_utf8(text));
    assert forall|read: Seq<char>| #[trigger] encode_utf8(read) == encode_utf8(text) implies read
        == text by {
        encode_utf8_decode_utf8(read);
        encode_utf8_decode_utf8(text);
    }
}

/// What holds while a reply is sent: the parts that went into the channel.
proof fn lemma_reply_so_far<E>(events: Seq<ReplyEventModel<E>>, text: Seq<char>) -> (parts: Seq<
    Seq<u8>,
>)
    requires
        goes_well(events, text),
    ensures
        ({
            let m = run(events);
            let sent = messages(events);
            let end = MessageModel { is_string: true, data: Seq::<u8>::empty() };
            &&& m.phase is Sending || m.phase is Marking || m.phase is Stopped
            &&& m.phase is Sending ==> sent == as_binaries(parts)
            &&& !(m.phase is Sending) ==> sent == as_binaries(parts).push(end)
                && m.pending.len() == 0
            &&& joined(parts) + m.pending == encode_utf8(text)
            &&& is_cut(parts)
            &&& m.pending.len() > 0 ==> forall|i: int|
                0 <= i < parts.len() ==> #[trigger] parts[i].len() == CHUNK_SIZE
        }),
    decreases events.len(),
{
    let fewer = events.drop_last();
    let before = run(fewer);
    reveal_strlit("");
    assert(""@ =~= Seq::<char>::empty());
    reveal_with_fuel(encode_utf8, 1);
    assert(encode_utf8(""@) =~= Seq::<u8>::empty());
    if events.len() == 2 {
        let first = fewer.drop_last();
        assert(first =~= Seq::empty());
        assert(run(first) == ReplyModel::start());
        assert(fewer.last() == events[0]);
        assert(run(fewer) == ReplyModel::start().next(events[0]).0);
        assert(messages(first) == Seq::<MessageModel>::empty());
        assert(last_action(fewer) is Word);
        assert(messages(fewer) == Seq::<MessageModel>::empty());
        let data = encode_utf8(text);
        assert(ReplyModel::start().pending + data =~= data);
        match last_action(events) {
            ReplyActionModel::SendBinary(part) => {
                let parts = seq![part];
                assert(parts.drop_last() =~= Seq::<Seq<u8>>::empty());
                assert(joined(parts.drop_last()) =~= Seq::<u8>::empty());
                assert(joined(parts) =~= part);
                assert(messages(events) =~= as_binaries(parts));
                assert(joined(parts) + run(events).pending =~= data);
                parts
            },
            _ => {
                let parts = Seq::<Seq<u8>>::empty();
                assert(messages(events) =~= as_binaries(parts).push(
                    MessageModel { is_string: true, data: Seq::<u8>::empty() },
                ));
                assert(joined(parts) + run(events).pending =~= data);
                parts
            },
        }
    } else {
        assert forall|i: int| 2 <= i < fewer.len() implies #[trigger] fewer[i] is Done by {
            assert(events[i] is Done);
        }
        assert(events.last() is Done);
        let parts = lemma_reply_so_far(fewer, text);
        match last_action(events) {
            ReplyActionModel::SendBinary(part) => {
                let more = parts.push(part);
                assert(more.drop_last() =~= parts);
                assert(messages(events) =~= as_binaries(more));
                assert(joined(more) + run(events).pending =~= encode_utf8(text));
                more
            },
            _ => parts,
        }
    }
}

/// A reply succeeds where the mark behind it was sent, or where nothing will be
/// selected; where it meets an error, it stops and hands that error on.
pub proof fn law_how_a_reply_ends<E>(m: ReplyModel, event: ReplyEventModel<E>)
    requires
        m.accepts(event),
    ensures
        m.next(event).0.phase is Stopped <==> m.next(event).1 is Stop,
        m.next(event).1 matches ReplyActionModel::Stop { result: Ok(_), .. } ==> event
            == ReplyEventModel::<E>::Selected(None) || (m.phase is Marking && event is Done),
        forall|e: E|
            (event == ReplyEventModel::<E>::Failed(e) || event == ReplyEventModel::<E>::Worded(
                Err(e),
            )) ==> #[trigger] is_error(m.next(event).1, e),
{
}

/// The reply is over, with the error `e`.
pub open spec fn is_error<E>(action: ReplyActionModel<E>, e: E) -> bool {
    action matches ReplyActionModel::Stop { result: Err(met), .. } && met == e
}

} // verus!
