//! What holds of every session of the sending side, whatever happens to it.

use crate::chunks::{
    behind_chunks, chunks_of, is_cut, joined, law_one_way_to_cut, law_parts_are_the_chunks,
    law_whole_chunk_lengths, law_whole_chunks_come_first, CHUNK_SIZE,
};
use crate::messages::StatusModel;
use crate::sender::{FailureModel, SendActionModel, SendEventModel, SendModel, SendPhaseModel};
use vstd::prelude::*;
use vstd::utf8::encode_utf8;

verus! {

/// Where a session stands after some events.
pub open spec fn run<E>(start: SendModel<E>, events: Seq<SendEventModel<E>>) -> SendModel<E>
    decreases events.len(),
{
    if events.len() == 0 {
        start
    } else {
        run(start, events.drop_last()).next(events.last()).0
    }
}

/// Each event is one that the session was waiting for.
pub open spec fn is_run<E>(start: SendModel<E>, events: Seq<SendEventModel<E>>) -> bool {
    forall|i: int|
        0 <= i < events.len() ==> run(start, #[trigger] events.take(i)).accepts(events[i])
}

/// What each event led to.
pub open spec fn actions<E>(start: SendModel<E>, events: Seq<SendEventModel<E>>) -> Seq<SendActionModel<E>> {
    Seq::new(events.len(), |i: int| run(start, events.take(i)).next(events[i]).1)
}

/// The binary messages among some actions.
pub open spec fn binaries<E>(actions: Seq<SendActionModel<E>>) -> Seq<Seq<u8>>
    decreases actions.len(),
{
    if actions.len() == 0 {
        Seq::empty()
    } else {
        match actions.last() {
            SendActionModel::SendBinary(bytes) => binaries(actions.drop_last()).push(bytes),
            _ => binaries(actions.drop_last()),
        }
    }
}

/// The bytes that were read, one piece behind the other.
pub open spec fn received<E>(events: Seq<SendEventModel<E>>) -> Seq<u8>
    decreases events.len(),
{
    if events.len() == 0 {
        Seq::empty()
    } else {
        match events.last() {
            SendEventModel::Data(Some(bytes)) => received(events.drop_last()) + bytes,
            _ => received(events.drop_last()),
        }
    }
}

/// The session is busy with the bytes of a file.
pub open spec fn in_file<E>(m: SendModel<E>) -> bool {
    m.phase is Reading || m.phase is Sending || m.phase is Ending
}

/// The session is busy with bytes of a file before each of the events.
pub open spec fn stays_in_file<E>(start: SendModel<E>, events: Seq<SendEventModel<E>>) -> bool {
    forall|i: int| 0 <= i < events.len() ==> in_file(run(start, #[trigger] events.take(i)))
}

/// None of the events is a failure, or anything but the initial message in
/// words and messages sent.
pub open spec fn introduces<E>(events: Seq<SendEventModel<E>>) -> bool {
    forall|i: int|
        0 <= i < events.len() ==> #[trigger] events[i] is Worded || events[i] is Done
}

/// One event fewer.
proof fn lemma_one_fewer<E>(start: SendModel<E>, events: Seq<SendEventModel<E>>)
    requires
        events.len() > 0,
    ensures
        actions(start, events) == actions(start, events.drop_last()).push(
            run(start, events.drop_last()).next(events.last()).1,
        ),
        forall|i: int|
            0 <= i < events.len() ==> events.drop_last().take(i) == #[trigger] events.take(i),
        is_run(start, events) ==> is_run(start, events.drop_last()) && run(
            start,
            events.drop_last(),
        ).accepts(events.last()),
{
    let fewer = events.drop_last();
    assert forall|i: int| 0 <= i < events.len() implies fewer.take(i) == #[trigger] events.take(
        i,
    ) by {
        assert(fewer.take(i) =~= events.take(i));
    }
    assert(events.take(events.len() - 1) =~= fewer);
    assert(actions(start, events) =~= actions(start, fewer).push(
        run(start, fewer).next(events.last()).1,
    ));
    if is_run(start, events) {
        assert(run(start, events.take(events.len() - 1)).accepts(events.last()));
        assert forall|i: int| 0 <= i < fewer.len() implies run(
            start,
            #[trigger] fewer.take(i),
        ).accepts(fewer[i]) by {
            assert(events.take(i) == fewer.take(i));
        }
    }
}

/// While a file is sent, no byte of it is lost, added or moved: those that were
/// sent and those still pending are those that were read. Less than a chunk is
/// pending while more is waited for.
pub proof fn law_bytes_of_a_file_are_kept<E>(
    start: SendModel<E>,
    events: Seq<SendEventModel<E>>,
)
    requires
        start.phase is Reading,
        start.pending.len() == 0,
        is_run(start, events),
        stays_in_file(start, events),
        in_file(run(start, events)),
    ensures
        joined(binaries(actions(start, events))) + run(start, events).pending == received(events),
        run(start, events).phase is Reading ==> run(start, events).pending.len() < CHUNK_SIZE,
{
    lemma_file_so_far(start, events);
}

/// What holds while a file is sent.
proof fn lemma_file_so_far<E>(start: SendModel<E>, events: Seq<SendEventModel<E>>)
    requires
        start.phase is Reading,
        start.pending.len() == 0,
        is_run(start, events),
        stays_in_file(start, events),
        in_file(run(start, events)),
    ensures
        ({
            let m = run(start, events);
            let sent = binaries(actions(start, events));
            &&& joined(sent) + m.pending == received(events)
            &&& m.phase is Reading ==> m.pending.len() < CHUNK_SIZE
            &&& m.phase is Ending ==> is_cut(sent) && m.pending.len() == 0
            &&& !(m.phase is Ending) ==> forall|i: int|
                0 <= i < sent.len() ==> #[trigger] sent[i].len() == CHUNK_SIZE
        }),
    decreases events.len(),
{
    if events.len() == 0 {
        assert(actions(start, events) =~= Seq::empty());
        assert(start.pending =~= Seq::<u8>::empty());
    } else {
        let fewer = events.drop_last();
        let event = events.last();
        lemma_one_fewer(start, events);
        assert(events.take(events.len() - 1) == fewer);
        assert(in_file(run(start, fewer)));
        assert(stays_in_file(start, fewer)) by {
            assert forall|i: int| 0 <= i < fewer.len() implies in_file(
                run(start, #[trigger] fewer.take(i)),
            ) by {
                assert(events.take(i) == fewer.take(i));
            }
        }
        lemma_file_so_far(start, fewer);
        let before = run(start, fewer);
        let after = run(start, events);
        let sent_before = binaries(actions(start, fewer));
        let sent = binaries(actions(start, events));
        let action = before.next(event).1;
        assert(actions(start, events).drop_last() =~= actions(start, fewer));
        match action {
            SendActionModel::SendBinary(bytes) => {
                assert(sent == sent_before.push(bytes));
                lemma_joined_one_more(sent_before, bytes);
                assert(joined(sent) + after.pending =~= received(events));
            },
            _ => {
                assert(sent == sent_before);
                assert(joined(sent) + after.pending =~= received(events));
            },
        }
    }
}

/// One more piece.
proof fn lemma_joined_one_more(pieces: Seq<Seq<u8>>, piece: Seq<u8>)
    ensures
        joined(pieces.push(piece)) == joined(pieces) + piece,
{
    assert(pieces.push(piece).drop_last() =~= pieces);
}

/// A file that was sent to its end went through the channel as the chunks of
/// its bytes, in order, whatever the pieces were that it was read in.
pub proof fn law_a_file_goes_out_in_chunks<E>(start: SendModel<E>, events: Seq<SendEventModel<E>>)
    requires
        start.phase is Reading,
        start.pending.len() == 0,
        is_run(start, events),
        stays_in_file(start, events),
        run(start, events).phase is AwaitingFile,
    ensures
        binaries(actions(start, events)) == chunks_of(received(events)),
{
    let fewer = events.drop_last();
    lemma_one_fewer(start, events);
    assert(events.take(events.len() - 1) == fewer);
    assert(stays_in_file(start, fewer)) by {
        assert forall|i: int| 0 <= i < fewer.len() implies in_file(
            run(start, #[trigger] fewer.take(i)),
        ) by {
            assert(events.take(i) == fewer.take(i));
        }
    }
    lemma_file_so_far(start, fewer);
    let sent = binaries(actions(start, events));
    assert(actions(start, events).drop_last() =~= actions(start, fewer));
    assert(sent == binaries(actions(start, fewer)));
    assert(joined(sent) =~= received(events));
    law_one_way_to_cut(sent);
}

/// It was said that the file has ended.
pub open spec fn file_ended<E>(events: Seq<SendEventModel<E>>) -> bool
    decreases events.len(),
{
    events.len() > 0 && (events.last() == SendEventModel::<E>::Data(None) || file_ended(
        events.drop_last(),
    ))
}

/// Each action sends bytes of the file or waits for more of them.
pub open spec fn still_sending<E>(actions: Seq<SendActionModel<E>>) -> bool {
    forall|i: int|
        0 <= i < actions.len() ==> #[trigger] actions[i] is SendBinary || actions[i] is ReceiveData
}

/// A file is sent to its end. Once its header is out, what the session does next
/// follows from the bytes of the file that were read and from how many chunks were
/// sent: where sending failed, that is reported of this file; else the next whole
/// chunk is sent, if there is one; else more bytes are waited for, as long as the
/// file has not ended; else what is left is sent, if anything is; and only then the
/// next file is waited for.
pub proof fn law_a_file_is_sent_to_its_end<E>(
    start: SendModel<E>,
    id: Seq<char>,
    events: Seq<SendEventModel<E>>,
)
    requires
        start.phase == SendPhaseModel::Reading(id),
        start.pending.len() == 0,
        is_run(start, events),
        events.len() > 0,
        still_sending(actions(start, events.drop_last())),
    ensures
        ({
            let data = received(events);
            let n = binaries(actions(start, events.drop_last())).len() as int;
            let action = actions(start, events).last();
            let after = run(start, events);
            &&& action == match events.last() {
                SendEventModel::Failed(e) => SendActionModel::<E>::ReportFile(id, e),
                _ => if n < data.len() / 16384 {
                    SendActionModel::SendBinary(chunks_of(data)[n])
                } else if !file_ended(events) {
                    SendActionModel::ReceiveData
                } else if n < chunks_of(data).len() {
                    SendActionModel::SendBinary(chunks_of(data)[n])
                } else {
                    SendActionModel::ReceiveFile
                },
            }
            &&& action is ReportFile ==> after.phase is Reporting
            &&& action is ReceiveFile ==> after.phase is AwaitingFile
            &&& still_sending(seq![action]) ==> busy_with(after.phase) == Some(id) && in_file(
                after,
            )
            &&& after.tokens == start.tokens
            &&& after.not_closed == start.not_closed
        }),
{
    let fewer = events.drop_last();
    lemma_one_fewer(start, events);
    lemma_still_in_file(start, id, fewer);
    lemma_file_so_far(start, fewer);
    let sent = binaries(actions(start, fewer));
    let n = sent.len() as int;
    let data = received(events);
    let after = run(start, events);
    match actions(start, events).last() {
        SendActionModel::SendBinary(chunk) => {
            let more = sent.push(chunk);
            lemma_joined_one_more(sent, chunk);
            assert(joined(more) + after.pending =~= data);
            law_whole_chunk_lengths(sent);
            if chunk.len() == CHUNK_SIZE {
                assert forall|i: int| 0 <= i < more.len() implies #[trigger] more[i].len()
                    == CHUNK_SIZE by {
                    if i < sent.len() {
                        assert(sent[i].len() == CHUNK_SIZE);
                    }
                }
                law_whole_chunks_come_first(more, after.pending);
                assert(chunks_of(data).take(more.len() as int)[n] == more[n]);
            } else {
                assert(joined(more) =~= data);
                law_one_way_to_cut(more);
                assert(chunks_of(data)[n] == more[n]);
            }
        },
        SendActionModel::ReceiveData => {
            law_whole_chunk_lengths(sent);
            assert(joined(sent) + after.pending =~= data);
        },
        SendActionModel::ReceiveFile => {
            assert(joined(sent) =~= data);
            law_one_way_to_cut(sent);
        },
        _ => {},
    }
    if still_sending(seq![actions(start, events).last()]) {
        assert(seq![actions(start, events).last()][0] is SendBinary || seq![
            actions(start, events).last(),
        ][0] is ReceiveData);
    }
}

/// A session that sends or waits for bytes of a file stays in that file.
proof fn lemma_still_in_file<E>(
    start: SendModel<E>,
    id: Seq<char>,
    events: Seq<SendEventModel<E>>,
)
    requires
        start.phase == SendPhaseModel::Reading(id),
        is_run(start, events),
        still_sending(actions(start, events)),
    ensures
        stays_in_file(start, events),
        in_file(run(start, events)),
        busy_with(run(start, events).phase) == Some(id),
        run(start, events).tokens == start.tokens,
        run(start, events).not_closed == start.not_closed,
        run(start, events).phase is Ending <==> file_ended(events),
    decreases events.len(),
{
    if events.len() > 0 {
        let fewer = events.drop_last();
        lemma_one_fewer(start, events);
        let all = actions(start, events);
        assert forall|i: int| 0 <= i < actions(start, fewer).len() implies (#[trigger] actions(
            start,
            fewer,
        )[i]) is SendBinary || actions(start, fewer)[i] is ReceiveData by {
            assert(all[i] == actions(start, fewer)[i]);
            assert(all[i] is SendBinary || all[i] is ReceiveData);
        }
        lemma_still_in_file(start, id, fewer);
        assert(all[all.len() - 1] is SendBinary || all[all.len() - 1] is ReceiveData);
        assert forall|i: int| 0 <= i < events.len() implies in_file(
            run(start, #[trigger] events.take(i)),
        ) by {
            if i < fewer.len() {
                assert(events.take(i) == fewer.take(i));
            } else {
                assert(events.take(i) =~= fewer);
            }
        }
    }
}

/// Between two files: a selected file gets its header, with its own id and the token
/// that was received for it; a file that was not selected is reported; a header that
/// is out is followed by the bytes of the file, and one that fails by a report of
/// the file; after a report the next file is waited for; and only when no more files
/// will come the channel is closed.
pub proof fn law_what_is_done_with_a_file<E>(m: SendModel<E>, id: Seq<char>, e: Seq<char>)
    ensures
        m.phase is AwaitingFile ==> {
            let (after, action) = m.next(SendEventModel::File(Some(id)));
            &&& after.tokens == m.tokens
            &&& if m.tokens.contains_key(id) {
                action == SendActionModel::<E>::SendHeader(id, m.tokens[id]) && after.phase
                    == SendPhaseModel::Heading(id)
            } else {
                action == SendActionModel::<E>::ReportFile(id, "Failed to get file token"@)
                    && after.phase is Reporting
            }
            &&& m.next(SendEventModel::File(None)).1 is CloseChannel
            &&& m.next(SendEventModel::File(None)).0.phase == SendPhaseModel::Closing(None)
        },
        m.phase == SendPhaseModel::Heading(id) ==> {
            let (after, action) = m.next(SendEventModel::Done);
            let (given_up, report) = m.next(SendEventModel::Failed(e));
            &&& action is ReceiveData
            &&& after.phase == SendPhaseModel::Reading(id)
            &&& after.pending == Seq::<u8>::empty()
            &&& after.tokens == m.tokens
            &&& report == SendActionModel::<E>::ReportFile(id, e)
            &&& given_up.phase is Reporting
            &&& given_up.tokens == m.tokens
        },
        m.phase is Reporting ==> {
            let (after, action) = m.next(SendEventModel::Done);
            let (unheard, same) = m.next(SendEventModel::Failed(e));
            &&& action is ReceiveFile && same is ReceiveFile
            &&& after.phase is AwaitingFile && unheard.phase is AwaitingFile
            &&& after.tokens == m.tokens && unheard.tokens == m.tokens
        },
{
}

/// The channel is closed just where no more files will come, or an error ends the
/// session: the status, the initial message or the selection could not be passed
/// on, or no tokens will come.
pub proof fn law_when_the_channel_is_closed<E>(m: SendModel<E>, event: SendEventModel<E>)
    requires
        m.accepts(event),
    ensures
        m.next(event).1 is CloseChannel <==> {
            ||| m.phase is AwaitingFile && event == SendEventModel::<E>::File(None)
            ||| m.phase is AwaitingTokens && event == SendEventModel::<E>::Tokens(None)
            ||| (m.phase is Announcing || m.phase is Introducing || m.phase is Publishing)
                && event is Failed
        },
{
}

/// The error that ended a session is the one that is told of it once channel and
/// connection are closed, whatever came of the closing.
pub proof fn law_which_error_is_told<E>(
    m: SendModel<E>,
    e: Seq<char>,
    closed: SendEventModel<E>,
    disconnected: SendEventModel<E>,
)
    ensures
        ({
            let told = |event: SendEventModel<E>|
                m.next(event).0.next(closed).0.next(disconnected).1;
            &&& m.phase is Announcing ==> told(SendEventModel::Failed(e))
                == SendActionModel::<E>::TryStatus(StatusModel::Error(e))
            &&& m.phase is Introducing ==> told(SendEventModel::Failed(e))
                == SendActionModel::<E>::TryStatus(
                StatusModel::Error("Failed to send initial message: "@ + e),
            )
            &&& m.phase is AwaitingTokens ==> told(SendEventModel::Tokens(None))
                == SendActionModel::<E>::SendStatus(
                StatusModel::Error("Failed to receive file tokens"@),
            )
            &&& m.phase is Publishing ==> told(SendEventModel::Failed(e))
                == SendActionModel::<E>::SendStatus(StatusModel::Error(e))
            &&& m.phase is AwaitingFile ==> told(SendEventModel::File(None))
                == SendActionModel::<E>::SendStatus(StatusModel::Finished)
        }),
{
}

/// How a session starts follows from what happened to it: once it has said that the
/// channel is open, it has the initial message put into words and sends it as the
/// chunks of its bytes; then it waits for the tokens, makes known for which files
/// they are, and waits for the first file. An error on the way closes the channel.
pub proof fn law_how_a_session_starts<E>(events: Seq<SendEventModel<E>>)
    requires
        is_run(SendModel::start(), events),
        events.len() > 0,
        forall|i: int|
            0 <= i < events.len() - 1 ==> !(#[trigger] actions(SendModel::start(), events)[i]
                is CloseChannel),
    ensures
        ({
            let action = actions(SendModel::start(), events).last();
            let after = run(SendModel::start(), events);
            let n = events.len();
            &&& n == 1 ==> match events[0] {
                SendEventModel::Failed(_) => action is CloseChannel,
                _ => events[0] is Done && action is Word,
            }
            &&& n >= 2 ==> (events[1] matches SendEventModel::Worded(text) && {
                let chunks = chunks_of(encode_utf8(text));
                let sent = n - 2;
                &&& sent <= chunks.len() ==> match events.last() {
                    SendEventModel::Failed(_) => action is CloseChannel,
                    _ => if sent < chunks.len() {
                        action == SendActionModel::<E>::SendBinary(chunks[sent])
                    } else {
                        action is ReceiveTokens
                    },
                }
                &&& sent == chunks.len() + 1 ==> match events.last() {
                    SendEventModel::Tokens(Some(tokens)) => action
                        == SendActionModel::<E>::Publish(tokens.dom()),
                    _ => events.last() is Tokens && action is CloseChannel,
                }
                &&& sent == chunks.len() + 2 ==> match events.last() {
                    SendEventModel::Failed(_) => action is CloseChannel,
                    _ => {
                        &&& events.last() is Done
                        &&& action is ReceiveFile
                        &&& after.phase is AwaitingFile
                        &&& after.not_closed is None
                        &&& events[n - 2] == SendEventModel::<E>::Tokens(Some(after.tokens))
                    },
                }
            })
        }),
{
    let start = SendModel::<E>::start();
    let fewer = events.drop_last();
    lemma_one_fewer(start, events);
    let all = actions(start, events);
    assert forall|i: int| 0 <= i < fewer.len() implies !(#[trigger] actions(start, fewer)[i]
        is CloseChannel) by {
        assert(all[i] == actions(start, fewer)[i]);
    }
    lemma_session_at(fewer);
    assert(forall|i: int| 0 <= i < fewer.len() ==> #[trigger] fewer[i] == events[i]);
    if fewer.len() >= 1 {
        let text = events[1]->Worded_0;
        let data = encode_utf8(text);
        assert(Seq::<u8>::empty() + data =~= data);
        law_parts_are_the_chunks(data, 0);
        law_parts_are_the_chunks(data, events.len() - 2);
    }
}

/// Where a session that has not closed its channel stands at its start.
proof fn lemma_session_at<E>(events: Seq<SendEventModel<E>>)
    requires
        is_run(SendModel::start(), events),
        forall|i: int|
            0 <= i < events.len() ==> !(#[trigger] actions(SendModel::start(), events)[i]
                is CloseChannel),
    ensures
        ({
            let m = run(SendModel::<E>::start(), events);
            let n = events.len();
            &&& n == 0 ==> m == SendModel::<E>::start()
            &&& n == 1 ==> m.phase is Wording && m.pending == Seq::<u8>::empty() && m.not_closed
                is None
            &&& n >= 2 ==> (events[1] matches SendEventModel::Worded(text) && {
                let data = encode_utf8(text);
                let chunks = chunks_of(data);
                let sent = n - 2;
                &&& sent < chunks.len() ==> m.phase is Introducing && m.pending == behind_chunks(
                    data,
                    sent + 1,
                )
                &&& sent == chunks.len() ==> m.phase is AwaitingTokens
                &&& sent == chunks.len() + 1 ==> m.phase is Publishing && events.last()
                    == SendEventModel::<E>::Tokens(Some(m.tokens))
                &&& sent <= chunks.len() + 1 ==> m.not_closed is None
            })
        }),
    decreases events.len(),
{
    let start = SendModel::<E>::start();
    if events.len() > 0 {
        let fewer = events.drop_last();
        lemma_one_fewer(start, events);
        let all = actions(start, events);
        assert forall|i: int| 0 <= i < fewer.len() implies !(#[trigger] actions(start, fewer)[i]
            is CloseChannel) by {
            assert(all[i] == actions(start, fewer)[i]);
        }
        lemma_session_at(fewer);
        assert(!(all[all.len() - 1] is CloseChannel));
        assert(forall|i: int| 0 <= i < fewer.len() ==> #[trigger] fewer[i] == events[i]);
        if events.len() >= 2 {
            let data = encode_utf8(events[1]->Worded_0);
            assert(Seq::<u8>::empty() + data =~= data);
            law_parts_are_the_chunks(data, 0);
            law_parts_are_the_chunks(data, events.len() - 2);
        }
    }
}

/// A session takes whatever may come of what it asked for: any words and any bytes
/// of a file that fit into memory, tokens, files, success and failure; and nothing
/// when it is over.
pub proof fn law_a_session_takes_what_it_asked_for<E>(
    events: Seq<SendEventModel<E>>,
    event: SendEventModel<E>,
)
    requires
        is_run(SendModel::start(), events),
    ensures
        ({
            let accepted = run(SendModel::start(), events).accepts(event);
            match (if events.len() == 0 {
                SendActionModel::SendStatus(StatusModel::Connected)
            } else {
                actions(SendModel::start(), events).last()
            }) {
                SendActionModel::Word => accepted == match event {
                    SendEventModel::Worded(text) => encode_utf8(text).len() <= isize::MAX,
                    _ => false,
                },
                SendActionModel::ReceiveTokens => accepted == event is Tokens,
                SendActionModel::ReceiveFile => accepted == event is File,
                SendActionModel::ReceiveData => match event {
                    SendEventModel::Data(Some(bytes)) => CHUNK_SIZE + bytes.len() <= isize::MAX
                        ==> accepted,
                    _ => accepted == event is Data,
                },
                SendActionModel::CloseConnection => accepted == (event is Done || event
                    is NotClosed),
                SendActionModel::Stop(_) => !accepted,
                _ => accepted == (event is Done || event is Failed),
            }
        }),
{
    let start = SendModel::<E>::start();
    if events.len() > 0 {
        let fewer = events.drop_last();
        lemma_one_fewer(start, events);
        if actions(start, events).last() is Word {
            assert(run(start, fewer).phase is Announcing);
            lemma_announced_first(fewer);
        }
    }
}

/// A session announces its channel before anything else.
proof fn lemma_announced_first<E>(events: Seq<SendEventModel<E>>)
    requires
        run(SendModel::<E>::start(), events).phase is Announcing,
    ensures
        run(SendModel::<E>::start(), events) == SendModel::<E>::start(),
{
    if events.len() > 0 {
        let before = run(SendModel::<E>::start(), events.drop_last());
        assert(!(before.next(events.last()).0.phase is Announcing));
    }
}

/// The tokens that were received are those that the files are held against, from
/// then on and unchanged.
pub proof fn law_the_tokens_stay<E>(
    m: SendModel<E>,
    event: SendEventModel<E>,
    tokens: Map<Seq<char>, Seq<char>>,
)
    requires
        m.accepts(event),
    ensures
        m.phase is AwaitingTokens ==> m.next(SendEventModel::Tokens(Some(tokens))).0.tokens == tokens
            && m.next(SendEventModel::Tokens(Some(tokens))).1 == SendActionModel::<E>::Publish(
            tokens.dom(),
        ),
        !(event is Tokens) ==> m.next(event).0.tokens == m.tokens,
{
}

/// The initial message goes through the channel as the chunks of its bytes.
pub proof fn law_the_initial_message_goes_out_in_chunks<E>(
    start: SendModel<E>,
    events: Seq<SendEventModel<E>>,
)
    requires
        start.phase is Wording,
        start.pending.len() == 0,
        is_run(start, events),
        introduces(events),
        run(start, events).phase is AwaitingTokens,
    ensures
        events.len() > 0,
        events[0] matches SendEventModel::Worded(text) && binaries(actions(start, events))
            == chunks_of(encode_utf8(text)),
{
    lemma_introduction_so_far(start, events);
    let sent = binaries(actions(start, events));
    assert(joined(sent) =~= encode_utf8(events[0]->Worded_0));
    law_one_way_to_cut(sent);
}

/// What holds while the initial message is sent.
proof fn lemma_introduction_so_far<E>(start: SendModel<E>, events: Seq<SendEventModel<E>>)
    requires
        start.phase is Wording,
        start.pending.len() == 0,
        is_run(start, events),
        introduces(events),
        events.len() > 0,
    ensures
        events[0] is Worded,
        ({
            let m = run(start, events);
            let sent = binaries(actions(start, events));
            &&& m.phase is Introducing || m.phase is AwaitingTokens
            &&& m.phase is AwaitingTokens ==> m.pending.len() == 0
            &&& joined(sent) + m.pending == encode_utf8(events[0]->Worded_0)
            &&& is_cut(sent)
            &&& m.pending.len() > 0 ==> forall|i: int|
                0 <= i < sent.len() ==> #[trigger] sent[i].len() == CHUNK_SIZE
        }),
    decreases events.len(),
{
    let fewer = events.drop_last();
    lemma_one_fewer(start, events);
    assert(events[events.len() - 1] is Worded || events[events.len() - 1] is Done);
    assert(introduces(fewer)) by {
        assert forall|i: int| 0 <= i < fewer.len() implies #[trigger] fewer[i] is Worded
            || fewer[i] is Done by {
            assert(events[i] is Worded || events[i] is Done);
        }
    }
    let before = run(start, fewer);
    let after = run(start, events);
    let sent_before = binaries(actions(start, fewer));
    let sent = binaries(actions(start, events));
    if fewer.len() == 0 {
        assert(actions(start, fewer) =~= Seq::empty());
        assert(sent_before =~= Seq::empty());
        assert(joined(sent_before) =~= Seq::<u8>::empty());
        assert(before.pending + encode_utf8(events[0]->Worded_0) =~= encode_utf8(
            events[0]->Worded_0,
        ));
    } else {
        lemma_introduction_so_far(start, fewer);
    }
    assert(actions(start, events).drop_last() =~= actions(start, fewer));
    match before.next(events.last()).1 {
        SendActionModel::SendBinary(bytes) => {
            assert(sent == sent_before.push(bytes));
            lemma_joined_one_more(sent_before, bytes);
        },
        _ => {
            assert(sent == sent_before);
        },
    }
    assert(joined(sent) + after.pending =~= encode_utf8(events[0]->Worded_0));
}

/// The status that reports an error.
pub open spec fn report<E>(failure: FailureModel) -> SendActionModel<E> {
    match failure {
        FailureModel::Try(e) => SendActionModel::TryStatus(StatusModel::Error(e)),
        FailureModel::Send(e) => SendActionModel::SendStatus(StatusModel::Error(e)),
    }
}

/// What is handed on of closing the connection.
pub open spec fn close_result<E>(event: SendEventModel<E>) -> Result<(), E> {
    match event {
        SendEventModel::NotClosed(e) => Err(e),
        _ => Ok(()),
    }
}

/// An error ends the session: whatever comes of each step, the channel is
/// closed, then the connection, then the error is reported and the session said
/// to have finished. Then it is over, and what came of closing the connection is
/// handed on.
pub proof fn law_an_error_ends_the_session<E>(
    m: SendModel<E>,
    e1: SendEventModel<E>,
    e2: SendEventModel<E>,
    e3: SendEventModel<E>,
    e4: SendEventModel<E>,
    e5: SendEventModel<E>,
    failure: FailureModel,
)
    requires
        m.not_closed is None,
        m.next(e1).0.phase == SendPhaseModel::Closing(Some(failure)),
    ensures
        ({
            let (closing, first) = m.next(e1);
            let (disconnecting, second) = closing.next(e2);
            let (failing, third) = disconnecting.next(e3);
            let (finishing, fourth) = failing.next(e4);
            let (over, fifth) = finishing.next(e5);
            &&& first is CloseChannel
            &&& second is CloseConnection
            &&& third == report::<E>(failure)
            &&& fourth == SendActionModel::<E>::SendStatus(StatusModel::Finished)
            &&& fifth == SendActionModel::<E>::Stop(close_result(e3))
            &&& over.phase is Over
        }),
{
}

/// When no more files will come, the channel is closed, then the connection,
/// then the session is said to have finished. Then it is over, and what came of
/// closing the connection is handed on.
pub proof fn law_the_channel_is_closed_at_the_end<E>(
    m: SendModel<E>,
    e2: SendEventModel<E>,
    e3: SendEventModel<E>,
    e4: SendEventModel<E>,
)
    requires
        m.phase is AwaitingFile,
        m.not_closed is None,
    ensures
        ({
            let (closing, first) = m.next(SendEventModel::File(None));
            let (disconnecting, second) = closing.next(e2);
            let (finishing, third) = disconnecting.next(e3);
            let (over, fourth) = finishing.next(e4);
            &&& first is CloseChannel
            &&& second is CloseConnection
            &&& third == SendActionModel::<E>::SendStatus(StatusModel::Finished)
            &&& fourth == SendActionModel::<E>::Stop(close_result(e3))
            &&& over.phase is Over
        }),
{
}

/// The action says that the session failed.
pub open spec fn says_error<E>(action: SendActionModel<E>) -> bool {
    match action {
        SendActionModel::SendStatus(StatusModel::Error(_)) => true,
        SendActionModel::TryStatus(StatusModel::Error(_)) => true,
        _ => false,
    }
}

/// The action says that the session has finished.
pub open spec fn says_finished<E>(action: SendActionModel<E>) -> bool {
    match action {
        SendActionModel::SendStatus(StatusModel::Finished) => true,
        SendActionModel::TryStatus(StatusModel::Finished) => true,
        _ => false,
    }
}

/// That a session failed or has finished is said when the channel and the
/// connection are closed and not before: an error right after the closing of the
/// two, and the finish after that.
pub proof fn law_the_connection_is_closed_before_the_end_is_told<E>(
    start: SendModel<E>,
    events: Seq<SendEventModel<E>>,
    i: int,
)
    requires
        start.phase is Announcing,
        0 <= i < events.len(),
    ensures
        ({
            let all = actions(start, events);
            &&& says_error(all[i]) ==> just_closed(all, i)
            &&& says_finished(all[i]) ==> just_closed(all, i) || (i >= 1 && says_error(all[i - 1])
                && just_closed(all, i - 1))
        }),
{
    lemma_one_step(start, events, i);
    if i >= 1 {
        lemma_one_step(start, events, i - 1);
        if i >= 2 {
            lemma_one_step(start, events, i - 2);
            if i >= 3 {
                lemma_one_step(start, events, i - 3);
            }
        }
    }
}

/// The two actions before action `i` were to close the channel and then the
/// connection.
pub open spec fn just_closed<E>(actions: Seq<SendActionModel<E>>, i: int) -> bool {
    i >= 2 && actions[i - 2] is CloseChannel && actions[i - 1] is CloseConnection
}

/// The step that an event of a run takes.
proof fn lemma_one_step<E>(start: SendModel<E>, events: Seq<SendEventModel<E>>, i: int)
    requires
        0 <= i < events.len(),
    ensures
        run(start, events.take(i + 1)) == run(start, events.take(i)).next(events[i]).0,
        actions(start, events)[i] == run(start, events.take(i)).next(events[i]).1,
        i == 0 ==> run(start, events.take(i)) == start,
{
    assert(events.take(i + 1).drop_last() =~= events.take(i));
}

/// The action sends something through the channel.
pub open spec fn sends<E>(action: SendActionModel<E>) -> bool {
    action is SendBinary || action is SendHeader
}

/// The channel and the connection are closed once at most, and nothing is sent
/// after that; the session is said to have finished once at most, and after that
/// there is no status and nothing else to do.
pub proof fn law_a_session_ends_once<E>(
    start: SendModel<E>,
    events: Seq<SendEventModel<E>>,
    i: int,
    j: int,
)
    requires
        0 <= i < j < events.len(),
    ensures
        ({
            let all = actions(start, events);
            &&& all[i] is CloseChannel ==> !(all[j] is CloseChannel) && !sends(all[j])
            &&& all[i] is CloseConnection ==> !(all[j] is CloseConnection) && !(all[j]
                is CloseChannel) && !sends(all[j])
            &&& says_error(all[i]) ==> !(all[j] is CloseConnection) && !says_error(all[j])
            &&& says_finished(all[i]) ==> all[j] is Stop
        }),
{
    lemma_one_step(start, events, i);
    lemma_one_step(start, events, j);
    assert(events.take(j).take(i + 1) =~= events.take(i + 1));
    law_a_session_never_goes_back(start, events.take(j), i + 1);
}

/// A session that is over did end: it closed the channel, then the connection,
/// and then said that it had finished.
pub proof fn law_a_session_that_is_over_has_ended<E>(
    start: SendModel<E>,
    events: Seq<SendEventModel<E>>,
)
    requires
        start.phase is Announcing,
        is_run(start, events),
        run(start, events).phase is Over,
    ensures
        ({
            let all = actions(start, events);
            exists|i: int, j: int, k: int|
                0 <= i < j < k < all.len() && #[trigger] all[i] is CloseChannel
                    && #[trigger] all[j] is CloseConnection && #[trigger] says_finished(all[k])
        }),
{
    let n = events.len() as int;
    let all = actions(start, events);
    lemma_phases_follow(start, events, n);
    lemma_phases_follow(start, events, n - 1);
    assert(events.take(n) =~= events);
    let k = n - 2;
    assert(says_finished(all[k]));
    law_the_connection_is_closed_before_the_end_is_told(start, events, k);
    let j = if just_closed(all, k) {
        k - 1
    } else {
        k - 2
    };
    assert(all[j - 1] is CloseChannel && all[j] is CloseConnection);
}

/// The error that closing the connection ended in.
pub open spec fn close_failure<E>(events: Seq<SendEventModel<E>>) -> Option<E>
    decreases events.len(),
{
    if events.len() == 0 {
        None
    } else {
        match events.last() {
            SendEventModel::NotClosed(e) => Some(e),
            _ => close_failure(events.drop_last()),
        }
    }
}

/// A connection that could not be closed is no secret: the error is what the
/// session hands on when it is over, and where there was none it hands on none.
pub proof fn law_a_failed_close_is_handed_on<E>(
    start: SendModel<E>,
    events: Seq<SendEventModel<E>>,
    result: Result<(), E>,
)
    requires
        start.phase is Announcing,
        start.not_closed is None,
        is_run(start, events),
        events.len() > 0,
        actions(start, events).last() == SendActionModel::Stop(result),
    ensures
        result == match close_failure(events) {
            Some(e) => Err(e),
            None => Ok(()),
        },
{
    lemma_one_fewer(start, events);
    lemma_close_failure_is_kept(start, events.drop_last());
}

/// The error is kept until the session is over.
proof fn lemma_close_failure_is_kept<E>(start: SendModel<E>, events: Seq<SendEventModel<E>>)
    requires
        start.not_closed is None,
        is_run(start, events),
        !(run(start, events).phase is Over),
    ensures
        run(start, events).not_closed == close_failure(events),
    decreases events.len(),
{
    if events.len() > 0 {
        lemma_one_fewer(start, events);
        lemma_close_failure_is_kept(start, events.drop_last());
    }
}

/// What a session that is over, or is about to be, has last done.
proof fn lemma_phases_follow<E>(
    start: SendModel<E>,
    events: Seq<SendEventModel<E>>,
    n: int,
)
    requires
        start.phase is Announcing,
        is_run(start, events),
        0 <= n <= events.len(),
    ensures
        run(start, events.take(n)).phase is Over ==> n >= 1 && run(
            start,
            events.take(n - 1),
        ).phase is Finishing,
        run(start, events.take(n)).phase is Finishing ==> n >= 1 && says_finished(
            actions(start, events)[n - 1],
        ),
{
    if n == 0 {
        assert(run(start, events.take(0)) == start);
    } else {
        lemma_one_step(start, events, n - 1);
        assert(run(start, events.take(n - 1)).accepts(events[n - 1]));
    }
}

/// That the channel is open is said once, at the very start: no event leads to
/// it.
pub proof fn law_connected_is_said_once<E>(m: SendModel<E>, event: SendEventModel<E>)
    ensures
        m.next(event).1 != SendActionModel::<E>::SendStatus(StatusModel::Connected),
        m.next(event).1 != SendActionModel::<E>::TryStatus(StatusModel::Connected),
{
}

/// A file that is not sent does not end the session: the next file is waited
/// for.
pub proof fn law_a_file_error_does_not_end_the_session<E>(
    m: SendModel<E>,
    e1: SendEventModel<E>,
    e2: SendEventModel<E>,
)
    requires
        m.next(e1).1 is ReportFile,
    ensures
        m.next(e1).0.next(e2).1 is ReceiveFile,
        m.next(e1).0.next(e2).0.phase is AwaitingFile,
        m.next(e1).0.next(e2).0.tokens == m.tokens,
{
}

/// How far a session has come.
pub open spec fn stage(phase: SendPhaseModel) -> int {
    match phase {
        SendPhaseModel::Announcing => 0,
        SendPhaseModel::Wording => 1,
        SendPhaseModel::Introducing => 2,
        SendPhaseModel::AwaitingTokens => 3,
        SendPhaseModel::Publishing => 4,
        SendPhaseModel::AwaitingFile => 5,
        SendPhaseModel::Heading(_) => 5,
        SendPhaseModel::Reading(_) => 5,
        SendPhaseModel::Sending(_) => 5,
        SendPhaseModel::Ending(_) => 5,
        SendPhaseModel::Reporting => 5,
        SendPhaseModel::Closing(_) => 6,
        SendPhaseModel::Disconnecting(_) => 7,
        SendPhaseModel::Failing => 8,
        SendPhaseModel::Finishing => 9,
        SendPhaseModel::Over => 10,
    }
}

/// A session never goes back: the channel is announced, then the initial
/// message sent, then the tokens received, then the files sent, and then it
/// ends.
pub proof fn law_a_session_never_goes_back<E>(
    start: SendModel<E>,
    events: Seq<SendEventModel<E>>,
    n: int,
)
    requires
        0 <= n <= events.len(),
    ensures
        stage(run(start, events.take(n)).phase) <= stage(run(start, events).phase),
    decreases events.len(),
{
    if n == events.len() {
        assert(events.take(n) =~= events);
    } else {
        let fewer = events.drop_last();
        assert(fewer.take(n) =~= events.take(n));
        law_a_session_never_goes_back(start, fewer, n);
    }
}

/// Only selected files are sent: the header of a file carries the token that
/// was received for it, in a message that came before.
pub proof fn law_only_selected_files_are_sent<E>(
    start: SendModel<E>,
    events: Seq<SendEventModel<E>>,
    i: int,
    id: Seq<char>,
    token: Seq<char>,
)
    requires
        start.tokens == Map::<Seq<char>, Seq<char>>::empty(),
        0 <= i < events.len(),
        actions(start, events)[i] == SendActionModel::<E>::SendHeader(id, token),
    ensures
        exists|j: int|
            0 <= j < i && (#[trigger] events[j] matches SendEventModel::Tokens(Some(tokens))
                && tokens.contains_key(id) && tokens[id] == token),
{
    let before = events.take(i);
    lemma_tokens_were_received(start, before);
    let tokens = run(start, before).tokens;
    let j = choose|j: int|
        0 <= j < before.len() && #[trigger] before[j] == SendEventModel::<E>::Tokens(Some(tokens));
    assert(events[j] == SendEventModel::<E>::Tokens(Some(tokens)));
}

/// The tokens of a session are those that it received last, or none.
proof fn lemma_tokens_were_received<E>(start: SendModel<E>, events: Seq<SendEventModel<E>>)
    requires
        start.tokens == Map::<Seq<char>, Seq<char>>::empty(),
    ensures
        run(start, events).tokens == start.tokens || exists|j: int|
            0 <= j < events.len() && #[trigger] events[j] == SendEventModel::<E>::Tokens(
                Some(run(start, events).tokens),
            ),
    decreases events.len(),
{
    if events.len() > 0 {
        let fewer = events.drop_last();
        lemma_tokens_were_received(start, fewer);
        let tokens = run(start, fewer).tokens;
        if run(start, events).tokens == tokens {
            if tokens != start.tokens {
                let j = choose|j: int|
                    0 <= j < fewer.len() && #[trigger] fewer[j] == SendEventModel::<E>::Tokens(
                        Some(tokens),
                    );
                assert(events[j] == SendEventModel::<E>::Tokens(Some(tokens)));
            }
        } else {
            assert(events[events.len() - 1] == SendEventModel::<E>::Tokens(
                Some(run(start, events).tokens),
            ));
        }
    }
}

/// A selected file starts with its header, and nothing of what was read before
/// goes behind it.
pub proof fn law_a_file_starts_with_its_header<E>(m: SendModel<E>, id: Seq<char>)
    requires
        m.phase is AwaitingFile,
        m.tokens.contains_key(id),
    ensures
        ({
            let (heading, header) = m.next(SendEventModel::File(Some(id)));
            let (reading, first) = heading.next(SendEventModel::Done);
            &&& header == SendActionModel::<E>::SendHeader(id, m.tokens[id])
            &&& first is ReceiveData
            &&& reading.phase == SendPhaseModel::Reading(id)
            &&& reading.pending == Seq::<u8>::empty()
        }),
{
}

/// The file that was received last.
pub open spec fn last_file<E>(events: Seq<SendEventModel<E>>) -> Option<Seq<char>>
    decreases events.len(),
{
    if events.len() == 0 {
        None
    } else {
        match events.last() {
            SendEventModel::File(file) => file,
            _ => last_file(events.drop_last()),
        }
    }
}

/// The file that a session is busy with.
pub open spec fn busy_with(phase: SendPhaseModel) -> Option<Seq<char>> {
    match phase {
        SendPhaseModel::Heading(id) => Some(id),
        SendPhaseModel::Reading(id) => Some(id),
        SendPhaseModel::Sending(id) => Some(id),
        SendPhaseModel::Ending(id) => Some(id),
        _ => None,
    }
}

/// A header and an error report name the file that was received last.
pub proof fn law_what_is_said_of_a_file_names_it<E>(
    start: SendModel<E>,
    events: Seq<SendEventModel<E>>,
    id: Seq<char>,
)
    requires
        busy_with(start.phase) is None,
        is_run(start, events),
        events.len() > 0,
        ({
            let action = run(start, events.drop_last()).next(events.last()).1;
            ||| action matches SendActionModel::SendHeader(named, _) && named == id
            ||| action matches SendActionModel::ReportFile(named, _) && named == id
        }),
    ensures
        last_file(events) == Some(id),
{
    let fewer = events.drop_last();
    lemma_one_fewer(start, events);
    lemma_busy_with_the_last_file(start, fewer);
}

/// A session is busy with the file that it received last.
proof fn lemma_busy_with_the_last_file<E>(start: SendModel<E>, events: Seq<SendEventModel<E>>)
    requires
        busy_with(start.phase) is None,
        is_run(start, events),
    ensures
        busy_with(run(start, events).phase) matches Some(id) ==> last_file(events) == Some(id),
    decreases events.len(),
{
    if events.len() > 0 {
        let fewer = events.drop_last();
        lemma_one_fewer(start, events);
        lemma_busy_with_the_last_file(start, fewer);
    }
}

} // verus!
