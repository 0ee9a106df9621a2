use webrtc_transfer::chunks::CHUNK_SIZE;
use webrtc_transfer::messages::RTCStatus;
use webrtc_transfer::sender;
use webrtc_transfer::tokens::{pair_tokens, FileTokens};

type SendAction = sender::SendAction<String>;
type SendEvent = sender::SendEvent<String>;
type SendSession = sender::SendSession<String>;

fn tokens() -> FileTokens {
    let ids = vec!["a".to_string(), "b".to_string()];
    let tokens = vec!["token a".to_string(), "token b".to_string()];
    pair_tokens(&ids, &tokens)
}

fn step(session: &mut SendSession, event: SendEvent) -> SendAction {
    assert!(session.accepts(&event));
    session.step(event)
}

/// Nothing is left for the session but to say that it has finished; `event` came
/// of its last action.
fn finishes(mut session: SendSession, event: SendEvent) {
    let action = step(&mut session, event);
    assert!(matches!(action, SendAction::SendStatus(RTCStatus::Finished)));
    let action = step(&mut session, SendEvent::Failed("unheard".to_string()));
    assert!(matches!(action, SendAction::Stop(Ok(()))));
    assert!(!session.accepts(&SendEvent::Done));
}

fn ends(mut session: SendSession) {
    let action = step(&mut session, SendEvent::File(None));
    assert!(matches!(action, SendAction::CloseChannel));
    disconnects(&mut session, SendEvent::Failed("not closed".to_string()));
    finishes(session, SendEvent::Done);
}

/// The session goes on from its channel to its connection.
fn disconnects(session: &mut SendSession, event: SendEvent) {
    let action = step(session, event);
    assert!(matches!(action, SendAction::CloseConnection));
    assert!(!session.accepts(&SendEvent::Failed("no".to_string())));
}

/// A session that has announced its channel.
fn introduced_with(message: &str) -> (SendSession, SendAction) {
    let (mut session, action) = SendSession::open();
    assert!(matches!(action, SendAction::SendStatus(RTCStatus::Connected)));
    let action = step(&mut session, SendEvent::Done);
    assert!(matches!(action, SendAction::Word));
    let action = step(&mut session, SendEvent::Worded(message.to_string()));
    (session, action)
}

fn waiting_for_files() -> SendSession {
    let (mut session, action) = introduced_with("");
    assert!(matches!(action, SendAction::ReceiveTokens));
    let action = step(&mut session, SendEvent::Tokens(Some(tokens())));
    match action {
        SendAction::Publish(mut ids) => {
            ids.sort();
            assert_eq!(ids, vec!["a".to_string(), "b".to_string()]);
        }
        _ => panic!("nothing is published"),
    }
    let action = step(&mut session, SendEvent::Done);
    assert!(matches!(action, SendAction::ReceiveFile));
    session
}

fn send_file(session: &mut SendSession, pieces: Vec<Vec<u8>>) -> Vec<Vec<u8>> {
    let mut left = pieces.into_iter();
    let mut sent = Vec::new();
    let mut action = step(session, SendEvent::Done);
    loop {
        let event = match action {
            SendAction::ReceiveData => SendEvent::Data(left.next()),
            SendAction::SendBinary(data) => {
                sent.push(data.to_vec());
                SendEvent::Done
            }
            SendAction::ReceiveFile => return sent,
            _ => panic!("not about the file"),
        };
        action = step(session, event);
    }
}

#[test]
fn the_initial_message_goes_out_in_chunks() {
    let message = "m".repeat(CHUNK_SIZE * 2 + 1);
    let (mut session, mut action) = introduced_with(&message);
    let mut sent = Vec::new();
    while let SendAction::SendBinary(data) = action {
        sent.push(data.to_vec());
        action = step(&mut session, SendEvent::Done);
    }
    assert!(matches!(action, SendAction::ReceiveTokens));
    assert_eq!(sent.len(), 3);
    assert_eq!(sent[0].len(), CHUNK_SIZE);
    assert_eq!(sent[1].len(), CHUNK_SIZE);
    assert_eq!(sent.concat(), message.into_bytes());
}

#[test]
fn a_file_goes_out_in_chunks() {
    let mut session = waiting_for_files();
    let data: Vec<u8> = (0..CHUNK_SIZE * 2 + 5).map(|i| (i % 253) as u8).collect();
    for length in [3000, CHUNK_SIZE, CHUNK_SIZE * 3] {
        let action = step(&mut session, SendEvent::File(Some("b".to_string())));
        match action {
            SendAction::SendHeader(header) => {
                assert_eq!(header.id, "b");
                assert_eq!(header.token, "token b");
            }
            _ => panic!("no header"),
        }
        let pieces = data.chunks(length).map(|piece| piece.to_vec()).collect();
        let sent = send_file(&mut session, pieces);
        let lengths: Vec<usize> = sent.iter().map(|part| part.len()).collect();
        assert_eq!(lengths, vec![CHUNK_SIZE, CHUNK_SIZE, 5]);
        assert_eq!(sent.concat(), data);
    }
    ends(session);
}

#[test]
fn an_empty_file_is_a_header_alone() {
    let mut session = waiting_for_files();
    step(&mut session, SendEvent::File(Some("a".to_string())));
    assert_eq!(send_file(&mut session, vec![]).len(), 0);
    ends(session);
}

#[test]
fn a_file_that_was_not_selected_is_not_sent() {
    let mut session = waiting_for_files();
    match step(&mut session, SendEvent::File(Some("c".to_string()))) {
        SendAction::ReportFile(e) => {
            assert_eq!(e.file_id, "c");
            assert_eq!(e.error, "Failed to get file token");
        }
        _ => panic!("nothing is reported"),
    }
    let action = step(&mut session, SendEvent::Failed("no one listens".to_string()));
    assert!(matches!(action, SendAction::ReceiveFile));
    step(&mut session, SendEvent::File(Some("a".to_string())));
    assert_eq!(send_file(&mut session, vec![vec![1]]), vec![vec![1]]);
}

#[test]
fn a_header_that_fails_gives_the_file_up() {
    let mut session = waiting_for_files();
    step(&mut session, SendEvent::File(Some("a".to_string())));
    match step(&mut session, SendEvent::Failed("gone".to_string())) {
        SendAction::ReportFile(e) => {
            assert_eq!(e.file_id, "a");
            assert_eq!(e.error, "gone");
        }
        _ => panic!("nothing is reported"),
    }
    assert!(matches!(step(&mut session, SendEvent::Done), SendAction::ReceiveFile));
}

#[test]
fn bytes_left_of_a_file_given_up_do_not_go_to_the_next() {
    let mut session = waiting_for_files();
    step(&mut session, SendEvent::File(Some("a".to_string())));
    step(&mut session, SendEvent::Done);
    let action = step(&mut session, SendEvent::Data(Some(vec![1; CHUNK_SIZE + 10])));
    assert!(matches!(action, SendAction::SendBinary(_)));
    let action = step(&mut session, SendEvent::Failed("full".to_string()));
    assert!(matches!(action, SendAction::ReportFile(e) if e.file_id == "a" && e.error == "full"));
    step(&mut session, SendEvent::Done);
    step(&mut session, SendEvent::File(Some("b".to_string())));
    assert_eq!(send_file(&mut session, vec![vec![2, 3]]), vec![vec![2, 3]]);
}

#[test]
fn the_last_bytes_that_fail_give_the_file_up() {
    let mut session = waiting_for_files();
    step(&mut session, SendEvent::File(Some("a".to_string())));
    step(&mut session, SendEvent::Done);
    step(&mut session, SendEvent::Data(Some(vec![1])));
    let action = step(&mut session, SendEvent::Data(None));
    assert!(matches!(action, SendAction::SendBinary(_)));
    let action = step(&mut session, SendEvent::Failed("late".to_string()));
    assert!(matches!(action, SendAction::ReportFile(e) if e.file_id == "a" && e.error == "late"));
}

#[test]
fn errors_end_a_session() {
    let (mut session, _) = SendSession::open();
    let action = step(&mut session, SendEvent::Failed("closed".to_string()));
    assert!(matches!(action, SendAction::CloseChannel));
    disconnects(&mut session, SendEvent::Done);
    let action = step(&mut session, SendEvent::Done);
    assert!(matches!(action, SendAction::TryStatus(RTCStatus::Error(e)) if e == "closed"));
    finishes(session, SendEvent::Done);

    let (mut session, action) = introduced_with("m");
    assert!(matches!(action, SendAction::SendBinary(_)));
    let action = step(&mut session, SendEvent::Failed("no".to_string()));
    assert!(matches!(action, SendAction::CloseChannel));
    disconnects(&mut session, SendEvent::Failed("not closed".to_string()));
    let action = step(&mut session, SendEvent::Done);
    assert!(
        matches!(action, SendAction::TryStatus(RTCStatus::Error(e)) if e == "Failed to send initial message: no")
    );
    finishes(session, SendEvent::Failed("full".to_string()));

    let (mut session, _) = introduced_with("");
    let action = step(&mut session, SendEvent::Tokens(None));
    assert!(matches!(action, SendAction::CloseChannel));
    disconnects(&mut session, SendEvent::Done);
    let action = step(&mut session, SendEvent::Done);
    assert!(
        matches!(action, SendAction::SendStatus(RTCStatus::Error(e)) if e == "Failed to receive file tokens")
    );
    finishes(session, SendEvent::Done);

    let (mut session, _) = introduced_with("");
    step(&mut session, SendEvent::Tokens(Some(tokens())));
    let action = step(&mut session, SendEvent::Failed("unheard".to_string()));
    assert!(matches!(action, SendAction::CloseChannel));
    disconnects(&mut session, SendEvent::Done);
    let action = step(&mut session, SendEvent::Done);
    assert!(matches!(action, SendAction::SendStatus(RTCStatus::Error(e)) if e == "unheard"));
    finishes(session, SendEvent::Done);
}

#[test]
fn a_connection_that_was_not_closed_is_handed_on() {
    let mut session = waiting_for_files();
    step(&mut session, SendEvent::File(None));
    disconnects(&mut session, SendEvent::Done);
    let action = step(&mut session, SendEvent::NotClosed("stuck".to_string()));
    assert!(matches!(action, SendAction::SendStatus(RTCStatus::Finished)));
    let action = step(&mut session, SendEvent::Done);
    assert!(matches!(action, SendAction::Stop(Err(e)) if e == "stuck"));

    let (mut session, _) = SendSession::open();
    step(&mut session, SendEvent::Failed("closed".to_string()));
    disconnects(&mut session, SendEvent::Done);
    let action = step(&mut session, SendEvent::NotClosed("stuck".to_string()));
    assert!(matches!(action, SendAction::TryStatus(RTCStatus::Error(e)) if e == "closed"));
    let action = step(&mut session, SendEvent::Done);
    assert!(matches!(action, SendAction::SendStatus(RTCStatus::Finished)));
    let action = step(&mut session, SendEvent::Done);
    assert!(matches!(action, SendAction::Stop(Err(e)) if e == "stuck"));
}

#[test]
fn a_session_waits_for_one_thing_at_a_time() {
    let (mut session, _) = SendSession::open();
    assert!(!session.accepts(&SendEvent::Tokens(None)));
    assert!(!session.accepts(&SendEvent::File(None)));
    step(&mut session, SendEvent::Done);
    assert!(!session.accepts(&SendEvent::Done));
    step(&mut session, SendEvent::Worded(String::new()));
    assert!(!session.accepts(&SendEvent::Done));
    assert!(session.accepts(&SendEvent::Tokens(None)));
    let session = waiting_for_files();
    assert!(!session.accepts(&SendEvent::Data(None)));
    assert!(session.accepts(&SendEvent::File(None)));
}
