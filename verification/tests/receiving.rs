use webrtc_transfer::assembly::Assembly;
use webrtc_transfer::chunks::CHUNK_SIZE;
use webrtc_transfer::intake::{read_message, Intake, OfferedFile, Reading, Verdict};
use webrtc_transfer::messages::RTCStatus;
use webrtc_transfer::receiver::{ReceiveAction, ReceiveEvent, ReceiveTask, ServiceEnd};
use webrtc_transfer::reply::{ReplyAction, ReplyEvent, ReplySession};
use webrtc_transfer::tokens::pair_tokens;

fn file(id: &str, size: u64) -> OfferedFile {
    OfferedFile {
        id: id.to_string(),
        size,
    }
}

fn selection() -> ReplyEvent<String> {
    let ids = vec!["a".to_string()];
    let tokens = vec!["t".to_string()];
    ReplyEvent::Selected(Some(pair_tokens(&ids, &tokens)))
}

fn step(session: &mut ReplySession, event: ReplyEvent<String>) -> ReplyAction<String> {
    assert!(session.accepts(&event));
    session.step(event)
}

#[test]
fn a_binary_message_is_skipped() {
    assert!(matches!(read_message(false, vec![1, 2]), Reading::Skipped));
}

#[test]
fn a_text_is_read() {
    assert!(matches!(read_message(true, b"hi".to_vec()), Reading::Text(text) if text == "hi"));
    assert!(matches!(read_message(true, vec![]), Reading::Text(text) if text.is_empty()));
}

#[test]
fn a_text_that_is_not_utf8_is_unreadable() {
    assert!(matches!(read_message(true, vec![0xc3, 0x28]), Reading::Unreadable(_)));
}

#[test]
fn offered_files_are_delivered_once() {
    let mut intake = Intake::new();
    assert!(matches!(intake.accept_initial(None), Verdict::Break));
    assert!(intake.size(&"a".to_string()).is_none());
    let first = vec![file("a", 1), file("b", 2), file("a", 3)];
    assert!(matches!(intake.accept_initial(Some(&first)), Verdict::Deliver));
    assert_eq!(intake.size(&"a".to_string()), Some(3));
    assert_eq!(intake.size(&"b".to_string()), Some(2));
    let second = vec![file("b", 7)];
    assert!(matches!(intake.accept_initial(Some(&second)), Verdict::Break));
    assert_eq!(intake.size(&"a".to_string()), Some(3));
    assert_eq!(intake.size(&"b".to_string()), Some(7));
}

#[test]
fn an_empty_offer_is_delivered() {
    let mut intake = Intake::new();
    assert!(matches!(intake.accept_initial(Some(&vec![])), Verdict::Deliver));
    assert!(matches!(intake.accept_initial(Some(&vec![])), Verdict::Break));
}

#[test]
fn a_task_without_a_channel_stops() {
    let (mut task, action) = ReceiveTask::<String>::start();
    assert!(matches!(action, ReceiveAction::AwaitChannel));
    assert!(!task.accepts(&ReceiveEvent::Done));
    assert!(matches!(task.step(ReceiveEvent::NeverOpened), ReceiveAction::Stop(Ok(()))));
    assert!(!task.accepts(&ReceiveEvent::Opened));
}

#[test]
fn a_task_says_how_the_service_ended() {
    for end in [ServiceEnd::Replied, ServiceEnd::Broken, ServiceEnd::Lost] {
        let (mut task, _) = ReceiveTask::<String>::start();
        let action = task.step(ReceiveEvent::Opened);
        assert!(matches!(action, ReceiveAction::TryStatus(RTCStatus::Connected)));
        assert!(task.accepts(&ReceiveEvent::Done));
        assert!(matches!(task.step(ReceiveEvent::Done), ReceiveAction::Serve));
        match end {
            ServiceEnd::Replied => {
                let action = task.step(ReceiveEvent::Served(end));
                assert!(matches!(action, ReceiveAction::Stop(Ok(()))));
            }
            ServiceEnd::Broken => {
                let action = task.step(ReceiveEvent::Served(end));
                assert!(matches!(action, ReceiveAction::CloseConnection));
                let action = task.step(ReceiveEvent::Done);
                assert!(
                    matches!(action, ReceiveAction::SendStatus(RTCStatus::Error(e)) if e == "Unknown Error")
                );
                assert!(matches!(task.step(ReceiveEvent::Done), ReceiveAction::Stop(Ok(()))));
            }
            ServiceEnd::Lost => {
                let action = task.step(ReceiveEvent::Served(end));
                assert!(matches!(action, ReceiveAction::CloseConnection));
                assert!(task.accepts(&ReceiveEvent::Done));
                let action = task.step(ReceiveEvent::Done);
                assert!(matches!(action, ReceiveAction::SendStatus(RTCStatus::Finished)));
                assert!(matches!(task.step(ReceiveEvent::Done), ReceiveAction::Stop(Ok(()))));
            }
        }
    }
}

#[test]
fn a_connection_that_could_not_be_closed_is_handed_on() {
    for end in [ServiceEnd::Broken, ServiceEnd::Lost] {
        let (mut task, _) = ReceiveTask::<String>::start();
        task.step(ReceiveEvent::Opened);
        task.step(ReceiveEvent::Done);
        task.step(ReceiveEvent::Served(end));
        let event = ReceiveEvent::NotClosed("stuck".to_string());
        assert!(task.accepts(&event));
        assert!(matches!(task.step(event), ReceiveAction::SendStatus(_)));
        let action = task.step(ReceiveEvent::Done);
        assert!(matches!(action, ReceiveAction::Stop(Err(e)) if e == "stuck"));
    }
}

#[test]
fn a_reply_is_put_together_again() {
    for length in [0, 1, CHUNK_SIZE, CHUNK_SIZE * 2 + 9] {
        let reply = "r".repeat(length);
        let (mut session, action) = ReplySession::start::<String>();
        assert!(matches!(action, ReplyAction::AwaitSelection));
        let action = step(&mut session, selection());
        match action {
            ReplyAction::Word(tokens) => assert_eq!(tokens.get(&"a".to_string()).unwrap(), "t"),
            _ => panic!("no tokens to word"),
        }
        let mut assembly = Assembly::new();
        let mut read = None;
        let mut binaries = 0;
        let mut action = step(&mut session, ReplyEvent::Worded(Ok(reply.clone())));
        loop {
            match action {
                ReplyAction::SendBinary(data) => {
                    binaries += 1;
                    assert!(assembly.has_room(&data));
                    assert!(assembly.take_in(false, &data).is_none());
                }
                ReplyAction::SendText(text) => {
                    assert_eq!(text, "");
                    read = assembly.take_in(true, text.as_bytes());
                }
                ReplyAction::Stop { broken, result } => {
                    assert!(!broken);
                    assert_eq!(result, Ok(()));
                    break;
                }
                _ => panic!("not a message"),
            }
            action = step(&mut session, ReplyEvent::Done);
        }
        assert_eq!(binaries, (length + CHUNK_SIZE - 1) / CHUNK_SIZE);
        assert_eq!(read.unwrap().unwrap(), reply);
        assert!(!session.accepts(&ReplyEvent::<String>::Done));
    }
}

#[test]
fn no_selection_breaks_the_transfer_off() {
    let (mut session, _) = ReplySession::start::<String>();
    assert!(!session.accepts(&ReplyEvent::<String>::Done));
    let action = step(&mut session, ReplyEvent::Selected(None));
    assert!(matches!(action, ReplyAction::Stop { broken: true, result: Ok(()) }));
}

#[test]
fn a_reply_hands_its_errors_on() {
    let (mut session, _) = ReplySession::start::<String>();
    step(&mut session, selection());
    let action = step(&mut session, ReplyEvent::Worded(Err("words".to_string())));
    assert!(matches!(action, ReplyAction::Stop { broken: false, result: Err(e) } if e == "words"));

    let (mut session, _) = ReplySession::start::<String>();
    step(&mut session, selection());
    step(&mut session, ReplyEvent::Worded(Ok("{}".to_string())));
    let action = step(&mut session, ReplyEvent::Failed("part".to_string()));
    assert!(matches!(action, ReplyAction::Stop { broken: true, result: Err(e) } if e == "part"));

    let (mut session, _) = ReplySession::start::<String>();
    step(&mut session, selection());
    step(&mut session, ReplyEvent::Worded(Ok("{}".to_string())));
    step(&mut session, ReplyEvent::Done);
    let action = step(&mut session, ReplyEvent::Failed("mark".to_string()));
    assert!(matches!(action, ReplyAction::Stop { broken: false, result: Err(e) } if e == "mark"));
}

#[test]
fn any_text_ends_what_was_assembled() {
    let mut assembly = Assembly::new();
    assert!(assembly.take_in(false, b"ab").is_none());
    assert!(assembly.take_in(false, b"c").is_none());
    assert_eq!(assembly.take_in(true, b"ignored").unwrap().unwrap(), "abc");
    assert_eq!(assembly.take_in(true, b"").unwrap().unwrap(), "");
    assert!(assembly.take_in(false, &[0xff]).is_none());
    assert!(assembly.take_in(true, b"").unwrap().is_err());
}
