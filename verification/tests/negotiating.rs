use webrtc_transfer::messages::RTCStatus;
use webrtc_transfer::negotiation::{
    accept_offer, send_offer, Negotiation, NegotiationAction, NegotiationError,
    NegotiationEvent,
};
use webrtc_transfer::peer::{
    ends_transfer, file_channel_options, ice_server_url, is_file_channel, PeerState, CHANNEL_LABEL,
};
use webrtc_transfer::sdp::{text_of_compressed, SdpError};

type Event = NegotiationEvent<String>;
type Action = NegotiationAction<String>;

fn step(side: &mut Negotiation<String>, event: Event) -> Action {
    assert!(side.accepts(&event));
    side.step(event)
}

fn done(side: &mut Negotiation<String>) -> Action {
    step(side, NegotiationEvent::Done)
}

fn failed(side: &mut Negotiation<String>, error: &str) -> Action {
    step(side, NegotiationEvent::Failed(error.to_string()))
}

fn met(action: Action, error: &str) -> bool {
    matches!(action, NegotiationAction::Return(Err(NegotiationError::Met(e))) if e == error)
}

/// An offering side up to where it reads its own description.
fn offering() -> Negotiation<String> {
    let (mut side, action) = send_offer();
    assert!(matches!(action, NegotiationAction::CreatePeer));
    assert!(matches!(done(&mut side), NegotiationAction::CreateChannel));
    assert!(matches!(done(&mut side), NegotiationAction::Describe));
    assert!(matches!(done(&mut side), NegotiationAction::SetLocal));
    assert!(matches!(done(&mut side), NegotiationAction::ReadLocal));
    side
}

fn sent(action: Action) -> (String, String) {
    match action {
        NegotiationAction::Send { session_id, text } => (session_id, text),
        _ => panic!("nothing is sent"),
    }
}

#[test]
fn the_two_sides_agree() {
    let mut offer = offering();
    let local = NegotiationEvent::Local(Some("offered sdp".to_string()));
    let (session_id, text) = sent(step(&mut offer, local));
    assert_eq!(session_id.len(), 36);
    assert!(
        matches!(done(&mut offer), NegotiationAction::AwaitAnswer(id) if id == session_id)
    );

    let (mut answer, action) = accept_offer(session_id.clone(), text);
    assert!(matches!(action, NegotiationAction::CreatePeer));
    assert!(
        matches!(done(&mut answer), NegotiationAction::SetRemote(sdp) if sdp == "offered sdp")
    );
    assert!(matches!(done(&mut answer), NegotiationAction::Describe));
    assert!(matches!(done(&mut answer), NegotiationAction::SetLocal));
    assert!(matches!(done(&mut answer), NegotiationAction::ReadLocal));
    let local = NegotiationEvent::Local(Some("answered sdp".to_string()));
    let (same_id, text) = sent(step(&mut answer, local));
    assert_eq!(same_id, session_id);
    assert!(matches!(
        done(&mut answer),
        NegotiationAction::SendStatus(RTCStatus::SdpExchanged)
    ));
    assert!(matches!(done(&mut answer), NegotiationAction::AwaitEnd));
    assert!(matches!(done(&mut answer), NegotiationAction::ClosePeer));
    assert!(matches!(done(&mut answer), NegotiationAction::Return(Ok(()))));
    assert!(!answer.accepts(&NegotiationEvent::Done));

    assert!(matches!(
        step(&mut offer, NegotiationEvent::Answer(text)),
        NegotiationAction::SendStatus(RTCStatus::SdpExchanged)
    ));
    assert!(
        matches!(done(&mut offer), NegotiationAction::SetRemote(sdp) if sdp == "answered sdp")
    );
    assert!(matches!(done(&mut offer), NegotiationAction::AwaitEnd));
    assert!(matches!(done(&mut offer), NegotiationAction::ClosePeer));
    assert!(matches!(done(&mut offer), NegotiationAction::Return(Ok(()))));
    assert!(!offer.accepts(&NegotiationEvent::Done));
}

#[test]
fn a_step_that_fails_returns_its_error() {
    for steps in 0..4 {
        let (mut side, _) = send_offer();
        for _ in 0..steps {
            done(&mut side);
        }
        assert!(met(failed(&mut side, "broken"), "broken"));
        assert!(!side.accepts(&NegotiationEvent::Done));
    }
    let mut side = offering();
    step(&mut side, NegotiationEvent::Local(Some("x".to_string())));
    assert!(met(failed(&mut side, "unsent"), "unsent"));

    let mut side = offering();
    step(&mut side, NegotiationEvent::Local(Some("x".to_string())));
    done(&mut side);
    assert!(met(failed(&mut side, "no answer"), "no answer"));
}

#[test]
fn a_lost_status_closes_the_connection() {
    for closing_fails in [false, true] {
        let mut side = offering();
        step(&mut side, NegotiationEvent::Local(Some("x".to_string())));
        done(&mut side);
        step(&mut side, NegotiationEvent::Answer("whatever".to_string()));
        assert!(matches!(failed(&mut side, "unheard"), NegotiationAction::ClosePeer));
        if closing_fails {
            assert!(met(failed(&mut side, "stuck"), "stuck"));
        } else {
            assert!(met(done(&mut side), "unheard"));
        }
    }
}

#[test]
fn each_side_has_its_words_for_no_description() {
    let mut side = offering();
    let action = step(&mut side, NegotiationEvent::Local(None));
    assert!(matches!(
        action,
        NegotiationAction::Return(Err(NegotiationError::NoLocalDescription(text)))
            if text == "Could not generate local_description"
    ));

    let offer = "jwKAaGVsbG8KAw".to_string();
    let (mut side, _) = accept_offer("s".to_string(), offer);
    assert!(matches!(done(&mut side), NegotiationAction::SetRemote(sdp) if sdp == "hello\n"));
    for _ in 0..3 {
        done(&mut side);
    }
    let action = step(&mut side, NegotiationEvent::Local(None));
    assert!(matches!(
        action,
        NegotiationAction::Return(Err(NegotiationError::NoLocalDescription(text)))
            if text == "generate local_description failed!"
    ));
}

#[test]
fn an_offer_that_cannot_be_read_ends_the_negotiation() {
    let (mut side, _) = accept_offer("s".to_string(), "***".to_string());
    assert!(matches!(
        done(&mut side),
        NegotiationAction::Return(Err(NegotiationError::Sdp(SdpError::Base64(_))))
    ));

    let bytes = [0x8f, 0x02, 0x80, 0xff, 0x65, 0x6c, 0x6c, 0x6f, 0x0a, 0x03];
    let (mut side, _) = accept_offer("s".to_string(), text_of_compressed(&bytes));
    assert!(matches!(
        done(&mut side),
        NegotiationAction::Return(Err(NegotiationError::Sdp(SdpError::Utf8(_))))
    ));

    let bytes = [0x8f, 0x02, 0x80, 0x68];
    let (mut side, _) = accept_offer("s".to_string(), text_of_compressed(&bytes));
    assert!(matches!(done(&mut side), NegotiationAction::Abort));
}

#[test]
fn an_answer_that_cannot_be_read_ends_the_negotiation() {
    let mut side = offering();
    step(&mut side, NegotiationEvent::Local(Some("x".to_string())));
    done(&mut side);
    step(&mut side, NegotiationEvent::Answer("A".to_string()));
    assert!(matches!(
        done(&mut side),
        NegotiationAction::Return(Err(NegotiationError::Sdp(SdpError::Base64(_))))
    ));
}

#[test]
fn a_connection_that_was_not_closed_is_an_error() {
    let mut side = offering();
    step(&mut side, NegotiationEvent::Local(Some("x".to_string())));
    done(&mut side);
    step(&mut side, NegotiationEvent::Answer("jwKAaGVsbG8KAw".to_string()));
    done(&mut side);
    assert!(matches!(done(&mut side), NegotiationAction::AwaitEnd));
    assert!(met(failed(&mut side, "not closed"), "not closed"));

    let (mut side, _) = accept_offer("s".to_string(), "jwKAaGVsbG8KAw".to_string());
    for _ in 0..4 {
        done(&mut side);
    }
    step(&mut side, NegotiationEvent::Local(Some("x".to_string())));
    done(&mut side);
    assert!(matches!(done(&mut side), NegotiationAction::AwaitEnd));
    assert!(met(failed(&mut side, "panicked"), "panicked"));

    let (mut side, _) = accept_offer("s".to_string(), "jwKAaGVsbG8KAw".to_string());
    for _ in 0..4 {
        done(&mut side);
    }
    step(&mut side, NegotiationEvent::Local(Some("x".to_string())));
    done(&mut side);
    done(&mut side);
    assert!(matches!(done(&mut side), NegotiationAction::ClosePeer));
    assert!(met(failed(&mut side, "stuck"), "stuck"));
}

#[test]
fn the_file_channel_is_known_by_its_label() {
    assert_eq!(CHANNEL_LABEL, "data");
    assert!(is_file_channel("data"));
    assert!(!is_file_channel("Data"));
    assert!(!is_file_channel(""));
}

#[test]
fn the_file_channel_is_ordered() {
    let options = file_channel_options();
    assert_eq!(options.ordered, Some(true));
    assert_eq!(options.max_packet_life_time, None);
    assert_eq!(options.max_retransmits, None);
    assert_eq!(options.protocol, None);
    assert_eq!(options.negotiated, None);
}

#[test]
fn addresses_come_from_the_stun_server() {
    assert_eq!(ice_server_url(), "stun:stun.l.google.com:19302");
}

#[test]
fn a_transfer_is_over_when_the_connection_has_failed() {
    assert!(ends_transfer(&PeerState::Failed));
    for state in [
        PeerState::Unspecified,
        PeerState::New,
        PeerState::Connecting,
        PeerState::Connected,
        PeerState::Disconnected,
        PeerState::Closed,
    ] {
        assert!(!ends_transfer(&state));
    }
}
