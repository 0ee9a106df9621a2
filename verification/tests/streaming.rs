use webrtc_transfer::chunks::CHUNK_SIZE;
use webrtc_transfer::streaming::{ChunkStream, StreamAction, StreamEvent};

/// Hands the chunks of `pieces` on until one fails, as `fails` says by its
/// number, and returns those handed on with the outcome.
fn drive(pieces: Vec<Vec<u8>>, fails: Option<usize>) -> (Vec<Vec<u8>>, Result<(), String>) {
    let mut pieces = pieces.into_iter();
    let mut handed = Vec::new();
    let (mut stream, mut action) = ChunkStream::start::<String>();
    loop {
        let event = match action {
            StreamAction::Receive => match pieces.next() {
                Some(piece) => StreamEvent::Data(piece),
                None => StreamEvent::NoMoreData,
            },
            StreamAction::HandOn(chunk) => {
                handed.push(chunk.to_vec());
                if fails == Some(handed.len()) {
                    StreamEvent::Failed("lost".to_string())
                } else {
                    StreamEvent::Done
                }
            }
            StreamAction::Return(result) => {
                assert!(!stream.accepts(&StreamEvent::<String>::Done));
                assert!(!stream.accepts(&StreamEvent::<String>::NoMoreData));
                return (handed, result);
            }
        };
        assert!(stream.accepts(&event));
        action = stream.step(event);
    }
}

#[test]
fn a_stream_hands_the_chunks_on() {
    let (handed, result) = drive(vec![vec![1; CHUNK_SIZE - 1], vec![2; 2]], None);
    assert_eq!(result, Ok(()));
    assert_eq!(handed.len(), 2);
    assert_eq!(handed[0].len(), CHUNK_SIZE);
    assert_eq!(handed[0][CHUNK_SIZE - 1], 2);
    assert_eq!(handed[1], vec![2]);
}

#[test]
fn a_stream_of_whole_chunks_has_no_rest() {
    let (handed, result) = drive(vec![vec![7; CHUNK_SIZE * 2]], None);
    assert_eq!(result, Ok(()));
    assert_eq!(handed, vec![vec![7; CHUNK_SIZE], vec![7; CHUNK_SIZE]]);
}

#[test]
fn an_empty_stream_hands_nothing_on() {
    assert_eq!(drive(vec![], None), (vec![], Ok(())));
    assert_eq!(drive(vec![vec![], vec![]], Some(1)), (vec![], Ok(())));
}

#[test]
fn a_stream_stops_at_its_first_failure() {
    for fails in 1..=3 {
        let (handed, result) = drive(vec![vec![3; CHUNK_SIZE * 2 + 5]], Some(fails));
        assert_eq!(result, Err("lost".to_string()));
        assert_eq!(handed.len(), fails);
    }
}

#[test]
fn a_stream_waits_for_one_thing_at_a_time() {
    let (mut stream, _) = ChunkStream::start::<String>();
    assert!(!stream.accepts(&StreamEvent::<String>::Done));
    let piece: StreamEvent<String> = StreamEvent::Data(vec![0; CHUNK_SIZE]);
    assert!(matches!(stream.step(piece), StreamAction::HandOn(_)));
    assert!(!stream.accepts(&StreamEvent::<String>::NoMoreData));
}
