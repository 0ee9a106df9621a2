use webrtc_transfer::chunks::{process_in_chunks, process_string_in_chunks, Chunker, CHUNK_SIZE};

fn chunks_of(pieces: Vec<Vec<u8>>) -> Vec<Vec<u8>> {
    let mut chunks = Vec::new();
    let result = process_in_chunks(0, pieces, |_, chunk| {
        chunks.push(chunk.to_vec());
        Ok::<i32, String>(0)
    });
    assert!(result.is_ok());
    chunks
}

fn counted(n: usize) -> Vec<u8> {
    (0..n).map(|i| (i % 251) as u8).collect()
}

#[test]
fn test_process_in_chunks() {
    let mut test_vec = vec![0; CHUNK_SIZE * 2 + 5];
    test_vec[CHUNK_SIZE..CHUNK_SIZE * 2]
        .iter_mut()
        .for_each(|x| *x = 1);
    test_vec[CHUNK_SIZE * 2..].iter_mut().for_each(|x| *x = 2);

    let mut chunks = Vec::new();

    let result = process_in_chunks(0, vec![test_vec], |_, chunk| {
        chunks.push(chunk);
        Ok::<i32, String>(0)
    });

    assert!(result.is_ok());
    assert_eq!(chunks.len(), 3);
    assert_eq!(chunks[0].len(), CHUNK_SIZE);
    assert_eq!(chunks[1].len(), CHUNK_SIZE);
    assert_eq!(chunks[2].len(), 5);

    assert_eq!(chunks[0].iter().all(|x| *x == 0), true);
    assert_eq!(chunks[1].iter().all(|x| *x == 1), true);
    assert_eq!(chunks[2].iter().all(|x| *x == 2), true);
}

#[test]
fn a_chunk_is_sixteen_kibibytes() {
    assert_eq!(CHUNK_SIZE, 16384);
}

#[test]
fn nothing_makes_no_chunk() {
    assert_eq!(chunks_of(vec![]).len(), 0);
    assert_eq!(chunks_of(vec![vec![], vec![]]).len(), 0);
}

#[test]
fn lengths_around_a_chunk() {
    for (n, lengths) in [
        (1, vec![1]),
        (CHUNK_SIZE - 1, vec![CHUNK_SIZE - 1]),
        (CHUNK_SIZE, vec![CHUNK_SIZE]),
        (CHUNK_SIZE + 1, vec![CHUNK_SIZE, 1]),
        (CHUNK_SIZE * 2, vec![CHUNK_SIZE, CHUNK_SIZE]),
    ] {
        let chunks = chunks_of(vec![counted(n)]);
        let found: Vec<usize> = chunks.iter().map(|chunk| chunk.len()).collect();
        assert_eq!(found, lengths);
    }
}

#[test]
fn the_pieces_do_not_matter() {
    let data = counted(CHUNK_SIZE * 3 + 77);
    let whole = chunks_of(vec![data.clone()]);
    for length in [1000, 4096, CHUNK_SIZE, CHUNK_SIZE + 1] {
        let pieces: Vec<Vec<u8>> = data.chunks(length).map(|piece| piece.to_vec()).collect();
        assert_eq!(chunks_of(pieces), whole);
    }
}

#[test]
fn chunks_put_together_are_the_data() {
    let data = counted(CHUNK_SIZE * 2 + 300);
    let pieces: Vec<Vec<u8>> = data.chunks(7777).map(|piece| piece.to_vec()).collect();
    assert_eq!(chunks_of(pieces).concat(), data);
}

#[test]
fn each_call_gets_the_channel_of_the_last() {
    let mut channels = Vec::new();
    let result = process_in_chunks(5, vec![counted(CHUNK_SIZE * 2 + 1)], |channel, _| {
        channels.push(channel);
        Ok::<i32, String>(channel + 1)
    });
    assert!(result.is_ok());
    assert_eq!(channels, vec![5, 6, 7]);
}

#[test]
fn the_first_error_ends_the_work() {
    let mut calls = 0;
    let result = process_in_chunks(0, vec![counted(CHUNK_SIZE * 3)], |_, _| {
        calls += 1;
        if calls == 2 {
            Err("lost".to_string())
        } else {
            Ok(0)
        }
    });
    assert_eq!(result, Err("lost".to_string()));
    assert_eq!(calls, 2);
}

#[test]
fn an_error_on_the_rest_comes_back() {
    let result = process_in_chunks(0, vec![vec![1, 2, 3]], |_, _| Err::<i32, i32>(9));
    assert_eq!(result, Err(9));
}

#[test]
fn a_string_goes_out_as_its_bytes() {
    let text = "a\u{e9}".repeat(CHUNK_SIZE / 2);
    let mut chunks = Vec::new();
    let result = process_string_in_chunks((), text.clone(), |_, chunk| {
        chunks.push(chunk.to_vec());
        Ok::<(), String>(())
    });
    assert!(result.is_ok());
    assert_eq!(chunks.len(), 2);
    assert_eq!(chunks[0].len(), CHUNK_SIZE);
    assert_eq!(chunks.concat(), text.into_bytes());
}

#[test]
fn an_empty_string_makes_no_chunk() {
    let mut calls = 0;
    let result = process_string_in_chunks((), String::new(), |_, _| {
        calls += 1;
        Ok::<(), String>(())
    });
    assert!(result.is_ok());
    assert_eq!(calls, 0);
}

#[test]
fn a_chunker_hands_out_whole_chunks_and_the_rest() {
    let mut chunker = Chunker::new();
    assert_eq!(chunker.len(), 0);
    assert!(chunker.next_chunk().is_none());
    assert!(chunker.take_rest().is_none());
    let data = counted(CHUNK_SIZE + 3);
    chunker.feed(&data);
    assert_eq!(chunker.len(), CHUNK_SIZE + 3);
    assert_eq!(chunker.next_chunk().unwrap().to_vec(), data[..CHUNK_SIZE].to_vec());
    assert!(chunker.next_chunk().is_none());
    assert_eq!(chunker.take_rest().unwrap().to_vec(), data[CHUNK_SIZE..].to_vec());
    assert_eq!(chunker.len(), 0);
}

#[test]
fn a_chunker_hands_out_parts_to_the_end() {
    let mut chunker = Chunker::new();
    let data = counted(CHUNK_SIZE * 2);
    chunker.feed(&data);
    assert_eq!(chunker.next_part().unwrap().to_vec(), data[..CHUNK_SIZE].to_vec());
    assert_eq!(chunker.next_part().unwrap().to_vec(), data[CHUNK_SIZE..].to_vec());
    assert!(chunker.next_part().is_none());
}

#[test]
fn a_chunk_may_span_two_pieces() {
    let chunks = chunks_of(vec![vec![1; CHUNK_SIZE - 1], vec![2; 2]]);
    let mut first = vec![1; CHUNK_SIZE - 1];
    first.push(2);
    assert_eq!(chunks, vec![first, vec![2]]);
}

#[test]
fn whole_chunks_leave_nothing_for_another_call() {
    let chunks = chunks_of(vec![vec![7; CHUNK_SIZE * 2]]);
    assert_eq!(chunks, vec![vec![7; CHUNK_SIZE], vec![7; CHUNK_SIZE]]);
}

#[test]
fn a_callback_that_fails_is_not_called_on_empty_data() {
    let result = process_in_chunks(0, vec![vec![], vec![]], |_, _| Err::<i32, i32>(1));
    assert_eq!(result, Ok(()));
    let result = process_string_in_chunks(0, String::new(), |_, _| Err::<i32, i32>(1));
    assert_eq!(result, Ok(()));
}

#[test]
fn a_string_is_cut_by_its_bytes() {
    let text = "a".to_string() + &"\u{e9}".repeat(8192);
    let mut chunks = Vec::new();
    let result = process_string_in_chunks(0, text, |channel, chunk| {
        chunks.push(chunk.to_vec());
        Ok::<i32, String>(channel)
    });
    assert_eq!(result, Ok(()));
    assert_eq!(chunks.len(), 2);
    assert_eq!(chunks[0].len(), 16384);
    assert_eq!(chunks[0][0], 0x61);
    assert_eq!(chunks[0][16383], 0xc3);
    assert_eq!(chunks[1], vec![0xa9]);
}

#[test]
fn a_short_string_is_one_chunk() {
    let mut calls = Vec::new();
    let result = process_string_in_chunks(0, "hello".to_string(), |channel, chunk| {
        calls.push((channel, chunk.to_vec()));
        Ok::<i32, String>(channel)
    });
    assert_eq!(result, Ok(()));
    assert_eq!(calls, vec![(0, b"hello".to_vec())]);
}
