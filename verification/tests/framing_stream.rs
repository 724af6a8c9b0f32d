use action_dispatch::framing::{
    build_frame, chunk_len, close_frame, is_ok_reply, ok_reply, FrameBuffer, FrameStep, CHUNK,
};
use action_dispatch::messages::MessageError;

fn collect_frames(buffer: &mut FrameBuffer) -> (Vec<Vec<u8>>, bool) {
    let mut payloads = Vec::new();
    loop {
        match buffer.next_frame() {
            FrameStep::Payload(p) => payloads.push(p),
            FrameStep::Close => return (payloads, true),
            FrameStep::Incomplete => return (payloads, false),
        }
    }
}

fn frames_concatenated(payloads: &[Vec<u8>]) -> Vec<u8> {
    let mut stream = Vec::new();
    for p in payloads {
        stream.extend_from_slice(&build_frame(&p.clone()).unwrap());
    }
    stream
}

#[test]
fn build_frame_prefixes_the_length_big_endian() {
    let frame = build_frame(&vec![7, 8, 9]).unwrap();
    assert_eq!(frame, vec![0, 0, 0, 3, 7, 8, 9]);
}

#[test]
fn build_frame_rejects_the_empty_payload() {
    assert_eq!(build_frame(&Vec::new()), Err(MessageError::SerializationError));
}

#[test]
fn reader_yields_frames_in_order_when_fed_whole() {
    let payloads = vec![vec![1u8], vec![2, 3], vec![4, 5, 6]];
    let stream = frames_concatenated(&payloads);
    let mut buffer = FrameBuffer::new();
    buffer.feed(&stream);
    let (got, closed) = collect_frames(&mut buffer);
    assert_eq!(got, payloads);
    assert!(!closed);
}

#[test]
fn reader_is_independent_of_segmentation() {
    let payloads = vec![vec![10u8, 11], vec![12], vec![13, 14, 15, 16], vec![17]];
    let stream = frames_concatenated(&payloads);
    // every split position, one byte at a time, and a few odd chunkings
    for split in 0..stream.len() {
        let mut buffer = FrameBuffer::new();
        buffer.feed(&stream[..split].to_vec());
        buffer.feed(&stream[split..].to_vec());
        let (got, closed) = collect_frames(&mut buffer);
        assert_eq!(got, payloads);
        assert!(!closed);
    }
    let mut bytewise = FrameBuffer::new();
    for b in &stream {
        bytewise.feed(&vec![*b]);
    }
    let (got, closed) = collect_frames(&mut bytewise);
    assert_eq!(got, payloads);
    assert!(!closed);
}

#[test]
fn reader_interleaves_extraction_with_feeding() {
    let payloads = vec![vec![1u8, 2, 3], vec![4, 5]];
    let stream = frames_concatenated(&payloads);
    let mut buffer = FrameBuffer::new();
    let mut got = Vec::new();
    for b in &stream {
        buffer.feed(&vec![*b]);
        loop {
            match buffer.next_frame() {
                FrameStep::Payload(p) => got.push(p),
                _ => break,
            }
        }
    }
    assert_eq!(got, payloads);
}

#[test]
fn zero_length_frame_is_a_clean_close() {
    let mut stream = frames_concatenated(&[vec![42u8]]);
    stream.extend_from_slice(&close_frame());
    let mut buffer = FrameBuffer::new();
    buffer.feed(&stream);
    let (got, closed) = collect_frames(&mut buffer);
    assert_eq!(got, vec![vec![42u8]]);
    assert!(closed);
}

#[test]
fn close_frame_is_four_zero_bytes() {
    assert_eq!(close_frame(), vec![0, 0, 0, 0]);
}

#[test]
fn bytes_after_a_close_are_not_consumed_as_frames() {
    let mut stream = close_frame();
    stream.extend_from_slice(&frames_concatenated(&[vec![1u8, 2]]));
    let mut buffer = FrameBuffer::new();
    buffer.feed(&stream);
    match buffer.next_frame() {
        FrameStep::Close => {}
        other => panic!("expected a clean close, got {:?}", other),
    }
}

#[test]
fn incomplete_header_and_body_wait_for_more_bytes() {
    let mut buffer = FrameBuffer::new();
    buffer.feed(&vec![0, 0]);
    assert_eq!(buffer.next_frame(), FrameStep::Incomplete);
    buffer.feed(&vec![0, 2, 9]);
    assert_eq!(buffer.next_frame(), FrameStep::Incomplete);
    buffer.feed(&vec![10]);
    assert_eq!(buffer.next_frame(), FrameStep::Payload(vec![9, 10]));
}

#[test]
fn chunk_len_covers_a_write_without_overshoot() {
    assert_eq!(chunk_len(10, 0), 10);
    assert_eq!(chunk_len(CHUNK + 5, 0), CHUNK);
    assert_eq!(chunk_len(CHUNK + 5, CHUNK), 5);
    let total = 3 * CHUNK + 17;
    let mut offset = 0;
    let mut steps = 0;
    while offset < total {
        let step = chunk_len(total, offset);
        assert!(step >= 1 && step <= CHUNK);
        offset += step;
        steps += 1;
    }
    assert_eq!(offset, total);
    assert_eq!(steps, 4);
}

#[test]
fn ok_reply_is_the_ascii_bytes_ok() {
    let reply = ok_reply();
    assert_eq!(reply, b"OK".to_vec());
    assert!(is_ok_reply(&reply));
    assert!(!is_ok_reply(&b"NO".to_vec()));
    assert!(!is_ok_reply(&b"OKX".to_vec()));
    assert!(!is_ok_reply(&Vec::new()));
}
