use rust_rush_trivia::framing::{encode_frame, frame_length, FrameError, MAX_MESSAGE_LEN};

#[test]
fn frame_prefixes_big_endian_length() {
    assert_eq!(encode_frame(&[1, 2, 3]), vec![0, 0, 0, 3, 1, 2, 3]);
    assert_eq!(encode_frame(&[]), vec![0, 0, 0, 0]);
    let body = vec![7u8; 300];
    let frame = encode_frame(&body);
    assert_eq!(&frame[..4], &[0, 0, 1, 44]);
    assert_eq!(&frame[4..], &body[..]);
}

#[test]
fn frame_round_trip() {
    let body = b"{\"type\":\"Ready\"}".to_vec();
    let frame = encode_frame(&body);
    let header = [frame[0], frame[1], frame[2], frame[3]];
    assert_eq!(frame_length(header), Ok(body.len()));
    assert_eq!(&frame[4..], &body[..]);
}

#[test]
fn frame_length_limit() {
    assert_eq!(frame_length([0, 0x0f, 0x42, 0x40]), Ok(MAX_MESSAGE_LEN));
    assert_eq!(frame_length([0, 0x0f, 0x42, 0x41]), Err(FrameError::TooLarge(1_000_001)));
    assert_eq!(frame_length([0xff, 0xff, 0xff, 0xff]), Err(FrameError::TooLarge(4_294_967_295)));
    assert_eq!(frame_length([0, 0, 0, 0]), Ok(0));
}
