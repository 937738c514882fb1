use preers::framing::{decode_frame, encode_frame, FrameDecode};
use preers::MAX_MESSAGE_SIZE;

#[test]
fn frame_roundtrip() {
    let body = vec![1u8, 2, 3, 4, 5];
    let frame = encode_frame(&body).expect("under the cap");
    assert_eq!(frame, vec![5, 1, 2, 3, 4, 5]);
    match decode_frame(&frame, 0) {
        FrameDecode::Frame(decoded, next) => {
            assert_eq!(decoded, body);
            assert_eq!(next, frame.len());
        },
        _ => panic!("expected a whole frame"),
    }
}

#[test]
fn cap_is_exactly_1024() {
    assert_eq!(MAX_MESSAGE_SIZE, 1024);
    let at_cap = vec![0u8; 1024];
    assert!(encode_frame(&at_cap).is_some());
    let over_cap = vec![0u8; 1025];
    assert!(encode_frame(&over_cap).is_none());
}

#[test]
fn oversize_announcement_fails_cleanly() {
    // a frame announcing 1100 bytes: varint 1100 = [0xcc, 0x08]
    let mut attack = vec![0xcc, 0x08];
    attack.extend(std::iter::repeat(0u8).take(1100));
    match decode_frame(&attack, 0) {
        FrameDecode::Oversize => {},
        _ => panic!("expected the cap to refuse the frame"),
    }
}

#[test]
fn partial_frame_waits_for_more() {
    // length 5 announced, only 3 bytes present
    let partial = vec![5, 1, 2, 3];
    match decode_frame(&partial, 0) {
        FrameDecode::NeedMore => {},
        _ => panic!("expected an incomplete frame"),
    }
}

#[test]
fn frame_with_trailing_bytes_consumes_exactly_itself() {
    let body = vec![9u8, 8, 7];
    let mut stream = encode_frame(&body).expect("under the cap");
    let first_len = stream.len();
    stream.extend([42u8, 43]);
    match decode_frame(&stream, 0) {
        FrameDecode::Frame(decoded, next) => {
            assert_eq!(decoded, body);
            assert_eq!(next, first_len);
        },
        _ => panic!("expected a whole frame"),
    }
}

#[test]
fn empty_body_frames() {
    let body: Vec<u8> = Vec::new();
    let frame = encode_frame(&body).expect("under the cap");
    assert_eq!(frame, vec![0]);
    match decode_frame(&frame, 0) {
        FrameDecode::Frame(decoded, next) => {
            assert_eq!(decoded, body);
            assert_eq!(next, 1);
        },
        _ => panic!("expected a whole frame"),
    }
}
