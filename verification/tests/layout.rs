use ring_buffer::layout::{
    frame_encoder, is_request_frame, parse_request, parse_response, Op, Request, Response, Status,
};
use std::str::FromStr;

#[test]
fn get_frame_bytes() {
    let frame = frame_encoder(Request::GET { key: "key" });
    assert_eq!(frame, vec![0, 0, 0, 3, 1, b'k', b'e', b'y']);
}

#[test]
fn set_frame_bytes() {
    let frame = frame_encoder(Request::SET { key: "ab", value: 0x0102_0304 });
    assert_eq!(frame, vec![0, 0, 0, 2, 2, 1, 2, 3, 4, b'a', b'b']);
}

#[test]
fn delete_frame_bytes() {
    let frame = frame_encoder(Request::DELETE { key: "x" });
    assert_eq!(frame, vec![0, 0, 0, 1, 3, b'x']);
}

#[test]
fn frame_length_counts_utf8_bytes() {
    let frame = frame_encoder(Request::GET { key: "é" });
    assert_eq!(frame, vec![0, 0, 0, 2, 1, 0xC3, 0xA9]);
}

#[test]
fn request_round_trips_through_a_padded_buffer() {
    let mut buffer = frame_encoder(Request::SET { key: "sample.key", value: 89 });
    buffer.resize(1024, 0);
    assert!(is_request_frame(&buffer));
    match parse_request(&buffer) {
        Request::SET { key, value } => {
            assert_eq!(key, "sample.key");
            assert_eq!(value, 89);
        }
        other => panic!("unexpected request {:?}", other),
    }
}

#[test]
fn get_and_delete_round_trip() {
    let buffer = frame_encoder(Request::GET { key: "k1" });
    assert!(matches!(parse_request(&buffer), Request::GET { key: "k1" }));
    let buffer = frame_encoder(Request::DELETE { key: "k2" });
    assert!(matches!(parse_request(&buffer), Request::DELETE { key: "k2" }));
}

#[test]
fn empty_key_round_trips() {
    let buffer = frame_encoder(Request::GET { key: "" });
    assert_eq!(buffer, vec![0, 0, 0, 0, 1]);
    assert!(matches!(parse_request(&buffer), Request::GET { key: "" }));
}

#[test]
fn malformed_frames_are_refused() {
    // too short for the header
    assert!(!is_request_frame(&[0, 0, 0, 1]));
    // unknown opcode
    assert!(!is_request_frame(&[0, 0, 0, 1, 9, b'a']));
    // key shorter than its length
    assert!(!is_request_frame(&[0, 0, 0, 5, 1, b'a']));
    // value missing
    assert!(!is_request_frame(&[0, 0, 0, 0, 2, 1, 2]));
    // key bytes not UTF-8
    assert!(!is_request_frame(&[0, 0, 0, 1, 1, 0xFF]));
    assert!(is_request_frame(&[0, 0, 0, 1, 1, b'a']));
}

#[test]
fn get_response_bytes() {
    let bytes = parse_response(Response::GetResponse { status: Status::Success, value: 0x0A0B_0C0D });
    assert_eq!(bytes, vec![1, 0, 10, 11, 12, 13]);
}

#[test]
fn set_response_bytes() {
    let bytes = parse_response(Response::SetResponse { status: Status::Failure });
    assert_eq!(bytes, vec![2, 1]);
}

#[test]
fn delete_response_bytes() {
    let bytes = parse_response(Response::DeleteResponse { status: Status::Success, value: true });
    assert_eq!(bytes, vec![3, 0, 1]);
    let bytes = parse_response(Response::DeleteResponse { status: Status::Failure, value: false });
    assert_eq!(bytes, vec![3, 1, 0]);
}

#[test]
fn opcode_bytes() {
    assert!(matches!(Op::try_from(1u8), Ok(Op::GET)));
    assert!(matches!(Op::try_from(2u8), Ok(Op::SET)));
    assert!(matches!(Op::try_from(3u8), Ok(Op::DELETE)));
    assert_eq!(Op::try_from(0u8).unwrap_err(), "unknown opcode 0");
    assert_eq!(Op::try_from(200u8).unwrap_err(), "unknown opcode 200");
    assert_eq!(Op::SET.code(), 2);
    assert_eq!(Status::Failure.code(), 1);
}

#[test]
fn opcode_names() {
    assert!(matches!(Op::from_str("GET"), Ok(Op::GET)));
    assert!(matches!(Op::from_str("SET"), Ok(Op::SET)));
    assert!(matches!(Op::from_str("DELETE"), Ok(Op::DELETE)));
    assert_eq!(Op::from_str("PUT").unwrap_err(), "unknown opcode PUT");
    assert_eq!(Op::from_str("get").unwrap_err(), "unknown opcode get");
}

#[test]
fn any_str_converts_to_get() {
    assert!(matches!(Op::try_from("SET"), Ok(Op::GET)));
    assert!(matches!(Op::try_from("anything"), Ok(Op::GET)));
}
