//! The frame codec: serialization, parsing, masking, and their round trips.

use ws::frame::{apply_mask, Frame};
use ws::{CloseCode, OpCode};

fn roundtrip(frame: Frame) -> (Frame, usize) {
    let mut wire: Vec<u8> = Vec::new();
    frame.format(&mut wire);
    let total = wire.len();
    let (parsed, consumed) = Frame::parse(&wire, 0).unwrap().unwrap();
    assert_eq!(consumed, total);
    (parsed, consumed)
}

#[test]
fn roundtrip_short_text() {
    let f = Frame::message(b"hello".to_vec(), OpCode::Text, true);
    let (g, _) = roundtrip(f);
    assert!(g.is_final());
    assert_eq!(g.opcode(), OpCode::Text);
    assert!(!g.is_masked());
    assert_eq!(g.into_data(), b"hello".to_vec());
}

#[test]
fn roundtrip_sixteen_bit_length() {
    let payload = vec![7u8; 300];
    let f = Frame::message(payload.clone(), OpCode::Binary, false);
    let mut wire: Vec<u8> = Vec::new();
    f.format(&mut wire);
    // 2 header bytes + 2 extended length bytes + payload
    assert_eq!(wire.len(), 4 + 300);
    assert_eq!(wire[1] & 0x7F, 126);
    let (g, consumed) = Frame::parse(&wire, 0).unwrap().unwrap();
    assert_eq!(consumed, wire.len());
    assert!(!g.is_final());
    assert_eq!(g.opcode(), OpCode::Binary);
    assert_eq!(g.into_data(), payload);
}

#[test]
fn roundtrip_sixty_four_bit_length() {
    let payload = vec![1u8; 70_000];
    let f = Frame::message(payload.clone(), OpCode::Binary, true);
    let mut wire: Vec<u8> = Vec::new();
    f.format(&mut wire);
    assert_eq!(wire.len(), 10 + 70_000);
    assert_eq!(wire[1] & 0x7F, 127);
    let (g, consumed) = Frame::parse(&wire, 0).unwrap().unwrap();
    assert_eq!(consumed, wire.len());
    assert_eq!(g.into_data(), payload);
}

#[test]
fn roundtrip_masked_frame() {
    let mut f = Frame::message(b"masked payload".to_vec(), OpCode::Text, true);
    f.mask();
    let mut wire: Vec<u8> = Vec::new();
    f.format(&mut wire);
    // The wire mask bit is set.
    assert_eq!(wire[1] & 0x80, 0x80);
    let (g, _) = roundtrip_bytes(&wire);
    assert!(g.is_masked());
    // The parser unmasks the payload in place.
    assert_eq!(g.into_data(), b"masked payload".to_vec());
}

fn roundtrip_bytes(wire: &Vec<u8>) -> (Frame, usize) {
    Frame::parse(wire, 0).unwrap().unwrap()
}

#[test]
fn mask_is_involutive() {
    let mask = [0x37u8, 0xfa, 0x21, 0x3d];
    let original = b"Hello".to_vec();
    let mut data = original.clone();
    apply_mask(&mut data, &mask);
    assert_ne!(data, original);
    apply_mask(&mut data, &mask);
    assert_eq!(data, original);
}

#[test]
fn parse_incomplete_returns_none() {
    // A frame that claims 5 payload bytes but carries only 2 so far.
    let wire = vec![0x81u8, 0x05, b'h', b'e'];
    assert!(Frame::parse(&wire, 0).unwrap().is_none());
    // An empty buffer as well.
    let empty: Vec<u8> = Vec::new();
    assert!(Frame::parse(&empty, 0).unwrap().is_none());
}

#[test]
fn parse_bad_opcode_is_protocol_error() {
    let wire = vec![0x83u8, 0x00];
    let err = Frame::parse(&wire, 0).unwrap_err();
    assert_eq!(err.kind, ws::Kind::Protocol);
}

#[test]
fn parse_oversized_control_is_protocol_error() {
    // A close frame claiming a 200-byte payload.
    let wire = vec![0x88u8, 126, 0, 200];
    let err = Frame::parse(&wire, 0).unwrap_err();
    assert_eq!(err.kind, ws::Kind::Protocol);
}

#[test]
fn close_frame_payload_layout() {
    let f = Frame::close(CloseCode::Normal, "bye");
    let mut wire: Vec<u8> = Vec::new();
    f.format(&mut wire);
    // 1000 big-endian is 0x03 0xE8.
    assert_eq!(wire, vec![0x88u8, 0x05, 0x03, 0xE8, b'b', b'y', b'e']);
    let f2 = Frame::close(CloseCode::Empty, "ignored");
    let mut wire2: Vec<u8> = Vec::new();
    f2.format(&mut wire2);
    assert_eq!(wire2, vec![0x88u8, 0x00]);
}

#[test]
fn parse_two_frames_in_sequence() {
    let mut wire: Vec<u8> = Vec::new();
    Frame::ping(b"a".to_vec()).format(&mut wire);
    Frame::pong(b"b".to_vec()).format(&mut wire);
    let (first, used) = Frame::parse(&wire, 0).unwrap().unwrap();
    assert_eq!(first.opcode(), OpCode::Ping);
    let (second, _) = Frame::parse(&wire, used).unwrap().unwrap();
    assert_eq!(second.opcode(), OpCode::Pong);
    assert_eq!(second.into_data(), b"b".to_vec());
}

#[test]
fn default_frame_is_empty_close() {
    let f = Frame::default();
    assert!(f.is_final());
    assert_eq!(f.opcode(), OpCode::Close);
    assert_eq!(f.payload_len(), 0);
    assert_eq!(f.header_len(), 0);
}
