//! The message type.

use ws::{Kind, Message, OpCode};

#[test]
fn text_message_accessors() {
    let m = Message::text("abc".to_string());
    assert_eq!(m.len(), 3);
    assert_eq!(m.opcode(), OpCode::Text);
    assert_eq!(m.as_text().unwrap(), "abc");
    assert_eq!(m.clone().into_data(), b"abc".to_vec());
    assert_eq!(m.into_text().unwrap(), "abc");
}

#[test]
fn binary_message_accessors() {
    let m = Message::binary(vec![104, 105]);
    assert_eq!(m.len(), 2);
    assert_eq!(m.opcode(), OpCode::Binary);
    // Valid UTF-8 binary data converts to text on demand.
    assert_eq!(m.clone().into_text().unwrap(), "hi");
    assert_eq!(m.into_data(), vec![104, 105]);
}

#[test]
fn invalid_utf8_binary_fails_text_conversion() {
    let m = Message::binary(vec![0xFF, 0xFE]);
    assert_eq!(m.clone().as_text().unwrap_err().kind, Kind::Encoding);
    assert_eq!(m.into_text().unwrap_err().kind, Kind::Encoding);
}

#[test]
fn multibyte_text_length_counts_bytes() {
    let m = Message::text("héllo".to_string());
    assert_eq!(m.len(), 6);
}
