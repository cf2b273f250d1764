//! Opcode and close-code conversions.

use ws::{CloseCode, OpCode};

#[test]
fn test_opcode_from_u8() {
    let byte = 2u8;
    assert_eq!(OpCode::from_u8(byte), OpCode::Binary);
}

#[test]
fn test_opcode_into_u8() {
    let text = OpCode::Text;
    let byte: u8 = text.to_u8();
    assert_eq!(byte, 1u8);
}

#[test]
fn test_closecode_from_u16() {
    let mut byte = 1008u16;
    byte = byte.to_be();
    assert_eq!(CloseCode::from_u16(u16::from_be(byte)), CloseCode::Policy);
}

#[test]
fn test_closecode_into_u16() {
    let text = CloseCode::Away;
    let byte: u16 = text.to_u16();
    assert_eq!(byte.to_be(), 1001u16.to_be());
}

#[test]
fn test_closecode_other_roundtrip() {
    assert_eq!(CloseCode::from_u16(4000), CloseCode::Other(4000));
    assert_eq!(CloseCode::Other(4000).to_u16(), 4000);
    assert_eq!(CloseCode::Empty.to_u16(), 0);
}

#[test]
fn test_acceptable_close_codes() {
    assert!(CloseCode::acceptable(1000));
    assert!(CloseCode::acceptable(1003));
    assert!(CloseCode::acceptable(4999));
    assert!(!CloseCode::acceptable(999));
    assert!(!CloseCode::acceptable(5000));
    assert!(!CloseCode::acceptable(1004));
    assert!(!CloseCode::acceptable(1005));
    assert!(!CloseCode::acceptable(1006));
    assert!(!CloseCode::acceptable(1012));
    assert!(!CloseCode::acceptable(1013));
    assert!(!CloseCode::acceptable(1014));
    assert!(!CloseCode::acceptable(1015));
    assert!(!CloseCode::acceptable(1016));
    assert!(!CloseCode::acceptable(1100));
    assert!(!CloseCode::acceptable(2000));
    assert!(!CloseCode::acceptable(2999));
}
