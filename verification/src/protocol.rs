//! Opcodes and close codes of the WebSocket wire protocol.

use vstd::prelude::*;

verus! {

/// The 4-bit opcode carried in the first byte of every frame.
#[derive(Clone, Copy, Debug, PartialEq, Eq, Structural)]
pub enum OpCode {
    /// A continuation frame of a fragmented message.
    Continue,
    /// A text data frame; the complete message must be valid UTF-8.
    Text,
    /// A binary data frame.
    Binary,
    /// A close control frame.
    Close,
    /// A ping control frame.
    Ping,
    /// A pong control frame.
    Pong,
    /// Any opcode value the protocol does not define.
    Bad,
}

/// The wire value of an opcode; `Bad` maps to the close opcode so that a
/// connection carrying it tears down quickly.
pub open spec fn opcode_value(c: OpCode) -> u8 {
    match c {
        OpCode::Continue => 0,
        OpCode::Text => 1,
        OpCode::Binary => 2,
        OpCode::Close => 8,
        OpCode::Ping => 9,
        OpCode::Pong => 10,
        OpCode::Bad => 8,
    }
}

/// The opcode denoted by a 4-bit wire value; undefined values map to `Bad`.
pub open spec fn opcode_of(byte: u8) -> OpCode {
    if byte == 0 {
        OpCode::Continue
    } else if byte == 1 {
        OpCode::Text
    } else if byte == 2 {
        OpCode::Binary
    } else if byte == 8 {
        OpCode::Close
    } else if byte == 9 {
        OpCode::Ping
    } else if byte == 10 {
        OpCode::Pong
    } else {
        OpCode::Bad
    }
}

/// True of the three control opcodes (Close, Ping, Pong).
pub open spec fn is_control_opcode(c: OpCode) -> bool {
    c == OpCode::Close || c == OpCode::Ping || c == OpCode::Pong
}

impl OpCode {
    /// The wire value of this opcode.
    pub fn to_u8(self) -> (r: u8)
        ensures
            r == opcode_value(self),
            r < 16,
    {
        match self {
            OpCode::Continue => 0,
            OpCode::Text => 1,
            OpCode::Binary => 2,
            OpCode::Close => 8,
            OpCode::Ping => 9,
            OpCode::Pong => 10,
            OpCode::Bad => 8,
        }
    }

    /// The opcode denoted by a wire value.
    pub fn from_u8(byte: u8) -> (r: OpCode)
        ensures
            r == opcode_of(byte),
    {
        match byte {
            0 => OpCode::Continue,
            1 => OpCode::Text,
            2 => OpCode::Binary,
            8 => OpCode::Close,
            9 => OpCode::Ping,
            10 => OpCode::Pong,
            _ => OpCode::Bad,
        }
    }

    /// True of the three control opcodes (Close, Ping, Pong).
    pub fn is_control(self) -> (r: bool)
        ensures
            r == is_control_opcode(self),
    {
        match self {
            OpCode::Close | OpCode::Ping | OpCode::Pong => true,
            _ => false,
        }
    }
}

/// Wire value and opcode are inverse to one another on the defined opcodes.
pub proof fn lemma_opcode_roundtrip()
    ensures
        forall|c: OpCode| c != OpCode::Bad ==> opcode_of(opcode_value(c)) == c,
        forall|b: u8| opcode_of(b) != OpCode::Bad ==> opcode_value(opcode_of(b)) == b,
{
}

/// The status code carried by a close frame, as the RFC 6455 registry names
/// it, with an `Other` escape for registered codes this library does not name.
#[derive(Clone, Copy, Debug, PartialEq, Eq, Structural)]
pub enum CloseCode {
    /// 1000: normal closure.
    Normal,
    /// 1001: the endpoint is going away.
    Away,
    /// 1002: protocol error.
    Protocol,
    /// 1003: unsupported data.
    Unsupported,
    /// 1005: no status code present (synthetic; never sent on the wire).
    Status,
    /// 1006: abnormal closure (synthetic; never sent on the wire).
    Abnormal,
    /// 1007: invalid payload data.
    Invalid,
    /// 1008: policy violation.
    Policy,
    /// 1009: message too big.
    Size,
    /// 1010: missing extension.
    Extension,
    /// 1011: internal server error.
    Error,
    /// 1012: service restart.
    Restart,
    /// 1013: try again later.
    Again,
    /// 1015: TLS handshake failure (synthetic; never sent on the wire).
    Tls,
    /// A close frame with no status code at all.
    Empty,
    /// Any other registered status code.
    Other(u16),
}

/// The registry number of a close code; `Empty` maps to 0, which never
/// appears on the wire because an `Empty` close frame carries no body.
pub open spec fn close_code_value(c: CloseCode) -> u16 {
    match c {
        CloseCode::Normal => 1000,
        CloseCode::Away => 1001,
        CloseCode::Protocol => 1002,
        CloseCode::Unsupported => 1003,
        CloseCode::Status => 1005,
        CloseCode::Abnormal => 1006,
        CloseCode::Invalid => 1007,
        CloseCode::Policy => 1008,
        CloseCode::Size => 1009,
        CloseCode::Extension => 1010,
        CloseCode::Error => 1011,
        CloseCode::Restart => 1012,
        CloseCode::Again => 1013,
        CloseCode::Tls => 1015,
        CloseCode::Empty => 0,
        CloseCode::Other(code) => code,
    }
}

/// The close code named by a registry number.
pub open spec fn close_code_of(v: u16) -> CloseCode {
    if v == 1000 {
        CloseCode::Normal
    } else if v == 1001 {
        CloseCode::Away
    } else if v == 1002 {
        CloseCode::Protocol
    } else if v == 1003 {
        CloseCode::Unsupported
    } else if v == 1005 {
        CloseCode::Status
    } else if v == 1006 {
        CloseCode::Abnormal
    } else if v == 1007 {
        CloseCode::Invalid
    } else if v == 1008 {
        CloseCode::Policy
    } else if v == 1009 {
        CloseCode::Size
    } else if v == 1010 {
        CloseCode::Extension
    } else if v == 1011 {
        CloseCode::Error
    } else if v == 1012 {
        CloseCode::Restart
    } else if v == 1013 {
        CloseCode::Again
    } else if v == 1015 {
        CloseCode::Tls
    } else if v == 0 {
        CloseCode::Empty
    } else {
        CloseCode::Other(v)
    }
}

/// True of the raw close codes an endpoint may accept from the wire:
/// inside 1000..5000, not one of the reserved or forbidden codes, and not
/// one of the synthetic codes (no-status, abnormal, restart, again, TLS).
pub open spec fn spec_acceptable_close_code(v: u16) -> bool {
    &&& 1000 <= v < 5000
    &&& v != 1004
    &&& v != 1005
    &&& v != 1006
    &&& v != 1012
    &&& v != 1013
    &&& v != 1014
    &&& v != 1015
    &&& v != 1016
    &&& v != 1100
    &&& v != 2000
    &&& v != 2999
}

impl CloseCode {
    /// The registry number of this close code.
    pub fn to_u16(self) -> (r: u16)
        ensures
            r == close_code_value(self),
    {
        match self {
            CloseCode::Normal => 1000,
            CloseCode::Away => 1001,
            CloseCode::Protocol => 1002,
            CloseCode::Unsupported => 1003,
            CloseCode::Status => 1005,
            CloseCode::Abnormal => 1006,
            CloseCode::Invalid => 1007,
            CloseCode::Policy => 1008,
            CloseCode::Size => 1009,
            CloseCode::Extension => 1010,
            CloseCode::Error => 1011,
            CloseCode::Restart => 1012,
            CloseCode::Again => 1013,
            CloseCode::Tls => 1015,
            CloseCode::Empty => 0,
            CloseCode::Other(code) => code,
        }
    }

    /// The close code named by a registry number.
    pub fn from_u16(v: u16) -> (r: CloseCode)
        ensures
            r == close_code_of(v),
    {
        match v {
            1000 => CloseCode::Normal,
            1001 => CloseCode::Away,
            1002 => CloseCode::Protocol,
            1003 => CloseCode::Unsupported,
            1005 => CloseCode::Status,
            1006 => CloseCode::Abnormal,
            1007 => CloseCode::Invalid,
            1008 => CloseCode::Policy,
            1009 => CloseCode::Size,
            1010 => CloseCode::Extension,
            1011 => CloseCode::Error,
            1012 => CloseCode::Restart,
            1013 => CloseCode::Again,
            1015 => CloseCode::Tls,
            0 => CloseCode::Empty,
            code => CloseCode::Other(code),
        }
    }

    /// True of the raw close codes an endpoint may accept from the wire.
    pub fn acceptable(v: u16) -> (r: bool)
        ensures
            r == spec_acceptable_close_code(v),
    {
        1000 <= v && v < 5000 && v != 1004 && v != 1005 && v != 1006 && v != 1012 && v != 1013
            && v != 1014 && v != 1015 && v != 1016 && v != 1100 && v != 2000 && v != 2999
    }
}

/// Registry number and close code are inverse to one another.
pub proof fn lemma_close_code_roundtrip()
    ensures
        forall|c: CloseCode| !(c matches CloseCode::Other(_)) ==> close_code_of(
            close_code_value(c),
        ) == c,
        forall|v: u16| close_code_value(close_code_of(v)) == v,
{
}

} // verus!
