//! The two forms of a WebSocket application message.

use vstd::prelude::*;
use vstd::utf8::{decode_utf8, encode_utf8, valid_utf8};

use crate::protocol::OpCode;
use crate::result::{Error, Kind};
use crate::text::{str_from_utf8, string_from_utf8};

verus! {

/// An application message, either text (valid UTF-8) or arbitrary bytes.
#[derive(Clone, Debug, PartialEq, Eq)]
pub enum Message {
    /// A text WebSocket message.
    Text(String),
    /// A binary WebSocket message.
    Binary(Vec<u8>),
}

impl Message {
    /// The payload bytes of this message: the UTF-8 encoding for text,
    /// the bytes themselves for binary.
    pub open spec fn spec_data(self) -> Seq<u8> {
        match self {
            Message::Text(s) => encode_utf8(s@),
            Message::Binary(d) => d@,
        }
    }

    /// Create a new text WebSocket message.
    pub fn text(string: String) -> (r: Message)
        ensures
            r == Message::Text(string),
    {
        Message::Text(string)
    }

    /// Create a new binary WebSocket message.
    pub fn binary(bin: Vec<u8>) -> (r: Message)
        ensures
            r == Message::Binary(bin),
    {
        Message::Binary(bin)
    }

    /// The length of the message payload in bytes.
    pub fn len(&self) -> (r: usize)
        ensures
            r == self.spec_data().len(),
    {
        match self {
            Message::Text(string) => string.as_str().as_bytes().len(),
            Message::Binary(data) => data.len(),
        }
    }

    /// The opcode of the data frame that starts this message on the wire.
    pub fn opcode(&self) -> (r: OpCode)
        ensures
            r == (match self {
                Message::Text(_) => OpCode::Text,
                Message::Binary(_) => OpCode::Binary,
            }),
    {
        match self {
            Message::Text(_) => OpCode::Text,
            Message::Binary(_) => OpCode::Binary,
        }
    }

    /// Consume the message and return its payload bytes.
    pub fn into_data(self) -> (r: Vec<u8>)
        ensures
            r@ == self.spec_data(),
    {
        match self {
            Message::Text(string) => crate::text::bytes_to_vec(string.as_str().as_bytes()),
            Message::Binary(data) => data,
        }
    }

    /// Consume the message and convert it to a string; binary data is
    /// accepted exactly when it is valid UTF-8.
    pub fn into_text(self) -> (r: Result<String, Error>)
        ensures
            match self {
                Message::Text(s) => r matches Ok(t) && t == s,
                Message::Binary(d) => {
                    &&& valid_utf8(d@) ==> (r matches Ok(t) && t@ == decode_utf8(d@))
                    &&& !valid_utf8(d@) ==> (r matches Err(e) && e.kind == Kind::Encoding)
                },
            },
    {
        match self {
            Message::Text(string) => Ok(string),
            Message::Binary(data) => match string_from_utf8(data) {
                Some(string) => Ok(string),
                None => Err(Error::new(Kind::Encoding, "Binary data is not valid UTF-8.")),
            },
        }
    }

    /// Borrow the message as a string; binary data is accepted exactly when
    /// it is valid UTF-8.
    pub fn as_text(&self) -> (r: Result<&str, Error>)
        ensures
            match self {
                Message::Text(s) => r matches Ok(t) && t@ == s@,
                Message::Binary(d) => {
                    &&& valid_utf8(d@) ==> (r matches Ok(t) && t@ == decode_utf8(d@))
                    &&& !valid_utf8(d@) ==> (r matches Err(e) && e.kind == Kind::Encoding)
                },
            },
    {
        match self {
            Message::Text(string) => Ok(string.as_str()),
            Message::Binary(data) => match str_from_utf8(data.as_slice()) {
                Some(s) => Ok(s),
                None => Err(Error::new(Kind::Encoding, "Binary data is not valid UTF-8.")),
            },
        }
    }
}

} // verus!
