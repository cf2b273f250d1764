//! Event-driven WebSocket endpoint library: frame codec, handshake, and the
//! per-connection state machine, with machine-checked contracts.

pub mod capped_buffer;
pub mod connection;
pub mod frame;
pub mod handler;
pub mod handshake;
pub mod http;
pub mod hub;
pub mod message;
pub mod protocol;
pub mod random;
pub mod result;
pub mod text;

pub use capped_buffer::CappedBuffer;
pub use frame::Frame;
pub use message::Message;
pub use protocol::{CloseCode, OpCode};
pub use result::{Error, Kind};
