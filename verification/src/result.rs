//! Error taxonomy for the WebSocket endpoint.
//!
//! Each kind determines a default treatment in the connection state machine:
//! protocol violations close with 1002, capacity exhaustion with 1009,
//! encoding failures with 1007, internal faults with 1011.

use vstd::prelude::*;

verus! {

/// The kind of a WebSocket error.
#[derive(Clone, Copy, Debug, PartialEq, Eq, Structural)]
pub enum Kind {
    /// Invariant violation inside the library; close with 1011.
    Internal,
    /// A buffer or queue is out of space; close with 1009.
    Capacity,
    /// Data does not match the WebSocket protocol; close with 1002.
    Protocol,
    /// Data that must be UTF-8 is not; close with 1007.
    Encoding,
    /// Failure to parse or produce an HTTP handshake message.
    Http,
    /// Failure of the underlying byte stream.
    Io,
    /// The command queue is saturated.
    Queue,
    /// The timer could not schedule or cancel a timeout.
    Timer,
    /// TLS negotiation failed.
    Tls,
    /// An application-defined error surfaced through a handler.
    Custom,
}

/// A WebSocket error: a kind together with human-readable details.
#[derive(Clone, Debug)]
pub struct Error {
    /// What category of failure this is.
    pub kind: Kind,
    /// Free-form description of the failure.
    pub details: String,
}

impl Error {
    /// Build an error of the given kind with the given details.
    pub fn new(kind: Kind, details: &str) -> (r: Error)
        ensures
            r.kind == kind,
            r.details@ == details@,
    {
        Error { kind, details: details.to_owned() }
    }

    /// A short label for the error kind, in place of a `Display` impl.
    pub fn description(&self) -> (r: String)
        ensures
            r@.len() > 0,
    {
        let s: &str = match self.kind {
            Kind::Internal => "Internal Application Error",
            Kind::Capacity => "WebSocket at Capacity",
            Kind::Protocol => "WebSocket Protocol Error",
            Kind::Encoding => "Invalid UTF-8 Encoding",
            Kind::Http => "Unable to parse HTTP",
            Kind::Io => "IO Error",
            Kind::Queue => "Unable to send signal on event loop",
            Kind::Timer => "Unable to schedule timeout",
            Kind::Tls => "TLS Negotiation Error",
            Kind::Custom => "Custom Application Error",
        };
        proof {
            reveal_strlit("Internal Application Error");
            reveal_strlit("WebSocket at Capacity");
            reveal_strlit("WebSocket Protocol Error");
            reveal_strlit("Invalid UTF-8 Encoding");
            reveal_strlit("Unable to parse HTTP");
            reveal_strlit("IO Error");
            reveal_strlit("Unable to send signal on event loop");
            reveal_strlit("Unable to schedule timeout");
            reveal_strlit("TLS Negotiation Error");
            reveal_strlit("Custom Application Error");
        }
        s.to_owned()
    }
}

} // verus!
