//! The handler trait: the application's side of a connection, called back
//! by the event loop for everything the state machine decides.

use vstd::prelude::*;

use crate::connection::{closing_state, no_messages, Connection, Output, State};
use crate::frame::{spec_parse, Frame as WireFrame};
use crate::frame::Frame;
use crate::handshake::{Handshake, Request, Response};
use crate::message::Message;
use crate::protocol::CloseCode;
use crate::result::Error;

verus! {

/// The core trait of this library: implement it to give a WebSocket
/// application its business logic. Every method has a default, so a
/// handler implements only what it cares about.
pub trait Handler {
    /// Called when a request to shut down all connections was received.
    fn on_shutdown(&mut self) {
    }

    /// Called when the handshake succeeded and the connection is open.
    fn on_open(&mut self, shake: Handshake) -> Result<(), Error> {
        let _ = shake;
        Ok(())
    }

    /// Called for each complete incoming message.
    fn on_message(&mut self, msg: Message) -> Result<(), Error> {
        let _ = msg;
        Ok(())
    }

    /// Called once when the connection is closing.
    fn on_close(&mut self, code: CloseCode, reason: &str) {
        let _ = code;
        let _ = reason;
    }

    /// Called for any error surfaced on the connection.
    fn on_error(&mut self, err: Error) {
        let _ = err;
    }

    /// Shape the handshake response for an incoming request (server only).
    fn on_request(&mut self, req: &Request) -> Result<Response, Error> {
        Response::from_request(req, None, None)
    }

    /// Inspect the handshake response (client only).
    fn on_response(&mut self, res: &Response) -> Result<(), Error> {
        let _ = res;
        Ok(())
    }

    /// Inspect or replace an incoming frame; returning `None` suppresses
    /// the default processing.
    fn on_frame(&mut self, frame: Frame) -> Result<Option<Frame>, Error> {
        Ok(Some(frame))
    }

    /// Inspect or replace an outgoing frame; extensions apply compression
    /// and set reserved bits here. Returning `None` sends nothing.
    fn on_send_frame(&mut self, frame: Frame) -> Result<Option<Frame>, Error> {
        Ok(Some(frame))
    }

    /// Called when a scheduled timeout fires.
    fn on_timeout(&mut self, event: usize) -> Result<(), Error> {
        let _ = event;
        Ok(())
    }

    /// Called when a timeout was scheduled, with its cancellation handle.
    fn on_new_timeout(&mut self, event: usize, handle: u64) -> Result<(), Error> {
        let _ = event;
        let _ = handle;
        Ok(())
    }
}

/// Digest every buffered frame through a handler's frame hook: each
/// parsed frame passes through `on_frame` first, and returning `None`
/// suppresses the default processing (an intercepted ping queues no pong).
pub fn read_frames_with<H: Handler>(conn: &mut Connection, h: &mut H) -> (r: Result<
    Vec<Output>,
    Error,
>)
    requires
        old(conn).wf(),
        old(conn).spec_state() != State::Connecting,
    ensures
        final(conn).wf(),
        final(conn).spec_state() != State::Connecting,
        final(conn).spec_endpoint() == old(conn).spec_endpoint(),
        final(conn).spec_settings() == old(conn).spec_settings(),
        closing_state(old(conn).spec_state()) ==> closing_state(final(conn).spec_state()) && (
        match r {
            Ok(outs) => no_messages(outs@),
            Err(_) => true,
        }),
        // Progress: on success every whole buffered frame went through the
        // hook and, unless suppressed, the state machine.
        r is Ok ==> spec_parse(final(conn).spec_unread()) is Incomplete,
        // Success is owed where no hook decides: with no whole frame
        // buffered, nothing runs and nothing changes.
        spec_parse(old(conn).spec_unread()) is Incomplete ==> (r matches Ok(outs) && outs@.len()
            == 0) && *final(conn) == *old(conn),
{
    let mut outs: Vec<Output> = Vec::new();
    let ghost mut done: bool = false;
    loop
        invariant_except_break
            conn.wf(),
            conn.spec_state() != State::Connecting,
            conn.spec_endpoint() == old(conn).spec_endpoint(),
            conn.spec_settings() == old(conn).spec_settings(),
            closing_state(old(conn).spec_state()) ==> closing_state(conn.spec_state())
                && no_messages(outs@),
            !done ==> outs@.len() == 0 && *conn == *old(conn),
            done ==> !(spec_parse(old(conn).spec_unread()) is Incomplete),
        ensures
            conn.wf(),
            conn.spec_state() != State::Connecting,
            conn.spec_endpoint() == old(conn).spec_endpoint(),
            conn.spec_settings() == old(conn).spec_settings(),
            closing_state(old(conn).spec_state()) ==> closing_state(conn.spec_state())
                && no_messages(outs@),
            spec_parse(conn.spec_unread()) is Incomplete,
            spec_parse(old(conn).spec_unread()) is Incomplete ==> outs@.len() == 0 && *conn
                == *old(conn),
        decreases conn.spec_unread().len(),
    {
        let frame = match conn.next_frame() {
            Err(e) => {
                return Err(e);
            },
            Ok(None) => {
                break ;
            },
            Ok(Some(f)) => f,
        };
        proof {
            done = true;
        }
        let passed = match h.on_frame(frame) {
            Ok(p) => p,
            Err(e) => {
                return Err(e);
            },
        };
        let screened = match passed {
            Some(f2) => f2,
            None => {
                continue ;
            },
        };
        let ghost outs0 = outs@;
        let mut os = match conn.handle_frame(screened) {
            Ok(os) => os,
            Err(e) => {
                return Err(e);
            },
        };
        let ghost os0 = os@;
        outs.append(&mut os);
        proof {
            if closing_state(old(conn).spec_state()) {
                assert(outs@ =~= outs0 + os0);
                assert(no_messages(outs@));
            }
        }
    }
    Ok(outs)
}

/// Queue a whole message through the handler's outbound hook: the message
/// frame passes `on_send_frame` first, and whatever comes back is sent,
/// fragmented if oversized, with its reserved bits on every chunk.
/// Returning `None` sends nothing; a closing connection ignores the
/// request before the hook runs.
pub fn send_message_with<H: Handler>(conn: &mut Connection, h: &mut H, msg: Message) -> (r: Result<
    (),
    Error,
>)
    requires
        old(conn).wf(),
    ensures
        final(conn).wf(),
        final(conn).spec_state() == old(conn).spec_state(),
        final(conn).spec_endpoint() == old(conn).spec_endpoint(),
        final(conn).spec_settings() == old(conn).spec_settings(),
        final(conn).spec_fragments() == old(conn).spec_fragments(),
        (old(conn).spec_state() == State::AwaitingClose || old(conn).spec_state()
            == State::FinishedClose) ==> r is Ok && final(conn).spec_unsent() == old(conn).spec_unsent(),
{
    if conn.state().is_closing() {
        return Ok(());
    }
    let op = msg.opcode();
    let frame = WireFrame::message(msg.into_data(), op, true);
    match h.on_send_frame(frame) {
        Ok(Some(g)) => conn.send_frame(g),
        Ok(None) => Ok(()),
        Err(e) => Err(e),
    }
}

/// Queue a ping through the handler's outbound hook.
pub fn send_ping_with<H: Handler>(conn: &mut Connection, h: &mut H, data: Vec<u8>) -> (r: Result<
    (),
    Error,
>)
    requires
        old(conn).wf(),
    ensures
        final(conn).wf(),
        final(conn).spec_state() == old(conn).spec_state(),
        final(conn).spec_endpoint() == old(conn).spec_endpoint(),
        final(conn).spec_settings() == old(conn).spec_settings(),
        final(conn).spec_fragments() == old(conn).spec_fragments(),
        (old(conn).spec_state() == State::AwaitingClose || old(conn).spec_state()
            == State::FinishedClose) ==> r is Ok && final(conn).spec_unsent() == old(conn).spec_unsent(),
{
    if conn.state().is_closing() {
        return Ok(());
    }
    match h.on_send_frame(WireFrame::ping(data)) {
        Ok(Some(g)) => conn.send_frame(g),
        Ok(None) => Ok(()),
        Err(e) => Err(e),
    }
}

/// Queue a pong through the handler's outbound hook.
pub fn send_pong_with<H: Handler>(conn: &mut Connection, h: &mut H, data: Vec<u8>) -> (r: Result<
    (),
    Error,
>)
    requires
        old(conn).wf(),
    ensures
        final(conn).wf(),
        final(conn).spec_state() == old(conn).spec_state(),
        final(conn).spec_endpoint() == old(conn).spec_endpoint(),
        final(conn).spec_settings() == old(conn).spec_settings(),
        final(conn).spec_fragments() == old(conn).spec_fragments(),
        (old(conn).spec_state() == State::AwaitingClose || old(conn).spec_state()
            == State::FinishedClose) ==> r is Ok && final(conn).spec_unsent() == old(conn).spec_unsent(),
{
    if conn.state().is_closing() {
        return Ok(());
    }
    match h.on_send_frame(WireFrame::pong(data)) {
        Ok(Some(g)) => conn.send_frame(g),
        Ok(None) => Ok(()),
        Err(e) => Err(e),
    }
}

/// Start the close handshake through the handler's outbound hook: the
/// transition happens first, then the close frame passes `on_send_frame`
/// and whatever comes back is buffered; an already-closing connection
/// ignores the request.
pub fn send_close_with<H: Handler>(
    conn: &mut Connection,
    h: &mut H,
    code: crate::protocol::CloseCode,
    reason: &str,
) -> (r: Result<(), Error>)
    requires
        old(conn).wf(),
    ensures
        final(conn).wf(),
        final(conn).spec_endpoint() == old(conn).spec_endpoint(),
        final(conn).spec_settings() == old(conn).spec_settings(),
        final(conn).spec_state() == (match old(conn).spec_state() {
            State::Open => State::AwaitingClose,
            State::RespondingClose => State::FinishedClose,
            s => s,
        }),
        (old(conn).spec_state() == State::AwaitingClose || old(conn).spec_state()
            == State::FinishedClose) ==> r is Ok && final(conn).spec_unsent() == old(conn).spec_unsent(),
{
    if conn.state().is_closing() {
        return Ok(());
    }
    conn.begin_close();
    match h.on_send_frame(WireFrame::close(code, reason)) {
        Ok(Some(g)) => conn.send_frame(g),
        Ok(None) => Ok(()),
        Err(e) => Err(e),
    }
}

/// Deliver the state machine's outputs to a handler: messages, closes and
/// errors go to their hooks; handshake outputs are the event loop's to act
/// on and are passed over here.
pub fn dispatch_outputs<H: Handler>(h: &mut H, outs: Vec<Output>) -> (r: Result<(), Error>)
    ensures
        no_messages(outs@) ==> r is Ok,
{
    let mut rest = outs;
    loop
        invariant
            no_messages(outs@) ==> no_messages(rest@),
        decreases rest@.len(),
    {
        if rest.len() == 0 {
            return Ok(());
        }
        let out = rest.remove(0);
        match out {
            Output::Message(msg) => {
                match h.on_message(msg) {
                    Ok(()) => {},
                    Err(e) => {
                        return Err(e);
                    },
                }
            },
            Output::Close(code, reason) => {
                h.on_close(code, reason.as_str());
            },
            Output::Error(err) => {
                h.on_error(err);
            },
            Output::Open => {},
            Output::RequestReady => {},
        }
    }
}

} // verus!
