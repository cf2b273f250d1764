//! The reactor's bookkeeping: the connection table keyed by small stable
//! tokens with generation stamps, and the routing of queued commands.
//!
//! The event loop around this module performs the I/O the routing decides
//! on; what a command does to which connection is decided and checked here.

use vstd::prelude::*;
use vstd::pervasive::VecAdditionalExecFns;

use crate::connection::{
    chunk_frames, close_payload, frames_wire, masked_variant, plain_frame, Connection, Endpoint,
    Output, Settings, State,
};
use crate::frame::{wire_of, FrameView};
use crate::protocol::OpCode;
use vstd::utf8::encode_utf8;
use crate::message::Message;
use crate::protocol::CloseCode;
use crate::result::{Error, Kind};

verus! {

/// The token addressing every connection at once.
pub const ALL: usize = usize::MAX - 5;

/// The token the command queue is registered under.
pub const QUEUE: usize = usize::MAX - 3;

/// The token the timer is registered under.
pub const TIMER: usize = usize::MAX - 4;

/// The token reserved for internal events.
pub const SYSTEM: usize = usize::MAX - 6;

/// What a producer can ask of a connection or of the whole endpoint.
pub enum Signal {
    /// Send a message.
    Message(Message),
    /// Start the close handshake with this code and reason.
    Close(CloseCode, String),
    /// Send a ping with this payload.
    Ping(Vec<u8>),
    /// Send a pong with this payload.
    Pong(Vec<u8>),
    /// Dial a new connection to this URL.
    Connect(String),
    /// Close every connection and stop the event loop.
    Shutdown,
    /// Schedule a timeout for the addressed connection.
    Timeout {
        /// Milliseconds until the timeout fires.
        delay: u64,
        /// The event token handed back to the handler.
        token: usize,
    },
    /// Cancel a scheduled timeout, best effort.
    Cancel(u64),
}

/// A queued command: a target token, the generation stamp the producer
/// holds for it, and the signal.
pub struct Command {
    token: usize,
    connection_id: u32,
    signal: Signal,
}

impl Command {
    /// Address `signal` at the connection `token` had when it carried the
    /// stamp `connection_id`.
    pub fn new(token: usize, connection_id: u32, signal: Signal) -> (r: Command)
        ensures
            r.spec_token() == token,
            r.spec_connection_id() == connection_id,
    {
        Command { token, connection_id, signal }
    }

    /// The addressed token.
    pub closed spec fn spec_token(&self) -> usize {
        self.token
    }

    /// The generation stamp the producer holds.
    pub closed spec fn spec_connection_id(&self) -> u32 {
        self.connection_id
    }

    /// The addressed token.
    pub fn token(&self) -> (r: usize)
        ensures
            r == self.spec_token(),
    {
        self.token
    }

    /// The generation stamp the producer holds.
    pub fn connection_id(&self) -> (r: u32)
        ensures
            r == self.spec_connection_id(),
    {
        self.connection_id
    }

    /// The signal the command carries.
    pub closed spec fn spec_signal(&self) -> Signal {
        self.signal
    }

    /// Borrow the signal the command carries.
    pub fn signal_ref(&self) -> (r: &Signal)
        ensures
            r == self.spec_signal(),
    {
        &self.signal
    }

    /// Take the signal out of the command.
    pub fn into_signal(self) -> (r: Signal)
        ensures
            r == self.spec_signal(),
    {
        self.signal
    }
}

/// I/O work that routing decides on but only the event loop can perform.
pub enum Action {
    /// Dial a new connection to this URL.
    Connect(String),
    /// Schedule a timeout.
    SetTimeout {
        /// The connection the timeout belongs to.
        connection: usize,
        /// The event token handed back to the handler.
        event: usize,
        /// Milliseconds until the timeout fires.
        delay: u64,
    },
    /// Cancel a scheduled timeout.
    Cancel(u64),
    /// The endpoint is shutting down.
    Shutdown,
}

/// How many slots of a table hold a connection.
pub open spec fn occupied(s: Seq<Option<Connection>>) -> int
    decreases s.len(),
{
    if s.len() == 0 {
        0
    } else {
        occupied(s.drop_last()) + (if s.last() is Some {
            1int
        } else {
            0int
        })
    }
}

/// The connection table: a slab of connections under stable small tokens,
/// each entry stamped with a generation so that commands aimed at a dead
/// connection whose token was reused fall silently to the floor.
pub struct Hub {
    conns: Vec<Option<Connection>>,
    next_connection_id: u32,
    active: bool,
    settings: Settings,
}

impl Hub {
    /// The connection table as the specification sees it.
    pub closed spec fn spec_conns(&self) -> Seq<Option<Connection>> {
        self.conns@
    }

    /// The generation stamp the next connection will carry.
    pub closed spec fn spec_next_id(&self) -> u32 {
        self.next_connection_id
    }

    /// Whether the event loop should keep running.
    pub closed spec fn spec_active(&self) -> bool {
        self.active
    }

    /// The settings every new connection is built with.
    pub closed spec fn spec_settings(&self) -> Settings {
        self.settings
    }

    /// Every present connection is well-formed, keyed by its own token,
    /// and built with the table's settings.
    pub open spec fn wf(&self) -> bool {
        &&& (forall|i: int|
            0 <= i < self.spec_conns().len() ==> ((#[trigger] self.spec_conns()[i]) matches Some(c)
                ==> c.wf() && c.spec_token() == i && c.spec_settings() == self.spec_settings()))
        &&& self.spec_settings().fragment_size > 0
        &&& self.spec_conns().len() < ALL
    }

    /// An empty table.
    pub fn new(settings: Settings) -> (r: Hub)
        requires
            settings.fragment_size > 0,
        ensures
            r.wf(),
            r.spec_conns().len() == 0,
            !r.spec_active(),
            r.spec_settings() == settings,
    {
        Hub { conns: Vec::new(), next_connection_id: 0, active: false, settings }
    }

    /// Mark the event loop running or stopped.
    pub fn set_active(&mut self, active: bool)
        requires
            old(self).wf(),
        ensures
            final(self).wf(),
            final(self).spec_active() == active,
            final(self).spec_conns() == old(self).spec_conns(),
    {
        self.active = active;
    }

    /// Whether the event loop should keep running.
    pub fn is_active(&self) -> (r: bool)
        ensures
            r == self.spec_active(),
    {
        self.active
    }

    /// How many connections are present.
    pub fn count(&self) -> (r: usize)
        ensures
            r == occupied(self.spec_conns()),
            r <= self.spec_conns().len(),
    {
        let mut c: usize = 0;
        let n = self.conns.len();
        for j in 0..n
            invariant
                c <= j <= n,
                n == self.spec_conns().len(),
                c == occupied(self.spec_conns().take(j as int)),
        {
            proof {
                let t = self.spec_conns().take(j + 1);
                assert(t.drop_last() =~= self.spec_conns().take(j as int));
                assert(t.last() == self.spec_conns()[j as int]);
            }
            if self.conns[j].is_some() {
                c = c + 1;
            }
        }
        proof {
            assert(self.spec_conns().take(n as int) =~= self.spec_conns());
        }
        c
    }

    /// Make a fresh connection under the lowest vacant token, stamped with
    /// the next generation; fails with a capacity error when the table is
    /// at `max_connections`.
    pub fn add_connection(&mut self) -> (r: Result<usize, Error>)
        requires
            old(self).wf(),
        ensures
            final(self).wf(),
            final(self).spec_settings() == old(self).spec_settings(),
            final(self).spec_active() == old(self).spec_active(),
            match r {
                Ok(tok) => {
                    &&& tok < final(self).spec_conns().len()
                    &&& (final(self).spec_conns()[tok as int] matches Some(c)
                        && c.spec_connection_id() == old(self).spec_next_id()
                        && c.spec_state() == crate::connection::State::Connecting)
                    &&& occupied(old(self).spec_conns()) < old(self).spec_settings().max_connections
                    // the lowest vacant slot wins
                    &&& (forall|k: int|
                        0 <= k < tok ==> (#[trigger] old(self).spec_conns()[k]) is Some)
                    &&& (tok as int == old(self).spec_conns().len() || old(self).spec_conns()[tok as int] is None)
                    // nothing else moved
                    &&& (forall|k: int|
                        0 <= k < old(self).spec_conns().len() && k != tok ==> (
                        #[trigger] final(self).spec_conns()[k]) == old(self).spec_conns()[k])
                },
                Err(e) => e.kind == Kind::Capacity && final(self).spec_conns() == old(self).spec_conns() && (occupied(old(self).spec_conns()) >= old(self).spec_settings().max_connections || old(self).spec_conns().len() + 1 >= ALL),
            },
    {
        if self.count() >= self.settings.max_connections {
            return Err(
                Error::new(Kind::Capacity, "Unable to add another connection to the event loop."),
            );
        }
        let id = self.next_connection_id;
        self.next_connection_id = self.next_connection_id.wrapping_add(1u32);
        let n = self.conns.len();
        let mut j: usize = 0;
        while j < n
            invariant
                j <= n,
                n == self.spec_conns().len(),
                self.wf(),
                self.spec_settings() == old(self).spec_settings(),
                self.spec_active() == old(self).spec_active(),
                id == old(self).spec_next_id(),
                self.spec_conns() == old(self).spec_conns(),
                occupied(old(self).spec_conns()) < old(self).spec_settings().max_connections,
                forall|k: int| 0 <= k < j ==> (#[trigger] old(self).spec_conns()[k]) is Some,
            decreases n - j,
        {
            if self.conns[j].is_none() {
                let conn = Connection::new(j, id, self.settings);
                self.conns.set(j, Some(conn));
                return Ok(j);
            }
            j = j + 1;
        }
        if n + 1 >= ALL {
            return Err(
                Error::new(Kind::Capacity, "Unable to add another connection to the event loop."),
            );
        }
        let conn = Connection::new(n, id, self.settings);
        self.conns.push(Some(conn));
        return Ok(n);
    }

    /// Take the connection registered under `token` out of the table; the
    /// caller operates on it and puts it back (or drops it).
    pub fn take(&mut self, token: usize) -> (r: Option<Connection>)
        requires
            old(self).wf(),
        ensures
            final(self).wf(),
            final(self).spec_settings() == old(self).spec_settings(),
            final(self).spec_active() == old(self).spec_active(),
            match r {
                Some(c) => {
                    &&& token < old(self).spec_conns().len()
                    &&& old(self).spec_conns()[token as int] == Some(c)
                    &&& c.wf()
                    &&& c.spec_token() == token
                    &&& c.spec_settings() == old(self).spec_settings()
                    &&& final(self).spec_conns() == old(self).spec_conns().update(
                        token as int,
                        None,
                    )
                },
                None => final(self).spec_conns() == old(self).spec_conns() && (token < old(self).spec_conns().len() ==> old(self).spec_conns()[token as int] is None),
            },
    {
        if token >= self.conns.len() {
            proof {
                assert(final(self).spec_conns() =~= old(self).spec_conns());
            }
            return None;
        }
        let mut slot: Option<Connection> = None;
        self.conns.set_and_swap(token, &mut slot);
        match slot {
            Some(c) => Some(c),
            None => {
                // The slot was vacant; the swap wrote the same vacancy back.
                proof {
                    assert(self.spec_conns() =~= old(self).spec_conns());
                }
                None
            },
        }
    }

    /// Put a connection back under its own token.
    pub fn put_back(&mut self, conn: Connection)
        requires
            old(self).wf(),
            conn.wf(),
            conn.spec_token() < old(self).spec_conns().len(),
            conn.spec_settings() == old(self).spec_settings(),
        ensures
            final(self).wf(),
            final(self).spec_settings() == old(self).spec_settings(),
            final(self).spec_active() == old(self).spec_active(),
            final(self).spec_conns() == old(self).spec_conns().update(
                conn.spec_token() as int,
                Some(conn),
            ),
    {
        let tok = conn.token();
        self.conns.set(tok, Some(conn));
    }

    /// Route one queued command. Commands to `ALL` fan out over the whole
    /// table; a command whose generation stamp no longer matches the
    /// connection under its token is dropped without effect (the reused
    /// token belongs to someone else now). I/O the routing asks for comes
    /// back as actions; everything owed to handlers comes back as outputs
    /// paired with the token they belong to.
    pub fn handle_command(&mut self, cmd: Command) -> (r: (Vec<(usize, Output)>, Vec<Action>))
        requires
            old(self).wf(),
        ensures
            final(self).wf(),
            final(self).spec_settings() == old(self).spec_settings(),
            // Internal tokens carry nothing.
            cmd.spec_token() == SYSTEM ==> r.0@.len() == 0 && r.1@.len() == 0 && final(self).spec_conns() == old(self).spec_conns() && final(self).spec_active() == old(self).spec_active(),
            // Connects, timeouts and cancellations become exactly the one
            // action the event loop must perform; shutdown stops the loop
            // and reaches every connection.
            cmd.spec_token() != SYSTEM ==> ({
                &&& (cmd.spec_signal() matches Signal::Connect(url) ==> r.0@.len() == 0 && r.1@
                    =~= seq![Action::Connect(url)] && final(self).spec_conns() == old(self).spec_conns())
                &&& (cmd.spec_signal() matches Signal::Timeout { delay, token: event } ==> r.0@.len()
                    == 0 && r.1@ =~= seq![
                    Action::SetTimeout { connection: cmd.spec_token(), event, delay },
                ] && final(self).spec_conns() == old(self).spec_conns())
                &&& (cmd.spec_signal() matches Signal::Cancel(h) ==> r.0@.len() == 0 && r.1@
                    =~= seq![Action::Cancel(h)] && final(self).spec_conns() == old(self).spec_conns())
                &&& (cmd.spec_signal() is Shutdown ==> !final(self).spec_active() && r.1@ =~= seq![
                    Action::Shutdown,
                ] && final(self).spec_conns().len() == old(self).spec_conns().len() && (forall|
                    i: int,
                |
                    0 <= i < old(self).spec_conns().len() ==> ((#[trigger] final(self).spec_conns()[i]) is Some) == (old(self).spec_conns()[i] is Some)))
            }),
            // A send aimed at a token whose generation stamp no longer
            // matches falls silently to the floor: the reused token
            // belongs to someone else now.
            (cmd.spec_token() != SYSTEM && cmd.spec_token() != ALL && (cmd.spec_signal()
                is Message || cmd.spec_signal() is Close || cmd.spec_signal() is Ping
                || cmd.spec_signal() is Pong) && !(cmd.spec_token() < old(self).spec_conns().len() && (old(self).spec_conns()[cmd.spec_token() as int]
                matches Some(c) && c.spec_connection_id() == cmd.spec_connection_id()))) ==> final(self).spec_conns() == old(self).spec_conns() && r.0@.len() == 0 && r.1@.len() == 0,
            // A send whose stamp matches reaches exactly its connection,
            // extending that connection's unsent bytes per the send rules.
            (cmd.spec_token() != SYSTEM && cmd.spec_token() != ALL && cmd.spec_token() < old(self).spec_conns().len() && (old(self).spec_conns()[cmd.spec_token() as int]
                matches Some(cc) && cc.spec_connection_id() == cmd.spec_connection_id()) && old(self).spec_settings().out_buffer_grow) ==> ({
                let tok = cmd.spec_token() as int;
                let c = old(self).spec_conns()[tok].unwrap();
                let quiet = c.spec_state() == State::AwaitingClose || c.spec_state()
                    == State::FinishedClose;
                let client = c.spec_endpoint() == Endpoint::Client;
                &&& ((cmd.spec_signal() is Message || cmd.spec_signal() is Close
                    || cmd.spec_signal() is Ping || cmd.spec_signal() is Pong) ==> r.1@.len()
                    == 0 && r.0@.len() == 0 && final(self).spec_conns() == old(self).spec_conns().update(tok, final(self).spec_conns()[tok]) && (final(self).spec_conns()[tok] matches Some(c2) ==> c2.spec_connection_id()
                    == c.spec_connection_id()))
                &&& (cmd.spec_signal() matches Signal::Ping(data) ==> (final(self).spec_conns()[tok] matches Some(c2) && c2.spec_state() == c.spec_state() && (
                if quiet {
                    c2.spec_unsent() == c.spec_unsent()
                } else {
                    exists|g: FrameView|
                        masked_variant(plain_frame(OpCode::Ping, data@), g, client)
                            && c2.spec_unsent() == c.spec_unsent() + #[trigger] wire_of(g)
                })))
                &&& (cmd.spec_signal() matches Signal::Pong(data) ==> (final(self).spec_conns()[tok] matches Some(c2) && c2.spec_state() == c.spec_state() && (
                if quiet {
                    c2.spec_unsent() == c.spec_unsent()
                } else {
                    exists|g: FrameView|
                        masked_variant(plain_frame(OpCode::Pong, data@), g, client)
                            && c2.spec_unsent() == c.spec_unsent() + #[trigger] wire_of(g)
                })))
                &&& (cmd.spec_signal() matches Signal::Close(code, reason) ==> (final(self).spec_conns()[tok] matches Some(c2) && c2.spec_state() == (
                match c.spec_state() {
                    State::Open => State::AwaitingClose,
                    State::RespondingClose => State::FinishedClose,
                    s => s,
                }) && (if quiet {
                    c2.spec_unsent() == c.spec_unsent()
                } else {
                    exists|g: FrameView|
                        masked_variant(
                            plain_frame(OpCode::Close, close_payload(code, encode_utf8(reason@))),
                            g,
                            client,
                        ) && c2.spec_unsent() == c.spec_unsent() + #[trigger] wire_of(g)
                })))
                &&& (cmd.spec_signal() matches Signal::Message(msg) ==> (final(self).spec_conns()[tok] matches Some(c2) && c2.spec_state() == c.spec_state() && (
                if quiet {
                    c2.spec_unsent() == c.spec_unsent()
                } else {
                    exists|gs: Seq<FrameView>|
                        {
                            let fr = chunk_frames(
                                msg.spec_data(),
                                match msg {
                                    Message::Text(_) => OpCode::Text,
                                    Message::Binary(_) => OpCode::Binary,
                                },
                                c.spec_settings().fragment_size as int,
                                true,
                                false,
                                false,
                                false,
                            );
                            &&& gs.len() == fr.len()
                            &&& (forall|i: int|
                                0 <= i < gs.len() ==> masked_variant(
                                    fr[i],
                                    #[trigger] gs[i],
                                    client,
                                ))
                            &&& c2.spec_unsent() == c.spec_unsent() + #[trigger] frames_wire(gs)
                        }
                })))
            }),
    {
        let token = cmd.token();
        let connection_id = cmd.connection_id();
        let signal = cmd.into_signal();
        let mut outs: Vec<(usize, Output)> = Vec::new();
        let mut acts: Vec<Action> = Vec::new();
        if token == SYSTEM {
            return (outs, acts);
        }
        if token == ALL {
            match signal {
                Signal::Connect(url) => {
                    acts.push(Action::Connect(url));
                    return (outs, acts);
                },
                Signal::Shutdown => {
                    self.shutdown(&mut outs);
                    acts.push(Action::Shutdown);
                    return (outs, acts);
                },
                Signal::Timeout { delay, token: event } => {
                    acts.push(Action::SetTimeout { connection: ALL, event, delay });
                    return (outs, acts);
                },
                Signal::Cancel(handle) => {
                    acts.push(Action::Cancel(handle));
                    return (outs, acts);
                },
                Signal::Message(msg) => {
                    self.broadcast_message(msg, &mut outs);
                    return (outs, acts);
                },
                Signal::Close(code, reason) => {
                    self.broadcast_close(code, reason, &mut outs);
                    return (outs, acts);
                },
                Signal::Ping(data) => {
                    self.broadcast_ping(data, true, &mut outs);
                    return (outs, acts);
                },
                Signal::Pong(data) => {
                    self.broadcast_ping(data, false, &mut outs);
                    return (outs, acts);
                },
            }
        }
        match signal {
            Signal::Connect(url) => {
                acts.push(Action::Connect(url));
                return (outs, acts);
            },
            Signal::Shutdown => {
                self.shutdown(&mut outs);
                acts.push(Action::Shutdown);
                return (outs, acts);
            },
            Signal::Timeout { delay, token: event } => {
                acts.push(Action::SetTimeout { connection: token, event, delay });
                return (outs, acts);
            },
            Signal::Cancel(handle) => {
                acts.push(Action::Cancel(handle));
                return (outs, acts);
            },
            Signal::Message(msg) => {
                let conn = self.take(token);
                match conn {
                    Some(mut c) => {
                        if c.connection_id() == connection_id {
                            match c.send_message(msg) {
                                Ok(()) => {},
                                Err(e) => {
                                    self.deliver_error(&mut c, e, &mut outs);
                                },
                            }
                        }
                        self.put_back(c);
                    },
                    None => {},
                }
                return (outs, acts);
            },
            Signal::Close(code, reason) => {
                let conn = self.take(token);
                match conn {
                    Some(mut c) => {
                        if c.connection_id() == connection_id {
                            match c.send_close(code, reason.as_str()) {
                                Ok(()) => {},
                                Err(e) => {
                                    self.deliver_error(&mut c, e, &mut outs);
                                },
                            }
                        }
                        self.put_back(c);
                    },
                    None => {},
                }
                return (outs, acts);
            },
            Signal::Ping(data) => {
                let conn = self.take(token);
                match conn {
                    Some(mut c) => {
                        if c.connection_id() == connection_id {
                            match c.send_ping(data) {
                                Ok(()) => {},
                                Err(e) => {
                                    self.deliver_error(&mut c, e, &mut outs);
                                },
                            }
                        }
                        self.put_back(c);
                    },
                    None => {},
                }
                return (outs, acts);
            },
            Signal::Pong(data) => {
                let conn = self.take(token);
                match conn {
                    Some(mut c) => {
                        if c.connection_id() == connection_id {
                            match c.send_pong(data) {
                                Ok(()) => {},
                                Err(e) => {
                                    self.deliver_error(&mut c, e, &mut outs);
                                },
                            }
                        }
                        self.put_back(c);
                    },
                    None => {},
                }
                return (outs, acts);
            },
        }
    }

    /// Feed a failure into a connection's error classifier and collect
    /// what it owes the handler; when the matching panic setting forbids
    /// classifying in checked code, the error still surfaces as an output
    /// for the event loop to act on.
    fn deliver_error(&self, c: &mut Connection, e: Error, outs: &mut Vec<(usize, Output)>)
        requires
            old(c).wf(),
            old(c).spec_settings() == self.spec_settings(),
        ensures
            final(c).wf(),
            final(c).spec_token() == old(c).spec_token(),
            final(c).spec_settings() == old(c).spec_settings(),
    {
        let s = &self.settings;
        let skip = match e.kind {
            Kind::Internal => s.panic_on_internal,
            Kind::Capacity => s.panic_on_capacity,
            Kind::Protocol => s.panic_on_protocol,
            Kind::Encoding => s.panic_on_encoding,
            Kind::Queue => s.panic_on_queue,
            Kind::Timer => s.panic_on_timeout,
            Kind::Io | Kind::Tls => s.panic_on_io,
            _ => false,
        };
        let tok = c.token();
        if skip {
            outs.push((tok, Output::Error(e)));
            return ;
        }
        let os = c.error(e);
        let mut rest = os;
        loop
            decreases rest@.len(),
        {
            if rest.len() == 0 {
                break ;
            }
            let o = rest.remove(0);
            outs.push((tok, o));
        }
    }

    /// Start the close handshake everywhere and mark the loop inactive.
    fn shutdown(&mut self, outs: &mut Vec<(usize, Output)>)
        requires
            old(self).wf(),
        ensures
            final(self).wf(),
            final(self).spec_settings() == old(self).spec_settings(),
            !final(self).spec_active(),
            final(self).spec_conns().len() == old(self).spec_conns().len(),
            forall|i: int|
                0 <= i < old(self).spec_conns().len() ==> ((#[trigger] final(self).spec_conns()[i])
                    is Some) == (old(self).spec_conns()[i] is Some),
            // Every connection enters the close handshake.
            forall|i: int|
                0 <= i < old(self).spec_conns().len() ==> ((#[trigger] old(self).spec_conns()[i])
                    matches Some(c) ==> (final(self).spec_conns()[i] matches Some(c2)
                    && c2.spec_state() == (match c.spec_state() {
                    crate::connection::State::Open => crate::connection::State::AwaitingClose,
                    crate::connection::State::RespondingClose
                        => crate::connection::State::FinishedClose,
                    s => s,
                }))),
    {
        let n = self.conns.len();
        let mut j: usize = 0;
        while j < n
            invariant
                j <= n,
                self.wf(),
                n == self.spec_conns().len(),
                n == old(self).spec_conns().len(),
                self.spec_settings() == old(self).spec_settings(),
                forall|i: int|
                    j <= i < n ==> (#[trigger] self.spec_conns()[i]) == old(self).spec_conns()[i],
                forall|i: int|
                    0 <= i < j ==> ((#[trigger] self.spec_conns()[i]) is Some) == (old(self).spec_conns()[i] is Some),
                forall|i: int|
                    0 <= i < j ==> ((#[trigger] old(self).spec_conns()[i]) matches Some(c) ==> (
                    self.spec_conns()[i] matches Some(c2) && c2.spec_state() == (
                    match c.spec_state() {
                        crate::connection::State::Open
                            => crate::connection::State::AwaitingClose,
                        crate::connection::State::RespondingClose
                            => crate::connection::State::FinishedClose,
                        s => s,
                    }))),
            decreases n - j,
        {
            let conn = self.take(j);
            match conn {
                Some(mut c) => {
                    let os = c.shutdown();
                    let tok = c.token();
                    self.put_back(c);
                    let mut rest = os;
                    loop
                        decreases rest@.len(),
                    {
                        if rest.len() == 0 {
                            break ;
                        }
                        let o = rest.remove(0);
                        outs.push((tok, o));
                    }
                },
                None => {},
            }
            j = j + 1;
        }
        self.active = false;
    }

    /// Send a message on every connection.
    fn broadcast_message(&mut self, msg: Message, outs: &mut Vec<(usize, Output)>)
        requires
            old(self).wf(),
        ensures
            final(self).wf(),
            final(self).spec_settings() == old(self).spec_settings(),
            final(self).spec_conns().len() == old(self).spec_conns().len(),
            forall|i: int|
                0 <= i < old(self).spec_conns().len() ==> ((#[trigger] final(self).spec_conns()[i])
                    is Some) == (old(self).spec_conns()[i] is Some),
    {
        let n = self.conns.len();
        let mut j: usize = 0;
        while j < n
            invariant
                j <= n,
                self.wf(),
                n == self.spec_conns().len(),
                n == old(self).spec_conns().len(),
                self.spec_settings() == old(self).spec_settings(),
                forall|i: int|
                    j <= i < n ==> (#[trigger] self.spec_conns()[i]) == old(self).spec_conns()[i],
                forall|i: int|
                    0 <= i < j ==> ((#[trigger] self.spec_conns()[i]) is Some) == (old(self).spec_conns()[i] is Some),
            decreases n - j,
        {
            let conn = self.take(j);
            match conn {
                Some(mut c) => {
                    match c.send_message(msg.clone()) {
                        Ok(()) => {},
                        Err(e) => {
                            self.deliver_error(&mut c, e, outs);
                        },
                    }
                    self.put_back(c);
                },
                None => {},
            }
            j = j + 1;
        }
    }

    /// Start the close handshake on every connection.
    fn broadcast_close(&mut self, code: CloseCode, reason: String, outs: &mut Vec<(usize, Output)>)
        requires
            old(self).wf(),
        ensures
            final(self).wf(),
            final(self).spec_settings() == old(self).spec_settings(),
            final(self).spec_conns().len() == old(self).spec_conns().len(),
            forall|i: int|
                0 <= i < old(self).spec_conns().len() ==> ((#[trigger] final(self).spec_conns()[i])
                    is Some) == (old(self).spec_conns()[i] is Some),
    {
        let n = self.conns.len();
        let mut j: usize = 0;
        while j < n
            invariant
                j <= n,
                self.wf(),
                n == self.spec_conns().len(),
                n == old(self).spec_conns().len(),
                self.spec_settings() == old(self).spec_settings(),
                forall|i: int|
                    j <= i < n ==> (#[trigger] self.spec_conns()[i]) == old(self).spec_conns()[i],
                forall|i: int|
                    0 <= i < j ==> ((#[trigger] self.spec_conns()[i]) is Some) == (old(self).spec_conns()[i] is Some),
            decreases n - j,
        {
            let conn = self.take(j);
            match conn {
                Some(mut c) => {
                    match c.send_close(code, reason.as_str()) {
                        Ok(()) => {},
                        Err(e) => {
                            self.deliver_error(&mut c, e, outs);
                        },
                    }
                    self.put_back(c);
                },
                None => {},
            }
            j = j + 1;
        }
    }

    /// Send a ping (or pong) on every connection.
    fn broadcast_ping(&mut self, data: Vec<u8>, ping: bool, outs: &mut Vec<(usize, Output)>)
        requires
            old(self).wf(),
        ensures
            final(self).wf(),
            final(self).spec_settings() == old(self).spec_settings(),
            final(self).spec_conns().len() == old(self).spec_conns().len(),
            forall|i: int|
                0 <= i < old(self).spec_conns().len() ==> ((#[trigger] final(self).spec_conns()[i])
                    is Some) == (old(self).spec_conns()[i] is Some),
    {
        let n = self.conns.len();
        let mut j: usize = 0;
        while j < n
            invariant
                j <= n,
                self.wf(),
                n == self.spec_conns().len(),
                n == old(self).spec_conns().len(),
                self.spec_settings() == old(self).spec_settings(),
                forall|i: int|
                    j <= i < n ==> (#[trigger] self.spec_conns()[i]) == old(self).spec_conns()[i],
                forall|i: int|
                    0 <= i < j ==> ((#[trigger] self.spec_conns()[i]) is Some) == (old(self).spec_conns()[i] is Some),
            decreases n - j,
        {
            let conn = self.take(j);
            match conn {
                Some(mut c) => {
                    let payload = crate::text::bytes_to_vec(data.as_slice());
                    let rr = if ping {
                        c.send_ping(payload)
                    } else {
                        c.send_pong(payload)
                    };
                    match rr {
                        Ok(()) => {},
                        Err(e) => {
                            self.deliver_error(&mut c, e, outs);
                        },
                    }
                    self.put_back(c);
                },
                None => {},
            }
            j = j + 1;
        }
    }

    /// Whether the whole endpoint should exit: no connection remains and
    /// either a shutdown was requested or this is a pure client.
    pub fn should_exit(&self, is_client: bool) -> (r: bool)
        ensures
            r == (occupied(self.spec_conns()) == 0 && (!self.spec_active() || is_client)),
    {
        let c = self.count();
        c == 0 && (!self.is_active() || is_client)
    }
}

} // verus!
