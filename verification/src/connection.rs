//! The per-connection WebSocket state machine: handshake buffers, frame
//! intake and message assembly, the close handshake, and outbound framing.
//!
//! The connection owns no socket. The surrounding event loop hands it the
//! bytes it read and drains the bytes the connection buffered; everything
//! the connection decides about those bytes is stated here and checked.

use vstd::prelude::*;
use vstd::utf8::{decode_utf8, encode_utf8, valid_utf8};

use crate::frame::{spec_parse, wire_of, Frame, FrameView, SpecParse};
use crate::handshake::{Request, Response};
use crate::http::head_complete;
use crate::message::Message;
use crate::protocol::{
    close_code_value, is_control_opcode, spec_acceptable_close_code, CloseCode, OpCode,
};
use crate::result::{Error, Kind};

verus! {

/// Where a connection stands in its lifecycle.
#[derive(Clone, Copy, Debug, PartialEq, Eq, Structural)]
pub enum State {
    /// The TCP connection stands, the upgrade handshake does not yet.
    Connecting,
    /// Ready to send and receive messages.
    Open,
    /// We sent a close frame and await the peer's.
    AwaitingClose,
    /// The peer sent a close frame; our reply is owed or buffered.
    RespondingClose,
    /// The close handshake is complete.
    FinishedClose,
}

impl State {
    /// True while the handshake is unfinished.
    pub fn is_connecting(&self) -> (r: bool)
        ensures
            r == (*self == State::Connecting),
    {
        match self {
            State::Connecting => true,
            _ => false,
        }
    }

    /// True when the connection is open for messages.
    pub fn is_open(&self) -> (r: bool)
        ensures
            r == (*self == State::Open),
    {
        match self {
            State::Open => true,
            _ => false,
        }
    }

    /// True when we closed first, or the close handshake is finished.
    pub fn is_closing(&self) -> (r: bool)
        ensures
            r == (*self == State::AwaitingClose || *self == State::FinishedClose),
    {
        match self {
            State::AwaitingClose => true,
            State::FinishedClose => true,
            _ => false,
        }
    }
}

/// True of the states in which no further message may be delivered.
pub open spec fn closing_state(s: State) -> bool {
    s == State::AwaitingClose || s == State::RespondingClose || s == State::FinishedClose
}

/// Which side of the connection this endpoint is.
#[derive(Clone, Copy, Debug, PartialEq, Eq, Structural)]
pub enum Endpoint {
    /// Masks every outgoing frame.
    Client,
    /// Never masks outgoing frames.
    Server,
}

/// The readiness interests a connection asks its event loop for.
#[derive(Clone, Copy, Debug, PartialEq, Eq, Structural)]
pub struct EventSet {
    /// Interested in readable readiness.
    pub readable: bool,
    /// Interested in writable readiness.
    pub writable: bool,
    /// Interested in hangup notification.
    pub hup: bool,
}

impl EventSet {
    /// No interests: the event loop drops the connection.
    pub fn none() -> (r: EventSet)
        ensures
            r == (EventSet { readable: false, writable: false, hup: false }),
    {
        EventSet { readable: false, writable: false, hup: false }
    }

    /// True when no interest is left.
    pub fn is_none(&self) -> (r: bool)
        ensures
            r == (!self.readable && !self.writable && !self.hup),
    {
        !self.readable && !self.writable && !self.hup
    }
}

/// Tunable behaviour of an endpoint.
#[derive(Clone, Copy, Debug)]
pub struct Settings {
    /// The maximum number of simultaneous connections.
    pub max_connections: usize,
    /// Queued commands allowed per connection.
    pub queue_size: usize,
    /// The number of fragments held without reallocating.
    pub fragments_capacity: usize,
    /// Whether to grow past `fragments_capacity` rather than fail.
    pub fragments_grow: bool,
    /// The longest frame payload sent without fragmenting.
    pub fragment_size: usize,
    /// Initial capacity of the inbound buffer.
    pub in_buffer_capacity: usize,
    /// Whether the inbound buffer may grow past its capacity.
    pub in_buffer_grow: bool,
    /// Initial capacity of the outbound buffer.
    pub out_buffer_capacity: usize,
    /// Whether the outbound buffer may grow past its capacity.
    pub out_buffer_grow: bool,
    /// Reject frames whose masking does not fit the peer's role.
    pub masking_strict: bool,
    /// Verify the Sec-WebSocket-Accept key on the client side.
    pub key_strict: bool,
    /// Require the GET method on handshake requests.
    pub method_strict: bool,
    /// Encrypt accepted connections.
    pub encrypt_server: bool,
    /// Set TCP_NODELAY on new sockets.
    pub tcp_nodelay: bool,
    /// Stop the event loop on interrupt.
    pub shutdown_on_interrupt: bool,
    /// Panic when a new TCP connection cannot be established.
    pub panic_on_new_connection: bool,
    /// Panic when a shutdown is requested.
    pub panic_on_shutdown: bool,
    /// Panic on internal errors.
    pub panic_on_internal: bool,
    /// Panic on capacity errors.
    pub panic_on_capacity: bool,
    /// Panic on protocol errors.
    pub panic_on_protocol: bool,
    /// Panic on encoding errors.
    pub panic_on_encoding: bool,
    /// Panic on queue errors.
    pub panic_on_queue: bool,
    /// Panic on io errors.
    pub panic_on_io: bool,
    /// Panic on timer errors.
    pub panic_on_timeout: bool,
}

impl Default for Settings {
    /// The defaults: 100 connections, queue of 5 each, fragments of up to
    /// 65535 bytes, growable 2048-byte buffers, and lenient checking.
    fn default() -> (r: Settings)
        ensures
            r.max_connections == 100,
            r.queue_size == 5,
            r.fragments_capacity == 10,
            r.fragments_grow,
            r.fragment_size == 65535,
            r.in_buffer_capacity == 2048,
            r.in_buffer_grow,
            r.out_buffer_capacity == 2048,
            r.out_buffer_grow,
            !r.masking_strict,
            !r.key_strict,
            !r.method_strict,
            !r.encrypt_server,
            !r.tcp_nodelay,
            r.shutdown_on_interrupt,
            !r.panic_on_new_connection,
            !r.panic_on_shutdown,
            r.panic_on_internal,
            !r.panic_on_capacity,
            !r.panic_on_protocol,
            !r.panic_on_encoding,
            !r.panic_on_queue,
            !r.panic_on_io,
            !r.panic_on_timeout,
    {
        Settings {
            max_connections: 100,
            queue_size: 5,
            fragments_capacity: 10,
            fragments_grow: true,
            fragment_size: 65535,
            in_buffer_capacity: 2048,
            in_buffer_grow: true,
            out_buffer_capacity: 2048,
            out_buffer_grow: true,
            masking_strict: false,
            key_strict: false,
            method_strict: false,
            encrypt_server: false,
            tcp_nodelay: false,
            shutdown_on_interrupt: true,
            panic_on_new_connection: false,
            panic_on_shutdown: false,
            panic_on_internal: true,
            panic_on_capacity: false,
            panic_on_protocol: false,
            panic_on_encoding: false,
            panic_on_queue: false,
            panic_on_io: false,
            panic_on_timeout: false,
        }
    }
}

/// What the state machine owes the handler after digesting input: the event
/// loop delivers each entry to the corresponding handler method.
#[derive(Debug)]
pub enum Output {
    /// A complete handshake request awaits the handler's response.
    RequestReady,
    /// The handshake finished; `on_open` is owed.
    Open,
    /// A whole message arrived; `on_message` is owed.
    Message(Message),
    /// The connection is closing; `on_close` is owed with this code and
    /// reason.
    Close(CloseCode, String),
    /// An error surfaced; `on_error` is owed.
    Error(Error),
}

/// True when no entry of `outs` delivers a message.
pub open spec fn no_messages(outs: Seq<Output>) -> bool {
    forall|i: int| 0 <= i < outs.len() ==> !(#[trigger] outs[i] is Message)
}

/// `g` is `f` as it leaves this endpoint: identical in every field except
/// that a client adds a four-byte mask and a server adds none.
pub open spec fn masked_variant(f: FrameView, g: FrameView, client: bool) -> bool {
    &&& g.fin == f.fin
    &&& g.rsv1 == f.rsv1
    &&& g.rsv2 == f.rsv2
    &&& g.rsv3 == f.rsv3
    &&& g.opcode == f.opcode
    &&& g.payload == f.payload
    &&& if client {
        g.mask matches Some(m) && m.len() == 4
    } else {
        g.mask is None
    }
}

/// Every outbound frame of a client endpoint carries the mask bit on the
/// wire, and no outbound frame of a server endpoint does.
pub proof fn lemma_outbound_mask_bit(f: FrameView, g: FrameView, client: bool)
    requires
        masked_variant(f, g, client),
    ensures
        ((wire_of(g)[1] & 0x80) != 0) == client,
{
    crate::frame::lemma_wire_mask_bit(g);
}

/// A received frame violates strict masking: a client got a masked frame
/// (servers never mask) or a server an unmasked one (clients always mask).
pub open spec fn masking_violation(settings: Settings, endpoint: Endpoint, f: FrameView) -> bool {
    settings.masking_strict && ((f.mask is Some && endpoint == Endpoint::Client) || (f.mask is None
        && endpoint == Endpoint::Server))
}

/// The ways the first buffered frame alone is already a protocol
/// violation: unparseable framing, masking that does not fit the peer's
/// role, a fragmented control frame, a data frame interleaved into a
/// fragmented message, or a continuation with no message to continue.
pub open spec fn first_frame_fault(pre: Connection, buf: Seq<u8>) -> bool {
    let live = pre.spec_state() == State::Open || pre.spec_state() == State::AwaitingClose;
    ||| (live && spec_parse(buf) is Invalid)
    ||| (live && (spec_parse(buf) matches SpecParse::Parsed(f, n) && masking_violation(
        pre.spec_settings(),
        pre.spec_endpoint(),
        f,
    )))
    ||| (live && (spec_parse(buf) matches SpecParse::Parsed(f, n) && !masking_violation(
        pre.spec_settings(),
        pre.spec_endpoint(),
        f,
    ) && !f.fin && is_control_opcode(f.opcode)))
    ||| (pre.spec_state() == State::Open && (spec_parse(buf) matches SpecParse::Parsed(f, n)
        && !masking_violation(pre.spec_settings(), pre.spec_endpoint(), f) && (f.opcode
        == OpCode::Text || f.opcode == OpCode::Binary) && pre.spec_fragments().len() > 0))
    ||| (live && (spec_parse(buf) matches SpecParse::Parsed(f, n) && !masking_violation(
        pre.spec_settings(),
        pre.spec_endpoint(),
        f,
    ) && f.opcode == OpCode::Continue && pre.spec_fragments().len() == 0))
}

/// The reading loop held exactly one complete frame, and that frame passes
/// the strict-masking screen.
pub open spec fn lone_frame(pre: Connection, buf: Seq<u8>) -> bool {
    &&& pre.spec_state() == State::Open
    &&& (spec_parse(buf) matches SpecParse::Parsed(f, n) && n == buf.len()
        && !masking_violation(pre.spec_settings(), pre.spec_endpoint(), f))
}

/// What the reading loop owes for the one frame it digested: `pre` is the
/// connection before, `f` the parsed frame, `n` its wire size, `outs` the
/// outputs, `cur` the connection after.
pub open spec fn first_frame_post(
    pre: Connection,
    buf: Seq<u8>,
    f: FrameView,
    n: int,
    outs: Seq<Output>,
    cur: Connection,
) -> bool {
    &&& cur.spec_unread() == buf.skip(n)
    &&& (f.fin && f.opcode == OpCode::Text && pre.spec_fragments().len() == 0 ==> valid_utf8(
        f.payload,
    ) && outs.len() == 1 && (outs[0] matches Output::Message(m) && m matches Message::Text(s)
        && s@ == decode_utf8(f.payload)))
    &&& (f.fin && f.opcode == OpCode::Binary && pre.spec_fragments().len() == 0 ==> outs.len()
        == 1 && (outs[0] matches Output::Message(m) && m matches Message::Binary(d) && d@
        == f.payload))
    &&& (f.fin && f.opcode == OpCode::Close && f.payload.len() >= 2 ==> ({
        let v = ((f.payload[0] as int) * 256 + f.payload[1]) as u16;
        &&& spec_acceptable_close_code(v)
        &&& outs.len() == 1
        &&& (outs[0] matches Output::Close(c, _) && close_code_value(c) == v)
        &&& closing_state(cur.spec_state())
        &&& (pre.spec_state() == State::Open ==> exists|g: FrameView|
            masked_variant(
                plain_frame(
                    OpCode::Close,
                    close_payload(
                        if valid_utf8(f.payload.skip(2)) {
                            crate::protocol::close_code_of(v)
                        } else {
                            CloseCode::Invalid
                        },
                        Seq::<u8>::empty(),
                    ),
                ),
                g,
                pre.spec_endpoint() == Endpoint::Client,
            ) && cur.spec_unsent() == pre.spec_unsent() + #[trigger] wire_of(g))
    }))
    &&& (f.fin && f.opcode == OpCode::Ping ==> outs.len() == 0 && exists|g: FrameView|
        masked_variant(plain_frame(OpCode::Pong, f.payload), g, pre.spec_endpoint()
            == Endpoint::Client) && cur.spec_unsent() == pre.spec_unsent() + #[trigger] wire_of(
            g,
        ))
    &&& (f.fin && f.opcode == OpCode::Pong ==> outs.len() == 0 && cur.spec_unsent()
        == pre.spec_unsent())
    &&& (!f.fin && (f.opcode == OpCode::Text || f.opcode == OpCode::Binary)
        && pre.spec_fragments().len() == 0 ==> outs.len() == 0 && cur.spec_fragments().len() == 1
        && cur.spec_fragments()[0]@ == f)
}

/// The serialized bytes of a sequence of frames.
pub open spec fn frames_wire(gs: Seq<FrameView>) -> Seq<u8>
    decreases gs.len(),
{
    if gs.len() == 0 {
        Seq::<u8>::empty()
    } else {
        wire_of(gs[0]) + frames_wire(gs.skip(1))
    }
}

/// The frames a message payload is cut into: whole below the fragment
/// size, else fragment-size chunks, the first carrying the opcode, the
/// rest continuations, only the last final; the reserved bits of the
/// original frame propagate to every chunk.
pub open spec fn chunk_frames(
    data: Seq<u8>,
    op: OpCode,
    fs: int,
    first: bool,
    r1: bool,
    r2: bool,
    r3: bool,
) -> Seq<FrameView>
    decreases data.len() when fs > 0
{
    let opc = if first {
        op
    } else {
        OpCode::Continue
    };
    if data.len() <= fs {
        seq![
            FrameView {
                fin: true,
                rsv1: r1,
                rsv2: r2,
                rsv3: r3,
                opcode: opc,
                mask: None,
                payload: data,
            },
        ]
    } else {
        seq![
            FrameView {
                fin: false,
                rsv1: r1,
                rsv2: r2,
                rsv3: r3,
                opcode: opc,
                mask: None,
                payload: data.take(fs),
            },
        ] + chunk_frames(data.skip(fs), op, fs, false, r1, r2, r3)
    }
}

/// The payload of a close frame: the big-endian status code and the
/// reason, or nothing at all for `CloseCode::Empty`.
pub open spec fn close_payload(code: CloseCode, reason: Seq<u8>) -> Seq<u8> {
    if code == CloseCode::Empty {
        Seq::<u8>::empty()
    } else {
        seq![(close_code_value(code) >> 8) as u8, close_code_value(code) as u8] + reason
    }
}

/// An unmasked control or data frame with the given opcode and payload and
/// nothing else set.
pub open spec fn plain_frame(op: OpCode, payload: Seq<u8>) -> FrameView {
    FrameView {
        fin: true,
        rsv1: false,
        rsv2: false,
        rsv3: false,
        opcode: op,
        mask: None,
        payload,
    }
}

/// The concatenation of the payloads of buffered fragments.
pub open spec fn frags_payload(fr: Seq<Frame>) -> Seq<u8>
    decreases fr.len(),
{
    if fr.len() == 0 {
        Seq::<u8>::empty()
    } else {
        fr[0]@.payload + frags_payload(fr.skip(1))
    }
}

/// Extending a fragment prefix by one frame appends that frame's payload.
proof fn lemma_frags_payload_take(fr: Seq<Frame>, j: int)
    requires
        1 <= j <= fr.len(),
    ensures
        frags_payload(fr.take(j)) == frags_payload(fr.take(j - 1)) + fr[j - 1]@.payload,
    decreases j,
{
    let t = fr.take(j);
    if j == 1 {
        assert(t.skip(1) =~= Seq::<Frame>::empty());
        assert(fr.take(0) =~= Seq::<Frame>::empty());
        assert(frags_payload(t) =~= frags_payload(fr.take(0)) + fr[0]@.payload);
    } else {
        let s1 = fr.skip(1);
        lemma_frags_payload_take(s1, j - 1);
        assert(t.skip(1) =~= s1.take(j - 1));
        assert(fr.take(j - 1).skip(1) =~= s1.take(j - 2));
        assert(s1[j - 2] == fr[j - 1]);
        assert(frags_payload(t) == fr[0]@.payload + (frags_payload(s1.take(j - 2)) + s1[j
            - 2]@.payload));
        assert(frags_payload(fr.take(j - 1)) == fr[0]@.payload + frags_payload(s1.take(j - 2)));
        assert(fr[0]@.payload + (frags_payload(s1.take(j - 2)) + s1[j - 2]@.payload) =~= (
        fr[0]@.payload + frags_payload(s1.take(j - 2))) + fr[j - 1]@.payload);
    }
}

/// A single WebSocket connection's state machine.
pub struct Connection {
    token: usize,
    connection_id: u32,
    state: State,
    endpoint: Endpoint,
    events: EventSet,
    fragments: Vec<Frame>,
    in_buffer: Vec<u8>,
    in_pos: usize,
    out_buffer: Vec<u8>,
    out_pos: usize,
    request: Request,
    req_pos: usize,
    response: Response,
    res_pos: usize,
    settings: Settings,
}

impl Connection {
    /// The slab token this connection is registered under.
    pub closed spec fn spec_token(&self) -> usize {
        self.token
    }

    /// The generation stamp distinguishing reuses of the same token.
    pub closed spec fn spec_connection_id(&self) -> u32 {
        self.connection_id
    }

    /// The connection's lifecycle state.
    pub closed spec fn spec_state(&self) -> State {
        self.state
    }

    /// Which side of the connection this is.
    pub closed spec fn spec_endpoint(&self) -> Endpoint {
        self.endpoint
    }

    /// The desired readiness set.
    pub closed spec fn spec_events(&self) -> EventSet {
        self.events
    }

    /// The buffered fragments of the message being assembled.
    pub closed spec fn spec_fragments(&self) -> Seq<Frame> {
        self.fragments@
    }

    /// The bytes received but not yet parsed.
    pub closed spec fn spec_unread(&self) -> Seq<u8> {
        self.in_buffer@.skip(self.in_pos as int)
    }

    /// The bytes framed but not yet written to the stream.
    pub closed spec fn spec_unsent(&self) -> Seq<u8> {
        self.out_buffer@.skip(self.out_pos as int)
    }

    /// The whole outbound buffer, sent and unsent.
    pub closed spec fn spec_out(&self) -> Seq<u8> {
        self.out_buffer@
    }

    /// The settings the connection was built with.
    pub closed spec fn spec_settings(&self) -> Settings {
        self.settings
    }

    /// The raw bytes of the handshake request.
    pub closed spec fn spec_request(&self) -> Seq<u8> {
        self.request@
    }

    /// The raw bytes of the handshake response.
    pub closed spec fn spec_response(&self) -> Seq<u8> {
        self.response@
    }

    /// The buffered fragments are a well-formed prefix of a fragmented
    /// message: the first is a non-final text or binary frame, all others
    /// are non-final continuations, and fragments exist only while open or
    /// replying to a close.
    pub open spec fn fragments_wf(&self) -> bool {
        &&& (self.spec_fragments().len() > 0 ==> {
            let first = self.spec_fragments()[0]@;
            (first.opcode == OpCode::Text || first.opcode == OpCode::Binary) && !first.fin
        })
        &&& (forall|i: int|
            1 <= i < self.spec_fragments().len() ==> (#[trigger] self.spec_fragments()[i])@.opcode
                == OpCode::Continue && !self.spec_fragments()[i]@.fin)
        &&& (self.spec_fragments().len() > 0 ==> self.spec_state() == State::Open
            || self.spec_state() == State::RespondingClose)
    }

    /// How far the inbound buffer has been consumed.
    pub closed spec fn spec_in_pos(&self) -> usize {
        self.in_pos
    }

    /// How far the outbound buffer has been written out.
    pub closed spec fn spec_out_pos(&self) -> usize {
        self.out_pos
    }

    /// How far the handshake request has been written out.
    pub closed spec fn spec_req_pos(&self) -> usize {
        self.req_pos
    }

    /// How far the handshake response has been written out.
    pub closed spec fn spec_res_pos(&self) -> usize {
        self.res_pos
    }

    /// The length of the inbound buffer, consumed part included.
    pub closed spec fn spec_in_len(&self) -> int {
        self.in_buffer@.len() as int
    }

    /// The connection's structural invariant: cursors inside their buffers,
    /// a positive fragment size, and well-formed fragments.
    pub open spec fn wf(&self) -> bool {
        &&& self.spec_in_pos() <= self.spec_in_len()
        &&& self.spec_out_pos() <= self.spec_out().len()
        &&& self.spec_req_pos() <= self.spec_request().len()
        &&& self.spec_res_pos() <= self.spec_response().len()
        &&& self.spec_settings().fragment_size > 0
        &&& self.fragments_wf()
    }

    /// Create a connection in the connecting state; it acts as a server
    /// until `as_client` converts it.
    pub fn new(token: usize, connection_id: u32, settings: Settings) -> (r: Connection)
        requires
            settings.fragment_size > 0,
        ensures
            r.wf(),
            r.spec_token() == token,
            r.spec_connection_id() == connection_id,
            r.spec_state() == State::Connecting,
            r.spec_endpoint() == Endpoint::Server,
            r.spec_events() == (EventSet { readable: false, writable: false, hup: true }),
            r.spec_unread() == Seq::<u8>::empty(),
            r.spec_unsent() == Seq::<u8>::empty(),
            r.spec_settings() == settings,
    {
        let r = Connection {
            token,
            connection_id,
            state: State::Connecting,
            endpoint: Endpoint::Server,
            events: EventSet { readable: false, writable: false, hup: true },
            fragments: Vec::new(),
            in_buffer: Vec::new(),
            in_pos: 0,
            out_buffer: Vec::new(),
            out_pos: 0,
            request: Request::new(Vec::new()),
            req_pos: 0,
            response: Response::new(Vec::new()),
            res_pos: 0,
            settings,
        };
        proof {
            assert(r.spec_unread() =~= Seq::<u8>::empty());
            assert(r.spec_unsent() =~= Seq::<u8>::empty());
        }
        r
    }

    /// The slab token this connection is registered under.
    pub fn token(&self) -> (r: usize)
        ensures
            r == self.spec_token(),
    {
        self.token
    }

    /// The generation stamp distinguishing reuses of the same token.
    pub fn connection_id(&self) -> (r: u32)
        ensures
            r == self.spec_connection_id(),
    {
        self.connection_id
    }

    /// The connection's lifecycle state.
    pub fn state(&self) -> (r: State)
        ensures
            r == self.spec_state(),
    {
        self.state
    }

    /// The desired readiness set.
    pub fn events(&self) -> (r: EventSet)
        ensures
            r == self.spec_events(),
    {
        self.events
    }

    /// True when this endpoint dialed out and masks its frames.
    pub fn is_client(&self) -> (r: bool)
        ensures
            r == (self.spec_endpoint() == Endpoint::Client),
    {
        match self.endpoint {
            Endpoint::Client => true,
            Endpoint::Server => false,
        }
    }

    /// True when this endpoint accepted the connection.
    pub fn is_server(&self) -> (r: bool)
        ensures
            r == (self.spec_endpoint() == Endpoint::Server),
    {
        match self.endpoint {
            Endpoint::Client => false,
            Endpoint::Server => true,
        }
    }

    /// Borrow the handshake request.
    pub fn request(&self) -> (r: &Request)
        ensures
            r@ == self.spec_request(),
    {
        &self.request
    }

    /// Borrow the handshake response.
    pub fn response(&self) -> (r: &Response)
        ensures
            r@ == self.spec_response(),
    {
        &self.response
    }

    /// Declare this connection a server: ask for readable readiness.
    pub fn as_server(&mut self)
        requires
            old(self).wf(),
        ensures
            final(self).wf(),
            final(self).spec_events() == (EventSet {
                readable: true,
                ..old(self).spec_events()
            }),
            final(self).spec_state() == old(self).spec_state(),
            final(self).spec_endpoint() == old(self).spec_endpoint(),
            final(self).spec_unread() == old(self).spec_unread(),
            final(self).spec_unsent() == old(self).spec_unsent(),
    {
        self.events.readable = true;
    }

    /// Declare this connection a client dialing the given location: build
    /// the upgrade request and ask for writable readiness.
    pub fn as_client(
        &mut self,
        host: &str,
        port: u16,
        resource: &str,
        protocol: Option<&str>,
        extensions: Option<&str>,
    ) -> (r: Result<(), Error>)
        requires
            old(self).wf(),
            old(self).spec_state() == State::Connecting,
        ensures
            final(self).wf(),
            final(self).spec_state() == State::Connecting,
            final(self).spec_endpoint() == Endpoint::Client,
            final(self).spec_events().writable,
            r is Ok,
            exists|key: Seq<char>|
                final(self).spec_request() == vstd::utf8::encode_utf8(
                    #[trigger] crate::handshake::request_text_parts(
                        resource,
                        host,
                        port,
                        key,
                        protocol,
                        extensions,
                    ),
                ) && (exists|b: Seq<u8>|
                    b.len() == 16 && key == #[trigger] crate::handshake::base64_chars(b)),
    {
        self.endpoint = Endpoint::Client;
        self.events.writable = true;
        self.request = Request::from_parts(host, port, resource, protocol, extensions);
        self.req_pos = 0;
        Ok(())
    }

    /// Everything a buffering operation leaves alone.
    pub open spec fn same_core(a: &Connection, b: &Connection) -> bool {
        &&& b.spec_token() == a.spec_token()
        &&& b.spec_connection_id() == a.spec_connection_id()
        &&& b.spec_endpoint() == a.spec_endpoint()
        &&& b.spec_unread() == a.spec_unread()
        &&& b.spec_request() == a.spec_request()
        &&& b.spec_response() == a.spec_response()
        &&& b.spec_settings() == a.spec_settings()
    }

    /// Drop the already-written prefix of the outbound buffer, so that new
    /// frames reuse the space.
    fn reclaim_out(&mut self)
        requires
            old(self).wf(),
        ensures
            final(self).wf(),
            Connection::same_core(old(self), final(self)),
            final(self).spec_state() == old(self).spec_state(),
            final(self).spec_events() == old(self).spec_events(),
            final(self).spec_fragments() == old(self).spec_fragments(),
            final(self).spec_out_pos() == 0,
            final(self).spec_unsent() == old(self).spec_unsent(),
    {
        if self.out_pos == 0 {
            proof {
                assert(final(self).spec_unsent() =~= old(self).spec_unsent());
            }
            return ;
        }
        let n = self.out_buffer.len();
        let p = self.out_pos;
        let keep = n - p;
        for j in 0..keep
            invariant
                p + keep == n,
                n == self.out_buffer@.len(),
                p == old(self).spec_out_pos(),
                p >= 1,
                keep == old(self).spec_unsent().len(),
                forall|k: int| 0 <= k < j ==> self.out_buffer@[k] == old(self).spec_unsent()[k],
                forall|k: int|
                    j <= k < n - p ==> self.out_buffer@[k + p] == old(self).spec_unsent()[k],
                self.out_pos == p,
                self.in_pos == old(self).spec_in_pos(),
                self.in_pos <= self.in_buffer@.len(),
                self.req_pos <= self.request@.len(),
                self.res_pos <= self.response@.len(),
                *self == (Connection { out_buffer: self.out_buffer, ..*old(self) }),
        {
            let b = self.out_buffer[p + j];
            self.out_buffer[j] = b;
        }
        self.out_buffer.truncate(keep);
        self.out_pos = 0;
        proof {
            assert(self.spec_unsent() =~= old(self).spec_unsent());
        }
    }

    /// Put one frame on the wire queue: a client masks it with a fresh
    /// random mask, a server sends it unmasked, and the serialization is
    /// appended to the unsent bytes. Fails with a capacity error exactly
    /// when growth is disabled and the frame does not fit.
    fn buffer_frame(&mut self, frame: Frame) -> (r: Result<(), Error>)
        requires
            old(self).wf(),
            frame@.opcode != OpCode::Bad,
            frame@.mask is None,
        ensures
            final(self).wf(),
            Connection::same_core(old(self), final(self)),
            final(self).spec_state() == old(self).spec_state(),
            final(self).spec_events() == old(self).spec_events(),
            final(self).spec_fragments() == old(self).spec_fragments(),
            match r {
                Ok(()) => exists|g: FrameView|
                    masked_variant(frame@, g, old(self).spec_endpoint() == Endpoint::Client)
                        && final(self).spec_unsent() == old(self).spec_unsent() + #[trigger] wire_of(
                        g,
                    ),
                Err(e) => {
                    &&& e.kind == Kind::Capacity
                    &&& !old(self).spec_settings().out_buffer_grow
                    &&& final(self).spec_unsent() == old(self).spec_unsent()
                    &&& exists|g: FrameView|
                        masked_variant(frame@, g, old(self).spec_endpoint() == Endpoint::Client)
                            && old(self).spec_settings().out_buffer_capacity < old(self).spec_unsent().len() + #[trigger] wire_of(g).len()
                },
            },
    {
        let client = self.is_client();
        let mut g = frame;
        if client {
            g.mask();
        }
        let mut tmp: Vec<u8> = Vec::new();
        g.format(&mut tmp);
        if !self.settings.out_buffer_grow {
            let unsent = self.out_buffer.len() - self.out_pos;
            if self.settings.out_buffer_capacity < unsent || self.settings.out_buffer_capacity
                - unsent < tmp.len() {
                proof {
                    assert(tmp@ =~= wire_of(g@));
                    assert(unsent == self.spec_unsent().len());
                    assert(masked_variant(frame@, g@, self.spec_endpoint() == Endpoint::Client)
                        && self.spec_settings().out_buffer_capacity < self.spec_unsent().len()
                        + wire_of(g@).len());
                }
                return Err(Error::new(Kind::Capacity, "Maxed out output buffer for connection."));
            }
        }
        self.reclaim_out();
        let ghost before = self.spec_unsent();
        self.out_buffer.append(&mut tmp);
        proof {
            assert(self.spec_unsent() =~= before + wire_of(g@));
            assert(masked_variant(frame@, g@, old(self).spec_endpoint() == Endpoint::Client));
        }
        Ok(())
    }

    /// Queue a ping frame, unless the connection is already closing.
    pub fn send_ping(&mut self, data: Vec<u8>) -> (r: Result<(), Error>)
        requires
            old(self).wf(),
        ensures
            final(self).wf(),
            Connection::same_core(old(self), final(self)),
            final(self).spec_state() == old(self).spec_state(),
            final(self).spec_fragments() == old(self).spec_fragments(),
            match r {
                Ok(()) => {
                    if old(self).spec_state() == State::AwaitingClose || old(self).spec_state()
                        == State::FinishedClose {
                        final(self).spec_unsent() == old(self).spec_unsent()
                    } else {
                        exists|g: FrameView|
                            masked_variant(
                                plain_frame(OpCode::Ping, data@),
                                g,
                                old(self).spec_endpoint() == Endpoint::Client,
                            ) && final(self).spec_unsent() == old(self).spec_unsent()
                                + #[trigger] wire_of(g)
                    }
                },
                Err(e) => {
                    &&& e.kind == Kind::Capacity
                    &&& !old(self).spec_settings().out_buffer_grow
                    &&& final(self).spec_unsent() == old(self).spec_unsent()
                    &&& exists|g: FrameView|
                        masked_variant(
                            plain_frame(OpCode::Ping, data@),
                            g,
                            old(self).spec_endpoint() == Endpoint::Client,
                        ) && old(self).spec_settings().out_buffer_capacity < old(self).spec_unsent().len() + #[trigger] wire_of(g).len()
                },
            },
    {
        if self.state.is_closing() {
            return Ok(());
        }
        let r = self.buffer_frame(Frame::ping(data));
        if r.is_ok() {
            self.check_events();
        }
        r
    }

    /// Queue a pong frame, unless the connection is already closing.
    pub fn send_pong(&mut self, data: Vec<u8>) -> (r: Result<(), Error>)
        requires
            old(self).wf(),
        ensures
            final(self).wf(),
            Connection::same_core(old(self), final(self)),
            final(self).spec_state() == old(self).spec_state(),
            final(self).spec_fragments() == old(self).spec_fragments(),
            match r {
                Ok(()) => {
                    if old(self).spec_state() == State::AwaitingClose || old(self).spec_state()
                        == State::FinishedClose {
                        final(self).spec_unsent() == old(self).spec_unsent()
                    } else {
                        exists|g: FrameView|
                            masked_variant(
                                plain_frame(OpCode::Pong, data@),
                                g,
                                old(self).spec_endpoint() == Endpoint::Client,
                            ) && final(self).spec_unsent() == old(self).spec_unsent()
                                + #[trigger] wire_of(g)
                    }
                },
                Err(e) => {
                    &&& e.kind == Kind::Capacity
                    &&& !old(self).spec_settings().out_buffer_grow
                    &&& final(self).spec_unsent() == old(self).spec_unsent()
                    &&& exists|g: FrameView|
                        masked_variant(
                            plain_frame(OpCode::Pong, data@),
                            g,
                            old(self).spec_endpoint() == Endpoint::Client,
                        ) && old(self).spec_settings().out_buffer_capacity < old(self).spec_unsent().len() + #[trigger] wire_of(g).len()
                },
            },
    {
        if self.state.is_closing() {
            return Ok(());
        }
        let r = self.buffer_frame(Frame::pong(data));
        if r.is_ok() {
            self.check_events();
        }
        r
    }

    /// Queue a close frame and move through the close handshake: an open
    /// connection starts awaiting the peer's close, a responding connection
    /// finishes, an already-closing connection ignores further closes.
    pub fn send_close(&mut self, code: CloseCode, reason: &str) -> (r: Result<(), Error>)
        requires
            old(self).wf(),
        ensures
            final(self).wf(),
            Connection::same_core(old(self), final(self)),
            final(self).spec_state() == (match old(self).spec_state() {
                State::Open => State::AwaitingClose,
                State::RespondingClose => State::FinishedClose,
                s => s,
            }),
            (if old(self).spec_state() == State::AwaitingClose || old(self).spec_state()
                == State::FinishedClose {
                final(self).spec_fragments() == old(self).spec_fragments()
            } else {
                final(self).spec_fragments().len() == 0
            }),
            match r {
                Ok(()) => {
                    if old(self).spec_state() == State::AwaitingClose || old(self).spec_state()
                        == State::FinishedClose {
                        final(self).spec_unsent() == old(self).spec_unsent()
                    } else {
                        exists|g: FrameView|
                            masked_variant(
                                plain_frame(
                                    OpCode::Close,
                                    close_payload(
                                        code,
                                        vstd::string::StringSliceAdditionalSpecFns::spec_bytes(
                                            reason,
                                        ),
                                    ),
                                ),
                                g,
                                old(self).spec_endpoint() == Endpoint::Client,
                            ) && final(self).spec_unsent() == old(self).spec_unsent()
                                + #[trigger] wire_of(g)
                    }
                },
                Err(e) => {
                    &&& e.kind == Kind::Capacity
                    &&& !old(self).spec_settings().out_buffer_grow
                    &&& final(self).spec_unsent() == old(self).spec_unsent()
                    &&& exists|g: FrameView|
                        masked_variant(
                            plain_frame(
                                OpCode::Close,
                                close_payload(
                                    code,
                                    vstd::string::StringSliceAdditionalSpecFns::spec_bytes(
                                        reason,
                                    ),
                                ),
                            ),
                            g,
                            old(self).spec_endpoint() == Endpoint::Client,
                        ) && old(self).spec_settings().out_buffer_capacity < old(self).spec_unsent().len() + #[trigger] wire_of(g).len()
                },
            },
    {
        match self.state {
            State::RespondingClose => {
                self.state = State::FinishedClose;
            },
            State::AwaitingClose | State::FinishedClose => {
                self.check_events();
                return Ok(());
            },
            State::Open => {
                self.state = State::AwaitingClose;
            },
            State::Connecting => {},
        }
        self.fragments.clear();
        let r = self.buffer_frame(Frame::close(code, reason));
        if r.is_ok() {
            self.check_events();
        }
        r
    }

    /// Queue a whole message: unfragmented below the fragment size, else
    /// cut into fragment-size chunks with only the last frame final. A
    /// closing connection ignores the request.
    pub fn send_message(&mut self, msg: Message) -> (r: Result<(), Error>)
        requires
            old(self).wf(),
        ensures
            final(self).wf(),
            Connection::same_core(old(self), final(self)),
            final(self).spec_state() == old(self).spec_state(),
            final(self).spec_fragments() == old(self).spec_fragments(),
            match r {
                Ok(()) => {
                    if old(self).spec_state() == State::AwaitingClose || old(self).spec_state()
                        == State::FinishedClose {
                        final(self).spec_unsent() == old(self).spec_unsent()
                    } else {
                        exists|gs: Seq<FrameView>|
                            {
                                let fr = chunk_frames(
                                    msg.spec_data(),
                                    match msg {
                                        Message::Text(_) => OpCode::Text,
                                        Message::Binary(_) => OpCode::Binary,
                                    },
                                    old(self).spec_settings().fragment_size as int,
                                    true,
                                    false,
                                    false,
                                    false,
                                );
                                &&& gs.len() == fr.len()
                                &&& (forall|i: int|
                                    0 <= i < gs.len() ==> masked_variant(
                                        fr[i],
                                        #[trigger] gs[i],
                                        old(self).spec_endpoint() == Endpoint::Client,
                                    ))
                                &&& final(self).spec_unsent() == old(self).spec_unsent()
                                    + #[trigger] frames_wire(gs)
                            }
                    }
                },
                Err(e) => e.kind == Kind::Capacity && !old(self).spec_settings().out_buffer_grow,
            },
    {
        if self.state.is_closing() {
            return Ok(());
        }
        let op = msg.opcode();
        let data = msg.into_data();
        let r = self.send_chunks(data, op, true, false, false, false);
        if r.is_ok() {
            self.check_events();
        }
        r
    }

    /// Cut `data` into fragment-size chunks and queue each; `first` marks
    /// the chunk that carries the message opcode, and the reserved bits
    /// propagate to every chunk.
    fn send_chunks(
        &mut self,
        data: Vec<u8>,
        op: OpCode,
        first: bool,
        r1: bool,
        r2: bool,
        r3: bool,
    ) -> (r: Result<(), Error>)
        requires
            old(self).wf(),
            op == OpCode::Text || op == OpCode::Binary,
        ensures
            final(self).wf(),
            Connection::same_core(old(self), final(self)),
            final(self).spec_state() == old(self).spec_state(),
            final(self).spec_events() == old(self).spec_events(),
            final(self).spec_fragments() == old(self).spec_fragments(),
            match r {
                Ok(()) => exists|gs: Seq<FrameView>|
                    {
                        let fr = chunk_frames(
                            data@,
                            op,
                            old(self).spec_settings().fragment_size as int,
                            first,
                            r1,
                            r2,
                            r3,
                        );
                        &&& gs.len() == fr.len()
                        &&& (forall|i: int|
                            0 <= i < gs.len() ==> masked_variant(
                                fr[i],
                                #[trigger] gs[i],
                                old(self).spec_endpoint() == Endpoint::Client,
                            ))
                        &&& final(self).spec_unsent() == old(self).spec_unsent()
                            + #[trigger] frames_wire(gs)
                    },
                Err(e) => e.kind == Kind::Capacity && !old(self).spec_settings().out_buffer_grow,
            },
        decreases data@.len(),
    {
        let ghost fs = self.spec_settings().fragment_size as int;
        let ghost client = self.spec_endpoint() == Endpoint::Client;
        let n = data.len();
        if n <= self.settings.fragment_size {
            let ghost dv = data@;
            let mut f = Frame::message(
                data,
                if first {
                    op
                } else {
                    OpCode::Continue
                },
                true,
            );
            f.set_rsv1(r1);
            f.set_rsv2(r2);
            f.set_rsv3(r3);
            let ghost fv = f@;
            let r = self.buffer_frame(f);
            match r {
                Ok(()) => {
                    proof {
                        assert(fs > 0);
                        let fr = chunk_frames(dv, op, fs, first, r1, r2, r3);
                        let g = choose|g: FrameView|
                            masked_variant(fv, g, client) && self.spec_unsent() == old(self).spec_unsent() + #[trigger] wire_of(g);
                        let gs = seq![g];
                        assert(gs.skip(1) =~= Seq::<FrameView>::empty());
                        assert(frames_wire(gs.skip(1)) == Seq::<u8>::empty());
                        assert(frames_wire(gs) =~= wire_of(g));
                        assert(fr[0] == fv);
                        assert(gs.len() == fr.len());
                        assert(forall|i: int|
                            0 <= i < gs.len() ==> masked_variant(fr[i], #[trigger] gs[i], client));
                    }
                    Ok(())
                },
                Err(e) => Err(e),
            }
        } else {
            let fsz = self.settings.fragment_size;
            let head = crate::text::bytes_to_vec_range(&data, 0, fsz);
            let tail = crate::text::bytes_to_vec_range(&data, fsz, n);
            let ghost dv = data@;
            let mut f = Frame::message(
                head,
                if first {
                    op
                } else {
                    OpCode::Continue
                },
                false,
            );
            f.set_rsv1(r1);
            f.set_rsv2(r2);
            f.set_rsv3(r3);
            let ghost f0 = f@;
            match self.buffer_frame(f) {
                Err(e) => {
                    return Err(e);
                },
                Ok(()) => {},
            }
            let ghost mid = self.spec_unsent();
            let ghost g0 = choose|g: FrameView|
                masked_variant(f0, g, client) && mid == old(self).spec_unsent()
                    + #[trigger] wire_of(g);
            match self.send_chunks(tail, op, false, r1, r2, r3) {
                Err(e) => Err(e),
                Ok(()) => {
                    proof {
                        let fr = chunk_frames(dv, op, fs, first, r1, r2, r3);
                        let fr_rest = chunk_frames(dv.skip(fs), op, fs, false, r1, r2, r3);
                        let gs_rest = choose|gs: Seq<FrameView>|
                            {
                                &&& gs.len() == fr_rest.len()
                                &&& (forall|i: int|
                                    0 <= i < gs.len() ==> masked_variant(
                                        fr_rest[i],
                                        #[trigger] gs[i],
                                        client,
                                    ))
                                &&& self.spec_unsent() == mid + #[trigger] frames_wire(gs)
                            };
                        let gs = seq![g0] + gs_rest;
                        assert(gs.skip(1) =~= gs_rest);
                        assert(frames_wire(gs) == wire_of(g0) + frames_wire(gs_rest));
                        assert(fr == seq![f0] + fr_rest);
                        assert(gs.len() == fr.len());
                        assert forall|i: int| 0 <= i < gs.len() implies masked_variant(
                            fr[i],
                            #[trigger] gs[i],
                            client,
                        ) by {
                            if i == 0 {
                                assert(gs[0] == g0 && fr[0] == f0);
                            } else {
                                assert(gs[i] == gs_rest[i - 1] && fr[i] == fr_rest[i - 1]);
                            }
                        }
                        assert(self.spec_unsent() =~= old(self).spec_unsent() + frames_wire(gs));
                    }
                    Ok(())
                },
            }
        }
    }

    /// Drop the already-parsed prefix of the inbound buffer.
    fn reclaim_in(&mut self)
        requires
            old(self).wf(),
        ensures
            final(self).wf(),
            Connection::same_core_out(old(self), final(self)),
            final(self).spec_state() == old(self).spec_state(),
            final(self).spec_events() == old(self).spec_events(),
            final(self).spec_fragments() == old(self).spec_fragments(),
            final(self).spec_in_pos() == 0,
            final(self).spec_unread() == old(self).spec_unread(),
    {
        if self.in_pos == 0 {
            proof {
                assert(final(self).spec_unread() =~= old(self).spec_unread());
            }
            return ;
        }
        let n = self.in_buffer.len();
        let p = self.in_pos;
        let keep = n - p;
        for j in 0..keep
            invariant
                p + keep == n,
                n == self.in_buffer@.len(),
                p == old(self).spec_in_pos(),
                p >= 1,
                keep == old(self).spec_unread().len(),
                forall|k: int| 0 <= k < j ==> self.in_buffer@[k] == old(self).spec_unread()[k],
                forall|k: int|
                    j <= k < n - p ==> self.in_buffer@[k + p] == old(self).spec_unread()[k],
                self.in_pos == p,
                self.out_pos <= self.out_buffer@.len(),
                self.req_pos <= self.request@.len(),
                self.res_pos <= self.response@.len(),
                *self == (Connection { in_buffer: self.in_buffer, ..*old(self) }),
        {
            let b = self.in_buffer[p + j];
            self.in_buffer[j] = b;
        }
        self.in_buffer.truncate(keep);
        self.in_pos = 0;
        proof {
            assert(self.spec_unread() =~= old(self).spec_unread());
        }
    }

    /// Everything an inbound operation leaves alone.
    pub open spec fn same_core_out(a: &Connection, b: &Connection) -> bool {
        &&& b.spec_token() == a.spec_token()
        &&& b.spec_connection_id() == a.spec_connection_id()
        &&& b.spec_endpoint() == a.spec_endpoint()
        &&& b.spec_unsent() == a.spec_unsent()
        &&& b.spec_request() == a.spec_request()
        &&& b.spec_response() == a.spec_response()
        &&& b.spec_settings() == a.spec_settings()
    }

    /// Take bytes the event loop read off the stream into the inbound
    /// buffer. Fails with a capacity error exactly when growth is disabled
    /// and the unread bytes would exceed the buffer capacity.
    pub fn receive(&mut self, data: &[u8]) -> (r: Result<(), Error>)
        requires
            old(self).wf(),
        ensures
            final(self).wf(),
            Connection::same_core_out(old(self), final(self)),
            final(self).spec_state() == old(self).spec_state(),
            final(self).spec_events() == old(self).spec_events(),
            final(self).spec_fragments() == old(self).spec_fragments(),
            match r {
                Ok(()) => final(self).spec_unread() == old(self).spec_unread() + data@,
                Err(e) => {
                    &&& e.kind == Kind::Capacity
                    &&& !old(self).spec_settings().in_buffer_grow
                    &&& final(self).spec_unread() == old(self).spec_unread()
                    &&& old(self).spec_settings().in_buffer_capacity < old(
                        self,
                    ).spec_unread().len() + data@.len()
                },
            },
    {
        if !self.settings.in_buffer_grow {
            let unread = self.in_buffer.len() - self.in_pos;
            if self.settings.in_buffer_capacity < unread || self.settings.in_buffer_capacity
                - unread < data.len() {
                return Err(Error::new(Kind::Capacity, "Maxed out input buffer for connection."));
            }
        }
        self.reclaim_in();
        let ghost before = self.spec_unread();
        let mut v = crate::text::bytes_to_vec(data);
        self.in_buffer.append(&mut v);
        proof {
            assert(self.spec_unread() =~= before + data@);
        }
        Ok(())
    }

    /// Digest one frame that arrived while open or awaiting the peer's
    /// close. The ensures below walk the protocol case by case; the rules
    /// are those of RFC 6455 with the close-code validation of §7.4.
    pub fn handle_frame(&mut self, frame: Frame) -> (r: Result<Vec<Output>, Error>)
        requires
            old(self).wf(),
            old(self).spec_state() == State::Open || old(self).spec_state()
                == State::AwaitingClose,
        ensures
            final(self).wf(),
            Connection::same_core(old(self), final(self)),
            old(self).spec_state() == State::AwaitingClose ==> closing_state(
                final(self).spec_state(),
            ) && (match r {
                Ok(outs) => no_messages(outs@),
                Err(_) => true,
            }),
            r matches Err(e) ==> e.kind == Kind::Protocol || e.kind == Kind::Capacity || e.kind
                == Kind::Encoding,
            final(self).spec_state() != State::Connecting,
            ({
                let f = frame@;
                let p = f.payload;
                let open0 = old(self).spec_state() == State::Open;
                let frags0 = old(self).spec_fragments();
                &&& (f.fin && f.opcode == OpCode::Text && open0 && frags0.len() == 0 ==> (match r {
                    Ok(outs) => {
                        &&& valid_utf8(p)
                        &&& outs@.len() == 1
                        &&& (outs@[0] matches Output::Message(m) && m matches Message::Text(s)
                            && s@ == decode_utf8(p))
                    },
                    Err(e) => !valid_utf8(p) && e.kind == Kind::Encoding,
                }))
                &&& (f.fin && f.opcode == OpCode::Binary && open0 && frags0.len() == 0 ==> (
                match r {
                    Ok(outs) => {
                        &&& outs@.len() == 1
                        &&& (outs@[0] matches Output::Message(m) && m matches Message::Binary(d)
                            && d@ == p)
                    },
                    Err(_) => false,
                }))
                &&& ((f.opcode == OpCode::Text || f.opcode == OpCode::Binary) && open0
                    && frags0.len() > 0 ==> (r matches Err(e) && e.kind == Kind::Protocol))
                &&& (f.fin && f.opcode == OpCode::Continue && open0 && frags0.len() > 0 ==> ({
                    let whole = frags_payload(frags0) + p;
                    let first_text = frags0[0]@.opcode == OpCode::Text;
                    match r {
                        Ok(outs) => {
                            &&& final(self).spec_fragments().len() == 0
                            &&& outs@.len() == 1
                            &&& (outs@[0] matches Output::Message(m) && (if first_text {
                                valid_utf8(whole) && (m matches Message::Text(s) && s@
                                    == decode_utf8(whole))
                            } else {
                                m matches Message::Binary(d) && d@ == whole
                            }))
                        },
                        Err(e) => e.kind == Kind::Encoding && first_text && !valid_utf8(whole),
                    }
                }))
                &&& (f.opcode == OpCode::Continue && frags0.len() == 0 ==> (r matches Err(e)
                    && e.kind == Kind::Protocol))
                &&& (!f.fin && (f.opcode == OpCode::Text || f.opcode == OpCode::Binary) && open0
                    && frags0.len() == 0 ==> (match r {
                    Ok(outs) => outs@.len() == 0 && final(self).spec_fragments().len() == 1
                        && final(self).spec_fragments()[0]@ == f,
                    Err(e) => e.kind == Kind::Capacity && !old(self).spec_settings().fragments_grow && frags0.len() >= old(self).spec_settings().fragments_capacity,
                }))
                &&& (!f.fin && f.opcode == OpCode::Continue && open0 && frags0.len() > 0 ==> (
                match r {
                    Ok(outs) => outs@.len() == 0 && final(self).spec_fragments()
                        == frags0.push(frame),
                    Err(e) => e.kind == Kind::Capacity && !old(self).spec_settings().fragments_grow && frags0.len() >= old(self).spec_settings().fragments_capacity,
                }))
                &&& (!f.fin && is_control_opcode(f.opcode) ==> (r matches Err(e) && e.kind
                    == Kind::Protocol))
                &&& (f.fin && f.opcode == OpCode::Ping ==> (match r {
                    Ok(outs) => outs@.len() == 0 && (if old(self).spec_state() == State::Open {
                        exists|g: FrameView|
                            masked_variant(
                                plain_frame(OpCode::Pong, p),
                                g,
                                old(self).spec_endpoint() == Endpoint::Client,
                            ) && final(self).spec_unsent() == old(self).spec_unsent()
                                + #[trigger] wire_of(g)
                    } else {
                        final(self).spec_unsent() == old(self).spec_unsent()
                    }),
                    Err(e) => e.kind == Kind::Capacity && !old(self).spec_settings().out_buffer_grow,
                }))
                &&& (f.fin && f.opcode == OpCode::Pong ==> (r matches Ok(outs) && outs@.len()
                    == 0) && final(self).spec_unsent() == old(self).spec_unsent())
                &&& (f.fin && f.opcode == OpCode::Close && p.len() >= 2 ==> ({
                    let v = ((p[0] as int) * 256 + p[1]) as u16;
                    match r {
                        Ok(outs) => {
                            &&& spec_acceptable_close_code(v)
                            &&& closing_state(final(self).spec_state())
                            &&& outs@.len() == 1
                            &&& (outs@[0] matches Output::Close(c, _) && close_code_value(c)
                                == v)
                            // While open, the reply mirrors the validated
                            // code, or 1007 when the reason is not UTF-8.
                            &&& (open0 ==> exists|g: FrameView|
                                masked_variant(
                                    plain_frame(
                                        OpCode::Close,
                                        close_payload(
                                            if valid_utf8(p.skip(2)) {
                                                crate::protocol::close_code_of(v)
                                            } else {
                                                CloseCode::Invalid
                                            },
                                            Seq::<u8>::empty(),
                                        ),
                                    ),
                                    g,
                                    old(self).spec_endpoint() == Endpoint::Client,
                                ) && final(self).spec_unsent() == old(self).spec_unsent()
                                    + #[trigger] wire_of(g))
                        },
                        Err(e) => if !spec_acceptable_close_code(v) {
                            e.kind == Kind::Protocol && closing_state(final(self).spec_state())
                        } else {
                            e.kind == Kind::Capacity && !old(self).spec_settings().out_buffer_grow
                        },
                    }
                }))
                &&& (f.fin && f.opcode == OpCode::Close && p.len() < 2 ==> (match r {
                    Ok(outs) => {
                        &&& closing_state(final(self).spec_state())
                        &&& outs@.len() == 1
                        &&& (outs@[0] matches Output::Close(c, _) && c == CloseCode::Status)
                    },
                    Err(e) => e.kind == Kind::Capacity && !old(self).spec_settings().out_buffer_grow,
                }))
            }),
    {
        let fin = frame.is_final();
        let op = frame.opcode();
        if !fin && op.is_control() {
            return Err(Error::new(Kind::Protocol, "Encountered fragmented control frame."));
        }
        match op {
            OpCode::Text | OpCode::Binary => {
                if self.fragments.len() > 0 {
                    if fin {
                        return Err(
                            Error::new(
                                Kind::Protocol,
                                "Received unfragmented data frame while processing fragmented message.",
                            ),
                        );
                    }
                    // Open is forced here by the fragments invariant.
                    return Err(
                        Error::new(
                            Kind::Protocol,
                            "Received new fragmented message while processing fragmented message.",
                        ),
                    );
                }
                if self.state.is_closing() {
                    // No message may be delivered once we are closing.
                    return Ok(Vec::new());
                }
                if fin {
                    let data = frame.into_data();
                    match op {
                        OpCode::Text => match crate::text::string_from_utf8(data) {
                            Some(s) => {
                                let mut outs: Vec<Output> = Vec::new();
                                outs.push(Output::Message(Message::Text(s)));
                                Ok(outs)
                            },
                            None => Err(
                                Error::new(Kind::Encoding, "Text frame is not valid UTF-8."),
                            ),
                        },
                        _ => {
                            let mut outs: Vec<Output> = Vec::new();
                            outs.push(Output::Message(Message::Binary(data)));
                            Ok(outs)
                        },
                    }
                } else {
                    if !self.settings.fragments_grow && self.fragments.len()
                        >= self.settings.fragments_capacity {
                        return Err(Error::new(Kind::Capacity, "Exceeded max fragments."));
                    }
                    self.fragments.push(frame);
                    Ok(Vec::new())
                }
            },
            OpCode::Continue => {
                if self.fragments.len() == 0 {
                    return Err(
                        Error::new(
                            Kind::Protocol,
                            "Unable to reconstruct fragmented message. No first frame.",
                        ),
                    );
                }
                if fin {
                    let mut data = self.assemble_fragments();
                    let mut last = frame.into_data();
                    data.append(&mut last);
                    let first_is_text = match self.fragments[0].opcode() {
                        OpCode::Text => true,
                        _ => false,
                    };
                    self.fragments.clear();
                    if first_is_text {
                        match crate::text::string_from_utf8(data) {
                            Some(s) => {
                                let mut outs: Vec<Output> = Vec::new();
                                outs.push(Output::Message(Message::Text(s)));
                                Ok(outs)
                            },
                            None => Err(
                                Error::new(Kind::Encoding, "Text message is not valid UTF-8."),
                            ),
                        }
                    } else {
                        let mut outs: Vec<Output> = Vec::new();
                        outs.push(Output::Message(Message::Binary(data)));
                        Ok(outs)
                    }
                } else {
                    if !self.settings.fragments_grow && self.fragments.len()
                        >= self.settings.fragments_capacity {
                        return Err(Error::new(Kind::Capacity, "Exceeded max fragments."));
                    }
                    self.fragments.push(frame);
                    Ok(Vec::new())
                }
            },
            OpCode::Ping => {
                let r = self.send_pong(frame.into_data());
                match r {
                    Ok(()) => Ok(Vec::new()),
                    Err(e) => Err(e),
                }
            },
            OpCode::Pong => Ok(Vec::new()),
            OpCode::Close => self.handle_close(frame),
            OpCode::Bad => Err(Error::new(Kind::Protocol, "Encountered invalid opcode.")),
        }
    }

    /// Concatenate the payloads of the buffered fragments.
    fn assemble_fragments(&self) -> (r: Vec<u8>)
        ensures
            r@ == frags_payload(self.spec_fragments()),
    {
        let mut data: Vec<u8> = Vec::new();
        let n = self.fragments.len();
        let mut j: usize = 0;
        while j < n
            invariant
                j <= n,
                n == self.spec_fragments().len(),
                data@ == frags_payload(self.spec_fragments().take(j as int)),
            decreases n - j,
        {
            let mut piece = crate::text::bytes_to_vec(self.fragments[j].payload().as_slice());
            data.append(&mut piece);
            j = j + 1;
            proof {
                lemma_frags_payload_take(self.spec_fragments(), j as int);
            }
        }
        proof {
            assert(self.spec_fragments().take(n as int) =~= self.spec_fragments());
        }
        data
    }

    /// Digest an incoming close frame: transition the close handshake,
    /// validate the carried code, and queue the owed reply.
    fn handle_close(&mut self, frame: Frame) -> (r: Result<Vec<Output>, Error>)
        requires
            old(self).wf(),
            old(self).spec_state() == State::Open || old(self).spec_state()
                == State::AwaitingClose,
            frame@.opcode == OpCode::Close,
            frame@.fin,
        ensures
            final(self).wf(),
            Connection::same_core(old(self), final(self)),
            closing_state(final(self).spec_state()),
            final(self).spec_state() != State::Connecting,
            ({
                let p = frame@.payload;
                let client = old(self).spec_endpoint() == Endpoint::Client;
                &&& (p.len() >= 2 ==> ({
                    let v = ((p[0] as int) * 256 + p[1]) as u16;
                    match r {
                        Ok(outs) => {
                            &&& spec_acceptable_close_code(v)
                            &&& outs@.len() == 1
                            &&& (outs@[0] matches Output::Close(c, _) && close_code_value(c)
                                == v)
                            &&& no_messages(outs@)
                            // While open, the reply mirrors the validated
                            // code, or 1007 when the reason is not UTF-8.
                            &&& (old(self).spec_state() == State::Open ==> exists|g: FrameView|
                                masked_variant(
                                    plain_frame(
                                        OpCode::Close,
                                        close_payload(
                                            if valid_utf8(p.skip(2)) {
                                                crate::protocol::close_code_of(v)
                                            } else {
                                                CloseCode::Invalid
                                            },
                                            Seq::<u8>::empty(),
                                        ),
                                    ),
                                    g,
                                    client,
                                ) && final(self).spec_unsent() == old(self).spec_unsent()
                                    + #[trigger] wire_of(g))
                            &&& (old(self).spec_state() == State::AwaitingClose ==> final(self).spec_unsent() == old(self).spec_unsent())
                        },
                        Err(e) => if !spec_acceptable_close_code(v) {
                            e.kind == Kind::Protocol
                        } else {
                            e.kind == Kind::Capacity && !old(self).spec_settings().out_buffer_grow
                        },
                    }
                }))
                &&& (p.len() < 2 ==> (match r {
                    Ok(outs) => {
                        &&& outs@.len() == 1
                        &&& (outs@[0] matches Output::Close(c, _) && c == CloseCode::Status)
                        &&& no_messages(outs@)
                        // A bodyless close is answered with a bodyless close.
                        &&& (old(self).spec_state() == State::Open ==> exists|g: FrameView|
                            masked_variant(
                                plain_frame(
                                    OpCode::Close,
                                    close_payload(CloseCode::Empty, Seq::<u8>::empty()),
                                ),
                                g,
                                client,
                            ) && final(self).spec_unsent() == old(self).spec_unsent()
                                + #[trigger] wire_of(g))
                        &&& (old(self).spec_state() == State::AwaitingClose ==> final(self).spec_unsent() == old(self).spec_unsent())
                    },
                    Err(e) => e.kind == Kind::Capacity && !old(self).spec_settings().out_buffer_grow,
                }))
            }),
    {
        let was_closing = self.state.is_closing();
        if was_closing {
            if self.is_server() {
                self.events = EventSet::none();
            }
            self.state = State::FinishedClose;
        } else {
            self.state = State::RespondingClose;
        }
        let p = frame.into_data();
        if p.len() >= 2 {
            let v: u16 = (p[0] as u16) * 256 + (p[1] as u16);
            if !CloseCode::acceptable(v) {
                return Err(
                    Error::new(Kind::Protocol, "Received invalid close code from endpoint."),
                );
            }
            let named = CloseCode::from_u16(v);
            proof {
                crate::protocol::lemma_close_code_roundtrip();
            }
            let tail = crate::text::bytes_to_vec_range(&p, 2, p.len());
            let ghost tg = tail@;
            let (reason, has_reason): (String, bool) = match crate::text::string_from_utf8(tail) {
                Some(s) => (s, true),
                None => (String::new(), false),
            };
            proof {
                assert(tg =~= p@.skip(2));
                assert(has_reason == valid_utf8(p@.skip(2)));
                reveal_strlit("");
                assert(vstd::string::StringSliceAdditionalSpecFns::spec_bytes("")
                    =~= Seq::<u8>::empty());
            }
            let mut outs: Vec<Output> = Vec::new();
            outs.push(Output::Close(named, reason));
            if !was_closing {
                let rr = if has_reason {
                    self.send_close(named, "")
                } else {
                    self.send_close(CloseCode::Invalid, "")
                };
                match rr {
                    Ok(()) => {},
                    Err(e) => {
                        return Err(e);
                    },
                }
            }
            Ok(outs)
        } else {
            let mut outs: Vec<Output> = Vec::new();
            outs.push(
                Output::Close(
                    CloseCode::Status,
                    "Unable to read close code. Sending empty close frame.".to_owned(),
                ),
            );
            proof {
                reveal_strlit("");
                assert(vstd::string::StringSliceAdditionalSpecFns::spec_bytes("")
                    =~= Seq::<u8>::empty());
            }
            if !was_closing {
                match self.send_close(CloseCode::Empty, "") {
                    Ok(()) => {},
                    Err(e) => {
                        return Err(e);
                    },
                }
            }
            Ok(outs)
        }
    }

    /// Queue one outbound frame exactly as given: a final data frame
    /// longer than the fragment size is cut into chunks carrying its
    /// reserved bits, anything else goes out whole. No closing check is
    /// made here; the callers decide that. A frame carrying an undefined
    /// opcode or a mask of its own is refused.
    pub fn send_frame(&mut self, frame: Frame) -> (r: Result<(), Error>)
        requires
            old(self).wf(),
        ensures
            final(self).wf(),
            Connection::same_core(old(self), final(self)),
            final(self).spec_state() == old(self).spec_state(),
            final(self).spec_fragments() == old(self).spec_fragments(),
            match r {
                Ok(()) => {
                    if (frame@.opcode == OpCode::Text || frame@.opcode == OpCode::Binary)
                        && frame@.fin && frame@.payload.len() > old(
                        self,
                    ).spec_settings().fragment_size {
                        exists|gs: Seq<FrameView>|
                            {
                                let fr = chunk_frames(
                                    frame@.payload,
                                    frame@.opcode,
                                    old(self).spec_settings().fragment_size as int,
                                    true,
                                    frame@.rsv1,
                                    frame@.rsv2,
                                    frame@.rsv3,
                                );
                                &&& gs.len() == fr.len()
                                &&& (forall|i: int|
                                    0 <= i < gs.len() ==> masked_variant(
                                        fr[i],
                                        #[trigger] gs[i],
                                        old(self).spec_endpoint() == Endpoint::Client,
                                    ))
                                &&& final(self).spec_unsent() == old(self).spec_unsent()
                                    + #[trigger] frames_wire(gs)
                            }
                    } else {
                        exists|g: FrameView|
                            masked_variant(
                                frame@,
                                g,
                                old(self).spec_endpoint() == Endpoint::Client,
                            ) && final(self).spec_unsent() == old(self).spec_unsent()
                                + #[trigger] wire_of(g)
                    }
                },
                Err(e) => {
                    ||| (e.kind == Kind::Internal && (frame@.opcode == OpCode::Bad || frame@.mask
                        is Some) && final(self).spec_unsent() == old(self).spec_unsent())
                    ||| (e.kind == Kind::Capacity && !old(self).spec_settings().out_buffer_grow)
                },
            },
    {
        let op = frame.opcode();
        match op {
            OpCode::Bad => {
                return Err(Error::new(Kind::Internal, "Attempted to send an invalid opcode."));
            },
            _ => {},
        }
        if frame.is_masked() {
            return Err(
                Error::new(Kind::Internal, "Attempted to send a frame that is already masked."),
            );
        }
        let data_frame = match op {
            OpCode::Text | OpCode::Binary => frame.is_final(),
            _ => false,
        };
        if data_frame && frame.payload().len() > self.settings.fragment_size {
            let r1 = frame.has_rsv1();
            let r2 = frame.has_rsv2();
            let r3 = frame.has_rsv3();
            let data = frame.into_data();
            let r = self.send_chunks(data, op, true, r1, r2, r3);
            if r.is_ok() {
                self.check_events();
            }
            r
        } else {
            let r = self.buffer_frame(frame);
            if r.is_ok() {
                self.check_events();
            }
            r
        }
    }

    /// Perform the close-handshake transition without buffering a frame,
    /// for the hook-driven close path: the transition comes first, and
    /// whatever frame the hook returns is buffered afterwards.
    pub fn begin_close(&mut self)
        requires
            old(self).wf(),
        ensures
            final(self).wf(),
            Connection::same_core(old(self), final(self)),
            final(self).spec_unsent() == old(self).spec_unsent(),
            final(self).spec_state() == (match old(self).spec_state() {
                State::Open => State::AwaitingClose,
                State::RespondingClose => State::FinishedClose,
                s => s,
            }),
            (if old(self).spec_state() == State::AwaitingClose || old(self).spec_state()
                == State::FinishedClose {
                final(self).spec_fragments() == old(self).spec_fragments()
            } else {
                final(self).spec_fragments().len() == 0
            }),
    {
        match self.state {
            State::RespondingClose => {
                self.state = State::FinishedClose;
            },
            State::AwaitingClose | State::FinishedClose => {
                return ;
            },
            State::Open => {
                self.state = State::AwaitingClose;
            },
            State::Connecting => {},
        }
        self.fragments.clear();
    }

    /// After anything was queued: a connection past its handshake always
    /// wants to read, and wants to write exactly while bytes wait.
    fn check_events(&mut self)
        requires
            old(self).wf(),
        ensures
            final(self).wf(),
            Connection::same_core(old(self), final(self)),
            final(self).spec_state() == old(self).spec_state(),
            final(self).spec_fragments() == old(self).spec_fragments(),
            final(self).spec_unsent() == old(self).spec_unsent(),
            final(self).spec_events() == (if old(self).spec_state() != State::Connecting {
                EventSet {
                    readable: true,
                    writable: old(self).spec_events().writable || old(self).spec_unsent().len()
                        > 0,
                    hup: old(self).spec_events().hup,
                }
            } else {
                old(self).spec_events()
            }),
    {
        if !self.state.is_connecting() {
            self.events.readable = true;
            if self.out_pos < self.out_buffer.len() {
                self.events.writable = true;
            }
        }
    }

    /// Take the next frame off the inbound buffer: parse it, drop it
    /// unread once the close handshake has finished, and screen it under
    /// strict masking. `None` means the buffer holds no whole frame yet.
    pub fn next_frame(&mut self) -> (r: Result<Option<Frame>, Error>)
        requires
            old(self).wf(),
            old(self).spec_state() != State::Connecting,
        ensures
            final(self).wf(),
            Connection::same_core_out(old(self), final(self)),
            final(self).spec_state() == old(self).spec_state(),
            final(self).spec_events() == old(self).spec_events(),
            final(self).spec_fragments() == old(self).spec_fragments(),
            r matches Err(e) ==> e.kind == Kind::Protocol,
            r matches Ok(q) && q is None ==> spec_parse(final(self).spec_unread()) is Incomplete,
            spec_parse(old(self).spec_unread()) is Incomplete ==> (r matches Ok(q) && q
                is None) && *final(self) == *old(self),
            r matches Ok(q) && q is Some ==> old(self).spec_state() == State::Open || old(self).spec_state() == State::AwaitingClose,
            (old(self).spec_state() == State::Open || old(self).spec_state()
                == State::AwaitingClose) ==> (match spec_parse(old(self).spec_unread()) {
                SpecParse::Incomplete => (r matches Ok(q) && q is None) && final(self).spec_unread() == old(self).spec_unread(),
                SpecParse::Invalid => r is Err,
                SpecParse::Parsed(f, n) => {
                    &&& (masking_violation(
                        old(self).spec_settings(),
                        old(self).spec_endpoint(),
                        f,
                    ) ==> r is Err)
                    &&& (!masking_violation(
                        old(self).spec_settings(),
                        old(self).spec_endpoint(),
                        f,
                    ) ==> (r matches Ok(q) && q matches Some(fr) && fr@ == f && fr@.wire_wf())
                        && final(self).spec_unread() == old(self).spec_unread().skip(n))
                },
            }),
    {
        loop
            invariant
                self.wf(),
                self.spec_state() != State::Connecting,
                Connection::same_core_out(old(self), self),
                self.spec_state() == old(self).spec_state(),
                self.spec_events() == old(self).spec_events(),
                self.spec_fragments() == old(self).spec_fragments(),
                (old(self).spec_state() == State::Open || old(self).spec_state()
                    == State::AwaitingClose) ==> self.spec_unread() == old(self).spec_unread(),
                spec_parse(old(self).spec_unread()) is Incomplete ==> *self == *old(self),
            decreases self.spec_unread().len(),
        {
            let buf_len = self.in_buffer.len();
            let parsed = match Frame::parse(&self.in_buffer, self.in_pos) {
                Ok(p) => p,
                Err(e) => {
                    return Err(e);
                },
            };
            let (frame, consumed) = match parsed {
                Some(fc) => fc,
                None => {
                    return Ok(None);
                },
            };
            let ghost before = self.spec_unread();
            self.in_pos = self.in_pos + consumed;
            proof {
                assert(self.spec_unread() =~= before.skip(consumed as int));
            }
            match self.state {
                State::RespondingClose | State::FinishedClose => {
                    continue ;
                },
                _ => {},
            }
            if self.settings.masking_strict {
                if frame.is_masked() {
                    if self.is_client() {
                        return Err(
                            Error::new(
                                Kind::Protocol,
                                "Received masked frame from a server endpoint.",
                            ),
                        );
                    }
                } else {
                    if self.is_server() {
                        return Err(
                            Error::new(
                                Kind::Protocol,
                                "Received unmasked frame from a client endpoint.",
                            ),
                        );
                    }
                }
            }
            return Ok(Some(frame));
        }
    }

    /// Parse and digest every whole frame waiting in the inbound buffer.
    /// Frames that arrive after the close handshake finished are read and
    /// dropped; the first buffered frame's own obligations are spelled out
    /// through `first_frame_fault` and `first_frame_post`.
    pub fn read_frames(&mut self) -> (r: Result<Vec<Output>, Error>)
        requires
            old(self).wf(),
            old(self).spec_state() != State::Connecting,
        ensures
            final(self).wf(),
            final(self).spec_state() != State::Connecting,
            final(self).spec_endpoint() == old(self).spec_endpoint(),
            final(self).spec_settings() == old(self).spec_settings(),
            final(self).spec_request() == old(self).spec_request(),
            final(self).spec_response() == old(self).spec_response(),
            closing_state(old(self).spec_state()) ==> closing_state(final(self).spec_state())
                && (match r {
                Ok(outs) => no_messages(outs@),
                Err(_) => true,
            }),
            r matches Err(e) ==> e.kind == Kind::Protocol || e.kind == Kind::Capacity || e.kind
                == Kind::Encoding,
            // Progress: on success every whole buffered frame was digested.
            r is Ok ==> spec_parse(final(self).spec_unread()) is Incomplete,
            // No whole frame buffered: nothing to do, nothing changes.
            spec_parse(old(self).spec_unread()) is Incomplete ==> (r matches Ok(outs)
                && outs@.len() == 0) && *final(self) == *old(self),
            // A first frame that is itself a violation forces the error.
            first_frame_fault(*old(self), old(self).spec_unread()) ==> (r matches Err(e)
                && e.kind == Kind::Protocol),
            // Exactly one clean frame: its full per-opcode obligations.
            lone_frame(*old(self), old(self).spec_unread()) ==> (match r {
                Ok(outs) => first_frame_post(
                    *old(self),
                    old(self).spec_unread(),
                    spec_parse(old(self).spec_unread())->Parsed_0,
                    spec_parse(old(self).spec_unread())->Parsed_1,
                    outs@,
                    *final(self),
                ),
                Err(e) => ({
                    let f = spec_parse(old(self).spec_unread())->Parsed_0;
                    &&& (f.fin && f.opcode == OpCode::Text && old(self).spec_fragments().len()
                        == 0 ==> e.kind == Kind::Encoding && !valid_utf8(f.payload))
                    &&& (f.fin && f.opcode == OpCode::Binary && old(self).spec_fragments().len()
                        == 0 ==> false)
                    &&& (f.fin && f.opcode == OpCode::Close && f.payload.len() >= 2 ==> ({
                        let v = ((f.payload[0] as int) * 256 + f.payload[1]) as u16;
                        if !spec_acceptable_close_code(v) {
                            e.kind == Kind::Protocol
                        } else {
                            e.kind == Kind::Capacity && !old(self).spec_settings().out_buffer_grow
                        }
                    }))
                    &&& (f.fin && f.opcode == OpCode::Ping ==> e.kind == Kind::Capacity && !old(self).spec_settings().out_buffer_grow)
                    &&& (f.fin && f.opcode == OpCode::Pong ==> false)
                }),
            }),
    {
        let mut outs: Vec<Output> = Vec::new();
        let ghost mut done: bool = false;
        loop
            invariant_except_break
                self.wf(),
                self.spec_state() != State::Connecting,
                self.spec_endpoint() == old(self).spec_endpoint(),
                self.spec_settings() == old(self).spec_settings(),
                self.spec_request() == old(self).spec_request(),
                self.spec_response() == old(self).spec_response(),
                closing_state(old(self).spec_state()) ==> closing_state(self.spec_state())
                    && no_messages(outs@),
                !done ==> outs@.len() == 0 && *self == *old(self),
                done ==> !(spec_parse(old(self).spec_unread()) is Incomplete),
                done ==> !first_frame_fault(*old(self), old(self).spec_unread()),
                done && lone_frame(*old(self), old(self).spec_unread()) ==> spec_parse(
                    self.spec_unread(),
                ) is Incomplete && first_frame_post(
                    *old(self),
                    old(self).spec_unread(),
                    spec_parse(old(self).spec_unread())->Parsed_0,
                    spec_parse(old(self).spec_unread())->Parsed_1,
                    outs@,
                    *self,
                ),
            ensures
                self.wf(),
                self.spec_state() != State::Connecting,
                self.spec_endpoint() == old(self).spec_endpoint(),
                self.spec_settings() == old(self).spec_settings(),
                self.spec_request() == old(self).spec_request(),
                self.spec_response() == old(self).spec_response(),
                closing_state(old(self).spec_state()) ==> closing_state(self.spec_state())
                    && no_messages(outs@),
                spec_parse(self.spec_unread()) is Incomplete,
                spec_parse(old(self).spec_unread()) is Incomplete ==> outs@.len() == 0 && *self
                    == *old(self),
                !first_frame_fault(*old(self), old(self).spec_unread()),
                lone_frame(*old(self), old(self).spec_unread()) ==> first_frame_post(
                    *old(self),
                    old(self).spec_unread(),
                    spec_parse(old(self).spec_unread())->Parsed_0,
                    spec_parse(old(self).spec_unread())->Parsed_1,
                    outs@,
                    *self,
                ),
            decreases self.spec_unread().len(),
        {
            let frame = match self.next_frame() {
                Err(e) => {
                    return Err(e);
                },
                Ok(None) => {
                    break ;
                },
                Ok(Some(f)) => f,
            };
            let ghost outs0 = outs@;
            let mut os = match self.handle_frame(frame) {
                Ok(os) => os,
                Err(e) => {
                    return Err(e);
                },
            };
            let ghost os0 = os@;
            outs.append(&mut os);
            proof {
                done = true;
                assert(outs@ =~= outs0 + os0);
                if closing_state(old(self).spec_state()) {
                    assert(no_messages(outs@));
                }
                if lone_frame(*old(self), old(self).spec_unread()) {
                    assert(spec_parse(self.spec_unread()) is Incomplete);
                }
            }
        }
        Ok(outs)
    }

    /// Take bytes the event loop read and digest them according to the
    /// connection's state: handshake bytes while connecting, frames after.
    pub fn read(&mut self, data: &[u8]) -> (r: Result<Vec<Output>, Error>)
        requires
            old(self).wf(),
        ensures
            final(self).wf(),
            final(self).spec_endpoint() == old(self).spec_endpoint(),
            final(self).spec_settings() == old(self).spec_settings(),
            closing_state(old(self).spec_state()) ==> (match r {
                Ok(outs) => no_messages(outs@),
                Err(_) => true,
            }),
            // A connecting server gathers the request and reports when it
            // is complete.
            old(self).spec_state() == State::Connecting && old(self).spec_endpoint()
                == Endpoint::Server ==> ({
                &&& final(self).spec_state() == State::Connecting
                &&& final(self).spec_request() == old(self).spec_request() + data@
                &&& (match r {
                    Ok(outs) => {
                        &&& no_messages(outs@)
                        &&& (head_complete(final(self).spec_request()) ==> outs@.len() == 1
                            && outs@[0] is RequestReady)
                        &&& (!head_complete(final(self).spec_request()) ==> outs@.len() == 0)
                    },
                    Err(_) => false,
                })
            }),
            // A connecting client gathers the response; once complete, a
            // 101 opens the connection and anything else is refused.
            old(self).spec_state() == State::Connecting && old(self).spec_endpoint()
                == Endpoint::Client ==> ({
                let whole = old(self).spec_response() + data@;
                &&& (!head_complete(whole) ==> final(self).spec_state() == State::Connecting
                    && final(self).spec_response() == whole && (r matches Ok(outs)
                    && outs@.len() == 0))
                &&& (head_complete(whole) ==> ({
                    let head = whole.subrange(0, crate::http::body_start(whole));
                    &&& final(self).spec_response() == head
                    &&& (crate::handshake::spec_status(head) != Some(101u16) ==> (r
                        matches Err(e) && e.kind == Kind::Protocol) && final(self).spec_state()
                        == State::Connecting)
                    &&& (crate::handshake::spec_status(head) == Some(101u16) && !old(
                        self,
                    ).spec_settings().key_strict ==> final(self).spec_state()
                        != State::Connecting && (r matches Ok(outs) ==> outs@.len() >= 1
                        && outs@[0] is Open))
                }))
            }),
            // Past the handshake the bytes are frames: every whole frame
            // in a fresh buffer is digested, with the first frame's own
            // obligations.
            old(self).spec_state() != State::Connecting ==> ({
                &&& final(self).spec_state() != State::Connecting
                &&& (r is Ok ==> spec_parse(final(self).spec_unread()) is Incomplete)
                &&& (r matches Err(e) ==> e.kind == Kind::Protocol || e.kind == Kind::Capacity
                    || e.kind == Kind::Encoding)
                &&& (old(self).spec_unread().len() == 0 && old(
                    self,
                ).spec_settings().in_buffer_grow ==> ({
                    &&& (first_frame_fault(*old(self), data@) ==> (r matches Err(e) && e.kind
                        == Kind::Protocol))
                    &&& (lone_frame(*old(self), data@) && r is Ok ==> first_frame_post(
                        *old(self),
                        data@,
                        spec_parse(data@)->Parsed_0,
                        spec_parse(data@)->Parsed_1,
                        (r->Ok_0)@,
                        *final(self),
                    ))
                }))
            }),
    {
        if self.state.is_connecting() {
            if self.is_server() {
                self.read_request_data(data)
            } else {
                self.read_response_data(data)
            }
        } else {
            let ghost pre = *self;
            match self.receive(data) {
                Ok(()) => {},
                Err(e) => {
                    return Err(e);
                },
            }
            let ghost mid = *self;
            proof {
                if pre.spec_unread().len() == 0 {
                    assert(mid.spec_unread() =~= data@);
                }
            }
            let r = self.read_frames();
            proof {
                if pre.spec_unread().len() == 0 && pre.spec_settings().in_buffer_grow {
                    assert(first_frame_fault(mid, data@) == first_frame_fault(pre, data@));
                    assert(lone_frame(mid, data@) == lone_frame(pre, data@));
                    if lone_frame(pre, data@) && r is Ok {
                        assert(first_frame_post(
                            pre,
                            data@,
                            spec_parse(data@)->Parsed_0,
                            spec_parse(data@)->Parsed_1,
                            (r->Ok_0)@,
                            *self,
                        ));
                    }
                }
            }
            r
        }
    }

    /// A server taking in handshake request bytes: reports when the request
    /// is complete so the handler can shape the response.
    pub fn read_request_data(&mut self, data: &[u8]) -> (r: Result<Vec<Output>, Error>)
        requires
            old(self).wf(),
        ensures
            final(self).wf(),
            final(self).spec_endpoint() == old(self).spec_endpoint(),
            final(self).spec_settings() == old(self).spec_settings(),
            final(self).spec_state() == old(self).spec_state(),
            final(self).spec_request() == old(self).spec_request() + data@,
            match r {
                Ok(outs) => {
                    &&& no_messages(outs@)
                    &&& (head_complete(final(self).spec_request()) ==> outs@.len() == 1
                        && outs@[0] is RequestReady)
                    &&& (!head_complete(final(self).spec_request()) ==> outs@.len() == 0)
                },
                Err(_) => false,
            },
    {
        self.request.append(data);
        let mut outs: Vec<Output> = Vec::new();
        if self.request.is_complete() {
            outs.push(Output::RequestReady);
        }
        Ok(outs)
    }

    /// Accept the handler's handshake response and turn to writing it.
    pub fn provide_response(&mut self, res: Response)
        requires
            old(self).wf(),
        ensures
            final(self).wf(),
            final(self).spec_endpoint() == old(self).spec_endpoint(),
            final(self).spec_settings() == old(self).spec_settings(),
            final(self).spec_state() == old(self).spec_state(),
            final(self).spec_response() == res@,
            final(self).spec_events().writable,
            !final(self).spec_events().readable,
    {
        self.response = res;
        self.res_pos = 0;
        self.events.readable = false;
        self.events.writable = true;
    }

    /// A client taking in handshake response bytes. Once the head is
    /// complete, the status must be 101 and, under strict key checking, the
    /// accept key must match the request's hashed key; the connection then
    /// opens and any frames that followed the head are digested.
    pub fn read_response_data(&mut self, data: &[u8]) -> (r: Result<Vec<Output>, Error>)
        requires
            old(self).wf(),
        ensures
            final(self).wf(),
            final(self).spec_endpoint() == old(self).spec_endpoint(),
            final(self).spec_settings() == old(self).spec_settings(),
            match r {
                Ok(outs) => (old(self).spec_state() == State::Connecting && final(self).spec_state() == State::Open ==> crate::handshake::spec_status(
                    final(self).spec_response(),
                ) == Some(101u16)),
                Err(e) => e.kind == Kind::Protocol || e.kind == Kind::Capacity || e.kind
                    == Kind::Encoding,
            },
            // While the head is incomplete the bytes are only gathered.
            old(self).spec_state() == State::Connecting && !head_complete(
                old(self).spec_response() + data@,
            ) ==> (r matches Ok(outs) && outs@.len() == 0) && final(self).spec_state()
                == State::Connecting && final(self).spec_response() == old(self).spec_response()
                + data@,
            // Once the head is complete, the body splits off and the
            // status decides: 101 opens, anything else is a protocol error.
            old(self).spec_state() == State::Connecting && head_complete(
                old(self).spec_response() + data@,
            ) ==> ({
                let whole = old(self).spec_response() + data@;
                let head = whole.subrange(0, crate::http::body_start(whole));
                &&& final(self).spec_response() == head
                &&& final(self).spec_request() == old(self).spec_request()
                &&& (crate::handshake::spec_status(head) != Some(101u16) ==> (r matches Err(e)
                    && e.kind == Kind::Protocol) && final(self).spec_state()
                    == State::Connecting)
                &&& (crate::handshake::spec_status(head) == Some(101u16) && !old(self).spec_settings().key_strict ==> final(self).spec_state() != State::Connecting && (
                r matches Ok(outs) ==> outs@.len() >= 1 && outs@[0] is Open))
                &&& (crate::handshake::spec_status(head) == Some(101u16) && !old(self).spec_settings().key_strict && old(self).spec_unread().len() == 0
                    && whole.skip(crate::http::body_start(whole)).len() == 0 ==> (r
                    matches Ok(outs) && outs@.len() == 1 && outs@[0] is Open) && final(self).spec_state() == State::Open)
                &&& (crate::handshake::spec_status(head) == Some(101u16) && old(self).spec_settings().key_strict ==> (match (
                    crate::http::header_value(
                        head,
                        vstd::string::StringSliceAdditionalSpecFns::spec_bytes(
                            "sec-websocket-accept",
                        ),
                    ),
                    crate::http::header_value(
                        old(self).spec_request(),
                        vstd::string::StringSliceAdditionalSpecFns::spec_bytes(
                            "sec-websocket-key",
                        ),
                    ),
                ) {
                    (Some(av), Some(kv)) => {
                        &&& (valid_utf8(av) && decode_utf8(av)
                            == crate::handshake::spec_accept_key(kv) ==> final(self).spec_state() != State::Connecting)
                        &&& (!(valid_utf8(av) && decode_utf8(av)
                            == crate::handshake::spec_accept_key(kv)) ==> (r matches Err(e)
                            && e.kind == Kind::Protocol))
                    },
                    _ => (r matches Err(e) && e.kind == Kind::Protocol),
                }))
            }),
    {
        if !self.state.is_connecting() {
            // Late bytes after the handshake: treat them as frame data.
            match self.receive(data) {
                Ok(()) => {},
                Err(e) => {
                    return Err(e);
                },
            }
            return self.read_frames();
        }
        self.response.append(data);
        if self.response.parse().is_none() {
            return Ok(Vec::new());
        }
        self.res_pos = 0;
        let body = self.response.take_body();
        let status = match self.response.status() {
            Ok(s) => s,
            Err(e) => {
                return Err(e);
            },
        };
        if status != 101 {
            return Err(Error::new(Kind::Protocol, "Handshake failed."));
        }
        if self.settings.key_strict {
            let expected = match self.request.hashed_key() {
                Ok(h) => h,
                Err(e) => {
                    return Err(e);
                },
            };
            let accept = match self.response.key() {
                Ok(k) => k,
                Err(e) => {
                    return Err(e);
                },
            };
            let accept_s = match crate::text::string_from_utf8(accept) {
                Some(s) => s,
                None => {
                    return Err(
                        Error::new(Kind::Protocol, "Received incorrect WebSocket Accept key."),
                    );
                },
            };
            if !expected.eq(&accept_s) {
                return Err(
                    Error::new(Kind::Protocol, "Received incorrect WebSocket Accept key."),
                );
            }
        }
        self.state = State::Open;
        self.events.readable = true;
        let mut outs: Vec<Output> = Vec::new();
        outs.push(Output::Open);
        match self.receive(body.as_slice()) {
            Ok(()) => {},
            Err(e) => {
                return Err(e);
            },
        }
        match self.read_frames() {
            Ok(mut os) => {
                outs.append(&mut os);
            },
            Err(e) => {
                return Err(e);
            },
        }
        Ok(outs)
    }

    /// Report that `n` bytes of the pending write were taken by the
    /// stream. Finishing a handshake write transitions the handshake;
    /// finishing the close reply disconnects a server.
    pub fn write(&mut self, n: usize) -> (r: Result<Vec<Output>, Error>)
        requires
            old(self).wf(),
            n <= old(self).spec_pending_write().len(),
        ensures
            final(self).wf(),
            final(self).spec_endpoint() == old(self).spec_endpoint(),
            final(self).spec_settings() == old(self).spec_settings(),
            match r {
                Ok(outs) => no_messages(outs@),
                Err(e) => e.kind == Kind::Protocol || e.kind == Kind::Internal,
            },
            old(self).spec_state() != State::Connecting ==> final(self).spec_state() == old(self).spec_state() && final(self).spec_unsent() == old(self).spec_unsent().skip(n as int),
            (old(self).spec_state() == State::Connecting && old(self).spec_endpoint()
                == Endpoint::Server && n == old(self).spec_pending_write().len()
                && crate::handshake::spec_status(old(self).spec_response()) == Some(101u16)) ==> (
            r matches Ok(outs) && final(self).spec_state() == State::Open && outs@.len() == 1
                && outs@[0] is Open),
            (old(self).spec_state() == State::Connecting && old(self).spec_endpoint()
                == Endpoint::Server && n == old(self).spec_pending_write().len() && !(
            crate::handshake::spec_status(old(self).spec_response()) == Some(101u16))) ==> (
            final(self).spec_state() == State::FinishedClose && final(self).spec_events() == (
            EventSet { readable: false, writable: false, hup: false })),
            (old(self).spec_state() == State::Connecting && n < old(self).spec_pending_write().len()) ==> final(self).spec_state() == State::Connecting,
    {
        match self.state {
            State::Connecting => {
                if self.is_server() {
                    let total = self.response.buffer().len();
                    self.res_pos = self.res_pos + n;
                    if self.res_pos == total {
                        // The response is flushed: open, or finish on an
                        // error response.
                        let ok = match self.response.status() {
                            Ok(code) => code == 101,
                            _ => false,
                        };
                        if ok {
                            self.state = State::Open;
                            self.events.readable = true;
                            self.events.writable = false;
                            let mut outs: Vec<Output> = Vec::new();
                            outs.push(Output::Open);
                            return Ok(outs);
                        } else {
                            self.state = State::FinishedClose;
                            self.events = EventSet::none();
                            return Ok(Vec::new());
                        }
                    }
                    Ok(Vec::new())
                } else {
                    let total = self.request.buffer().len();
                    self.req_pos = self.req_pos + n;
                    if self.req_pos == total {
                        self.events.readable = true;
                        self.events.writable = false;
                    }
                    Ok(Vec::new())
                }
            },
            _ => {
                let total = self.out_buffer.len();
                self.out_pos = self.out_pos + n;
                if self.out_pos == total {
                    self.events.writable = false;
                    match self.state {
                        State::FinishedClose => {
                            if self.is_server() {
                                self.events = EventSet::none();
                                return Ok(Vec::new());
                            }
                        },
                        _ => {},
                    }
                }
                self.check_events();
                Ok(Vec::new())
            },
        }
    }

    /// The bytes owed to the stream in the current state: the handshake
    /// response or request while connecting, the frame buffer after.
    pub open spec fn spec_pending_write(&self) -> Seq<u8> {
        if self.spec_state() == State::Connecting {
            if self.spec_endpoint() == Endpoint::Server {
                self.spec_response().skip(self.spec_res_pos() as int)
            } else {
                self.spec_request().skip(self.spec_req_pos() as int)
            }
        } else {
            self.spec_unsent()
        }
    }

    /// Copy the bytes owed to the stream.
    pub fn pending_write(&self) -> (r: Vec<u8>)
        requires
            self.wf(),
        ensures
            r@ == self.spec_pending_write(),
    {
        match self.state {
            State::Connecting => {
                if self.is_server() {
                    crate::text::bytes_to_vec_range(
                        self.response.buffer(),
                        self.res_pos,
                        self.response.buffer().len(),
                    )
                } else {
                    crate::text::bytes_to_vec_range(
                        self.request.buffer(),
                        self.req_pos,
                        self.request.buffer().len(),
                    )
                }
            },
            _ => {
                crate::text::bytes_to_vec_range(
                    &self.out_buffer,
                    self.out_pos,
                    self.out_buffer.len(),
                )
            },
        }
    }

    /// Tear the connection down without a close handshake: the handler is
    /// owed an abnormal close unless the close handshake already ran or
    /// never began.
    pub fn disconnect(&mut self) -> (r: Vec<Output>)
        requires
            old(self).wf(),
        ensures
            final(self).wf(),
            Connection::same_core(old(self), final(self)),
            final(self).spec_state() == old(self).spec_state(),
            final(self).spec_unsent() == old(self).spec_unsent(),
            final(self).spec_fragments() == old(self).spec_fragments(),
            final(self).spec_events() == (EventSet { readable: false, writable: false, hup: false }),
            no_messages(r@),
            (match old(self).spec_state() {
                State::Open | State::AwaitingClose => r@.len() == 1 && (r@[0]
                    matches Output::Close(c, reason) && c == CloseCode::Abnormal && reason@
                    == Seq::<char>::empty()),
                _ => r@.len() == 0,
            }),
    {
        let mut outs: Vec<Output> = Vec::new();
        match self.state {
            State::RespondingClose | State::FinishedClose | State::Connecting => {},
            _ => {
                outs.push(Output::Close(CloseCode::Abnormal, String::new()));
            },
        }
        self.events = EventSet::none();
        outs
    }

    /// A shutdown request: say goodbye with an Away close; when even that
    /// fails, surface the failure and drop the connection.
    pub fn shutdown(&mut self) -> (r: Vec<Output>)
        requires
            old(self).wf(),
        ensures
            final(self).wf(),
            Connection::same_core(old(self), final(self)),
            no_messages(r@),
            final(self).spec_state() == (match old(self).spec_state() {
                State::Open => State::AwaitingClose,
                State::RespondingClose => State::FinishedClose,
                s => s,
            }),
            // The goodbye close is owed whenever the buffer may grow.
            old(self).spec_settings().out_buffer_grow ==> r@.len() == 0 && ({
                &&& (old(self).spec_state() == State::AwaitingClose || old(self).spec_state()
                    == State::FinishedClose ==> final(self).spec_unsent() == old(self).spec_unsent())
                &&& (!(old(self).spec_state() == State::AwaitingClose || old(self).spec_state()
                    == State::FinishedClose) ==> exists|g: FrameView|
                    masked_variant(
                        plain_frame(
                            OpCode::Close,
                            close_payload(
                                CloseCode::Away,
                                vstd::string::StringSliceAdditionalSpecFns::spec_bytes(
                                    "Shutting down.",
                                ),
                            ),
                        ),
                        g,
                        old(self).spec_endpoint() == Endpoint::Client,
                    ) && final(self).spec_unsent() == old(self).spec_unsent()
                        + #[trigger] wire_of(g))
            }),
            // On a capacity failure the error surfaces and the connection
            // drops.
            r@.len() > 0 ==> (r@[0] matches Output::Error(e) && e.kind == Kind::Capacity) && !old(self).spec_settings().out_buffer_grow && final(self).spec_events() == (EventSet {
                readable: false,
                writable: false,
                hup: false,
            }),
    {
        match self.send_close(CloseCode::Away, "Shutting down.") {
            Ok(()) => Vec::new(),
            Err(e) => {
                let mut outs: Vec<Output> = Vec::new();
                outs.push(Output::Error(e));
                let mut rest = self.disconnect();
                outs.append(&mut rest);
                outs
            },
        }
    }

    /// Classify an error and react as its kind asks: during the handshake a
    /// server answers 400 or 500 and a client drops; after it, protocol,
    /// capacity, encoding and internal errors start a close with their
    /// codes (1002, 1009, 1007, 1011), IO errors drop the connection, and
    /// queue, timer and custom errors only surface.
    pub fn error(&mut self, err: Error) -> (r: Vec<Output>)
        requires
            old(self).wf(),
            !(err.kind == Kind::Internal && old(self).spec_settings().panic_on_internal),
            !(err.kind == Kind::Capacity && old(self).spec_settings().panic_on_capacity),
            !(err.kind == Kind::Protocol && old(self).spec_settings().panic_on_protocol),
            !(err.kind == Kind::Encoding && old(self).spec_settings().panic_on_encoding),
            !(err.kind == Kind::Queue && old(self).spec_settings().panic_on_queue),
            !(err.kind == Kind::Timer && old(self).spec_settings().panic_on_timeout),
            !((err.kind == Kind::Io || err.kind == Kind::Tls) && old(self).spec_settings().panic_on_io),
        ensures
            final(self).wf(),
            final(self).spec_token() == old(self).spec_token(),
            final(self).spec_connection_id() == old(self).spec_connection_id(),
            final(self).spec_endpoint() == old(self).spec_endpoint(),
            final(self).spec_settings() == old(self).spec_settings(),
            no_messages(r@),
            r@.len() >= 1 && r@[0] == Output::Error(err),
            // During the handshake a server answers 400 on protocol errors
            // and 500 on anything but stream failures; a client, and any
            // endpoint with a failed stream, just drops.
            old(self).spec_state() == State::Connecting ==> final(self).spec_state()
                == State::Connecting && r@.len() == 1 && ({
                &&& (old(self).spec_endpoint() == Endpoint::Server && err.kind == Kind::Protocol
                    ==> final(self).spec_response() == encode_utf8(
                    "HTTP/1.1 400 Bad Request"@ + "\r\n\r\n"@ + err.details@,
                ) && final(self).spec_events().writable && !final(self).spec_events().readable)
                &&& (old(self).spec_endpoint() == Endpoint::Server && err.kind != Kind::Protocol
                    && err.kind != Kind::Io && err.kind != Kind::Tls ==> final(self).spec_response() == encode_utf8(
                    "HTTP/1.1 500 Internal Server Error"@ + "\r\n\r\n"@ + err.details@,
                ) && final(self).spec_events().writable && !final(self).spec_events().readable)
                &&& (old(self).spec_endpoint() == Endpoint::Client || err.kind == Kind::Io
                    || err.kind == Kind::Tls ==> final(self).spec_events() == (EventSet {
                    readable: false,
                    writable: false,
                    hup: false,
                }))
            }),
            // After the handshake, the four close-worthy kinds start the
            // close handshake with their codes (1002/1009/1007/1011); the
            // close frame is owed whenever the buffer may grow.
            old(self).spec_state() != State::Connecting && (err.kind == Kind::Protocol
                || err.kind == Kind::Capacity || err.kind == Kind::Encoding || err.kind
                == Kind::Internal) ==> final(self).spec_state() == (match old(self).spec_state() {
                State::Open => State::AwaitingClose,
                State::RespondingClose => State::FinishedClose,
                s => s,
            }) && (old(self).spec_settings().out_buffer_grow && (old(self).spec_state()
                == State::Open || old(self).spec_state() == State::RespondingClose)
                ==> r@.len() == 1 && exists|g: FrameView|
                masked_variant(
                    plain_frame(
                        OpCode::Close,
                        close_payload(
                            match err.kind {
                                Kind::Protocol => CloseCode::Protocol,
                                Kind::Capacity => CloseCode::Size,
                                Kind::Encoding => CloseCode::Invalid,
                                _ => CloseCode::Error,
                            },
                            encode_utf8(err.details@),
                        ),
                    ),
                    g,
                    old(self).spec_endpoint() == Endpoint::Client,
                ) && final(self).spec_unsent() == old(self).spec_unsent() + #[trigger] wire_of(
                    g,
                )),
            // Stream and handshake-reply failures after the handshake tear
            // the connection down without a close handshake.
            old(self).spec_state() != State::Connecting && (err.kind == Kind::Io || err.kind
                == Kind::Tls || err.kind == Kind::Http) ==> final(self).spec_state() == old(self).spec_state() && final(self).spec_unsent() == old(self).spec_unsent() && final(self).spec_events() == (EventSet { readable: false, writable: false, hup: false }) && (
            match old(self).spec_state() {
                State::Open | State::AwaitingClose => r@.len() == 2 && (r@[1]
                    matches Output::Close(c, reason) && c == CloseCode::Abnormal && reason@
                    == Seq::<char>::empty()),
                _ => r@.len() == 1,
            }),
            // Queue, timer and application errors only surface.
            old(self).spec_state() != State::Connecting && (err.kind == Kind::Custom || err.kind
                == Kind::Timer || err.kind == Kind::Queue) ==> r@.len() == 1 && final(self).spec_state() == old(self).spec_state() && final(self).spec_events() == old(self).spec_events() && final(self).spec_unsent() == old(self).spec_unsent() && final(self).spec_fragments() == old(self).spec_fragments(),
    {
        let mut outs: Vec<Output> = Vec::new();
        let kind = err.kind;
        let details = err.details.clone();
        outs.push(Output::Error(err));
        if self.state.is_connecting() {
            match kind {
                Kind::Protocol => {
                    if self.is_server() {
                        self.response = crate::handshake::Response::new(
                            crate::handshake::error_head(
                                "HTTP/1.1 400 Bad Request",
                                details.as_str(),
                            ),
                        );
                        self.res_pos = 0;
                        self.events.readable = false;
                        self.events.writable = true;
                    } else {
                        self.events = EventSet::none();
                    }
                },
                Kind::Io | Kind::Tls => {
                    self.events = EventSet::none();
                },
                _ => {
                    if self.is_server() {
                        self.response = crate::handshake::Response::new(
                            crate::handshake::error_head(
                                "HTTP/1.1 500 Internal Server Error",
                                details.as_str(),
                            ),
                        );
                        self.res_pos = 0;
                        self.events.readable = false;
                        self.events.writable = true;
                    } else {
                        self.events = EventSet::none();
                    }
                },
            }
            return outs;
        }
        let code = match kind {
            Kind::Internal => CloseCode::Error,
            Kind::Capacity => CloseCode::Size,
            Kind::Protocol => CloseCode::Protocol,
            Kind::Encoding => CloseCode::Invalid,
            Kind::Custom | Kind::Timer | Kind::Queue => {
                return outs;
            },
            Kind::Http => {
                let mut rest = self.disconnect();
                outs.append(&mut rest);
                return outs;
            },
            Kind::Io | Kind::Tls => {
                let mut rest = self.disconnect();
                outs.append(&mut rest);
                return outs;
            },
        };
        match self.send_close(code, details.as_str()) {
            Ok(()) => {},
            Err(e) => {
                outs.push(Output::Error(e));
                let mut rest = self.disconnect();
                outs.append(&mut rest);
            },
        }
        outs
    }
}

} // verus!
