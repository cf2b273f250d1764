//! The handler trait and output dispatch.

use ws::connection::{Connection, Output, Settings, State};
use ws::frame::Frame;
use ws::handler::{
    dispatch_outputs, read_frames_with, send_close_with, send_message_with, Handler,
};
use ws::handshake::{Handshake, Response};
use ws::{CloseCode, Error, Kind, Message, OpCode};

fn open_pair(client_settings: Settings, server_settings: Settings) -> (Connection, Connection) {
    let mut client = Connection::new(0, 0, client_settings);
    client.as_client("127.0.0.1", 3012, "/", None, None).unwrap();
    let mut server = Connection::new(0, 0, server_settings);
    server.as_server();
    let req = client.pending_write();
    client.write(req.len()).unwrap();
    server.read(&req).unwrap();
    let res = Response::from_request(server.request(), None, None).unwrap();
    server.provide_response(res);
    let res_bytes = server.pending_write();
    server.write(res_bytes.len()).unwrap();
    client.read(&res_bytes).unwrap();
    (client, server)
}

#[test]
fn test_handler() {
    struct H;

    impl Handler for H {
        fn on_open(&mut self, shake: Handshake) -> Result<(), Error> {
            assert!(shake.request.buffer().capacity() == 2048);
            Ok(())
        }

        fn on_message(&mut self, msg: Message) -> Result<(), Error> {
            assert_eq!(msg, Message::Text(String::from("testme")));
            Ok(())
        }

        fn on_close(&mut self, code: CloseCode, _: &str) {
            assert_eq!(code, CloseCode::Normal);
        }
    }

    let mut h = H;
    h.on_open(Handshake::default()).unwrap();
    h.on_message(Message::Text("testme".to_owned())).unwrap();
    h.on_close(CloseCode::Normal, "");
}

#[test]
fn dispatch_delivers_messages_closes_and_errors() {
    struct Recorder {
        messages: Vec<Message>,
        closes: Vec<(CloseCode, String)>,
        errors: Vec<Kind>,
    }

    impl Handler for Recorder {
        fn on_message(&mut self, msg: Message) -> Result<(), Error> {
            self.messages.push(msg);
            Ok(())
        }

        fn on_close(&mut self, code: CloseCode, reason: &str) {
            self.closes.push((code, reason.to_string()));
        }

        fn on_error(&mut self, err: Error) {
            self.errors.push(err.kind);
        }
    }

    let mut rec = Recorder { messages: Vec::new(), closes: Vec::new(), errors: Vec::new() };
    let outs = vec![
        Output::Message(Message::Text("one".to_string())),
        Output::Close(CloseCode::Away, "bye".to_string()),
        Output::Error(Error::new(Kind::Queue, "full")),
    ];
    dispatch_outputs(&mut rec, outs).unwrap();
    assert_eq!(rec.messages, vec![Message::Text("one".to_string())]);
    assert_eq!(rec.closes, vec![(CloseCode::Away, "bye".to_string())]);
    assert_eq!(rec.errors, vec![Kind::Queue]);
}

#[test]
fn frame_hook_intercepts_the_automatic_pong() {
    struct Interceptor {
        swallowed: usize,
    }

    impl Handler for Interceptor {
        fn on_frame(&mut self, frame: Frame) -> Result<Option<Frame>, Error> {
            if frame.opcode() == OpCode::Ping {
                self.swallowed += 1;
                return Ok(None);
            }
            Ok(Some(frame))
        }
    }

    // Open a server connection through the handshake.
    let (mut client, mut server) = open_pair(Settings::default(), Settings::default());
    assert_eq!(server.state(), State::Open);

    // A ping digested through the intercepting hook queues no pong.
    client.send_ping(b"probe".to_vec()).unwrap();
    let wire = client.pending_write();
    client.write(wire.len()).unwrap();
    let mut h = Interceptor { swallowed: 0 };
    server.receive(&wire).unwrap();
    let outs = read_frames_with(&mut server, &mut h).unwrap();
    assert!(outs.is_empty());
    assert_eq!(h.swallowed, 1);
    assert!(server.pending_write().is_empty(), "the intercepted ping must queue no pong");
}

#[test]
fn default_request_hook_builds_the_accept_response() {
    struct H;

    impl Handler for H {}

    let mut h = H;
    let req = ws::handshake::Request::new(
        "GET / HTTP/1.1\r\nSec-WebSocket-Key: dGhlIHNhbXBsZSBub25jZQ==\r\n\r\n"
            .as_bytes()
            .to_vec(),
    );
    let res = h.on_request(&req).unwrap();
    assert_eq!(res.status().unwrap(), 101);
    assert_eq!(res.key().unwrap(), b"s3pPLMBiTxaQ9kYGzzhZRbK+xOo=".to_vec());
}


#[test]
fn send_hook_sets_reserved_bits_on_every_chunk() {
    struct Compressor;

    impl Handler for Compressor {
        fn on_send_frame(&mut self, mut frame: Frame) -> Result<Option<Frame>, Error> {
            frame.set_rsv1(true);
            Ok(Some(frame))
        }
    }

    let mut settings = Settings::default();
    settings.fragment_size = 10;
    let (mut client, _server) = open_pair(settings, Settings::default());

    let mut h = Compressor;
    let payload: Vec<u8> = (0..25u8).collect();
    send_message_with(&mut client, &mut h, Message::Binary(payload)).unwrap();
    let wire = client.pending_write();

    let mut at: usize = 0;
    let mut frames: Vec<Frame> = Vec::new();
    while let Some((frame, used)) = Frame::parse(&wire, at).unwrap() {
        at += used;
        frames.push(frame);
    }
    assert_eq!(frames.len(), 3);
    for frame in &frames {
        assert!(frame.has_rsv1(), "the hook's reserved bit must reach every chunk");
        assert!(!frame.has_rsv2());
    }
    assert_eq!(frames[0].opcode(), OpCode::Binary);
    assert_eq!(frames[2].opcode(), OpCode::Continue);
    assert!(frames[2].is_final());
}

#[test]
fn send_hook_can_suppress_a_frame() {
    struct Muzzle;

    impl Handler for Muzzle {
        fn on_send_frame(&mut self, _frame: Frame) -> Result<Option<Frame>, Error> {
            Ok(None)
        }
    }

    let (mut client, _server) = open_pair(Settings::default(), Settings::default());
    let mut h = Muzzle;
    send_message_with(&mut client, &mut h, Message::Text("quiet".to_string())).unwrap();
    assert!(client.pending_write().is_empty(), "a suppressed frame must send nothing");

    // A suppressed close still transitions the close handshake.
    send_close_with(&mut client, &mut h, CloseCode::Normal, "").unwrap();
    assert_eq!(client.state(), State::AwaitingClose);
    assert!(client.pending_write().is_empty());
}
