//! End-to-end scenarios driven through the connection state machine, with
//! the two endpoints wired to each other in memory.

use ws::connection::{Connection, EventSet, Output, Settings, State};
use ws::handshake::Response;
use ws::{CloseCode, Frame, Message, OpCode};

fn open_pair(client_settings: Settings, server_settings: Settings) -> (Connection, Connection) {
    let mut client = Connection::new(0, 0, client_settings);
    client
        .as_client("127.0.0.1", 3012, "/", None, None)
        .unwrap();
    let mut server = Connection::new(0, 0, server_settings);
    server.as_server();

    let req_bytes = client.pending_write();
    client.write(req_bytes.len()).unwrap();
    let outs = server.read(&req_bytes).unwrap();
    assert!(matches!(outs.as_slice(), [Output::RequestReady]));

    let res = Response::from_request(server.request(), None, None).unwrap();
    server.provide_response(res);
    let res_bytes = server.pending_write();
    let outs = server.write(res_bytes.len()).unwrap();
    assert!(matches!(outs.as_slice(), [Output::Open]));
    assert_eq!(server.state(), State::Open);

    let outs = client.read(&res_bytes).unwrap();
    assert!(matches!(outs.as_slice(), [Output::Open]));
    assert_eq!(client.state(), State::Open);

    (client, server)
}

fn drain(conn: &mut Connection) -> Vec<u8> {
    let bytes = conn.pending_write();
    conn.write(bytes.len()).unwrap();
    bytes
}

#[test]
fn echo_round_trip_text() {
    let (mut client, mut server) = open_pair(Settings::default(), Settings::default());

    client
        .send_message(Message::Text("Hello WebSocket".to_string()))
        .unwrap();
    let wire = drain(&mut client);
    let outs = server.read(&wire).unwrap();
    let msg = match outs.as_slice() {
        [Output::Message(m)] => m.clone(),
        other => panic!("expected one message, got {:?}", other),
    };
    assert_eq!(msg, Message::Text("Hello WebSocket".to_string()));

    // The server echoes it back.
    server.send_message(msg).unwrap();
    let wire = drain(&mut server);
    let outs = client.read(&wire).unwrap();
    match outs.as_slice() {
        [Output::Message(Message::Text(s))] => assert_eq!(s, "Hello WebSocket"),
        other => panic!("expected the echoed text, got {:?}", other),
    }

    // The client closes normally (code 1000).
    client.send_close(CloseCode::Normal, "").unwrap();
    assert_eq!(client.state(), State::AwaitingClose);
    let wire = drain(&mut client);
    let outs = server.read(&wire).unwrap();
    match outs.as_slice() {
        [Output::Close(code, _)] => assert_eq!(*code, CloseCode::Normal),
        other => panic!("expected the close notification, got {:?}", other),
    }
    // The server's mirrored close reaches the client.
    let wire = drain(&mut server);
    let outs = client.read(&wire).unwrap();
    match outs.as_slice() {
        [Output::Close(code, _)] => assert_eq!(*code, CloseCode::Normal),
        other => panic!("expected the mirrored close, got {:?}", other),
    }
    assert_eq!(client.state(), State::FinishedClose);
}

#[test]
fn client_frames_are_masked_server_frames_are_not() {
    let (mut client, mut server) = open_pair(Settings::default(), Settings::default());

    client.send_message(Message::Text("from client".to_string())).unwrap();
    let wire = drain(&mut client);
    assert_eq!(wire[1] & 0x80, 0x80, "client frames must carry the mask bit");

    server.send_message(Message::Text("from server".to_string())).unwrap();
    let wire = drain(&mut server);
    assert_eq!(wire[1] & 0x80, 0, "server frames must not carry the mask bit");
}

#[test]
fn fragmented_binary_message() {
    let mut settings = Settings::default();
    settings.fragment_size = 10;
    let (mut client, mut server) = open_pair(settings, Settings::default());

    // 3 * fragment_size + 7 bytes must leave as exactly four frames.
    let payload: Vec<u8> = (0..37u8).collect();
    client.send_message(Message::Binary(payload.clone())).unwrap();
    let wire = drain(&mut client);

    let mut frames: Vec<Frame> = Vec::new();
    let mut at: usize = 0;
    while let Some((frame, used)) = Frame::parse(&wire, at).unwrap() {
        at += used;
        frames.push(frame);
    }
    assert_eq!(frames.len(), 4);
    assert_eq!(frames[0].opcode(), OpCode::Binary);
    assert!(!frames[0].is_final());
    assert_eq!(frames[1].opcode(), OpCode::Continue);
    assert!(!frames[1].is_final());
    assert_eq!(frames[2].opcode(), OpCode::Continue);
    assert!(!frames[2].is_final());
    assert_eq!(frames[3].opcode(), OpCode::Continue);
    assert!(frames[3].is_final());

    // The server reassembles exactly one message with the original bytes.
    let outs = server.read(&wire).unwrap();
    match outs.as_slice() {
        [Output::Message(Message::Binary(data))] => assert_eq!(*data, payload),
        other => panic!("expected one binary message, got {:?}", other),
    }
}

#[test]
fn masked_frame_from_server_is_protocol_violation() {
    let mut settings = Settings::default();
    settings.masking_strict = true;
    let (mut client, _server) = open_pair(settings, Settings::default());

    // A server must never mask; craft a masked frame and hand it to the
    // strict client.
    let mut rogue = Frame::message(b"oops".to_vec(), OpCode::Text, true);
    rogue.mask();
    let mut wire: Vec<u8> = Vec::new();
    rogue.format(&mut wire);

    let err = client.read(&wire).unwrap_err();
    assert_eq!(err.kind, ws::Kind::Protocol);

    // The error classifier must start a close with 1002.
    let outs = client.error(err);
    assert!(matches!(outs.as_slice(), [Output::Error(_)]));
    assert_eq!(client.state(), State::AwaitingClose);
    let reply = client.pending_write();
    let (frame, _) = Frame::parse(&reply, 0).unwrap().unwrap();
    assert_eq!(frame.opcode(), OpCode::Close);
    let body = frame.into_data();
    let code = u16::from(body[0]) * 256 + u16::from(body[1]);
    assert_eq!(code, 1002);
}

#[test]
fn close_code_1004_is_rejected_with_1002() {
    let (mut client, mut server) = open_pair(Settings::default(), Settings::default());

    client.send_close(CloseCode::Other(1004), "").unwrap();
    let wire = drain(&mut client);
    let err = server.read(&wire).unwrap_err();
    assert_eq!(err.kind, ws::Kind::Protocol);

    // The server closes with 1002, not an echo of 1004.
    let outs = server.error(err);
    assert!(matches!(outs.first(), Some(Output::Error(_))));
    let reply = drain(&mut server);
    let (frame, _) = Frame::parse(&reply, 0).unwrap().unwrap();
    assert_eq!(frame.opcode(), OpCode::Close);
    let body = frame.into_data();
    let code = u16::from(body[0]) * 256 + u16::from(body[1]);
    assert_eq!(code, 1002);
}

#[test]
fn abnormal_hangup_reports_abnormal_close() {
    let (mut client, _server) = open_pair(Settings::default(), Settings::default());

    // The peer dropped TCP without a close frame.
    let outs = client.disconnect();
    match outs.as_slice() {
        [Output::Close(code, reason)] => {
            assert_eq!(*code, CloseCode::Abnormal);
            assert_eq!(reason, "");
        },
        other => panic!("expected the abnormal close, got {:?}", other),
    }
    assert_eq!(client.events(), EventSet::none());
}

#[test]
fn no_message_delivered_while_closing() {
    let (mut client, mut server) = open_pair(Settings::default(), Settings::default());

    // The server starts the close handshake and is now AwaitingClose.
    server.send_close(CloseCode::Normal, "").unwrap();
    drain(&mut server);
    assert_eq!(server.state(), State::AwaitingClose);

    // A text frame arriving now must not be delivered.
    client.send_message(Message::Text("late".to_string())).unwrap();
    let wire = drain(&mut client);
    let outs = server.read(&wire).unwrap();
    assert!(outs.iter().all(|o| !matches!(o, Output::Message(_))));
}

#[test]
fn ping_answers_with_matching_pong() {
    let (mut client, mut server) = open_pair(Settings::default(), Settings::default());

    client.send_ping(b"heartbeat".to_vec()).unwrap();
    let wire = drain(&mut client);
    let outs = server.read(&wire).unwrap();
    assert!(outs.is_empty());

    // The server queued a pong with the identical payload.
    let wire = drain(&mut server);
    let (frame, _) = Frame::parse(&wire, 0).unwrap().unwrap();
    assert_eq!(frame.opcode(), OpCode::Pong);
    assert_eq!(frame.into_data(), b"heartbeat".to_vec());
}

#[test]
fn fragmented_control_frame_is_protocol_error() {
    let (_client, mut server) = open_pair(Settings::default(), Settings::default());

    // A non-final ping: 0x09 with FIN clear.
    let wire = vec![0x09u8, 0x00];
    let err = server.read(&wire).unwrap_err();
    assert_eq!(err.kind, ws::Kind::Protocol);
}

#[test]
fn continue_without_first_fragment_is_protocol_error() {
    let (_client, mut server) = open_pair(Settings::default(), Settings::default());

    let mut wire: Vec<u8> = Vec::new();
    Frame::message(b"tail".to_vec(), OpCode::Continue, true).format(&mut wire);
    let err = server.read(&wire).unwrap_err();
    assert_eq!(err.kind, ws::Kind::Protocol);
}

#[test]
fn text_message_must_be_utf8() {
    let (_client, mut server) = open_pair(Settings::default(), Settings::default());

    let mut wire: Vec<u8> = Vec::new();
    Frame::message(vec![0xFFu8, 0xFE], OpCode::Text, true).format(&mut wire);
    let err = server.read(&wire).unwrap_err();
    assert_eq!(err.kind, ws::Kind::Encoding);
}

#[test]
fn rejected_status_fails_the_client_handshake() {
    let mut client = Connection::new(0, 0, Settings::default());
    client
        .as_client("127.0.0.1", 3012, "/", None, None)
        .unwrap();
    let req = client.pending_write();
    client.write(req.len()).unwrap();
    let err = client
        .read(b"HTTP/1.1 403 Forbidden\r\n\r\n")
        .unwrap_err();
    assert_eq!(err.kind, ws::Kind::Protocol);
}
