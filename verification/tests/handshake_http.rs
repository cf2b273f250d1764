//! Key hashing, base64, and the minimal HTTP parsing of the handshake.

use ws::handshake::{encode_base64, hash_key, Handshake, Request, Response};

#[test]
fn hashes_the_sample_nonce() {
    // The worked example of RFC 6455 §1.3.
    let accept = hash_key(b"dGhlIHNhbXBsZSBub25jZQ==");
    assert_eq!(accept, "s3pPLMBiTxaQ9kYGzzhZRbK+xOo=");
}

#[test]
fn base64_reference_vectors() {
    assert_eq!(encode_base64(b""), "");
    assert_eq!(encode_base64(b"f"), "Zg==");
    assert_eq!(encode_base64(b"fo"), "Zm8=");
    assert_eq!(encode_base64(b"foo"), "Zm9v");
    assert_eq!(encode_base64(b"foob"), "Zm9vYg==");
    assert_eq!(encode_base64(b"fooba"), "Zm9vYmE=");
    assert_eq!(encode_base64(b"foobar"), "Zm9vYmFy");
}

fn sample_request() -> Request {
    let text = "GET /chat HTTP/1.1\r\n\
                Connection: Upgrade\r\n\
                Upgrade: websocket\r\n\
                Host: example.com\r\n\
                Sec-WebSocket-Version: 13\r\n\
                Sec-WebSocket-Protocol: chat, superchat\r\n\
                Sec-WebSocket-Key: dGhlIHNhbXBsZSBub25jZQ==\r\n\r\n";
    Request::new(text.as_bytes().to_vec())
}

#[test]
fn request_accessors() {
    let req = sample_request();
    assert_eq!(req.key().unwrap(), b"dGhlIHNhbXBsZSBub25jZQ==".to_vec());
    assert_eq!(req.version().unwrap(), "13");
    assert_eq!(req.resource().unwrap(), "/chat");
    assert_eq!(req.protocols().unwrap(), vec!["chat".to_string(), "superchat".to_string()]);
    assert!(req.extensions().unwrap().is_empty());
    assert!(req.origin().unwrap().is_none());
    let accept = req.parse().unwrap().unwrap();
    assert_eq!(accept, "s3pPLMBiTxaQ9kYGzzhZRbK+xOo=");
}

#[test]
fn request_without_key_is_protocol_error() {
    let req = Request::new(b"GET / HTTP/1.1\r\nHost: x\r\n\r\n".to_vec());
    assert_eq!(req.parse().unwrap_err().kind, ws::Kind::Protocol);
}

#[test]
fn incomplete_request_parses_to_none() {
    let req = Request::new(b"GET / HTTP/1.1\r\nHost: x\r\n".to_vec());
    assert!(req.parse().unwrap().is_none());
}

#[test]
fn response_from_request_carries_the_accept_key() {
    let req = sample_request();
    let res = Response::from_request(&req, None, None).unwrap();
    assert_eq!(res.status().unwrap(), 101);
    assert_eq!(res.key().unwrap(), b"s3pPLMBiTxaQ9kYGzzhZRbK+xOo=".to_vec());
}

#[test]
fn response_status_and_body_split() {
    let mut res = Response::new(Vec::new());
    res.append(b"HTTP/1.1 101 Switching Protocols\r\nUpgrade: websocket\r\n\r\n\x81\x00");
    let body_at = res.parse().unwrap();
    assert_eq!(res.status().unwrap(), 101);
    assert_eq!(body_at, res.buffer().len() - 2);
    let tail = res.take_body();
    assert_eq!(tail, vec![0x81u8, 0x00]);
}

#[test]
fn built_request_parses_back() {
    let req = Request::from_parts("example.com", 3012, "/chat?query=me", Some("chat"), None);
    assert_eq!(req.resource().unwrap(), "/chat?query=me");
    assert_eq!(req.version().unwrap(), "13");
    assert_eq!(req.protocols().unwrap(), vec!["chat".to_string()]);
    // The generated key is a 24-character base64 string.
    let key = req.key().unwrap();
    assert_eq!(key.len(), 24);
    assert!(req.is_complete());
}

#[test]
fn test_remote_addr_x_forwarded_for() {
    let mut shake = Handshake::default();
    shake.request = Request::new(
        "GET / HTTP/1.1\r\n\
         Connection: Upgrade\r\n\
         Upgrade: websocket\r\n\
         X-Forwarded-For: 192.168.1.1, 192.168.1.2, 192.168.1.3\r\n\
         Sec-WebSocket-Version: 13\r\n\
         Sec-WebSocket-Key: q16eN37NCfVwUChPvBdk4g==\r\n\r\n"
            .as_bytes()
            .to_vec(),
    );
    assert_eq!(shake.remote_addr().unwrap().unwrap(), "192.168.1.1");
}

#[test]
fn test_remote_addr_forwarded() {
    let mut shake = Handshake::default();
    shake.request = Request::new(
        "GET / HTTP/1.1\r\n\
         Connection: Upgrade\r\n\
         Upgrade: websocket\r\n\
         Forwarded: by=192.168.1.1; for=192.0.2.43, for=\"[2001:db8:cafe::17]\", for=unknown\r\n\
         Sec-WebSocket-Version: 13\r\n\
         Sec-WebSocket-Key: q16eN37NCfVwUChPvBdk4g==\r\n\r\n"
            .as_bytes()
            .to_vec(),
    );
    assert_eq!(shake.remote_addr().unwrap().unwrap(), "192.0.2.43");
}

#[test]
fn header_lookup_is_case_insensitive_and_trimmed() {
    let req = Request::new(
        b"GET / HTTP/1.1\r\nSEC-WEBSOCKET-KEY:   spaced-key  \r\n\r\n".to_vec(),
    );
    assert_eq!(req.key().unwrap(), b"spaced-key".to_vec());
}
