//! The HTTP Upgrade handshake: key hashing, base64, and the minimal
//! request/response parsing the upgrade needs.

use vstd::prelude::*;
use vstd::string::StringExecFns;
use vstd::string::StringSliceAdditionalSpecFns;

use crate::http::{
    body_start, find_byte, find_byte_exec, find_crlf, find_crlf_exec, find_blank_exec, get_header,
    head_complete, header_value, split_trimmed, trim_ows, trimmed_copy,
};
use crate::result::{Error, Kind};
use crate::text::{bytes_to_vec, push_char, string_from_utf8};
use vstd::utf8::{decode_utf8, encode_utf8, valid_utf8};

verus! {

/// The base64 alphabet of RFC 4648, as a function from a 6-bit value to its
/// character.
pub open spec fn b64_char(v: int) -> char
    recommends
        0 <= v < 64,
{
    if v < 26 {
        ((65 + v) as u8) as char
    } else if v < 52 {
        ((97 + (v - 26)) as u8) as char
    } else if v < 62 {
        ((48 + (v - 52)) as u8) as char
    } else if v == 62 {
        '+'
    } else {
        '/'
    }
}

/// Standard base64 with `=` padding, three input bytes to four output
/// characters.
pub open spec fn base64_chars(data: Seq<u8>) -> Seq<char>
    decreases data.len(),
{
    if data.len() == 0 {
        seq![]
    } else if data.len() == 1 {
        let b0 = data[0] as int;
        seq![b64_char(b0 / 4), b64_char((b0 % 4) * 16), '=', '=']
    } else if data.len() == 2 {
        let b0 = data[0] as int;
        let b1 = data[1] as int;
        seq![b64_char(b0 / 4), b64_char((b0 % 4) * 16 + b1 / 16), b64_char((b1 % 16) * 4), '=']
    } else {
        let b0 = data[0] as int;
        let b1 = data[1] as int;
        let b2 = data[2] as int;
        seq![
            b64_char(b0 / 4),
            b64_char((b0 % 4) * 16 + b1 / 16),
            b64_char((b1 % 16) * 4 + b2 / 64),
            b64_char(b2 % 64),
        ] + base64_chars(data.skip(3))
    }
}

/// The base64 character for a 6-bit value.
fn b64ch(v: u8) -> (r: char)
    requires
        v < 64,
    ensures
        r == b64_char(v as int),
{
    if v < 26 {
        (65 + v) as char
    } else if v < 52 {
        (97 + (v - 26)) as char
    } else if v < 62 {
        (48 + (v - 52)) as char
    } else if v == 62 {
        '+'
    } else {
        '/'
    }
}

/// Base64 produces four characters for every started triple of bytes.
pub proof fn lemma_base64_len(data: Seq<u8>)
    ensures
        base64_chars(data).len() == ((data.len() + 2) / 3) * 4,
    decreases data.len(),
{
    if data.len() >= 3 {
        lemma_base64_len(data.skip(3));
        assert((data.len() + 2) / 3 == (data.len() - 3 + 2) / 3 + 1) by (nonlinear_arith)
            requires
                data.len() >= 3,
        ;
    }
}

/// Encode bytes as standard base64 (RFC 4648, `+/` alphabet, `=` padding).
pub fn encode_base64(data: &[u8]) -> (r: String)
    ensures
        r@ == base64_chars(data@),
        r@.len() == ((data@.len() + 2) / 3) * 4,
{
    let mut out = String::new();
    let n = data.len();
    let mut i: usize = 0;
    proof {
        assert(data@.skip(0) =~= data@);
        assert(out@ + base64_chars(data@) =~= base64_chars(data@));
    }
    while n - i >= 3
        invariant
            i <= n,
            n == data@.len(),
            base64_chars(data@) == out@ + base64_chars(data@.skip(i as int)),
        decreases n - i,
    {
        let b0 = data[i];
        let b1 = data[i + 1];
        let b2 = data[i + 2];
        push_char(&mut out, b64ch(b0 / 4));
        push_char(&mut out, b64ch((b0 % 4) * 16 + b1 / 16));
        push_char(&mut out, b64ch((b1 % 16) * 4 + b2 / 64));
        push_char(&mut out, b64ch(b2 % 64));
        proof {
            let rem = data@.skip(i as int);
            assert(rem.len() >= 3);
            assert(rem[0] == b0 && rem[1] == b1 && rem[2] == b2);
            assert(rem.skip(3) =~= data@.skip(i + 3));
        }
        i = i + 3;
    }
    if n - i == 1 {
        let b0 = data[i];
        push_char(&mut out, b64ch(b0 / 4));
        push_char(&mut out, b64ch((b0 % 4) * 16));
        push_char(&mut out, '=');
        push_char(&mut out, '=');
        proof {
            let rem = data@.skip(i as int);
            assert(rem.len() == 1 && rem[0] == b0);
        }
    } else if n - i == 2 {
        let b0 = data[i];
        let b1 = data[i + 1];
        push_char(&mut out, b64ch(b0 / 4));
        push_char(&mut out, b64ch((b0 % 4) * 16 + b1 / 16));
        push_char(&mut out, b64ch((b1 % 16) * 4));
        push_char(&mut out, '=');
        proof {
            let rem = data@.skip(i as int);
            assert(rem.len() == 2 && rem[0] == b0 && rem[1] == b1);
        }
    } else {
        proof {
            let rem = data@.skip(i as int);
            assert(rem.len() == 0);
        }
    }
    proof {
        lemma_base64_len(data@);
    }
    out
}

/// The SHA-1 digest of a byte sequence; a function of the bytes alone,
/// computed only by the outside hasher.
pub uninterp spec fn sha1_of(data: Seq<u8>) -> Seq<u8>;

/// Relies on sha1::Sha1 through the Digest trait: the 20-byte SHA-1 digest
/// of the input, a function of the input bytes alone.
#[verifier::external_body]
fn sha1_digest(data: &Vec<u8>) -> (r: Vec<u8>)
    ensures
        r@ == sha1_of(data@),
        r@.len() == 20,
{
    let d = <sha1::Sha1 as sha1::Digest>::digest(data.as_slice());
    d.as_slice().to_vec()
}

/// The bytes of the globally unique identifier that RFC 6455 fixes for
/// computing Sec-WebSocket-Accept.
pub open spec fn guid_bytes() -> Seq<u8> {
    "258EAFA5-E914-47DA-95CA-C5AB0DC85B11".spec_bytes()
}

/// The Sec-WebSocket-Accept value owed for a request key: standard base64 of
/// the SHA-1 digest of the key followed by the fixed GUID.
pub open spec fn spec_accept_key(key: Seq<u8>) -> Seq<char> {
    base64_chars(sha1_of(key + guid_bytes()))
}

/// Hash a Sec-WebSocket-Key into the Sec-WebSocket-Accept value:
/// base64(SHA-1(key ++ GUID)).
pub fn hash_key(key: &[u8]) -> (r: String)
    ensures
        r@ == spec_accept_key(key@),
        r@.len() == 28,
{
    let mut input = bytes_to_vec(key);
    let mut tail = bytes_to_vec("258EAFA5-E914-47DA-95CA-C5AB0DC85B11".as_bytes());
    input.append(&mut tail);
    proof {
        assert(input@ =~= key@ + guid_bytes());
    }
    let digest = sha1_digest(&input);
    encode_base64(digest.as_slice())
}

/// Generate a fresh Sec-WebSocket-Key: sixteen random bytes in base64.
pub fn generate_key() -> (r: String)
    ensures
        exists|b: Seq<u8>| b.len() == 16 && r@ == base64_chars(b),
    {
    let raw: [u8; 16] = rand::random::<[u8; 16]>();
    let r = encode_base64(raw.as_slice());
    proof {
        assert(raw@.len() == 16);
    }
    r
}

/// Build the bytes of an HTTP error reply: the status line, a blank line,
/// and the error's description as the body.
pub fn error_head(head: &str, body: &str) -> (r: Vec<u8>)
    ensures
        r@ == encode_utf8(head@ + "\r\n\r\n"@ + body@),
{
    let mut s = String::new();
    s.append(head);
    s.append("\r\n\r\n");
    s.append(body);
    let r = bytes_to_vec(s.as_str().as_bytes());
    proof {
        assert(s@ =~= head@ + "\r\n\r\n"@ + body@);
    }
    r
}

/// Decode a header value to a string, surfacing an encoding error on
/// invalid UTF-8.
fn decode_value(v: Vec<u8>) -> (r: Result<String, Error>)
    ensures
        match r {
            Ok(s) => valid_utf8(v@) && s@ == decode_utf8(v@),
            Err(e) => !valid_utf8(v@) && e.kind == Kind::Encoding,
        },
{
    match string_from_utf8(v) {
        Some(s) => Ok(s),
        None => Err(Error::new(Kind::Encoding, "Header value is not valid UTF-8.")),
    }
}

/// Split `v` from `start` on at `sep`, trimming each piece.
fn split_value(v: &Vec<u8>, start: usize, sep: u8) -> (r: Vec<Vec<u8>>)
    requires
        start <= v@.len(),
    ensures
        r@.len() == split_trimmed(v@.skip(start as int), sep).len(),
        forall|i: int| 0 <= i < r@.len() ==> r@[i]@ == split_trimmed(v@.skip(start as int), sep)[i],
    decreases v@.len() - start,
{
    let c = find_byte_exec(v, start, sep);
    proof {
        crate::http::lemma_find_byte_skip(v@, start as int, sep);
    }
    if c >= v.len() {
        let piece = trimmed_copy(v, start, v.len());
        proof {
            assert(v@.subrange(start as int, v@.len() as int) =~= v@.skip(start as int));
        }
        let mut out: Vec<Vec<u8>> = Vec::new();
        out.push(piece);
        out
    } else {
        let piece = trimmed_copy(v, start, c);
        proof {
            let rem = v@.skip(start as int);
            assert(rem.subrange(0, c - start) =~= v@.subrange(start as int, c as int));
            assert(rem.skip(c - start + 1) =~= v@.skip(c + 1));
        }
        let rest = split_value(v, c + 1, sep);
        let mut out: Vec<Vec<u8>> = Vec::new();
        out.push(piece);
        let mut tail = rest;
        out.append(&mut tail);
        out
    }
}

/// Decode every piece of a split header value.
fn decode_pieces(pieces: Vec<Vec<u8>>) -> (r: Result<Vec<String>, Error>)
    ensures
        match r {
            Ok(vs) => vs@.len() == pieces@.len() && (forall|i: int| #![trigger vs@[i]]
                0 <= i < vs@.len() ==> vs@[i]@ == decode_utf8(pieces@[i]@)) && (forall|i: int|
                0 <= i < pieces@.len() ==> valid_utf8((#[trigger] pieces@[i])@)),
            Err(e) => e.kind == Kind::Encoding && (exists|i: int|
                0 <= i < pieces@.len() && !valid_utf8((#[trigger] pieces@[i])@)),
        },
{
    let mut out: Vec<String> = Vec::new();
    let n = pieces.len();
    let mut j: usize = 0;
    while j < n
        invariant
            j <= n,
            n == pieces@.len(),
            out@.len() == j,
            forall|i: int| #![trigger out@[i]]
                0 <= i < j ==> out@[i]@ == decode_utf8(pieces@[i]@),
            forall|i: int| 0 <= i < j ==> valid_utf8((#[trigger] pieces@[i])@),
        decreases n - j,
    {
        let ghost out0 = out@;
        let piece = crate::text::bytes_to_vec(pieces[j].as_slice());
        let ghost pg = piece@;
        let dr = decode_value(piece);
        let s = match dr {
            Ok(s) => s,
            Err(e) => {
                return Err(e);
            },
        };
        let ghost sg = s@;
        proof {
            assert(pg == pieces@[j as int]@);
            assert(valid_utf8(pg) && sg == decode_utf8(pg));
        }
        out.push(s);
        j = j + 1;
        proof {
            assert forall|i: int| #![trigger out@[i]]
                0 <= i < j implies out@[i]@ == decode_utf8(pieces@[i]@) by {
                if i == j - 1 {
                    assert(out@[i]@ == sg);
                    assert(pieces@[i]@ == pg);
                } else {
                    assert(out@[i] == out0[i]);
                    assert(out0[i]@ == decode_utf8(pieces@[i]@));
                }
            }
        }
    }
    Ok(out)
}

/// `vs` holds exactly the comma-split, trimmed entries of the header
/// value `v`, each decoded from UTF-8, in order.
pub open spec fn decoded_header_list(v: Seq<u8>, vs: Seq<String>) -> bool {
    &&& vs.len() == split_trimmed(v, 44).len()
    &&& (forall|i: int|
        0 <= i < vs.len() ==> vs[i]@ == decode_utf8(#[trigger] split_trimmed(v, 44)[i]))
}

/// Some comma-split entry of the header value `v` is not valid UTF-8.
pub open spec fn some_piece_invalid(v: Seq<u8>) -> bool {
    exists|i: int|
        0 <= i < split_trimmed(v, 44).len() && !valid_utf8(#[trigger] split_trimmed(v, 44)[i])
}

/// Split a header value at commas and decode every trimmed piece;
/// fails exactly when some piece is not valid UTF-8.
fn split_decode(v: Vec<u8>) -> (r: Result<Vec<String>, Error>)
    ensures
        match r {
            Ok(vs) => decoded_header_list(v@, vs@),
            Err(e) => e.kind == Kind::Encoding && some_piece_invalid(v@),
        },
{
    proof {
        assert(v@.skip(0) =~= v@);
    }
    let pieces = split_value(&v, 0, 44);
    let ghost pv = pieces@;
    let ghost hv = v@;
    let r = decode_pieces(pieces);
    proof {
        assert(pv.len() == split_trimmed(hv, 44).len());
        if r is Err {
            let i = choose|i: int| 0 <= i < pv.len() && !valid_utf8((#[trigger] pv[i])@);
            assert(!valid_utf8(split_trimmed(hv, 44)[i]));
        } else {
            let vs = r->Ok_0;
            assert forall|i: int| 0 <= i < vs@.len() implies vs@[i]@ == decode_utf8(
                #[trigger] split_trimmed(hv, 44)[i],
            ) by {
                assert(vs@[i]@ == decode_utf8(pv[i]@));
                assert(pv[i]@ == split_trimmed(hv, 44)[i]);
            }
        }
    }
    r
}

/// The sequence of decimal digit characters of a non-negative number.
pub open spec fn dec_chars(n: int) -> Seq<char>
    recommends
        n >= 0,
    decreases n,
{
    if n < 10 {
        seq![((48 + n) as u8) as char]
    } else {
        dec_chars(n / 10) + seq![((48 + n % 10) as u8) as char]
    }
}

/// Format a number as decimal digits.
fn u16_to_string(n: u16) -> (r: String)
    ensures
        r@ == dec_chars(n as int),
    decreases n,
{
    if n < 10 {
        let mut s = String::new();
        push_char(&mut s, (48 + n as u8) as char);
        proof {
            assert(s@ =~= dec_chars(n as int));
        }
        s
    } else {
        let mut s = u16_to_string(n / 10);
        push_char(&mut s, (48 + (n % 10) as u8) as char);
        proof {
            assert(s@ =~= dec_chars(n as int));
        }
        s
    }
}

/// The value of a sequence of decimal digit bytes.
pub open spec fn dec_value(t: Seq<u8>) -> int
    decreases t.len(),
{
    if t.len() == 0 {
        0
    } else {
        dec_value(t.take(t.len() - 1)) * 10 + (t.last() - 48)
    }
}

/// True when every byte is a decimal digit.
pub open spec fn all_digits(t: Seq<u8>) -> bool {
    forall|k: int| 0 <= k < t.len() ==> 48 <= #[trigger] t[k] <= 57
}

/// Ten to the given power.
pub open spec fn pow10(n: nat) -> int
    decreases n,
{
    if n == 0 {
        1
    } else {
        10 * pow10((n - 1) as nat)
    }
}

/// The value of a digit string is bounded by ten to its length.
pub proof fn lemma_dec_value_bound(t: Seq<u8>)
    requires
        all_digits(t),
    ensures
        0 <= dec_value(t) < pow10(t.len()),
    decreases t.len(),
{
    if t.len() == 0 {
    } else {
        let p = t.take(t.len() - 1);
        assert(all_digits(p));
        lemma_dec_value_bound(p);
    }
}

/// The status code of a response head: the second space-separated token of
/// the status line, read as a decimal number of at most four digits.
pub open spec fn spec_status(s: Seq<u8>) -> Option<u16> {
    let e = find_crlf(s, 0);
    if e + 2 > s.len() {
        None
    } else {
        let l = s.subrange(0, e);
        let a = find_byte(l, 0, 32);
        if a >= l.len() {
            None
        } else {
            let t = l.subrange(a + 1, find_byte(l, a + 1, 32));
            if 1 <= t.len() <= 4 && all_digits(t) {
                Some(dec_value(t) as u16)
            } else {
                None
            }
        }
    }
}

/// The resource of a request head: the second space-separated token of the
/// request line.
pub open spec fn spec_resource(s: Seq<u8>) -> Option<Seq<u8>> {
    let e = find_crlf(s, 0);
    if e + 2 > s.len() {
        None
    } else {
        let l = s.subrange(0, e);
        let a = find_byte(l, 0, 32);
        if a >= l.len() {
            None
        } else {
            Some(l.subrange(a + 1, find_byte(l, a + 1, 32)))
        }
    }
}

/// The value between the first and second `=` of the first comma-separated
/// piece of a `for=` segment.
pub open spec fn for_value(t: Seq<u8>) -> Option<Seq<u8>> {
    let fc = t.subrange(0, find_byte(t, 0, 44));
    let e1 = find_byte(fc, 0, 61);
    if e1 >= fc.len() {
        None
    } else {
        Some(fc.subrange(e1 + 1, find_byte(fc, e1 + 1, 61)))
    }
}

/// The address named by the first semicolon-separated segment that starts
/// (after trimming) with `for`.
pub open spec fn first_for_value(v: Seq<u8>) -> Option<Seq<u8>>
    decreases v.len() via first_for_value_decreases
{
    let c = find_byte(v, 0, 59);
    let seg = if c >= v.len() {
        v
    } else {
        v.subrange(0, c)
    };
    let t = trim_ows(seg);
    if t.len() >= 3 && t[0] == 102 && t[1] == 111 && t[2] == 114 {
        for_value(t)
    } else if c >= v.len() {
        None
    } else {
        first_for_value(v.skip(c + 1))
    }
}

#[via_fn]
proof fn first_for_value_decreases(v: Seq<u8>) {
    crate::http::lemma_find_byte_bounds(v, 0, 59);
}

/// The most likely client address of a request: the first entry of
/// `X-Forwarded-For`, or the first `for=` parameter of `Forwarded`.
pub open spec fn spec_client_addr(s: Seq<u8>) -> Option<Seq<u8>> {
    match header_value(s, "x-forwarded-for".spec_bytes()) {
        Some(v) => Some(v.subrange(0, find_byte(v, 0, 44))),
        None => match header_value(s, "forwarded".spec_bytes()) {
            Some(v) => first_for_value(v),
            None => None,
        },
    }
}

/// Scan the `Forwarded` segments from `start` for the first `for=` value.
fn first_for_exec(v: &Vec<u8>, start: usize) -> (r: Option<Vec<u8>>)
    requires
        start <= v@.len(),
    ensures
        match r {
            Some(x) => first_for_value(v@.skip(start as int)) == Some(x@),
            None => first_for_value(v@.skip(start as int)) is None,
        },
    decreases v@.len() - start,
{
    let c = find_byte_exec(v, start, 59);
    proof {
        crate::http::lemma_find_byte_skip(v@, start as int, 59);
        let rem = v@.skip(start as int);
        if (c as int) < v@.len() {
            assert(rem.subrange(0, c - start) =~= v@.subrange(start as int, c as int));
        } else {
            assert(v@.subrange(start as int, v@.len() as int) =~= rem);
        }
    }
    let t = trimmed_copy(v, start, c);
    if t.len() >= 3 && t[0] == 102 && t[1] == 111 && t[2] == 114 {
        let c44 = find_byte_exec(&t, 0, 44);
        let fc = crate::text::bytes_to_vec_range(&t, 0, c44);
        let e1 = find_byte_exec(&fc, 0, 61);
        if e1 >= fc.len() {
            return None;
        }
        let e2 = find_byte_exec(&fc, e1 + 1, 61);
        Some(crate::text::bytes_to_vec_range(&fc, e1 + 1, e2))
    } else if c >= v.len() {
        None
    } else {
        proof {
            let rem = v@.skip(start as int);
            assert(rem.skip(c - start + 1) =~= v@.skip(c + 1));
        }
        first_for_exec(v, c + 1)
    }
}

/// The text of a client upgrade request, as RFC 6455 asks for it.
pub open spec fn request_text(
    resource: Seq<char>,
    host: Seq<char>,
    port: Seq<char>,
    key: Seq<char>,
    protocol: Option<Seq<char>>,
    extensions: Option<Seq<char>>,
) -> Seq<char> {
    "GET "@ + resource + " HTTP/1.1\r\nConnection: Upgrade\r\nHost: "@ + host + ":"@ + port
        + "\r\nSec-WebSocket-Version: 13\r\nSec-WebSocket-Key: "@ + key + "\r\n"@ + (match protocol {
        Some(p) => "Sec-WebSocket-Protocol: "@ + p + "\r\n"@,
        None => Seq::<char>::empty(),
    }) + (match extensions {
        Some(x) => "Sec-WebSocket-Extensions: "@ + x + "\r\n"@,
        None => Seq::<char>::empty(),
    }) + "Upgrade: websocket\r\n\r\n"@
}

/// The text of the server's switching-protocols response.
pub open spec fn response_text(
    accept: Seq<char>,
    protocol: Option<Seq<char>>,
    extensions: Option<Seq<char>>,
) -> Seq<char> {
    "HTTP/1.1 101 Switching Protocols\r\nConnection: Upgrade\r\nSec-WebSocket-Accept: "@ + accept
        + "\r\n"@ + (match protocol {
        Some(p) => "Sec-WebSocket-Protocol: "@ + p + "\r\n"@,
        None => Seq::<char>::empty(),
    }) + (match extensions {
        Some(x) => "Sec-WebSocket-Extensions: "@ + x + "\r\n"@,
        None => Seq::<char>::empty(),
    }) + "Upgrade: websocket\r\n\r\n"@
}

/// The text of a client upgrade request, taking the parts as the builder
/// receives them.
pub open spec fn request_text_parts(
    resource: &str,
    host: &str,
    port: u16,
    key: Seq<char>,
    protocol: Option<&str>,
    extensions: Option<&str>,
) -> Seq<char> {
    request_text(
        resource@,
        host@,
        dec_chars(port as int),
        key,
        match protocol {
            Some(p) => Some(p@),
            None => None,
        },
        match extensions {
            Some(x) => Some(x@),
            None => None,
        },
    )
}

/// The handshake request as received or sent: its raw bytes, read through
/// the minimal HTTP grammar.
#[derive(Debug)]
pub struct Request {
    raw: Vec<u8>,
}

impl View for Request {
    type V = Seq<u8>;

    closed spec fn view(&self) -> Seq<u8> {
        self.raw@
    }
}

impl Request {
    /// Wrap raw handshake bytes.
    pub fn new(data: Vec<u8>) -> (r: Request)
        ensures
            r@ == data@,
    {
        Request { raw: data }
    }

    /// Borrow the raw bytes.
    pub fn buffer(&self) -> (r: &Vec<u8>)
        ensures
            r@ == self@,
    {
        &self.raw
    }

    /// Append bytes read from the peer.
    pub fn append(&mut self, data: &[u8])
        ensures
            final(self)@ == old(self)@ + data@,
    {
        let mut v = bytes_to_vec(data);
        self.raw.append(&mut v);
    }

    /// The `Sec-WebSocket-Key` header value, required of every handshake
    /// request.
    pub fn key(&self) -> (r: Result<Vec<u8>, Error>)
        ensures
            match r {
                Ok(v) => header_value(self@, "sec-websocket-key".spec_bytes()) == Some(v@),
                Err(e) => header_value(self@, "sec-websocket-key".spec_bytes()) is None && e.kind
                    == Kind::Protocol,
            },
    {
        match get_header(&self.raw, "sec-websocket-key") {
            Some(v) => Ok(v),
            None => Err(Error::new(Kind::Protocol, "Unable to parse WebSocket key.")),
        }
    }

    /// The `Sec-WebSocket-Version` header value (13 for RFC 6455 peers).
    pub fn version(&self) -> (r: Result<String, Error>)
        ensures
            match r {
                Ok(s) => (header_value(self@, "sec-websocket-version".spec_bytes()) matches Some(v)
                    && valid_utf8(v) && s@ == decode_utf8(v)),
                Err(e) => match header_value(self@, "sec-websocket-version".spec_bytes()) {
                    Some(v) => e.kind == Kind::Encoding && !valid_utf8(v),
                    None => e.kind == Kind::Protocol,
                },
            },
    {
        match get_header(&self.raw, "sec-websocket-version") {
            Some(v) => decode_value(v),
            None => Err(
                Error::new(Kind::Protocol, "The Sec-WebSocket-Version header is missing."),
            ),
        }
    }

    /// The `Origin` header value, if the request came from a browser.
    pub fn origin(&self) -> (r: Result<Option<String>, Error>)
        ensures
            match r {
                Ok(opt) => match (header_value(self@, "origin".spec_bytes()), opt) {
                    (Some(v), Some(s)) => valid_utf8(v) && s@ == decode_utf8(v),
                    (None, None) => true,
                    _ => false,
                },
                Err(e) => e.kind == Kind::Encoding && (header_value(self@, "origin".spec_bytes())
                    matches Some(v) && !valid_utf8(v)),
            },
    {
        match get_header(&self.raw, "origin") {
            Some(v) => match decode_value(v) {
                Ok(s) => Ok(Some(s)),
                Err(e) => Err(e),
            },
            None => Ok(None),
        }
    }

    /// The path of the request line.
    pub fn resource(&self) -> (r: Result<String, Error>)
        ensures
            match r {
                Ok(s) => (spec_resource(self@) matches Some(v) && valid_utf8(v) && s@
                    == decode_utf8(v)),
                Err(e) => match spec_resource(self@) {
                    Some(v) => e.kind == Kind::Encoding && !valid_utf8(v),
                    None => e.kind == Kind::Protocol,
                },
            },
    {
        let e = find_crlf_exec(&self.raw, 0);
        if self.raw.len() - e < 2 {
            return Err(Error::new(Kind::Protocol, "The resource is missing."));
        }
        let l = crate::text::bytes_to_vec_range(&self.raw, 0, e);
        proof {
            assert(l@ =~= self@.subrange(0, e as int));
        }
        let a = find_byte_exec(&l, 0, 32);
        if a >= l.len() {
            return Err(Error::new(Kind::Protocol, "The resource is missing."));
        }
        let b2 = find_byte_exec(&l, a + 1, 32);
        decode_value(crate::text::bytes_to_vec_range(&l, a + 1, b2))
    }

    /// The protocols the peer offers, from `Sec-WebSocket-Protocol`.
    #[verifier::spinoff_prover]
    pub fn protocols(&self) -> (r: Result<Vec<String>, Error>)
        ensures
            match r {
                Ok(vs) => match header_value(self@, "sec-websocket-protocol".spec_bytes()) {
                    Some(v) => decoded_header_list(v, vs@),
                    None => vs@.len() == 0,
                },
                Err(e) => e.kind == Kind::Encoding && (header_value(self@, "sec-websocket-protocol".spec_bytes())
                    matches Some(v) && some_piece_invalid(v)),
            },
    {
        match get_header(&self.raw, "sec-websocket-protocol") {
            Some(v) => split_decode(v),
            None => Ok(Vec::new()),
        }
    }

    /// The extensions the peer offers, from `Sec-WebSocket-Extensions`.
    #[verifier::spinoff_prover]
    pub fn extensions(&self) -> (r: Result<Vec<String>, Error>)
        ensures
            match r {
                Ok(vs) => match header_value(self@, "sec-websocket-extensions".spec_bytes()) {
                    Some(v) => decoded_header_list(v, vs@),
                    None => vs@.len() == 0,
                },
                Err(e) => e.kind == Kind::Encoding && (header_value(self@, "sec-websocket-extensions".spec_bytes())
                    matches Some(v) && some_piece_invalid(v)),
            },
    {
        match get_header(&self.raw, "sec-websocket-extensions") {
            Some(v) => split_decode(v),
            None => Ok(Vec::new()),
        }
    }

    /// The most likely IP address of the requester, read from the
    /// `X-Forwarded-For` or `Forwarded` headers.
    pub fn client_addr(&self) -> (r: Result<Option<String>, Error>)
        ensures
            match r {
                Ok(opt) => match (spec_client_addr(self@), opt) {
                    (Some(v), Some(s)) => valid_utf8(v) && s@ == decode_utf8(v),
                    (None, None) => true,
                    _ => false,
                },
                Err(e) => e.kind == Kind::Encoding && (spec_client_addr(self@) matches Some(v)
                    && !valid_utf8(v)),
            },
    {
        if let Some(v) = get_header(&self.raw, "x-forwarded-for") {
            let c = find_byte_exec(&v, 0, 44);
            let piece = crate::text::bytes_to_vec_range(&v, 0, c);
            return match decode_value(piece) {
                Ok(s) => Ok(Some(s)),
                Err(e) => Err(e),
            };
        }
        if let Some(v) = get_header(&self.raw, "forwarded") {
            proof {
                assert(v@.skip(0) =~= v@);
            }
            return match first_for_exec(&v, 0) {
                Some(x) => match decode_value(x) {
                    Ok(s) => Ok(Some(s)),
                    Err(e) => Err(e),
                },
                None => Ok(None),
            };
        }
        Ok(None)
    }

    /// True once the buffered bytes hold a complete head section.
    pub fn is_complete(&self) -> (r: bool)
        ensures
            r == head_complete(self@),
    {
        let blank = find_blank_exec(&self.raw, 0);
        self.raw.len() - blank >= 4
    }

    /// Hash this request's key into the accept value owed in the response.
    pub fn hashed_key(&self) -> (r: Result<String, Error>)
        ensures
            match r {
                Ok(h) => (header_value(self@, "sec-websocket-key".spec_bytes()) matches Some(k)
                    && h@ == spec_accept_key(k)),
                Err(e) => header_value(self@, "sec-websocket-key".spec_bytes()) is None && e.kind
                    == Kind::Protocol,
            },
    {
        match self.key() {
            Ok(k) => Ok(hash_key(k.as_slice())),
            Err(e) => Err(e),
        }
    }

    /// Build the upgrade request a client owes the server, with a freshly
    /// generated Sec-WebSocket-Key.
    pub fn from_parts(
        host: &str,
        port: u16,
        resource: &str,
        protocol: Option<&str>,
        extensions: Option<&str>,
    ) -> (r: Request)
        ensures
            exists|key: Seq<char>|
                r@ == encode_utf8(
                    #[trigger] request_text_parts(resource, host, port, key, protocol, extensions),
                ) && (exists|b: Seq<u8>| b.len() == 16 && key == #[trigger] base64_chars(b)),
    {
        let key = generate_key();
        let ports = u16_to_string(port);
        let mut s = String::new();
        s.append("GET ");
        s.append(resource);
        s.append(" HTTP/1.1\r\nConnection: Upgrade\r\nHost: ");
        s.append(host);
        s.append(":");
        s.append(ports.as_str());
        s.append("\r\nSec-WebSocket-Version: 13\r\nSec-WebSocket-Key: ");
        s.append(key.as_str());
        s.append("\r\n");
        match protocol {
            Some(p) => {
                s.append("Sec-WebSocket-Protocol: ");
                s.append(p);
                s.append("\r\n");
            },
            None => {},
        }
        match extensions {
            Some(x) => {
                s.append("Sec-WebSocket-Extensions: ");
                s.append(x);
                s.append("\r\n");
            },
            None => {},
        }
        s.append("Upgrade: websocket\r\n\r\n");
        proof {
            assert(s@ =~= request_text(
                resource@,
                host@,
                dec_chars(port as int),
                key@,
                match protocol {
                    Some(p) => Some(p@),
                    None => None,
                },
                match extensions {
                    Some(x) => Some(x@),
                    None => None,
                },
            ));
        }
        let raw = bytes_to_vec(s.as_str().as_bytes());
        proof {
            assert(raw@ == encode_utf8(
                request_text_parts(resource, host, port, key@, protocol, extensions),
            ));
        }
        Request { raw }
    }

    /// Try to parse the buffered bytes as a complete handshake request:
    /// `None` while the head is not complete, the hashed accept key once it
    /// is, and a protocol error when a complete head carries no key.
    pub fn parse(&self) -> (r: Result<Option<String>, Error>)
        ensures
            match r {
                Ok(opt) => match opt {
                    Some(h) => head_complete(self@) && (header_value(
                        self@,
                        "sec-websocket-key".spec_bytes(),
                    ) matches Some(k) && h@ == spec_accept_key(k)),
                    None => !head_complete(self@),
                },
                Err(e) => head_complete(self@) && header_value(
                    self@,
                    "sec-websocket-key".spec_bytes(),
                ) is None && e.kind == Kind::Protocol,
            },
    {
        let blank = find_blank_exec(&self.raw, 0);
        if self.raw.len() - blank < 4 {
            return Ok(None);
        }
        match self.hashed_key() {
            Ok(h) => Ok(Some(h)),
            Err(e) => Err(e),
        }
    }
}

impl Default for Request {
    /// An empty request buffer.
    fn default() -> (r: Request)
        ensures
            r@ == Seq::<u8>::empty(),
    {
        Request { raw: Vec::with_capacity(2048) }
    }
}

/// The handshake response as received or sent: its raw bytes, read through
/// the minimal HTTP grammar.
#[derive(Debug)]
pub struct Response {
    raw: Vec<u8>,
}

impl View for Response {
    type V = Seq<u8>;

    closed spec fn view(&self) -> Seq<u8> {
        self.raw@
    }
}

impl Response {
    /// Wrap raw handshake bytes.
    pub fn new(data: Vec<u8>) -> (r: Response)
        ensures
            r@ == data@,
    {
        Response { raw: data }
    }

    /// Borrow the raw bytes.
    pub fn buffer(&self) -> (r: &Vec<u8>)
        ensures
            r@ == self@,
    {
        &self.raw
    }

    /// Append bytes read from the peer.
    pub fn append(&mut self, data: &[u8])
        ensures
            final(self)@ == old(self)@ + data@,
    {
        let mut v = bytes_to_vec(data);
        self.raw.append(&mut v);
    }

    /// The HTTP status code of the response.
    pub fn status(&self) -> (r: Result<u16, Error>)
        ensures
            match r {
                Ok(c) => spec_status(self@) == Some(c),
                Err(e) => spec_status(self@) is None && e.kind == Kind::Protocol,
            },
    {
        let e = find_crlf_exec(&self.raw, 0);
        if self.raw.len() - e < 2 {
            return Err(Error::new(Kind::Protocol, "Unable to parse HTTP status."));
        }
        let l = crate::text::bytes_to_vec_range(&self.raw, 0, e);
        proof {
            assert(l@ =~= self@.subrange(0, e as int));
        }
        let a = find_byte_exec(&l, 0, 32);
        if a >= l.len() {
            return Err(Error::new(Kind::Protocol, "Unable to parse HTTP status."));
        }
        let b2 = find_byte_exec(&l, a + 1, 32);
        let t = crate::text::bytes_to_vec_range(&l, a + 1, b2);
        if t.len() < 1 || t.len() > 4 {
            return Err(Error::new(Kind::Protocol, "Unable to parse HTTP status."));
        }
        let mut val: u16 = 0;
        let n = t.len();
        let mut j: usize = 0;
        while j < n
            invariant
                j <= n,
                n == t@.len(),
                1 <= n <= 4,
                all_digits(t@.subrange(0, j as int)),
                val == dec_value(t@.subrange(0, j as int)),
                0 <= val < pow10(j as nat),
                all_digits(t@) ==> spec_status(self@) == Some(dec_value(t@) as u16),
                !all_digits(t@) ==> spec_status(self@) is None,
        decreases n - j,
        {
            let b = t[j];
            if b < 48 || b > 57 {
                proof {
                    assert(!all_digits(t@));
                }
                return Err(Error::new(Kind::Protocol, "Unable to parse HTTP status."));
            }
            proof {
                let p = t@.subrange(0, j + 1);
                assert(p.take(j as int) =~= t@.subrange(0, j as int));
                assert(p.last() == t@[j as int]);
                assert(pow10((j + 1) as nat) == 10 * pow10(j as nat));
                assert(pow10(0) == 1);
                assert(pow10(1) == 10);
                assert(pow10(2) == 100);
                assert(pow10(3) == 1000);
            }
            val = val * 10 + (b - 48) as u16;
            j = j + 1;
        }
        proof {
            assert(t@.subrange(0, n as int) =~= t@);
            assert(all_digits(t@));
            assert(val == dec_value(t@));
            let sl = self@.subrange(0, e as int);
            let sa = find_byte(sl, 0, 32);
            assert(sa == a);
            let st = sl.subrange(sa + 1, find_byte(sl, sa + 1, 32));
            assert(st =~= t@);
            assert(spec_status(self@) == Some(dec_value(st) as u16));
        }
        Ok(val)
    }

    /// The `Sec-WebSocket-Accept` header value.
    pub fn key(&self) -> (r: Result<Vec<u8>, Error>)
        ensures
            match r {
                Ok(v) => header_value(self@, "sec-websocket-accept".spec_bytes()) == Some(v@),
                Err(e) => header_value(self@, "sec-websocket-accept".spec_bytes()) is None
                    && e.kind == Kind::Protocol,
            },
    {
        match get_header(&self.raw, "sec-websocket-accept") {
            Some(v) => Ok(v),
            None => Err(Error::new(Kind::Protocol, "Unable to parse WebSocket key.")),
        }
    }

    /// The protocol the server chose, from `Sec-WebSocket-Protocol`.
    pub fn protocol(&self) -> (r: Result<Option<String>, Error>)
        ensures
            match r {
                Ok(opt) => match (header_value(self@, "sec-websocket-protocol".spec_bytes()), opt) {
                    (Some(v), Some(s)) => valid_utf8(v) && s@ == decode_utf8(v),
                    (None, None) => true,
                    _ => false,
                },
                Err(e) => e.kind == Kind::Encoding && (header_value(
                    self@,
                    "sec-websocket-protocol".spec_bytes(),
                ) matches Some(v) && !valid_utf8(v)),
            },
    {
        match get_header(&self.raw, "sec-websocket-protocol") {
            Some(v) => match decode_value(v) {
                Ok(s) => Ok(Some(s)),
                Err(e) => Err(e),
            },
            None => Ok(None),
        }
    }

    /// The extensions the server chose, from `Sec-WebSocket-Extensions`.
    #[verifier::spinoff_prover]
    pub fn extensions(&self) -> (r: Result<Vec<String>, Error>)
        ensures
            match r {
                Ok(vs) => match header_value(self@, "sec-websocket-extensions".spec_bytes()) {
                    Some(v) => decoded_header_list(v, vs@),
                    None => vs@.len() == 0,
                },
                Err(e) => e.kind == Kind::Encoding && (header_value(self@, "sec-websocket-extensions".spec_bytes())
                    matches Some(v) && some_piece_invalid(v)),
            },
    {
        match get_header(&self.raw, "sec-websocket-extensions") {
            Some(v) => split_decode(v),
            None => Ok(Vec::new()),
        }
    }

    /// Build the switching-protocols response a server owes a request,
    /// echoing the hashed key; fails exactly when the request has no key.
    pub fn from_request(req: &Request, protocol: Option<&str>, extensions: Option<&str>) -> (r:
        Result<Response, Error>)
        ensures
            match r {
                Ok(res) => (header_value(req@, "sec-websocket-key".spec_bytes()) matches Some(k)
                    && res@ == encode_utf8(
                    response_text(
                        spec_accept_key(k),
                        match protocol {
                            Some(p) => Some(p@),
                            None => None,
                        },
                        match extensions {
                            Some(x) => Some(x@),
                            None => None,
                        },
                    ),
                )),
                Err(e) => header_value(req@, "sec-websocket-key".spec_bytes()) is None && e.kind
                    == Kind::Protocol,
            },
    {
        let accept = match req.hashed_key() {
            Ok(h) => h,
            Err(e) => {
                return Err(e);
            },
        };
        let mut s = String::new();
        s.append("HTTP/1.1 101 Switching Protocols\r\nConnection: Upgrade\r\nSec-WebSocket-Accept: ");
        s.append(accept.as_str());
        s.append("\r\n");
        match protocol {
            Some(p) => {
                s.append("Sec-WebSocket-Protocol: ");
                s.append(p);
                s.append("\r\n");
            },
            None => {},
        }
        match extensions {
            Some(x) => {
                s.append("Sec-WebSocket-Extensions: ");
                s.append(x);
                s.append("\r\n");
            },
            None => {},
        }
        s.append("Upgrade: websocket\r\n\r\n");
        proof {
            assert(s@ =~= response_text(
                accept@,
                match protocol {
                    Some(p) => Some(p@),
                    None => None,
                },
                match extensions {
                    Some(x) => Some(x@),
                    None => None,
                },
            ));
        }
        Ok(Response { raw: bytes_to_vec(s.as_str().as_bytes()) })
    }

    /// Split off everything after the head section: the first frame bytes
    /// that arrived together with the response.
    pub fn take_body(&mut self) -> (r: Vec<u8>)
        requires
            head_complete(old(self)@),
        ensures
            final(self)@ == old(self)@.subrange(0, body_start(old(self)@)),
            r@ == old(self)@.skip(body_start(old(self)@)),
    {
        let n = self.raw.len();
        let blank = find_blank_exec(&self.raw, 0);
        let body = crate::text::bytes_to_vec_range(&self.raw, blank + 4, n);
        self.raw.truncate(blank + 4);
        proof {
            assert(body@ =~= old(self)@.skip(body_start(old(self)@)));
        }
        body
    }

    /// Whether the buffered bytes hold a complete response head, and where
    /// the body (the first frames) begins.
    pub fn parse(&self) -> (r: Option<usize>)
        ensures
            match r {
                Some(b) => head_complete(self@) && b as int == body_start(self@),
                None => !head_complete(self@),
            },
    {
        let blank = find_blank_exec(&self.raw, 0);
        if self.raw.len() - blank < 4 {
            None
        } else {
            Some(blank + 4)
        }
    }
}

impl Default for Response {
    /// An empty response buffer.
    fn default() -> (r: Response)
        ensures
            r@ == Seq::<u8>::empty(),
    {
        Response { raw: Vec::with_capacity(1024) }
    }
}

/// The two halves of the WebSocket handshake, with the peer's addresses as
/// plain text for diagnostics.
#[derive(Debug)]
pub struct Handshake {
    /// The HTTP request sent to begin the handshake.
    pub request: Request,
    /// The HTTP response from the server confirming the handshake.
    pub response: Response,
    /// The address of the other endpoint, if known.
    pub peer_addr: Option<String>,
    /// The address of this endpoint, if known.
    pub local_addr: Option<String>,
}

impl Handshake {
    /// Pair a request with a response.
    pub fn new(req: Request, res: Response) -> (r: Handshake)
        ensures
            r.request@ == req@,
            r.response@ == res@,
            r.peer_addr is None,
            r.local_addr is None,
    {
        Handshake { request: req, response: res, peer_addr: None, local_addr: None }
    }

    /// The most likely address of the remote endpoint: the client address
    /// named by the request headers, or the peer address of the socket.
    pub fn remote_addr(&self) -> (r: Result<Option<String>, Error>)
        ensures
            match r {
                Ok(opt) => match (spec_client_addr(self.request@), opt) {
                    (Some(v), Some(s)) => valid_utf8(v) && s@ == decode_utf8(v),
                    (None, _) => true,
                    _ => false,
                },
                Err(e) => e.kind == Kind::Encoding && (spec_client_addr(self.request@)
                    matches Some(v) && !valid_utf8(v)),
            },
    {
        match self.request.client_addr() {
            Ok(Some(s)) => Ok(Some(s)),
            Ok(None) => match &self.peer_addr {
                Some(a) => Ok(Some(a.clone())),
                None => Ok(None),
            },
            Err(e) => Err(e),
        }
    }
}

impl Default for Handshake {
    /// An empty handshake.
    fn default() -> (r: Handshake)
        ensures
            r.request@ == Seq::<u8>::empty(),
            r.response@ == Seq::<u8>::empty(),
            r.peer_addr is None,
            r.local_addr is None,
    {
        Handshake {
            request: Request::default(),
            response: Response::default(),
            peer_addr: None,
            local_addr: None,
        }
    }
}

} // verus!
