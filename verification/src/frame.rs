//! The WebSocket frame codec: the wire format as a mathematical function,
//! an executable parser and serializer proved against it, and the round-trip
//! laws relating the two.

use vstd::prelude::*;

use crate::protocol::{is_control_opcode, opcode_of, opcode_value, OpCode};
use crate::result::{Error, Kind};
use crate::text::bytes_to_vec;
use vstd::string::StringSliceAdditionalSpecFns;

verus! {

/// The mathematical content of a frame: everything the wire format carries.
pub struct FrameView {
    /// The FIN bit: true when this frame ends a message.
    pub fin: bool,
    /// The first reserved bit; zero unless an extension negotiated it.
    pub rsv1: bool,
    /// The second reserved bit.
    pub rsv2: bool,
    /// The third reserved bit.
    pub rsv3: bool,
    /// The frame's opcode.
    pub opcode: OpCode,
    /// The four masking bytes, present exactly on masked frames.
    pub mask: Option<Seq<u8>>,
    /// The payload, always in unmasked form.
    pub payload: Seq<u8>,
}

/// The four-byte XOR cycle applied to client-to-server frame payloads.
pub open spec fn masked_seq(payload: Seq<u8>, mask: Seq<u8>) -> Seq<u8>
    recommends
        mask.len() == 4,
{
    Seq::new(payload.len(), |i: int| (payload[i] ^ mask[i % 4]) as u8)
}

/// XOR masking is an involution: applying the same mask twice returns
/// the original payload.
pub proof fn lemma_masked_seq_involutive(payload: Seq<u8>, mask: Seq<u8>)
    requires
        mask.len() == 4,
    ensures
        masked_seq(masked_seq(payload, mask), mask) == payload,
{
    let once = masked_seq(payload, mask);
    let twice = masked_seq(once, mask);
    assert forall|i: int| 0 <= i < payload.len() implies twice[i] == payload[i] by {
        let b = payload[i];
        let m = mask[i % 4];
        assert((b ^ m) ^ m == b) by (bit_vector);
    }
    assert(twice =~= payload);
}

/// The first wire byte: FIN and reserved bits in the high nibble, the opcode
/// in the low nibble.
pub open spec fn flags_byte(f: FrameView) -> u8 {
    (if f.fin {
        0x80u8
    } else {
        0u8
    }) | (if f.rsv1 {
        0x40u8
    } else {
        0u8
    }) | (if f.rsv2 {
        0x20u8
    } else {
        0u8
    }) | (if f.rsv3 {
        0x10u8
    } else {
        0u8
    }) | opcode_value(f.opcode)
}

/// The 7-bit length code: the length itself below 126, else an escape to a
/// 16-bit or 64-bit extended length. This is the shortest admissible form.
pub open spec fn len_code(n: nat) -> u8 {
    if n < 126 {
        n as u8
    } else if n <= 65535 {
        126u8
    } else {
        127u8
    }
}

/// The second wire byte: the mask bit and the 7-bit length code.
pub open spec fn len_byte(f: FrameView) -> u8 {
    (if f.mask is Some {
        0x80u8
    } else {
        0u8
    }) | len_code(f.payload.len())
}

/// A 16-bit value as two big-endian bytes.
pub open spec fn u16_be(n: u16) -> Seq<u8> {
    seq![(n >> 8) as u8, n as u8]
}

/// The 16-bit value of two big-endian bytes.
pub open spec fn u16_be_value(s: Seq<u8>) -> u16
    recommends
        s.len() == 2,
{
    ((s[0] as u16) << 8) | (s[1] as u16)
}

/// A 64-bit value as eight big-endian bytes.
pub open spec fn u64_be(n: u64) -> Seq<u8> {
    seq![
        (n >> 56) as u8,
        (n >> 48) as u8,
        (n >> 40) as u8,
        (n >> 32) as u8,
        (n >> 24) as u8,
        (n >> 16) as u8,
        (n >> 8) as u8,
        n as u8,
    ]
}

/// The 64-bit value of eight big-endian bytes.
pub open spec fn u64_be_value(s: Seq<u8>) -> u64
    recommends
        s.len() == 8,
{
    ((s[0] as u64) << 56) | ((s[1] as u64) << 48) | ((s[2] as u64) << 40) | ((s[3] as u64) << 32)
        | ((s[4] as u64) << 24) | ((s[5] as u64) << 16) | ((s[6] as u64) << 8) | (s[7] as u64)
}

/// The extended-length bytes: empty below 126, two big-endian bytes up to
/// 65535, eight beyond.
pub open spec fn ext_len_bytes(n: nat) -> Seq<u8>
    recommends
        n <= u64::MAX,
{
    if n < 126 {
        seq![]
    } else if n <= 65535 {
        u16_be(n as u16)
    } else {
        u64_be(n as u64)
    }
}

/// The mask bytes as they appear on the wire: the four bytes, or nothing.
pub open spec fn mask_bytes(m: Option<Seq<u8>>) -> Seq<u8> {
    match m {
        Some(s) => s,
        None => seq![],
    }
}

/// The payload as it appears on the wire: XOR-masked exactly when the frame
/// carries a mask.
pub open spec fn body_bytes(f: FrameView) -> Seq<u8> {
    match f.mask {
        Some(m) => masked_seq(f.payload, m),
        None => f.payload,
    }
}

/// The number of header bytes: two, plus the extended length, plus the mask.
pub open spec fn header_len_of(f: FrameView) -> int {
    2 + ext_len_bytes(f.payload.len()).len() as int + mask_bytes(f.mask).len() as int
}

/// The complete serialization of a frame.
pub open spec fn wire_of(f: FrameView) -> Seq<u8> {
    seq![flags_byte(f), len_byte(f)] + ext_len_bytes(f.payload.len()) + mask_bytes(f.mask)
        + body_bytes(f)
}

/// The length of a frame's serialization.
pub open spec fn wire_len(f: FrameView) -> int {
    header_len_of(f) + f.payload.len()
}

impl FrameView {
    /// A frame that can stand on the wire: a defined opcode, a four-byte mask
    /// if any, a length the 64-bit length field can carry, and a control
    /// payload within the 125-byte bound.
    pub open spec fn wire_wf(self) -> bool {
        &&& self.opcode != OpCode::Bad
        &&& (self.mask matches Some(m) ==> m.len() == 4)
        &&& self.payload.len() <= u64::MAX
        &&& (is_control_opcode(self.opcode) ==> self.payload.len() <= 125)
    }
}

/// What a prefix of the inbound buffer parses to: a complete frame and the
/// number of bytes it occupied, a signal that more bytes are needed, or a
/// protocol violation.
pub enum SpecParse {
    /// Not enough bytes buffered for a whole frame.
    Incomplete,
    /// The bytes violate the protocol (bad opcode, or an oversized control
    /// frame).
    Invalid,
    /// A complete frame, and how many bytes of the input it consumed.
    Parsed(FrameView, int),
}

/// The frame parser as a mathematical function on the buffered bytes.
/// Masked payloads come out unmasked; the mask is retained.
pub open spec fn spec_parse(s: Seq<u8>) -> SpecParse {
    if s.len() < 2 {
        SpecParse::Incomplete
    } else {
        let b0 = s[0];
        let b1 = s[1];
        let opcode = opcode_of(b0 & 0x0F);
        if opcode == OpCode::Bad {
            SpecParse::Invalid
        } else {
            let masked = b1 & 0x80 != 0;
            let code = b1 & 0x7F;
            if code == 126 && s.len() < 4 {
                SpecParse::Incomplete
            } else if code == 127 && s.len() < 10 {
                SpecParse::Incomplete
            } else {
                let n: int = if code == 126 {
                    u16_be_value(s.subrange(2, 4)) as int
                } else if code == 127 {
                    u64_be_value(s.subrange(2, 10)) as int
                } else {
                    code as int
                };
                let hdr: int = if code == 126 {
                    4
                } else if code == 127 {
                    10
                } else {
                    2
                };
                if is_control_opcode(opcode) && n > 125 {
                    SpecParse::Invalid
                } else if masked && s.len() < hdr + 4 {
                    SpecParse::Incomplete
                } else {
                    let hdr2 = if masked {
                        hdr + 4
                    } else {
                        hdr
                    };
                    if s.len() < hdr2 + n {
                        SpecParse::Incomplete
                    } else {
                        let raw = s.subrange(hdr2, hdr2 + n);
                        SpecParse::Parsed(
                            FrameView {
                                fin: b0 & 0x80 != 0,
                                rsv1: b0 & 0x40 != 0,
                                rsv2: b0 & 0x20 != 0,
                                rsv3: b0 & 0x10 != 0,
                                opcode,
                                mask: if masked {
                                    Some(s.subrange(hdr, hdr + 4))
                                } else {
                                    None
                                },
                                payload: if masked {
                                    masked_seq(raw, s.subrange(hdr, hdr + 4))
                                } else {
                                    raw
                                },
                            },
                            hdr2 + n,
                        )
                    }
                }
            }
        }
    }
}

/// A single WebSocket frame.
#[derive(Debug)]
pub struct Frame {
    finished: bool,
    rsv1: bool,
    rsv2: bool,
    rsv3: bool,
    opcode: OpCode,
    mask: Option<[u8; 4]>,
    payload: Vec<u8>,
    header_length: u8,
}

impl View for Frame {
    type V = FrameView;

    closed spec fn view(&self) -> FrameView {
        FrameView {
            fin: self.finished,
            rsv1: self.rsv1,
            rsv2: self.rsv2,
            rsv3: self.rsv3,
            opcode: self.opcode,
            mask: match self.mask {
                Some(m) => Some(m@),
                None => None,
            },
            payload: self.payload@,
        }
    }
}

/// XOR the buffer in place with the four-byte mask, cycling.
pub fn apply_mask(buf: &mut Vec<u8>, mask: &[u8; 4])
    ensures
        final(buf)@ == masked_seq(old(buf)@, mask@),
{
    let n = buf.len();
    for i in 0..n
        invariant
            n == buf@.len(),
            n == old(buf)@.len(),
            forall|j: int| 0 <= j < i ==> buf@[j] == (old(buf)@[j] ^ mask@[j % 4]) as u8,
            forall|j: int| i <= j < n ==> buf@[j] == old(buf)@[j],
    {
        let b = buf[i];
        buf[i] = b ^ mask[i % 4];
    }
    proof {
        assert(buf@ =~= masked_seq(old(buf)@, mask@));
    }
}

impl Frame {
    /// The cached header length as a specification-level value.
    pub closed spec fn spec_header_len(&self) -> u8 {
        self.header_length
    }

    /// True when this frame ends a message.
    pub fn is_final(&self) -> (r: bool)
        ensures
            r == self@.fin,
    {
        self.finished
    }

    /// True when the first reserved bit is set.
    pub fn has_rsv1(&self) -> (r: bool)
        ensures
            r == self@.rsv1,
    {
        self.rsv1
    }

    /// True when the second reserved bit is set.
    pub fn has_rsv2(&self) -> (r: bool)
        ensures
            r == self@.rsv2,
    {
        self.rsv2
    }

    /// True when the third reserved bit is set.
    pub fn has_rsv3(&self) -> (r: bool)
        ensures
            r == self@.rsv3,
    {
        self.rsv3
    }

    /// Set the first reserved bit.
    pub fn set_rsv1(&mut self, on: bool)
        ensures
            final(self)@ == (FrameView { rsv1: on, ..old(self)@ }),
    {
        self.rsv1 = on;
    }

    /// Set the second reserved bit.
    pub fn set_rsv2(&mut self, on: bool)
        ensures
            final(self)@ == (FrameView { rsv2: on, ..old(self)@ }),
    {
        self.rsv2 = on;
    }

    /// Set the third reserved bit.
    pub fn set_rsv3(&mut self, on: bool)
        ensures
            final(self)@ == (FrameView { rsv3: on, ..old(self)@ }),
    {
        self.rsv3 = on;
    }

    /// The frame's opcode.
    pub fn opcode(&self) -> (r: OpCode)
        ensures
            r == self@.opcode,
    {
        self.opcode
    }

    /// The total number of bytes this frame occupied on the wire: the payload
    /// plus the cached header length (zero on frames not read off the wire).
    pub fn len(&self) -> (r: usize)
        requires
            self@.payload.len() + self.spec_header_len() <= usize::MAX,
        ensures
            r == self@.payload.len() + self.spec_header_len(),
    {
        self.payload.len() + self.header_length as usize
    }

    /// The length of the payload in bytes.
    pub fn payload_len(&self) -> (r: u64)
        requires
            self@.payload.len() <= u64::MAX,
        ensures
            r == self@.payload.len(),
    {
        self.payload.len() as u64
    }

    /// The cached header length, set when the frame was parsed off the wire.
    pub fn header_len(&self) -> (r: u8)
        ensures
            r == self.spec_header_len(),
    {
        self.header_length
    }

    /// Borrow the payload bytes.
    pub fn payload(&self) -> (r: &Vec<u8>)
        ensures
            r@ == self@.payload,
    {
        &self.payload
    }

    /// True when the frame carries a mask.
    pub fn is_masked(&self) -> (r: bool)
        ensures
            r == (self@.mask is Some),
    {
        self.mask.is_some()
    }

    /// Put a freshly drawn random mask on the frame.
    pub fn mask(&mut self)
        ensures
            final(self)@.mask matches Some(m) && m.len() == 4,
            final(self)@ == (FrameView { mask: final(self)@.mask, ..old(self)@ }),
    {
        let m: [u8; 4] = rand::random::<[u8; 4]>();
        self.mask = Some(m);
    }

    /// Consume the frame and return its payload.
    pub fn into_data(self) -> (r: Vec<u8>)
        ensures
            r@ == self@.payload,
    {
        self.payload
    }

    /// Create a data frame carrying (a fragment of) a message.
    pub fn message(data: Vec<u8>, code: OpCode, finished: bool) -> (r: Frame)
        requires
            code == OpCode::Text || code == OpCode::Binary || code == OpCode::Continue,
        ensures
            r@ == (FrameView {
                fin: finished,
                rsv1: false,
                rsv2: false,
                rsv3: false,
                opcode: code,
                mask: None,
                payload: data@,
            }),
            r.spec_header_len() == 0,
    {
        Frame {
            finished,
            rsv1: false,
            rsv2: false,
            rsv3: false,
            opcode: code,
            mask: None,
            payload: data,
            header_length: 0,
        }
    }

    /// Create a close frame: a two-byte big-endian status code followed by
    /// the UTF-8 reason, or an empty payload for `CloseCode::Empty`.
    pub fn close(code: crate::protocol::CloseCode, reason: &str) -> (r: Frame)
        ensures
            r@ == (FrameView {
                fin: true,
                rsv1: false,
                rsv2: false,
                rsv3: false,
                opcode: OpCode::Close,
                mask: None,
                payload: if code == crate::protocol::CloseCode::Empty {
                    Seq::<u8>::empty()
                } else {
                    seq![
                        (crate::protocol::close_code_value(code) >> 8) as u8,
                        crate::protocol::close_code_value(code) as u8,
                    ] + reason.spec_bytes()
                },
            }),
            r.spec_header_len() == 0,
    {
        let mut payload: Vec<u8> = Vec::new();
        match code {
            crate::protocol::CloseCode::Empty => {},
            _ => {
                let v: u16 = code.to_u16();
                proof {
                    assert((v >> 8) < 256) by (bit_vector);
                }
                payload.push((v >> 8) as u8);
                payload.push(#[verifier::truncate] (v as u8));
                let mut rb = bytes_to_vec(reason.as_bytes());
                payload.append(&mut rb);
                proof {
                    assert(payload@ =~= seq![(v >> 8) as u8, v as u8] + reason.spec_bytes());
                }
            },
        }
        Frame {
            finished: true,
            rsv1: false,
            rsv2: false,
            rsv3: false,
            opcode: OpCode::Close,
            mask: None,
            payload,
            header_length: 0,
        }
    }

    /// Create a pong frame echoing the given bytes.
    pub fn pong(data: Vec<u8>) -> (r: Frame)
        ensures
            r@ == (FrameView {
                fin: true,
                rsv1: false,
                rsv2: false,
                rsv3: false,
                opcode: OpCode::Pong,
                mask: None,
                payload: data@,
            }),
            r.spec_header_len() == 0,
    {
        Frame {
            finished: true,
            rsv1: false,
            rsv2: false,
            rsv3: false,
            opcode: OpCode::Pong,
            mask: None,
            payload: data,
            header_length: 0,
        }
    }

    /// Create a ping frame carrying the given bytes.
    pub fn ping(data: Vec<u8>) -> (r: Frame)
        ensures
            r@ == (FrameView {
                fin: true,
                rsv1: false,
                rsv2: false,
                rsv3: false,
                opcode: OpCode::Ping,
                mask: None,
                payload: data@,
            }),
            r.spec_header_len() == 0,
    {
        Frame {
            finished: true,
            rsv1: false,
            rsv2: false,
            rsv3: false,
            opcode: OpCode::Ping,
            mask: None,
            payload: data,
            header_length: 0,
        }
    }

    /// Parse one frame out of `data` starting at `start`.
    ///
    /// Returns the frame and the number of bytes it occupied; `None` when the
    /// buffered bytes do not yet hold a whole frame; a protocol error exactly
    /// when the bytes violate the framing rules. Masked payloads are unmasked
    /// in place, and the mask is retained so `is_masked` stays reportable.
    #[verifier::rlimit(100)]
    #[verifier::spinoff_prover]
    pub fn parse(data: &Vec<u8>, start: usize) -> (r: Result<Option<(Frame, usize)>, Error>)
        requires
            start <= data@.len(),
        ensures
            match r {
                Ok(opt) => match opt {
                    Some((f, consumed)) => {
                        &&& spec_parse(data@.skip(start as int)) == SpecParse::Parsed(
                            f@,
                            consumed as int,
                        )
                        &&& f@.wire_wf()
                        &&& start + consumed <= data@.len()
                        &&& f.spec_header_len() + f@.payload.len() == consumed
                        &&& consumed >= 2
                    },
                    None => spec_parse(data@.skip(start as int)) is Incomplete,
                },
                Err(e) => spec_parse(data@.skip(start as int)) is Invalid && e.kind
                    == Kind::Protocol,
            },
    {
        let ghost sv = data@.skip(start as int);
        let avail = data.len() - start;
        if avail < 2 {
            return Ok(None);
        }
        let b0 = data[start];
        let b1 = data[start + 1];
        proof {
            assert(sv[0] == b0);
            assert(sv[1] == b1);
        }
        let opcode = OpCode::from_u8(b0 & 0x0F);
        if opcode == OpCode::Bad {
            return Err(Error::new(Kind::Protocol, "Encountered invalid opcode."));
        }
        let masked = b1 & 0x80 != 0;
        let code = b1 & 0x7F;

        let mut hdr: usize = 2;
        let n: u64;
        if code == 126 {
            if avail < 4 {
                return Ok(None);
            }
            let hi = data[start + 2];
            let lo = data[start + 3];
            n = (((hi as u16) << 8) | (lo as u16)) as u64;
            hdr = 4;
            proof {
                assert(sv.subrange(2, 4) =~= seq![hi, lo]);
            }
        } else if code == 127 {
            if avail < 10 {
                return Ok(None);
            }
            n = ((data[start + 2] as u64) << 56) | ((data[start + 3] as u64) << 48) | ((data[start
                + 4] as u64) << 40) | ((data[start + 5] as u64) << 32) | ((data[start
                + 6] as u64) << 24) | ((data[start + 7] as u64) << 16) | ((data[start
                + 8] as u64) << 8) | (data[start + 9] as u64);
            hdr = 10;
            proof {
                assert(sv.subrange(2, 10) =~= seq![
                    data@[start + 2],
                    data@[start + 3],
                    data@[start + 4],
                    data@[start + 5],
                    data@[start + 6],
                    data@[start + 7],
                    data@[start + 8],
                    data@[start + 9],
                ]);
            }
        } else {
            n = code as u64;
        }

        if opcode.is_control() && n > 125 {
            return Err(
                Error::new(Kind::Protocol, "Received control frame with payload over 125 bytes."),
            );
        }

        let ghost mask_off = hdr as int;
        let mask_arr: Option<[u8; 4]> = if masked {
            if avail < hdr + 4 {
                return Ok(None);
            }
            let m = [data[start + hdr], data[start + hdr + 1], data[start + hdr + 2], data[start
                + hdr + 3]];
            hdr = hdr + 4;
            proof {
                assert(sv.subrange(mask_off, mask_off + 4) =~= m@);
            }
            Some(m)
        } else {
            None
        };

        if ((avail - hdr) as u64) < n {
            return Ok(None);
        }
        let nn = n as usize;
        let mut payload = bytes_to_vec(&data[start + hdr..start + hdr + nn]);
        let ghost raw = sv.subrange(hdr as int, hdr as int + n as int);
        proof {
            assert(payload@ =~= raw);
        }
        if let Some(m) = &mask_arr {
            apply_mask(&mut payload, m);
        }
        let consumed = hdr + nn;
        let f = Frame {
            finished: b0 & 0x80 != 0,
            rsv1: b0 & 0x40 != 0,
            rsv2: b0 & 0x20 != 0,
            rsv3: b0 & 0x10 != 0,
            opcode,
            mask: mask_arr,
            payload,
            header_length: hdr as u8,
        };
        proof {
            assert(spec_parse(sv) == SpecParse::Parsed(f@, consumed as int));
        }
        Ok(Some((f, consumed)))
    }

    /// Append this frame's serialization to `out`: header, extended length in
    /// its shortest form, mask bytes, and the payload, XOR-masked exactly
    /// when the frame carries a mask.
    #[verifier::rlimit(100)]
    #[verifier::spinoff_prover]
    pub fn format(&self, out: &mut Vec<u8>)
        requires
            self@.opcode != OpCode::Bad,
        ensures
            final(out)@ == old(out)@ + wire_of(self@),
    {
        let b0: u8 = (if self.finished {
            0x80u8
        } else {
            0u8
        }) | (if self.rsv1 {
            0x40u8
        } else {
            0u8
        }) | (if self.rsv2 {
            0x20u8
        } else {
            0u8
        }) | (if self.rsv3 {
            0x10u8
        } else {
            0u8
        }) | self.opcode.to_u8();
        let n = self.payload.len();
        let code: u8 = if n < 126 {
            n as u8
        } else if n <= 65535 {
            126
        } else {
            127
        };
        let b1: u8 = (if self.mask.is_some() {
            0x80u8
        } else {
            0u8
        }) | code;
        out.push(b0);
        out.push(b1);
        if n >= 126 && n <= 65535 {
            let n16 = n as u16;
            out.push(#[verifier::truncate] ((n16 >> 8) as u8));
            out.push(#[verifier::truncate] (n16 as u8));
        } else if n > 65535 {
            let n64 = n as u64;
            out.push(#[verifier::truncate] ((n64 >> 56) as u8));
            out.push(#[verifier::truncate] ((n64 >> 48) as u8));
            out.push(#[verifier::truncate] ((n64 >> 40) as u8));
            out.push(#[verifier::truncate] ((n64 >> 32) as u8));
            out.push(#[verifier::truncate] ((n64 >> 24) as u8));
            out.push(#[verifier::truncate] ((n64 >> 16) as u8));
            out.push(#[verifier::truncate] ((n64 >> 8) as u8));
            out.push(#[verifier::truncate] (n64 as u8));
        }
        if let Some(m) = &self.mask {
            out.push(m[0]);
            out.push(m[1]);
            out.push(m[2]);
            out.push(m[3]);
            let mut body = bytes_to_vec(self.payload.as_slice());
            apply_mask(&mut body, m);
            out.append(&mut body);
        } else {
            let mut body = bytes_to_vec(self.payload.as_slice());
            out.append(&mut body);
        }
        proof {
            assert(out@ =~= old(out)@ + wire_of(self@));
        }
    }
}

impl Default for Frame {
    /// The default frame: a final, unmasked close frame with no payload.
    fn default() -> (r: Frame)
        ensures
            r@ == (FrameView {
                fin: true,
                rsv1: false,
                rsv2: false,
                rsv3: false,
                opcode: OpCode::Close,
                mask: None,
                payload: Seq::<u8>::empty(),
            }),
            r.spec_header_len() == 0,
    {
        Frame {
            finished: true,
            rsv1: false,
            rsv2: false,
            rsv3: false,
            opcode: OpCode::Close,
            mask: None,
            payload: Vec::new(),
            header_length: 0,
        }
    }
}

/// Bit-level facts about the first header byte: each flag and the opcode
/// nibble can be read back out of the assembled byte.
proof fn lemma_flags_bits(a: bool, b: bool, c: bool, d: bool, o: u8)
    requires
        o < 16,
    ensures
        ({
            let w = (if a {
                0x80u8
            } else {
                0u8
            }) | (if b {
                0x40u8
            } else {
                0u8
            }) | (if c {
                0x20u8
            } else {
                0u8
            }) | (if d {
                0x10u8
            } else {
                0u8
            }) | o;
            &&& (w & 0x0F) == o
            &&& ((w & 0x80) != 0) == a
            &&& ((w & 0x40) != 0) == b
            &&& ((w & 0x20) != 0) == c
            &&& ((w & 0x10) != 0) == d
        }),
{
    let w = (if a {
        0x80u8
    } else {
        0u8
    }) | (if b {
        0x40u8
    } else {
        0u8
    }) | (if c {
        0x20u8
    } else {
        0u8
    }) | (if d {
        0x10u8
    } else {
        0u8
    }) | o;
    assert((w & 0x0F) == o && ((w & 0x80) != 0) == a && ((w & 0x40) != 0) == b && ((w & 0x20) != 0)
        == c && ((w & 0x10) != 0) == d) by (bit_vector)
        requires
            o < 16,
            w == (if a {
                0x80u8
            } else {
                0u8
            }) | (if b {
                0x40u8
            } else {
                0u8
            }) | (if c {
                0x20u8
            } else {
                0u8
            }) | (if d {
                0x10u8
            } else {
                0u8
            }) | o,
    ;
}

/// Any byte is the disjunction of its four high flag bits with its low
/// nibble: the inverse direction of `lemma_flags_bits`.
proof fn lemma_byte_from_bits(w: u8)
    ensures
        w == (if (w & 0x80) != 0 {
            0x80u8
        } else {
            0u8
        }) | (if (w & 0x40) != 0 {
            0x40u8
        } else {
            0u8
        }) | (if (w & 0x20) != 0 {
            0x20u8
        } else {
            0u8
        }) | (if (w & 0x10) != 0 {
            0x10u8
        } else {
            0u8
        }) | (w & 0x0F),
{
    assert(w == (if (w & 0x80) != 0 {
        0x80u8
    } else {
        0u8
    }) | (if (w & 0x40) != 0 {
        0x40u8
    } else {
        0u8
    }) | (if (w & 0x20) != 0 {
        0x20u8
    } else {
        0u8
    }) | (if (w & 0x10) != 0 {
        0x10u8
    } else {
        0u8
    }) | (w & 0x0F)) by (bit_vector);
}

/// Bit-level facts about the second header byte: the mask bit and the
/// length code can be read back out, and any byte is their disjunction.
proof fn lemma_len_byte_bits(m: bool, c: u8)
    requires
        c < 128,
    ensures
        ({
            let w = (if m {
                0x80u8
            } else {
                0u8
            }) | c;
            &&& ((w & 0x80) != 0) == m
            &&& (w & 0x7F) == c
        }),
{
    let w = (if m {
        0x80u8
    } else {
        0u8
    }) | c;
    assert(((w & 0x80) != 0) == m && (w & 0x7F) == c) by (bit_vector)
        requires
            c < 128,
            w == (if m {
                0x80u8
            } else {
                0u8
            }) | c,
    ;
}

/// Any byte is the disjunction of its mask bit with its low seven bits.
proof fn lemma_byte_from_mask_bit(w: u8)
    ensures
        w == (if (w & 0x80) != 0 {
            0x80u8
        } else {
            0u8
        }) | (w & 0x7F),
{
    assert(w == (if (w & 0x80) != 0 {
        0x80u8
    } else {
        0u8
    }) | (w & 0x7F)) by (bit_vector);
}

/// Big-endian 16-bit encoding and decoding are inverse to one another.
proof fn lemma_u16_be_roundtrip(x: u16, s: Seq<u8>)
    requires
        s.len() == 2,
    ensures
        u16_be_value(u16_be(x)) == x,
        u16_be(u16_be_value(s)) =~= s,
{
    let h = (x >> 8) as u8;
    let l = x as u8;
    assert((((h as u16) << 8) | (l as u16)) == x) by (bit_vector)
        requires
            h == (x >> 8) as u8,
            l == x as u8,
    ;
    let v = u16_be_value(s);
    let a = s[0];
    let b = s[1];
    assert((v >> 8) as u8 == a && v as u8 == b) by (bit_vector)
        requires
            v == ((a as u16) << 8) | (b as u16),
    ;
}

/// Big-endian 64-bit encoding and decoding are inverse to one another.
proof fn lemma_u64_be_roundtrip(x: u64, s: Seq<u8>)
    requires
        s.len() == 8,
    ensures
        u64_be_value(u64_be(x)) == x,
        u64_be(u64_be_value(s)) =~= s,
{
    let b0 = (x >> 56) as u8;
    let b1 = (x >> 48) as u8;
    let b2 = (x >> 40) as u8;
    let b3 = (x >> 32) as u8;
    let b4 = (x >> 24) as u8;
    let b5 = (x >> 16) as u8;
    let b6 = (x >> 8) as u8;
    let b7 = x as u8;
    assert((((b0 as u64) << 56) | ((b1 as u64) << 48) | ((b2 as u64) << 40) | ((b3 as u64) << 32)
        | ((b4 as u64) << 24) | ((b5 as u64) << 16) | ((b6 as u64) << 8) | (b7 as u64)) == x)
        by (bit_vector)
        requires
            b0 == (x >> 56) as u8,
            b1 == (x >> 48) as u8,
            b2 == (x >> 40) as u8,
            b3 == (x >> 32) as u8,
            b4 == (x >> 24) as u8,
            b5 == (x >> 16) as u8,
            b6 == (x >> 8) as u8,
            b7 == x as u8,
    ;
    let v = u64_be_value(s);
    let a0 = s[0];
    let a1 = s[1];
    let a2 = s[2];
    let a3 = s[3];
    let a4 = s[4];
    let a5 = s[5];
    let a6 = s[6];
    let a7 = s[7];
    assert((v >> 56) as u8 == a0 && (v >> 48) as u8 == a1 && (v >> 40) as u8 == a2 && (v
        >> 32) as u8 == a3 && (v >> 24) as u8 == a4 && (v >> 16) as u8 == a5 && (v >> 8) as u8 == a6
        && v as u8 == a7) by (bit_vector)
        requires
            v == ((a0 as u64) << 56) | ((a1 as u64) << 48) | ((a2 as u64) << 40) | ((
            a3 as u64) << 32) | ((a4 as u64) << 24) | ((a5 as u64) << 16) | ((a6 as u64) << 8) | (
            a7 as u64),
    ;
}

/// The mask bit of a serialized frame is set exactly when the frame
/// carries a mask.
pub proof fn lemma_wire_mask_bit(f: FrameView)
    ensures
        ((wire_of(f)[1] & 0x80) != 0) == (f.mask is Some),
{
    assert(len_code(f.payload.len()) < 128);
    lemma_len_byte_bits(f.mask is Some, len_code(f.payload.len()));
}

/// Parsing undoes serialization: for every frame that can stand on the wire,
/// its serialization, followed by anything at all, parses back to exactly
/// that frame, consuming exactly the serialized bytes.
#[verifier::rlimit(100)]
#[verifier::spinoff_prover]
pub proof fn lemma_parse_of_wire(f: FrameView, rest: Seq<u8>)
    requires
        f.wire_wf(),
    ensures
        spec_parse(wire_of(f) + rest) == SpecParse::Parsed(f, wire_len(f)),
{
    let w = wire_of(f);
    let s = w + rest;
    let np = f.payload.len();
    let ext = ext_len_bytes(np);
    let mb = mask_bytes(f.mask);
    let body = body_bytes(f);
    let masked = f.mask is Some;
    assert(w.len() == 2 + ext.len() + mb.len() + body.len());
    assert(s[0] == flags_byte(f) && s[1] == len_byte(f));

    lemma_flags_bits(f.fin, f.rsv1, f.rsv2, f.rsv3, opcode_value(f.opcode));
    crate::protocol::lemma_opcode_roundtrip();
    assert(opcode_of(s[0] & 0x0F) == f.opcode);
    lemma_len_byte_bits(masked, len_code(np));
    let code = s[1] & 0x7F;
    assert(code == len_code(np));
    assert(((s[1] & 0x80) != 0) == masked);

    let hdr: int = if code == 126 {
        4
    } else {
        if code == 127 {
            10
        } else {
            2
        }
    };
    assert(hdr == 2 + ext.len());
    if code == 126 {
        assert(126 <= np <= 65535);
        assert(s.subrange(2, 4) =~= ext);
        lemma_u16_be_roundtrip(np as u16, ext);
        assert(u16_be_value(s.subrange(2, 4)) as int == np);
    } else if code == 127 {
        assert(np > 65535);
        assert(s.subrange(2, 10) =~= ext);
        lemma_u64_be_roundtrip(np as u64, ext);
        assert(u64_be_value(s.subrange(2, 10)) as int == np);
    } else {
        assert(np < 126 && code == np as u8);
    }
    let hdr2: int = if masked {
        hdr + 4
    } else {
        hdr
    };
    assert(hdr2 == header_len_of(f));
    if masked {
        let m = f.mask.unwrap();
        assert(s.subrange(hdr, hdr + 4) =~= m);
        let raw = s.subrange(hdr2, hdr2 + np);
        assert(raw =~= masked_seq(f.payload, m));
        lemma_masked_seq_involutive(f.payload, m);
        assert(masked_seq(raw, s.subrange(hdr, hdr + 4)) == f.payload);
    } else {
        assert(s.subrange(hdr2, hdr2 + np) =~= f.payload);
    }
    assert(spec_parse(s) matches SpecParse::Parsed(g, c) && g == f && c == wire_len(f)) by {
        assert(s.len() >= hdr2 + np);
        let g = spec_parse(s)->Parsed_0;
        assert(g.fin == f.fin && g.rsv1 == f.rsv1 && g.rsv2 == f.rsv2 && g.rsv3 == f.rsv3
            && g.opcode == f.opcode && g.mask == f.mask && g.payload == f.payload);
    }
}

/// Serialization undoes parsing: whenever a prefix parses as a frame and
/// that prefix has the frame's own (shortest-form) length, re-serializing
/// the frame reproduces the consumed bytes exactly, and the frame can stand
/// on the wire.
#[verifier::rlimit(100)]
#[verifier::spinoff_prover]
pub proof fn lemma_wire_of_parse(s: Seq<u8>)
    ensures
        spec_parse(s) matches SpecParse::Parsed(f, n) ==> {
            &&& f.wire_wf()
            &&& header_len_of(f) <= n
            &&& n == wire_len(f) ==> s.subrange(0, n) =~= wire_of(f)
        },
{
    if let SpecParse::Parsed(f, n) = spec_parse(s) {
        let b0 = s[0];
        let b1 = s[1];
        let code = b1 & 0x7F;
        let masked = (b1 & 0x80) != 0;
        let np = f.payload.len();
        let hdr: int = if code == 126 {
            4
        } else {
            if code == 127 {
                10
            } else {
                2
            }
        };
        let hdr2: int = if masked {
            hdr + 4
        } else {
            hdr
        };
        assert(code < 128) by (bit_vector)
            requires
                code == b1 & 0x7F,
        ;
        crate::protocol::lemma_opcode_roundtrip();
        assert(f.wire_wf());
        assert(n == hdr2 + np);
        assert(header_len_of(f) == 2 + ext_len_bytes(np).len() + if masked {
            4int
        } else {
            0int
        });
        if n == wire_len(f) {
            // The consumed header has the canonical length, so the length
            // field used its shortest form.
            assert(ext_len_bytes(np).len() == hdr - 2);
            lemma_byte_from_bits(b0);
            assert(opcode_value(f.opcode) == b0 & 0x0F);
            assert(flags_byte(f) == b0);
            lemma_byte_from_mask_bit(b1);
            if code == 126 {
                assert(!(np < 126) && np <= 65535);
                assert(len_code(np) == 126);
                lemma_u16_be_roundtrip(np as u16, s.subrange(2, 4));
                assert(np as u16 == u16_be_value(s.subrange(2, 4)));
                assert(ext_len_bytes(np) =~= s.subrange(2, 4));
            } else if code == 127 {
                assert(!(np <= 65535));
                assert(len_code(np) == 127);
                lemma_u64_be_roundtrip(np as u64, s.subrange(2, 10));
                assert(np as u64 == u64_be_value(s.subrange(2, 10)));
                assert(ext_len_bytes(np) =~= s.subrange(2, 10));
            } else {
                assert(np == code);
                assert(len_code(np) == code);
            }
            assert(len_byte(f) == b1);
            if masked {
                let m = s.subrange(hdr, hdr + 4);
                let raw = s.subrange(hdr2, hdr2 + np);
                lemma_masked_seq_involutive(raw, m);
                assert(body_bytes(f) =~= raw);
            }
            assert(s.subrange(0, n) =~= wire_of(f));
        }
    }
}

} // verus!
