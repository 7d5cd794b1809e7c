//! Length-prefixed, optionally compressed wire frames.
//!
//! One frame is a 4-byte big-endian header followed by the payload. Bit 31 of
//! the header is the compression flag; bits 0 through 30 hold the payload
//! length. The payload is the wire encoding of one message, compressed when
//! that encoding is longer than `COMPRESSION_LIMIT`. A header announcing more
//! than `MAX_FRAME` payload bytes is a protocol error, so a hostile peer
//! cannot make the reader allocate without bound.

use std::io::Write;
use vstd::prelude::*;
use crate::error::KvError;
use crate::msg::{CommandRequest, CommandResponse, ReqV, RespV};
use crate::codec::{
    lemma_req_round_trip, lemma_resp_round_trip, spec_dec_req, spec_dec_resp, spec_enc_req,
    spec_enc_resp,
};
use crate::wire::sub_vec;

verus! {

/// Payloads longer than this are compressed before framing.
pub const COMPRESSION_LIMIT: usize = 1436;

/// The longest payload a frame may announce.
pub const MAX_FRAME: usize = 16 * 1024 * 1024;

/// What DEFLATE compression produces for the given bytes; a function of the
/// bytes alone.
pub uninterp spec fn deflate_of(b: Seq<u8>) -> Seq<u8>;

/// What DEFLATE decompression produces for the given bytes — or nothing,
/// where they are not a valid compressed stream; a function of the bytes
/// alone.
pub uninterp spec fn inflate_of(b: Seq<u8>) -> Option<Seq<u8>>;

/// Relies on flate2's `ZlibEncoder` over an in-memory vector: compression at
/// the default level depends on the input bytes alone, and what it produces
/// decompresses back to the input.
#[verifier::external_body]
fn compress(data: &Vec<u8>) -> (r: Vec<u8>)
    ensures
        r@ == deflate_of(data@),
        inflate_of(r@) == Some(data@),
{
    let mut e = flate2::write::ZlibEncoder::new(Vec::new(), flate2::Compression::default());
    e.write_all(data).expect("writing to an in-memory encoder cannot fail");
    e.finish().expect("finishing an in-memory encoder cannot fail")
}

/// Relies on flate2's `ZlibDecoder` over an in-memory vector: decompression
/// depends on the input bytes alone, and fails exactly where they are not a
/// valid compressed stream.
#[verifier::external_body]
fn decompress(data: &Vec<u8>) -> (r: Option<Vec<u8>>)
    ensures
        match r {
            Some(v) => inflate_of(data@) == Some(v@),
            None => inflate_of(data@) is None,
        },
{
    let mut d = flate2::write::ZlibDecoder::new(Vec::new());
    match d.write_all(data) {
        Ok(()) => d.finish().ok(),
        Err(_) => None,
    }
}

/// The four big-endian bytes of a 32-bit word.
pub open spec fn spec_be32(w: u32) -> Seq<u8> {
    seq![
        (w / 0x1000000) as u8,
        ((w / 0x10000) % 0x100) as u8,
        ((w / 0x100) % 0x100) as u8,
        (w % 0x100) as u8,
    ]
}

/// The 32-bit word described by four big-endian bytes.
pub open spec fn spec_word(b0: u8, b1: u8, b2: u8, b3: u8) -> nat {
    (b0 * 0x1000000 + b1 * 0x10000 + b2 * 0x100 + b3) as nat
}

/// Reassembling the big-endian bytes of a word yields the word.
pub proof fn lemma_be32_round_trip(w: u32)
    ensures
        spec_word(
            spec_be32(w)[0],
            spec_be32(w)[1],
            spec_be32(w)[2],
            spec_be32(w)[3],
        ) == w,
{
    assert((w / 0x1000000) * 0x1000000 + ((w / 0x10000) % 0x100) * 0x10000 + ((w / 0x100) % 0x100)
        * 0x100 + (w % 0x100) == w) by (bit_vector);
}

/// The header word of a frame: the payload length, with bit 31 set when the
/// payload is compressed.
pub open spec fn spec_header_word(len: nat, compressed: bool) -> nat {
    len + if compressed {
        0x8000_0000nat
    } else {
        0nat
    }
}

/// The whole frame carrying the given payload.
pub open spec fn spec_frame(payload: Seq<u8>, compressed: bool) -> Seq<u8> {
    spec_be32(spec_header_word(payload.len(), compressed) as u32) + payload
}

/// The payload length a buffer's header announces, or nothing when not even
/// the header has arrived. The length is the low 31 bits of the header word.
pub open spec fn spec_header_len(b: Seq<u8>) -> Option<int> {
    if b.len() < 4 {
        None
    } else {
        Some((spec_word(b[0], b[1], b[2], b[3]) % 0x8000_0000) as int)
    }
}

/// Whether a buffer's header has its compression bit set.
pub open spec fn spec_header_compressed(b: Seq<u8>) -> bool {
    spec_word(b[0], b[1], b[2], b[3]) >= 0x8000_0000
}

/// The message-encoding bytes one exact frame carries: header checks, then
/// the payload, decompressed when flagged.
pub open spec fn spec_dec_frame(b: Seq<u8>) -> Option<Seq<u8>> {
    match spec_header_len(b) {
        None => None,
        Some(len) => if len > MAX_FRAME {
            None
        } else if b.len() != 4 + len {
            None
        } else {
            let payload = b.subrange(4, 4 + len);
            if spec_header_compressed(b) {
                inflate_of(payload)
            } else {
                Some(payload)
            }
        },
    }
}

/// A message that can travel in a frame: its wire encoding and decoding, the
/// proof that they invert each other, and the executable codec.
pub trait FrameCoder: Sized + View {
    /// The wire encoding of a message.
    spec fn spec_enc_msg(v: Self::V) -> Seq<u8>;

    /// The wire decoding of a byte string.
    spec fn spec_dec_msg(b: Seq<u8>) -> Option<Self::V>;

    /// Decoding an encoded message yields the message back.
    proof fn lemma_msg_round_trip(v: Self::V)
        ensures
            Self::spec_dec_msg(Self::spec_enc_msg(v)) == Some(v),
    ;

    /// Encodes the message into its wire bytes.
    fn encode_msg(&self) -> (r: Vec<u8>)
        ensures
            r@ == Self::spec_enc_msg(self@),
    ;

    /// Decodes a message from its wire bytes.
    fn decode_msg(b: &Vec<u8>) -> (r: Result<Self, KvError>)
        ensures
            match r {
                Ok(m) => Self::spec_dec_msg(b@) == Some(m@),
                Err(e) => Self::spec_dec_msg(b@) is None && e@ is FrameError,
            },
    ;
}

impl FrameCoder for CommandRequest {
    open spec fn spec_enc_msg(v: ReqV) -> Seq<u8> {
        spec_enc_req(v)
    }

    open spec fn spec_dec_msg(b: Seq<u8>) -> Option<ReqV> {
        spec_dec_req(b)
    }

    proof fn lemma_msg_round_trip(v: ReqV) {
        lemma_req_round_trip(v);
    }

    fn encode_msg(&self) -> (r: Vec<u8>) {
        self.encode()
    }

    fn decode_msg(b: &Vec<u8>) -> (r: Result<Self, KvError>) {
        CommandRequest::decode(b)
    }
}

impl FrameCoder for CommandResponse {
    open spec fn spec_enc_msg(v: RespV) -> Seq<u8> {
        spec_enc_resp(v)
    }

    open spec fn spec_dec_msg(b: Seq<u8>) -> Option<RespV> {
        spec_dec_resp(b)
    }

    proof fn lemma_msg_round_trip(v: RespV) {
        lemma_resp_round_trip(v);
    }

    fn encode_msg(&self) -> (r: Vec<u8>) {
        self.encode()
    }

    fn decode_msg(b: &Vec<u8>) -> (r: Result<Self, KvError>) {
        CommandResponse::decode(b)
    }
}

/// The message one exact frame carries.
pub open spec fn spec_decode_frame_msg<T: FrameCoder>(b: Seq<u8>) -> Option<T::V> {
    match spec_dec_frame(b) {
        None => None,
        Some(body) => T::spec_dec_msg(body),
    }
}

/// The one frame a message travels in: its encoding framed plain when it is
/// at or under `COMPRESSION_LIMIT`, and compressed — with the flag bit set —
/// when it is over.
pub open spec fn spec_frame_of_msg<T: FrameCoder>(v: T::V) -> Seq<u8> {
    if T::spec_enc_msg(v).len() <= COMPRESSION_LIMIT {
        spec_frame(T::spec_enc_msg(v), false)
    } else {
        spec_frame(deflate_of(T::spec_enc_msg(v)), true)
    }
}

/// Appends the four big-endian bytes of `w` to `out`.
fn push_be32(out: &mut Vec<u8>, w: u32)
    ensures
        final(out)@ == old(out)@ + spec_be32(w),
{
    out.push((w / 0x1000000) as u8);
    out.push(((w / 0x10000) % 0x100) as u8);
    out.push(((w / 0x100) % 0x100) as u8);
    out.push((w % 0x100) as u8);
    proof {
        assert(out@ =~= old(out)@ + spec_be32(w));
    }
}

/// Builds the exact frame for `payload`, with the compression bit as given.
fn build_frame(payload: &Vec<u8>, compressed: bool) -> (r: Vec<u8>)
    requires
        payload@.len() <= MAX_FRAME,
    ensures
        r@ == spec_frame(payload@, compressed),
{
    let w: u32 = if compressed {
        payload.len() as u32 + 0x8000_0000
    } else {
        payload.len() as u32
    };
    let mut out: Vec<u8> = Vec::new();
    push_be32(&mut out, w);
    crate::wire::push_slice(&mut out, payload.as_slice());
    proof {
        assert(out@ =~= spec_frame(payload@, compressed));
    }
    out
}

/// Reading the header of a built frame yields its length, flag, and payload.
pub proof fn lemma_frame_header(payload: Seq<u8>, compressed: bool)
    requires
        payload.len() <= MAX_FRAME,
    ensures
        spec_header_len(spec_frame(payload, compressed)) == Some(payload.len() as int),
        spec_header_compressed(spec_frame(payload, compressed)) == compressed,
        spec_frame(payload, compressed).len() == 4 + payload.len(),
        spec_frame(payload, compressed).subrange(4, 4 + payload.len() as int) == payload,
{
    let w = spec_header_word(payload.len(), compressed) as u32;
    let f = spec_frame(payload, compressed);
    lemma_be32_round_trip(w);
    assert(f[0] == spec_be32(w)[0]);
    assert(f[1] == spec_be32(w)[1]);
    assert(f[2] == spec_be32(w)[2]);
    assert(f[3] == spec_be32(w)[3]);
    assert(spec_word(f[0], f[1], f[2], f[3]) == w);
    assert(f.subrange(4, 4 + payload.len() as int) =~= payload);
}

/// Frames one message: encode, compress when the encoding is longer than
/// `COMPRESSION_LIMIT`, and prefix the header. The frame this returns is
/// exactly `spec_frame_of_msg` — plain under the threshold, compressed and
/// flagged over it — and decodes back to the message. Framing fails only when
/// even the compressed payload would exceed `MAX_FRAME`.
pub fn encode_frame<T: FrameCoder>(msg: &T) -> (r: Result<Vec<u8>, KvError>)
    ensures
        match r {
            Ok(f) => f@ == spec_frame_of_msg::<T>(msg@) && spec_decode_frame_msg::<T>(f@) == Some(
                msg@,
            ),
            Err(e) => e@ is FrameError && T::spec_enc_msg(msg@).len() > COMPRESSION_LIMIT
                && deflate_of(T::spec_enc_msg(msg@)).len() > MAX_FRAME,
        },
{
    let body = msg.encode_msg();
    proof {
        T::lemma_msg_round_trip(msg@);
    }
    if body.len() > COMPRESSION_LIMIT {
        let c = compress(&body);
        if c.len() > MAX_FRAME {
            return Err(KvError::FrameError(String::from_str("frame too large")));
        }
        let out = build_frame(&c, true);
        proof {
            lemma_frame_header(c@, true);
        }
        Ok(out)
    } else {
        let out = build_frame(&body, false);
        proof {
            lemma_frame_header(body@, false);
        }
        Ok(out)
    }
}

/// Reads the 32-bit word of the first four bytes.
pub(crate) fn read_word(buf: &Vec<u8>) -> (r: u32)
    requires
        buf@.len() >= 4,
    ensures
        r as nat == spec_word(buf@[0], buf@[1], buf@[2], buf@[3]),
{
    (buf[0] as u32) * 0x1000000 + (buf[1] as u32) * 0x10000 + (buf[2] as u32) * 0x100 + (
    buf[3] as u32)
}

/// Unframes one message from the exact bytes of one frame: header checks,
/// decompression when flagged, then decoding. A short or oversized frame, a
/// corrupt compressed payload, and a payload that is not the canonical
/// encoding of any message are all frame errors.
pub fn decode_frame<T: FrameCoder>(buf: &Vec<u8>) -> (r: Result<T, KvError>)
    ensures
        match r {
            Ok(m) => spec_decode_frame_msg::<T>(buf@) == Some(m@),
            Err(e) => spec_decode_frame_msg::<T>(buf@) is None && e@ is FrameError,
        },
{
    if buf.len() < 4 {
        return Err(KvError::FrameError(String::from_str("frame too short")));
    }
    let w = read_word(buf);
    let compressed = w >= 0x8000_0000;
    let len = (w % 0x8000_0000) as usize;
    if len > MAX_FRAME {
        return Err(KvError::FrameError(String::from_str("frame too large")));
    }
    if buf.len() != 4 + len {
        return Err(KvError::FrameError(String::from_str("frame length mismatch")));
    }
    let payload = sub_vec(buf, 4, buf.len());
    if compressed {
        match decompress(&payload) {
            None => Err(KvError::FrameError(String::from_str("frame decompression failed"))),
            Some(body) => match T::decode_msg(&body) {
                Ok(m) => Ok(m),
                Err(e) => Err(e),
            },
        }
    } else {
        match T::decode_msg(&payload) {
            Ok(m) => Ok(m),
            Err(e) => Err(e),
        }
    }
}

} // verus!
