//! Length-delimited framing of handshake messages over the proxy stream,
//! with a hard per-message cap.
//!
//! A frame is the message's byte length as a variable-length integer,
//! then the message bytes. Encoding a message over the cap produces
//! nothing, and decoding a frame whose announced length is over the cap
//! fails without consuming anything: the reader's position moves only
//! when a whole frame is returned.

use vstd::prelude::*;
use crate::MAX_MESSAGE_SIZE;
use crate::codec::{
    lemma_req_roundtrip, lemma_resp_roundtrip, spec_decode_req, spec_decode_resp, spec_encode_req,
    spec_encode_resp, spec_take_varint,
};
use crate::varint::{decode_varint, encode_varint, lemma_varint_len, lemma_varint_roundtrip, spec_varint};

verus! {

/// Wire form of a frame holding the message bytes `body`.
pub open spec fn spec_frame(body: Seq<u8>) -> Seq<u8> {
    spec_varint(body.len() as u64) + body
}

/// What decoding a buffer yields, at the specification level.
pub enum FrameSpec {
    /// The buffer ends before a whole frame.
    NeedMore,
    /// The announced length is over the cap.
    Oversize,
    /// The message bytes and the position just past the frame.
    Frame(Seq<u8>, int),
}

/// What decoding `s` at `pos` yields.
pub open spec fn spec_decode_frame(s: Seq<u8>, pos: int) -> FrameSpec {
    match spec_take_varint(s, pos) {
        None => FrameSpec::NeedMore,
        Some((len, p)) => if len > MAX_MESSAGE_SIZE as u64 {
            FrameSpec::Oversize
        } else if p + len <= s.len() {
            FrameSpec::Frame(s.subrange(p, p + len), p + len)
        } else {
            FrameSpec::NeedMore
        },
    }
}

/// What decoding a buffer yields: the message bytes of one whole frame
/// and the position just past it, or the reason none was returned.
pub enum FrameDecode {
    /// The buffer ends before a whole frame; nothing was consumed.
    NeedMore,
    /// The announced length is over the cap; nothing was consumed.
    Oversize,
    /// The message bytes and the position just past the frame.
    Frame(Vec<u8>, usize),
}

/// Frame the message bytes `body`; `None` if and only if `body` is over
/// the cap.
pub fn encode_frame(body: &Vec<u8>) -> (r: Option<Vec<u8>>)
    ensures
        r is Some <==> body@.len() <= MAX_MESSAGE_SIZE,
        r matches Some(f) ==> f@ == spec_frame(body@),
{
    if body.len() > MAX_MESSAGE_SIZE {
        return None;
    }
    let mut out: Vec<u8> = Vec::new();
    encode_varint(body.len() as u64, &mut out);
    let mut i: usize = 0;
    while i < body.len()
        invariant
            i <= body@.len(),
            out@ == spec_varint(body@.len() as u64) + body@.subrange(0, i as int),
        decreases body@.len() - i,
    {
        out.push(body[i]);
        i = i + 1;
        assert(out@ =~= spec_varint(body@.len() as u64) + body@.subrange(0, i as int));
    }
    assert(out@ =~= spec_frame(body@));
    Some(out)
}

/// Decode one frame of `buf` at `pos`.
pub fn decode_frame(buf: &Vec<u8>, pos: usize) -> (r: FrameDecode)
    requires
        pos <= buf@.len(),
    ensures
        spec_decode_frame(buf@, pos as int) == (match r {
            FrameDecode::NeedMore => FrameSpec::NeedMore,
            FrameDecode::Oversize => FrameSpec::Oversize,
            FrameDecode::Frame(b, n) => FrameSpec::Frame(b@, n as int),
        }),
        r matches FrameDecode::Frame(b, n) ==> pos < n <= buf@.len(),
{
    match decode_varint(buf, pos) {
        None => FrameDecode::NeedMore,
        Some((len, p)) => {
            if len > MAX_MESSAGE_SIZE as u64 {
                FrameDecode::Oversize
            } else if len <= (buf.len() - p) as u64 {
                let end = p + len as usize;
                let body = vstd::slice::slice_to_vec(
                    vstd::slice::slice_subrange(buf.as_slice(), p, end),
                );
                FrameDecode::Frame(body, end)
            } else {
                FrameDecode::NeedMore
            }
        },
    }
}

/// A frame decodes back to the message bytes it was made from, wherever
/// the stream continues after it, and consumes exactly the frame.
pub proof fn lemma_frame_roundtrip(body: Seq<u8>, rest: Seq<u8>)
    requires
        body.len() <= MAX_MESSAGE_SIZE,
    ensures
        spec_decode_frame(spec_frame(body) + rest, 0) == FrameSpec::Frame(
            body,
            spec_frame(body).len() as int,
        ),
{
    let head = spec_varint(body.len() as u64);
    let s = spec_frame(body) + rest;
    lemma_varint_roundtrip(body.len() as u64, body + rest);
    lemma_varint_len(body.len() as u64);
    assert(s =~= head + (body + rest));
    assert(s.skip(0) =~= s);
    assert(spec_take_varint(s, 0) == Some((body.len() as u64, head.len() as int)));
    assert(s.subrange(head.len() as int, head.len() + body.len() as int) =~= body);
}

/// A framed request decodes, through the frame and the message codec,
/// back to the host and port it was encoded from.
pub proof fn lemma_framed_req_roundtrip(host: Seq<u8>, port: u32, rest: Seq<u8>)
    requires
        spec_encode_req(host, port).len() <= MAX_MESSAGE_SIZE,
    ensures
        ({
            let msg = spec_encode_req(host, port);
            &&& spec_decode_frame(spec_frame(msg) + rest, 0) == FrameSpec::Frame(
                msg,
                spec_frame(msg).len() as int,
            )
            &&& spec_decode_req(msg) == Some((host, port))
        }),
{
    let msg = spec_encode_req(host, port);
    lemma_frame_roundtrip(msg, rest);
    lemma_varint_len(10);
    assert(host.len() <= msg.len());
    lemma_req_roundtrip(host, port);
}

/// A framed response decodes, through the frame and the message codec,
/// back to the flag it was encoded from.
pub proof fn lemma_framed_resp_roundtrip(allowed: bool, rest: Seq<u8>)
    ensures
        ({
            let msg = spec_encode_resp(allowed);
            &&& spec_decode_frame(spec_frame(msg) + rest, 0) == FrameSpec::Frame(
                msg,
                spec_frame(msg).len() as int,
            )
            &&& spec_decode_resp(msg) == Some(allowed)
        }),
{
    let msg = spec_encode_resp(allowed);
    lemma_varint_len(8);
    lemma_varint_len(if allowed { 1u64 } else { 0u64 });
    lemma_frame_roundtrip(msg, rest);
    lemma_resp_roundtrip(allowed);
}

} // verus!
