//! The two messages of the proxy handshake, in their compact tagged wire
//! form: a request naming the `(host, port)` the peer wants to reach, and
//! a response saying whether it is allowed.
//!
//! Field tags are `(field_number << 3) | wire_type`. The request carries
//! its host as length-prefixed bytes under tag 10 and its port as a
//! variable-length integer under tag 16; the response carries the allowed
//! flag under tag 8. Decoders skip fields with unknown tags, later fields
//! overwrite earlier ones, and absent fields keep their default value.

use vstd::prelude::*;
use crate::varint::{
    decode_varint, encode_varint, lemma_varint_len, lemma_varint_roundtrip, spec_decode_varint,
    spec_varint,
};

verus! {

/// Request of the proxy handshake: the local TCP endpoint on the provider
/// that the user asks to reach.
pub struct UseServiceReq {
    pub host: Vec<u8>,
    pub port: u32,
}

/// Response of the proxy handshake: whether the provider will bridge the
/// stream to the requested endpoint.
pub struct UseServiceResp {
    pub allowed: bool,
}

/// Wire form of a request with host bytes `host` and port `port`.
pub open spec fn spec_encode_req(host: Seq<u8>, port: u32) -> Seq<u8> {
    spec_varint(10) + spec_varint(host.len() as u64) + host + spec_varint(16) + spec_varint(
        port as u64,
    )
}

/// Wire form of a response with allowed flag `allowed`.
pub open spec fn spec_encode_resp(allowed: bool) -> Seq<u8> {
    spec_varint(8) + spec_varint(if allowed { 1u64 } else { 0u64 })
}

/// Decode one variable-length integer of `s` at `pos`: the value and the
/// position just past it.
pub open spec fn spec_take_varint(s: Seq<u8>, pos: int) -> Option<(u64, int)> {
    if 0 <= pos <= s.len() {
        match spec_decode_varint(s.skip(pos)) {
            None => None,
            Some((n, l)) => if 1 <= l && pos + l <= s.len() {
                Some((n, pos + l))
            } else {
                None
            },
        }
    } else {
        None
    }
}

/// Position just past a field of wire type `wire` whose payload starts at
/// `pos`, or `None` when the field is truncated or of an unknown wire type.
pub open spec fn spec_skip_field(s: Seq<u8>, pos: int, wire: u64) -> Option<int> {
    if wire == 0 {
        match spec_take_varint(s, pos) {
            Some((_n, p)) => Some(p),
            None => None,
        }
    } else if wire == 1 {
        if pos + 8 <= s.len() {
            Some(pos + 8)
        } else {
            None
        }
    } else if wire == 2 {
        match spec_take_varint(s, pos) {
            Some((l, p)) => if p + l <= s.len() {
                Some(p + l)
            } else {
                None
            },
            None => None,
        }
    } else if wire == 5 {
        if pos + 4 <= s.len() {
            Some(pos + 4)
        } else {
            None
        }
    } else {
        None
    }
}

/// Decode the rest of a request message from `pos`, with the fields read
/// so far defaulting to `host` and `port`.
pub open spec fn spec_decode_req_from(
    s: Seq<u8>,
    pos: int,
    host: Seq<u8>,
    port: u32,
) -> Option<(Seq<u8>, u32)>
    decreases s.len() - pos,
{
    if !(0 <= pos <= s.len()) {
        None
    } else if pos == s.len() {
        Some((host, port))
    } else {
        match spec_take_varint(s, pos) {
            None => None,
            Some((tag, p1)) => {
                if tag == 10 {
                    match spec_take_varint(s, p1) {
                        None => None,
                        Some((len, p2)) => if p2 + len <= s.len() {
                            spec_decode_req_from(
                                s,
                                p2 + len,
                                s.subrange(p2, p2 + len),
                                port,
                            )
                        } else {
                            None
                        },
                    }
                } else if tag == 16 {
                    match spec_take_varint(s, p1) {
                        None => None,
                        Some((v, p2)) => spec_decode_req_from(
                            s,
                            p2,
                            host,
                            (v % 0x1_0000_0000) as u32,
                        ),
                    }
                } else {
                    match spec_skip_field(s, p1, tag % 8) {
                        None => None,
                        Some(p2) => spec_decode_req_from(s, p2, host, port),
                    }
                }
            },
        }
    }
}

/// Host bytes and port of the request message `s`, or `None` when `s` is
/// malformed.
pub open spec fn spec_decode_req(s: Seq<u8>) -> Option<(Seq<u8>, u32)> {
    spec_decode_req_from(s, 0, Seq::empty(), 0)
}

/// Decode the rest of a response message from `pos`, with the allowed
/// flag read so far defaulting to `allowed`.
pub open spec fn spec_decode_resp_from(s: Seq<u8>, pos: int, allowed: bool) -> Option<bool>
    decreases s.len() - pos,
{
    if !(0 <= pos <= s.len()) {
        None
    } else if pos == s.len() {
        Some(allowed)
    } else {
        match spec_take_varint(s, pos) {
            None => None,
            Some((tag, p1)) => {
                if tag == 8 {
                    match spec_take_varint(s, p1) {
                        None => None,
                        Some((v, p2)) => spec_decode_resp_from(s, p2, v != 0),
                    }
                } else {
                    match spec_skip_field(s, p1, tag % 8) {
                        None => None,
                        Some(p2) => spec_decode_resp_from(s, p2, allowed),
                    }
                }
            },
        }
    }
}

/// Allowed flag of the response message `s`, or `None` when `s` is
/// malformed.
pub open spec fn spec_decode_resp(s: Seq<u8>) -> Option<bool> {
    spec_decode_resp_from(s, 0, false)
}

/// Encode a request message.
pub fn encode_req(msg: &UseServiceReq) -> (r: Vec<u8>)
    ensures
        r@ == spec_encode_req(msg.host@, msg.port),
{
    let mut out: Vec<u8> = Vec::new();
    encode_varint(10, &mut out);
    encode_varint(msg.host.len() as u64, &mut out);
    let mut i: usize = 0;
    while i < msg.host.len()
        invariant
            i <= msg.host@.len(),
            out@ == spec_varint(10) + spec_varint(msg.host@.len() as u64) + msg.host@.subrange(
                0,
                i as int,
            ),
        decreases msg.host@.len() - i,
    {
        out.push(msg.host[i]);
        i = i + 1;
        assert(out@ =~= spec_varint(10) + spec_varint(msg.host@.len() as u64)
            + msg.host@.subrange(0, i as int));
    }
    assert(msg.host@.subrange(0, msg.host@.len() as int) =~= msg.host@);
    encode_varint(16, &mut out);
    encode_varint(msg.port as u64, &mut out);
    assert(out@ =~= spec_encode_req(msg.host@, msg.port));
    out
}

/// Encode a response message.
pub fn encode_resp(msg: &UseServiceResp) -> (r: Vec<u8>)
    ensures
        r@ == spec_encode_resp(msg.allowed),
{
    let mut out: Vec<u8> = Vec::new();
    encode_varint(8, &mut out);
    encode_varint(if msg.allowed { 1 } else { 0 }, &mut out);
    assert(out@ =~= spec_encode_resp(msg.allowed));
    out
}

/// Decode one variable-length integer of `buf` at `pos`.
fn take_varint(buf: &Vec<u8>, pos: usize) -> (r: Option<(u64, usize)>)
    ensures
        match r {
            None => spec_take_varint(buf@, pos as int) is None,
            Some((n, p)) => {
                &&& spec_take_varint(buf@, pos as int) == Some((n, p as int))
                &&& pos < p <= buf@.len()
            },
        },
{
    if pos > buf.len() {
        return None;
    }
    match decode_varint(buf, pos) {
        None => None,
        Some((n, end)) => Some((n, end)),
    }
}

/// Position just past a field of wire type `wire` starting at `pos`.
fn skip_field(buf: &Vec<u8>, pos: usize, wire: u64) -> (r: Option<usize>)
    ensures
        match r {
            None => spec_skip_field(buf@, pos as int, wire) is None,
            Some(p) => {
                &&& spec_skip_field(buf@, pos as int, wire) == Some(p as int)
                &&& pos < p <= buf@.len()
            },
        },
{
    if wire == 0 {
        match take_varint(buf, pos) {
            Some((_n, p)) => Some(p),
            None => None,
        }
    } else if wire == 1 {
        if pos <= buf.len() && buf.len() - pos >= 8 {
            Some(pos + 8)
        } else {
            None
        }
    } else if wire == 2 {
        match take_varint(buf, pos) {
            Some((l, p)) => {
                if l <= (buf.len() - p) as u64 {
                    Some(p + l as usize)
                } else {
                    None
                }
            },
            None => None,
        }
    } else if wire == 5 {
        if pos <= buf.len() && buf.len() - pos >= 4 {
            Some(pos + 4)
        } else {
            None
        }
    } else {
        None
    }
}

/// Decode the rest of a request message from `pos`.
fn decode_req_from(buf: &Vec<u8>, pos: usize, host: Vec<u8>, port: u32) -> (r: Option<
    UseServiceReq,
>)
    requires
        pos <= buf@.len(),
    ensures
        match r {
            None => spec_decode_req_from(buf@, pos as int, host@, port) is None,
            Some(m) => spec_decode_req_from(buf@, pos as int, host@, port) == Some(
                (m.host@, m.port),
            ),
        },
    decreases buf@.len() - pos,
{
    if pos == buf.len() {
        return Some(UseServiceReq { host, port });
    }
    match take_varint(buf, pos) {
        None => {
            assert(spec_decode_req_from(buf@, pos as int, host@, port) is None);
            None
        },
        Some((tag, p1)) => {
            if tag == 10 {
                match take_varint(buf, p1) {
                    None => {
                        assert(spec_decode_req_from(buf@, pos as int, host@, port) is None);
                        None
                    },
                    Some((len, p2)) => {
                        if len <= (buf.len() - p2) as u64 {
                            let end = p2 + len as usize;
                            let new_host = vstd::slice::slice_to_vec(
                                vstd::slice::slice_subrange(buf.as_slice(), p2, end),
                            );
                            assert(new_host@ == buf@.subrange(p2 as int, p2 + len as int));
                            decode_req_from(buf, end, new_host, port)
                        } else {
                            assert(spec_decode_req_from(buf@, pos as int, host@, port) is None);
                            None
                        }
                    },
                }
            } else if tag == 16 {
                match take_varint(buf, p1) {
                    None => {
                        assert(spec_decode_req_from(buf@, pos as int, host@, port) is None);
                        None
                    },
                    Some((v, p2)) => {
                        let new_port = #[verifier::truncate] (v as u32);
                        assert(#[verifier::truncate] (v as u32) == (v % 0x1_0000_0000) as u32)
                            by (bit_vector);
                        decode_req_from(buf, p2, host, new_port)
                    },
                }
            } else {
                match skip_field(buf, p1, tag % 8) {
                    None => {
                        assert(spec_decode_req_from(buf@, pos as int, host@, port) is None);
                        None
                    },
                    Some(p2) => decode_req_from(buf, p2, host, port),
                }
            }
        },
    }
}

/// Decode a request message; `None` when `frame` is malformed.
pub fn decode_req(frame: &Vec<u8>) -> (r: Option<UseServiceReq>)
    ensures
        match r {
            None => spec_decode_req(frame@) is None,
            Some(m) => spec_decode_req(frame@) == Some((m.host@, m.port)),
        },
{
    let host: Vec<u8> = Vec::new();
    decode_req_from(frame, 0, host, 0)
}

/// Decode the rest of a response message from `pos`.
fn decode_resp_from(buf: &Vec<u8>, pos: usize, allowed: bool) -> (r: Option<UseServiceResp>)
    requires
        pos <= buf@.len(),
    ensures
        match r {
            None => spec_decode_resp_from(buf@, pos as int, allowed) is None,
            Some(m) => spec_decode_resp_from(buf@, pos as int, allowed) == Some(m.allowed),
        },
    decreases buf@.len() - pos,
{
    if pos == buf.len() {
        return Some(UseServiceResp { allowed });
    }
    match take_varint(buf, pos) {
        None => None,
        Some((tag, p1)) => {
            if tag == 8 {
                match take_varint(buf, p1) {
                    None => None,
                    Some((v, p2)) => decode_resp_from(buf, p2, v != 0),
                }
            } else {
                match skip_field(buf, p1, tag % 8) {
                    None => None,
                    Some(p2) => decode_resp_from(buf, p2, allowed),
                }
            }
        },
    }
}

/// Decode a response message; `None` when `frame` is malformed.
pub fn decode_resp(frame: &Vec<u8>) -> (r: Option<UseServiceResp>)
    ensures
        match r {
            None => spec_decode_resp(frame@) is None,
            Some(m) => spec_decode_resp(frame@) == Some(m.allowed),
        },
{
    decode_resp_from(frame, 0, false)
}

/// Skipping a whole concatenation leaves exactly its tail.
proof fn lemma_skip_concat(a: Seq<u8>, b: Seq<u8>)
    ensures
        (a + b).skip(a.len() as int) =~= b,
{
}

/// Decoding one canonical integer at the head of a concatenation.
proof fn lemma_take_varint_concat(prefix: Seq<u8>, n: u64, rest: Seq<u8>)
    ensures
        spec_take_varint(prefix + (spec_varint(n) + rest), prefix.len() as int) == Some(
            (n, prefix.len() + spec_varint(n).len() as int),
        ),
{
    let s = prefix + (spec_varint(n) + rest);
    lemma_varint_roundtrip(n, rest);
    lemma_varint_len(n);
    lemma_skip_concat(prefix, spec_varint(n) + rest);
    assert(s.skip(prefix.len() as int) == spec_varint(n) + rest);
}

/// A request message decodes back to the host and port it was encoded
/// from.
#[verifier::rlimit(50)]
pub proof fn lemma_req_roundtrip(host: Seq<u8>, port: u32)
    requires
        host.len() <= u64::MAX,
    ensures
        spec_decode_req(spec_encode_req(host, port)) == Some((host, port)),
{
    let a = spec_varint(10);
    let b = spec_varint(host.len() as u64);
    let c = spec_varint(16);
    let d = spec_varint(port as u64);
    let s = spec_encode_req(host, port);
    lemma_varint_len(10);
    lemma_varint_len(host.len() as u64);
    lemma_varint_len(16);
    lemma_varint_len(port as u64);

    // tag 10 at position 0
    assert(s =~= Seq::<u8>::empty() + (a + (b + (host + (c + d)))));
    lemma_take_varint_concat(Seq::empty(), 10, b + (host + (c + d)));
    let p1 = a.len() as int;
    assert(spec_take_varint(s, 0) == Some((10u64, p1)));

    // host length at p1
    assert(s =~= a + (b + (host + (c + d))));
    lemma_take_varint_concat(a, host.len() as u64, host + (c + d));
    let p2 = p1 + b.len();
    assert(spec_take_varint(s, p1) == Some((host.len() as u64, p2)));

    // host bytes at p2
    let p3 = p2 + host.len();
    assert(p3 + c.len() + d.len() == s.len());
    assert(s.subrange(p2, p3) =~= host);

    // tag 16 at p3
    assert(s =~= (a + b + host) + (c + d));
    lemma_take_varint_concat(a + b + host, 16, d);
    assert(a + b + host =~= a + (b + host));
    assert((a + b + host) + (c + d) =~= s);
    let p4 = p3 + c.len();
    assert(spec_take_varint(s, p3) == Some((16u64, p4)));

    // port at p4
    assert(s =~= (a + b + host + c) + (d + Seq::<u8>::empty()));
    lemma_take_varint_concat(a + b + host + c, port as u64, Seq::empty());
    assert(d + Seq::<u8>::empty() =~= d);
    let p5 = p4 + d.len();
    assert(spec_take_varint(s, p4) == Some((port as u64, p5)));
    assert(p5 == s.len());

    assert((port as u64) % 0x1_0000_0000 == port as u64);
    assert(spec_decode_req_from(s, p5, host, port) == Some((host, port)));
    assert(spec_decode_req_from(s, p3, host, 0u32) == Some((host, port)));
    assert(spec_decode_req_from(s, p3, s.subrange(p2, p2 + host.len() as int), 0u32) == Some(
        (host, port),
    ));
    assert(spec_decode_req_from(s, 0, Seq::empty(), 0u32) == Some((host, port)));
}

/// A response message decodes back to the flag it was encoded from.
pub proof fn lemma_resp_roundtrip(allowed: bool)
    ensures
        spec_decode_resp(spec_encode_resp(allowed)) == Some(allowed),
{
    let a = spec_varint(8);
    let v: u64 = if allowed { 1 } else { 0 };
    let d = spec_varint(v);
    let s = spec_encode_resp(allowed);
    lemma_varint_len(8);
    lemma_varint_len(v);

    assert(s =~= Seq::<u8>::empty() + (a + d));
    lemma_take_varint_concat(Seq::empty(), 8, d);
    let p1 = a.len() as int;
    assert(spec_take_varint(s, 0) == Some((8u64, p1)));

    assert(s =~= a + (d + Seq::<u8>::empty()));
    lemma_take_varint_concat(a, v, Seq::empty());
    let p2 = p1 + d.len();
    assert(spec_take_varint(s, p1) == Some((v, p2)));
    assert(p2 == s.len());

    assert(spec_decode_resp_from(s, p2, allowed) == Some(allowed));
    assert(spec_decode_resp_from(s, 0, false) == Some(allowed));
}

} // verus!
