//! IP literals, as the provider acceptor validates them.
//!
//! The acceptor bridges a stream only to a target whose host is a
//! literal IP address; host names are rejected by policy. A host is
//! accepted exactly when it reads as the host part of a textual socket
//! address: a dotted-quad IPv4 literal (four decimal octets without
//! leading zeros), or a bracketed IPv6 literal (hexadecimal groups of up
//! to four digits, one optional `::` elision, an optional embedded
//! dotted quad in the last two groups, and an optional decimal
//! `%scope`).

use vstd::prelude::*;
use crate::multiaddr::Ipv6Segments;

verus! {

/// A literal IP address of either family; an IPv6 literal carries its
/// scope identifier.
#[derive(Clone, Copy, Debug, PartialEq, Eq, Structural)]
pub enum IpLiteral {
    V4(u8, u8, u8, u8),
    V6(Ipv6Segments, u32),
}

/// A resolved target of a proxy session.
#[derive(Clone, Copy, Debug, PartialEq, Eq, Structural)]
pub struct SocketTarget {
    pub ip: IpLiteral,
    pub port: u16,
}

/// Whether `b` is an ASCII decimal digit.
pub open spec fn is_digit(b: u8) -> bool {
    0x30 <= b <= 0x39
}

/// The value of the ASCII decimal digit `b`.
pub open spec fn digit_val(b: u8) -> int {
    b - 0x30
}

/// Whether `b` is an ASCII hexadecimal digit, of either case.
pub open spec fn is_hex_digit(b: u8) -> bool {
    is_digit(b) || (0x41 <= b <= 0x46) || (0x61 <= b <= 0x66)
}

/// The value of the ASCII hexadecimal digit `b`.
pub open spec fn hex_val(b: u8) -> int {
    if is_digit(b) {
        b - 0x30
    } else if 0x41 <= b <= 0x46 {
        b - 0x41 + 10
    } else {
        b - 0x61 + 10
    }
}

/// The canonical decimal text of the octet `n`: no leading zeros.
pub open spec fn spec_octet_text(n: u8) -> Seq<u8> {
    if n < 10 {
        seq![(0x30 + n) as u8]
    } else if n < 100 {
        seq![(0x30 + n / 10) as u8, (0x30 + n % 10) as u8]
    } else {
        seq![(0x30 + n / 100) as u8, (0x30 + (n / 10) % 10) as u8, (0x30 + n % 10) as u8]
    }
}

/// The canonical dotted-quad text of an IPv4 address.
pub open spec fn spec_ipv4_text(a: u8, b: u8, c: u8, d: u8) -> Seq<u8> {
    spec_octet_text(a) + (seq![0x2eu8] + (spec_octet_text(b) + (seq![0x2eu8] + (spec_octet_text(c)
        + (seq![0x2eu8] + spec_octet_text(d))))))
}

/// Parse one decimal octet of `s` at `pos`: up to three digits without a
/// leading zero, at most 255; the value and the position just past it.
#[verifier::opaque]
pub open spec fn spec_parse_octet(s: Seq<u8>, pos: int) -> Option<(u8, int)> {
    if !(0 <= pos < s.len() && is_digit(s[pos])) {
        None
    } else if s[pos] == 0x30 {
        Some((0u8, pos + 1))
    } else {
        let v1 = digit_val(s[pos]);
        if pos + 1 < s.len() && is_digit(s[pos + 1]) {
            let v2 = 10 * v1 + digit_val(s[pos + 1]);
            if pos + 2 < s.len() && is_digit(s[pos + 2]) {
                let v3 = 10 * v2 + digit_val(s[pos + 2]);
                if v3 <= 255 {
                    Some(((v3 as u8), pos + 3))
                } else {
                    None
                }
            } else {
                Some(((v2 as u8), pos + 2))
            }
        } else {
            Some(((v1 as u8), pos + 1))
        }
    }
}

/// Parse a dotted quad of `s` at `pos`: the four octets and the position
/// just past them.
pub open spec fn spec_read_ipv4_at(s: Seq<u8>, pos: int) -> Option<((u8, u8, u8, u8), int)> {
    match spec_parse_octet(s, pos) {
        None => None,
        Some((a, p1)) => if p1 < s.len() && s[p1] == 0x2e {
            match spec_parse_octet(s, p1 + 1) {
                None => None,
                Some((b, p2)) => if p2 < s.len() && s[p2] == 0x2e {
                    match spec_parse_octet(s, p2 + 1) {
                        None => None,
                        Some((c, p3)) => if p3 < s.len() && s[p3] == 0x2e {
                            match spec_parse_octet(s, p3 + 1) {
                                None => None,
                                Some((d, p4)) => Some(((a, b, c, d), p4)),
                            }
                        } else {
                            None
                        },
                    }
                } else {
                    None
                },
            }
        } else {
            None
        },
    }
}

/// Parse `s` as a dotted-quad IPv4 literal, whole.
pub open spec fn spec_parse_ipv4(s: Seq<u8>) -> Option<(u8, u8, u8, u8)> {
    match spec_read_ipv4_at(s, 0) {
        Some((quad, p)) => if p == s.len() {
            Some(quad)
        } else {
            None
        },
        None => None,
    }
}

/// Parse one hexadecimal group of `s` at `pos`: one to four digits;
/// a fifth consecutive digit refuses the group.
pub open spec fn spec_read_hex_group(s: Seq<u8>, pos: int) -> Option<(u16, int)> {
    if !(0 <= pos < s.len() && is_hex_digit(s[pos])) {
        None
    } else {
        let v1 = hex_val(s[pos]);
        if pos + 1 < s.len() && is_hex_digit(s[pos + 1]) {
            let v2 = 16 * v1 + hex_val(s[pos + 1]);
            if pos + 2 < s.len() && is_hex_digit(s[pos + 2]) {
                let v3 = 16 * v2 + hex_val(s[pos + 2]);
                if pos + 3 < s.len() && is_hex_digit(s[pos + 3]) {
                    let v4 = 16 * v3 + hex_val(s[pos + 3]);
                    if pos + 4 < s.len() && is_hex_digit(s[pos + 4]) {
                        None
                    } else {
                        Some(((v4 as u16), pos + 4))
                    }
                } else {
                    Some(((v3 as u16), pos + 3))
                }
            } else {
                Some(((v2 as u16), pos + 2))
            }
        } else {
            Some(((v1 as u16), pos + 1))
        }
    }
}

/// Read up to `limit - i` colon-separated IPv6 groups of `s` at `pos`,
/// onto `acc`: the groups read, the position just past them, and whether
/// they ended in an embedded dotted quad (which fills two groups and
/// ends the list). The first group of a call takes no leading colon.
pub open spec fn spec_read_groups(s: Seq<u8>, pos: int, i: int, limit: int, acc: Seq<u16>) -> (
    Seq<u16>,
    int,
    bool,
)
    decreases limit - i,
{
    if i >= limit {
        (acc, pos, false)
    } else {
        let sep_ok = i == 0 || (0 <= pos < s.len() && s[pos] == 0x3a);
        let q = if i == 0 {
            pos
        } else {
            pos + 1
        };
        if !sep_ok {
            (acc, pos, false)
        } else if i + 1 < limit && spec_read_ipv4_at(s, q) is Some {
            let quad = spec_read_ipv4_at(s, q).unwrap();
            (
                acc.push((256 * quad.0.0 + quad.0.1) as u16).push((256 * quad.0.2 + quad.0.3) as u16),
                quad.1,
                true,
            )
        } else {
            match spec_read_hex_group(s, q) {
                Some((g, p2)) => spec_read_groups(s, p2, i + 1, limit, acc.push(g)),
                None => (acc, pos, false),
            }
        }
    }
}

/// The eight groups named by `head`, a `::` elision, and `tail`: the
/// head, then zeros, then the tail right-aligned.
pub open spec fn spec_pad_groups(head: Seq<u16>, tail: Seq<u16>) -> Seq<u16> {
    let zeros = if head.len() + tail.len() <= 8 {
        (8 - head.len() - tail.len()) as nat
    } else {
        0nat
    };
    head + Seq::new(zeros, |_j: int| 0u16) + tail
}

/// Eight groups as address segments.
pub open spec fn spec_groups_to_segments(g: Seq<u16>) -> Ipv6Segments {
    Ipv6Segments {
        s0: g[0],
        s1: g[1],
        s2: g[2],
        s3: g[3],
        s4: g[4],
        s5: g[5],
        s6: g[6],
        s7: g[7],
    }
}

/// Parse an IPv6 address of `s` at `pos`: either eight groups, or fewer
/// followed by `::` and at most seven in all; an embedded dotted quad
/// may only end the address. The segments and the position just past
/// them.
pub open spec fn spec_read_ipv6(s: Seq<u8>, pos: int) -> Option<(Ipv6Segments, int)> {
    let head = spec_read_groups(s, pos, 0, 8, Seq::empty());
    if head.0.len() == 8 {
        Some((spec_groups_to_segments(head.0), head.1))
    } else if head.2 {
        None
    } else if head.1 + 1 < s.len() && s[head.1] == 0x3a && s[head.1 + 1] == 0x3a {
        let tail = spec_read_groups(s, head.1 + 2, 0, 7 - head.0.len(), Seq::empty());
        Some((spec_groups_to_segments(spec_pad_groups(head.0, tail.0)), tail.1))
    } else {
        None
    }
}

/// Read a decimal number of `s` at `pos` into a 32-bit value, starting
/// from `acc`; any digit that would overflow refuses the number.
pub open spec fn spec_read_dec_u32_from(s: Seq<u8>, pos: int, acc: u32) -> Option<(u32, int)>
    decreases s.len() - pos,
{
    if 0 <= pos < s.len() && is_digit(s[pos]) {
        let v = 10 * (acc as int) + digit_val(s[pos]);
        if v > u32::MAX {
            None
        } else {
            spec_read_dec_u32_from(s, pos + 1, v as u32)
        }
    } else {
        Some((acc, pos))
    }
}

/// Read an optional `%scope` of `s` at `pos`: the scope identifier (0
/// when absent) and the position just past it.
pub open spec fn spec_read_scope(s: Seq<u8>, pos: int) -> (u32, int) {
    if 0 <= pos < s.len() && s[pos] == 0x25 && pos + 1 < s.len() && is_digit(s[pos + 1]) {
        match spec_read_dec_u32_from(s, pos + 1, 0) {
            Some((v, p)) => (v, p),
            None => (0, pos),
        }
    } else {
        (0, pos)
    }
}

/// Parse `s` as a bracketed IPv6 literal, whole: `[`, the address, an
/// optional `%scope`, `]`.
pub open spec fn spec_parse_ipv6_host(s: Seq<u8>) -> Option<(Ipv6Segments, u32)> {
    if s.len() > 0 && s[0] == 0x5b {
        match spec_read_ipv6(s, 1) {
            Some((segments, p)) => {
                let sc = spec_read_scope(s, p);
                if sc.1 + 1 == s.len() && 0 <= sc.1 < s.len() && s[sc.1] == 0x5d {
                    Some((segments, sc.0))
                } else {
                    None
                }
            },
            None => None,
        }
    } else {
        None
    }
}

/// The literal IP a host names, if any: a dotted quad, or a bracketed
/// IPv6 literal.
pub open spec fn spec_host_ip(host: Seq<u8>) -> Option<IpLiteral> {
    match spec_parse_ipv4(host) {
        Some((a, b, c, d)) => Some(IpLiteral::V4(a, b, c, d)),
        None => match spec_parse_ipv6_host(host) {
            Some((segments, scope)) => Some(IpLiteral::V6(segments, scope)),
            None => None,
        },
    }
}

// ------------------------------------------------------------------
// executable parsers
// ------------------------------------------------------------------

/// Parse one decimal octet of `buf` at `pos`.
fn parse_octet(buf: &Vec<u8>, pos: usize) -> (r: Option<(u8, usize)>)
    requires
        pos <= buf@.len(),
    ensures
        match r {
            None => spec_parse_octet(buf@, pos as int) is None,
            Some((v, p)) => {
                &&& spec_parse_octet(buf@, pos as int) == Some((v, p as int))
                &&& pos < p <= buf@.len()
            },
        },
{
    proof {
        reveal(spec_parse_octet);
    }
    if pos == buf.len() || !(0x30 <= buf[pos] && buf[pos] <= 0x39) {
        return None;
    }
    if buf[pos] == 0x30 {
        return Some((0, pos + 1));
    }
    let v1 = buf[pos] - 0x30;
    if pos + 1 < buf.len() && 0x30 <= buf[pos + 1] && buf[pos + 1] <= 0x39 {
        let v2 = 10 * v1 + (buf[pos + 1] - 0x30);
        if pos + 2 < buf.len() && 0x30 <= buf[pos + 2] && buf[pos + 2] <= 0x39 {
            let v3 = 10 * (v2 as u16) + ((buf[pos + 2] - 0x30) as u16);
            if v3 <= 255 {
                Some((v3 as u8, pos + 3))
            } else {
                None
            }
        } else {
            Some((v2, pos + 2))
        }
    } else {
        Some((v1, pos + 1))
    }
}

/// Parse a dotted quad of `buf` at `pos`.
fn read_ipv4_at(buf: &Vec<u8>, pos: usize) -> (r: Option<((u8, u8, u8, u8), usize)>)
    requires
        pos <= buf@.len(),
    ensures
        match r {
            None => spec_read_ipv4_at(buf@, pos as int) is None,
            Some((quad, p)) => {
                &&& spec_read_ipv4_at(buf@, pos as int) == Some((quad, p as int))
                &&& pos < p <= buf@.len()
            },
        },
{
    let p1 = match parse_octet(buf, pos) {
        None => {
            return None;
        },
        Some(x) => x,
    };
    if !(p1.1 < buf.len() && buf[p1.1] == 0x2e) {
        return None;
    }
    let p2 = match parse_octet(buf, p1.1 + 1) {
        None => {
            return None;
        },
        Some(x) => x,
    };
    if !(p2.1 < buf.len() && buf[p2.1] == 0x2e) {
        return None;
    }
    let p3 = match parse_octet(buf, p2.1 + 1) {
        None => {
            return None;
        },
        Some(x) => x,
    };
    if !(p3.1 < buf.len() && buf[p3.1] == 0x2e) {
        return None;
    }
    let p4 = match parse_octet(buf, p3.1 + 1) {
        None => {
            return None;
        },
        Some(x) => x,
    };
    Some(((p1.0, p2.0, p3.0, p4.0), p4.1))
}

/// Parse `host` as a dotted-quad IPv4 literal, whole.
pub fn parse_ipv4(host: &Vec<u8>) -> (r: Option<(u8, u8, u8, u8)>)
    ensures
        r == spec_parse_ipv4(host@),
{
    match read_ipv4_at(host, 0) {
        Some((quad, p)) => {
            if p == host.len() {
                Some(quad)
            } else {
                None
            }
        },
        None => None,
    }
}

/// The value of a hexadecimal digit.
fn hex_digit_val(b: u8) -> (r: u8)
    requires
        is_hex_digit(b),
    ensures
        r as int == hex_val(b),
        r < 16,
{
    if 0x30 <= b && b <= 0x39 {
        b - 0x30
    } else if 0x41 <= b && b <= 0x46 {
        b - 0x41 + 10
    } else {
        b - 0x61 + 10
    }
}

/// Whether `b` is a hexadecimal digit.
fn is_hex(b: u8) -> (r: bool)
    ensures
        r == is_hex_digit(b),
{
    (0x30 <= b && b <= 0x39) || (0x41 <= b && b <= 0x46) || (0x61 <= b && b <= 0x66)
}

/// Parse one hexadecimal group of `buf` at `pos`.
fn read_hex_group(buf: &Vec<u8>, pos: usize) -> (r: Option<(u16, usize)>)
    requires
        pos <= buf@.len(),
    ensures
        match r {
            None => spec_read_hex_group(buf@, pos as int) is None,
            Some((g, p)) => {
                &&& spec_read_hex_group(buf@, pos as int) == Some((g, p as int))
                &&& pos < p <= buf@.len()
            },
        },
{
    if pos == buf.len() || !is_hex(buf[pos]) {
        return None;
    }
    let v1 = hex_digit_val(buf[pos]) as u16;
    if pos + 1 < buf.len() && is_hex(buf[pos + 1]) {
        let v2 = 16 * v1 + hex_digit_val(buf[pos + 1]) as u16;
        if pos + 2 < buf.len() && is_hex(buf[pos + 2]) {
            let v3 = 16 * v2 + hex_digit_val(buf[pos + 2]) as u16;
            if pos + 3 < buf.len() && is_hex(buf[pos + 3]) {
                let v4 = 16 * v3 + hex_digit_val(buf[pos + 3]) as u16;
                if pos + 4 < buf.len() && is_hex(buf[pos + 4]) {
                    None
                } else {
                    Some((v4, pos + 4))
                }
            } else {
                Some((v3, pos + 3))
            }
        } else {
            Some((v2, pos + 2))
        }
    } else {
        Some((v1, pos + 1))
    }
}

/// Read up to `limit - i` colon-separated IPv6 groups of `buf` at `pos`,
/// onto `acc`.
fn read_groups(buf: &Vec<u8>, pos: usize, i: usize, limit: usize, acc: Vec<u16>) -> (r: (
    Vec<u16>,
    usize,
    bool,
))
    requires
        pos <= buf@.len(),
        i <= limit,
        limit <= 8,
    ensures
        r.0@ == spec_read_groups(buf@, pos as int, i as int, limit as int, acc@).0,
        r.1 as int == spec_read_groups(buf@, pos as int, i as int, limit as int, acc@).1,
        r.2 == spec_read_groups(buf@, pos as int, i as int, limit as int, acc@).2,
        pos <= r.1 <= buf@.len(),
        acc@.len() <= r.0@.len() <= acc@.len() + (limit - i),
    decreases limit - i,
{
    if i >= limit {
        return (acc, pos, false);
    }
    let sep_ok = i == 0 || (pos < buf.len() && buf[pos] == 0x3a);
    if !sep_ok {
        return (acc, pos, false);
    }
    let q = if i == 0 {
        pos
    } else {
        pos + 1
    };
    if i + 1 < limit {
        match read_ipv4_at(buf, q) {
            Some((quad, p2)) => {
                let ghost pre = acc@;
                let mut acc2 = acc;
                let g1 = 256 * (quad.0 as u16) + (quad.1 as u16);
                let g2 = 256 * (quad.2 as u16) + (quad.3 as u16);
                acc2.push(g1);
                acc2.push(g2);
                assert(acc2@ =~= pre.push(g1).push(g2));
                return (acc2, p2, true);
            },
            None => {},
        }
    }
    match read_hex_group(buf, q) {
        Some((g, p2)) => {
            let mut acc2 = acc;
            acc2.push(g);
            read_groups(buf, p2, i + 1, limit, acc2)
        },
        None => (acc, pos, false),
    }
}

/// Parse an IPv6 address of `buf` at `pos`.
fn read_ipv6(buf: &Vec<u8>, pos: usize) -> (r: Option<(Ipv6Segments, usize)>)
    requires
        pos <= buf@.len(),
    ensures
        match r {
            None => spec_read_ipv6(buf@, pos as int) is None,
            Some((segments, p)) => {
                &&& spec_read_ipv6(buf@, pos as int) == Some((segments, p as int))
                &&& pos <= p <= buf@.len()
            },
        },
{
    let ghost s = buf@;
    let (head, p1, head_v4) = read_groups(buf, pos, 0, 8, Vec::new());
    let ghost head0 = head@;
    if head.len() == 8 {
        let segments = Ipv6Segments {
            s0: head[0],
            s1: head[1],
            s2: head[2],
            s3: head[3],
            s4: head[4],
            s5: head[5],
            s6: head[6],
            s7: head[7],
        };
        assert(segments == spec_groups_to_segments(head0));
        return Some((segments, p1));
    }
    if head_v4 {
        return None;
    }
    if p1 < buf.len() && buf[p1] == 0x3a && p1 + 1 < buf.len() && buf[p1 + 1] == 0x3a {
        let limit = 7 - head.len();
        let (tail, p2, _) = read_groups(buf, p1 + 2, 0, limit, Vec::new());
        let ghost tail0 = tail@;
        let zeros = 8 - head.len() - tail.len();
        let mut all = head;
        let mut k: usize = 0;
        while k < zeros
            invariant
                k <= zeros,
                all@ == head0 + Seq::new(k as nat, |_j: int| 0u16),
            decreases zeros - k,
        {
            all.push(0);
            k = k + 1;
            assert(all@ =~= head0 + Seq::new(k as nat, |_j: int| 0u16));
        }
        let ghost zeros_seq = Seq::new(zeros as nat, |_j: int| 0u16);
        let mut j: usize = 0;
        while j < tail.len()
            invariant
                j <= tail@.len(),
                tail0 == tail@,
                all@ == head0 + zeros_seq + tail0.take(j as int),
            decreases tail@.len() - j,
        {
            all.push(tail[j]);
            j = j + 1;
            assert(all@ =~= head0 + zeros_seq + tail0.take(j as int));
        }
        assert(tail0.take(tail0.len() as int) =~= tail0);
        assert(all@ =~= spec_pad_groups(head0, tail0));
        assert(all@.len() == 8);
        let segments = Ipv6Segments {
            s0: all[0],
            s1: all[1],
            s2: all[2],
            s3: all[3],
            s4: all[4],
            s5: all[5],
            s6: all[6],
            s7: all[7],
        };
        assert(segments == spec_groups_to_segments(spec_pad_groups(head0, tail0)));
        Some((segments, p2))
    } else {
        None
    }
}

/// Read a decimal number of `buf` at `pos` into a 32-bit value.
fn read_dec_u32_from(buf: &Vec<u8>, pos: usize, acc: u32) -> (r: Option<(u32, usize)>)
    requires
        pos <= buf@.len(),
    ensures
        match r {
            None => spec_read_dec_u32_from(buf@, pos as int, acc) is None,
            Some((v, p)) => {
                &&& spec_read_dec_u32_from(buf@, pos as int, acc) == Some((v, p as int))
                &&& pos <= p <= buf@.len()
            },
        },
    decreases buf@.len() - pos,
{
    if pos < buf.len() && 0x30 <= buf[pos] && buf[pos] <= 0x39 {
        let d = (buf[pos] - 0x30) as u64;
        let v = 10 * (acc as u64) + d;
        if v > u32::MAX as u64 {
            None
        } else {
            read_dec_u32_from(buf, pos + 1, v as u32)
        }
    } else {
        Some((acc, pos))
    }
}

/// Read an optional `%scope` of `buf` at `pos`.
fn read_scope(buf: &Vec<u8>, pos: usize) -> (r: (u32, usize))
    requires
        pos <= buf@.len(),
    ensures
        r.0 == spec_read_scope(buf@, pos as int).0,
        r.1 as int == spec_read_scope(buf@, pos as int).1,
        pos <= r.1 <= buf@.len(),
{
    if pos < buf.len() && buf[pos] == 0x25 && pos + 1 < buf.len() && 0x30 <= buf[pos + 1]
        && buf[pos + 1] <= 0x39 {
        match read_dec_u32_from(buf, pos + 1, 0) {
            Some((v, p)) => (v, p),
            None => (0, pos),
        }
    } else {
        (0, pos)
    }
}

/// Parse `host` as a bracketed IPv6 literal, whole.
pub fn parse_ipv6_host(host: &Vec<u8>) -> (r: Option<(Ipv6Segments, u32)>)
    ensures
        r == spec_parse_ipv6_host(host@),
{
    if host.len() == 0 || host[0] != 0x5b {
        return None;
    }
    match read_ipv6(host, 1) {
        Some((segments, p)) => {
            let (scope, p2) = read_scope(host, p);
            if p2 < host.len() && host[p2] == 0x5d && p2 + 1 == host.len() {
                Some((segments, scope))
            } else {
                None
            }
        },
        None => None,
    }
}

/// The literal IP `host` names, if any.
pub fn parse_host_ip(host: &Vec<u8>) -> (r: Option<IpLiteral>)
    ensures
        r == spec_host_ip(host@),
{
    match parse_ipv4(host) {
        Some((a, b, c, d)) => Some(IpLiteral::V4(a, b, c, d)),
        None => match parse_ipv6_host(host) {
            Some((segments, scope)) => Some(IpLiteral::V6(segments, scope)),
            None => None,
        },
    }
}

// ------------------------------------------------------------------
// round trip of the canonical IPv4 text
// ------------------------------------------------------------------

/// An octet's canonical text parses back to the octet, before anything
/// that does not begin with a digit.
proof fn lemma_octet_roundtrip(n: u8, rest: Seq<u8>)
    requires
        rest.len() == 0 || !is_digit(rest[0]),
    ensures
        spec_parse_octet(spec_octet_text(n) + rest, 0) == Some(
            (n, spec_octet_text(n).len() as int),
        ),
{
    reveal(spec_parse_octet);
    let s = spec_octet_text(n) + rest;
    if n < 10 {
        assert(s[0] == 0x30 + n);
        if n == 0 {
        } else {
            assert(s.len() == 1 + rest.len());
            if 1 < s.len() {
                assert(s[1] == rest[0]);
            }
        }
    } else if n < 100 {
        assert(s[0] == 0x30 + n / 10 && s[1] == 0x30 + n % 10);
        assert(s[0] != 0x30);
        if 2 < s.len() {
            assert(s[2] == rest[0]);
        }
        assert(10 * digit_val(s[0]) + digit_val(s[1]) == n);
    } else {
        assert(s[0] == 0x30 + n / 100 && s[1] == 0x30 + (n / 10) % 10 && s[2] == 0x30 + n % 10);
        assert(s[0] != 0x30);
        if 3 < s.len() {
            assert(s[3] == rest[0]);
        }
        assert(10 * (10 * digit_val(s[0]) + digit_val(s[1])) + digit_val(s[2]) == n) by {
            assert(n / 100 >= 1);
            assert(10 * (n as int / 100) + (n as int / 10) % 10 == n as int / 10) by (nonlinear_arith);
            assert(10 * (n as int / 10) + n as int % 10 == n as int);
        };
    }
}

/// Parsing an octet reads at most three bytes from its position: a
/// parse of the suffix starting there carries over to the whole string.
proof fn lemma_parse_octet_shift(suffix: Seq<u8>, at: int, s: Seq<u8>, n: u8, len: int)
    requires
        0 <= at,
        s.len() == at + suffix.len(),
        suffix.len() > 0 ==> s[at] == suffix[0],
        suffix.len() > 1 ==> s[at + 1] == suffix[1],
        suffix.len() > 2 ==> s[at + 2] == suffix[2],
        spec_parse_octet(suffix, 0) == Some((n, len)),
    ensures
        spec_parse_octet(s, at) == Some((n, at + len)),
{
    reveal(spec_parse_octet);
}

/// The canonical dotted-quad text of an address parses back to it.
pub proof fn lemma_ipv4_roundtrip(a: u8, b: u8, c: u8, d: u8)
    ensures
        spec_parse_ipv4(spec_ipv4_text(a, b, c, d)) == Some((a, b, c, d)),
{
    let ta = spec_octet_text(a);
    let tb = spec_octet_text(b);
    let tc = spec_octet_text(c);
    let td = spec_octet_text(d);
    let dot = seq![0x2eu8];
    let q2 = tc + (dot + td);
    let q1 = tb + (dot + q2);
    let s = spec_ipv4_text(a, b, c, d);
    assert(s == ta + (dot + q1));
    let la = ta.len() as int;
    let lb = tb.len() as int;
    let lc = tc.len() as int;
    let ld = td.len() as int;

    lemma_octet_roundtrip(a, dot + q1);
    assert(spec_parse_octet(s, 0) == Some((a, la)));
    assert(s[la] == 0x2e) by {
        assert(s[la] == (dot + q1)[0]);
    };

    lemma_octet_roundtrip(b, dot + q2);
    assert(spec_parse_octet(q1, 0) == Some((b, lb)));
    assert(s[la + 1] == q1[0]) by {
        assert(s[la + 1] == (dot + q1)[1]);
    };
    assert(s[la + 2] == q1[1]) by {
        assert(s[la + 2] == (dot + q1)[2]);
    };
    assert(s[la + 3] == q1[2]) by {
        assert(s[la + 3] == (dot + q1)[3]);
    };
    lemma_parse_octet_shift(q1, la + 1, s, b, lb);
    assert(spec_parse_octet(s, la + 1) == Some((b, la + 1 + lb)));
    assert(s[la + 1 + lb] == 0x2e) by {
        assert(s[la + 1 + lb] == (dot + q1)[1 + lb]);
        assert((dot + q1)[1 + lb] == q1[lb]);
        assert(q1[lb] == (dot + q2)[0]);
    };

    lemma_octet_roundtrip(c, dot + td);
    assert(spec_parse_octet(q2, 0) == Some((c, lc)));
    let pc = la + 1 + lb + 1;
    assert(q2.len() >= 3);
    assert(s[pc] == q2[0]) by {
        assert(s[pc] == (dot + q1)[1 + lb + 1]);
        assert((dot + q1)[1 + lb + 1] == q1[lb + 1]);
        assert(q1[lb + 1] == (dot + q2)[1]);
    };
    assert(s[pc + 1] == q2[1]) by {
        assert(s[pc + 1] == (dot + q1)[1 + lb + 2]);
        assert((dot + q1)[1 + lb + 2] == q1[lb + 2]);
        assert(q1[lb + 2] == (dot + q2)[2]);
    };
    assert(s[pc + 2] == q2[2]) by {
        assert(s[pc + 2] == (dot + q1)[1 + lb + 3]);
        assert((dot + q1)[1 + lb + 3] == q1[lb + 3]);
        assert(q1[lb + 3] == (dot + q2)[3]);
    };
    lemma_parse_octet_shift(q2, pc, s, c, lc);
    assert(spec_parse_octet(s, la + 1 + lb + 1) == Some((c, la + 1 + lb + 1 + lc)));
    assert(s[la + 1 + lb + 1 + lc] == 0x2e) by {
        assert(s[la + 1 + lb + 1 + lc] == q2[lc]);
        assert(q2[lc] == (dot + td)[0]);
    };

    lemma_octet_roundtrip(d, Seq::empty());
    assert(td + Seq::<u8>::empty() =~= td);
    assert(spec_parse_octet(td, 0) == Some((d, ld)));
    let pd = pc + lc + 1;
    assert(s[pd] == td[0]) by {
        assert(s[pd] == q2[lc + 1]);
        assert(q2[lc + 1] == (dot + td)[1]);
    };
    assert(td.len() > 1 ==> s[pd + 1] == td[1]) by {
        assert(td.len() > 1 ==> s[pd + 1] == q2[lc + 2]);
        assert(td.len() > 1 ==> q2[lc + 2] == (dot + td)[2]);
    };
    assert(td.len() > 2 ==> s[pd + 2] == td[2]) by {
        assert(td.len() > 2 ==> s[pd + 2] == q2[lc + 3]);
        assert(td.len() > 2 ==> q2[lc + 3] == (dot + td)[3]);
    };
    lemma_parse_octet_shift(td, pd, s, d, ld);
    assert(spec_parse_octet(s, pd) == Some((d, pd + ld)));
    assert(pd + ld == s.len());
    assert(spec_read_ipv4_at(s, 0) == Some(((a, b, c, d), s.len() as int)));
}

} // verus!
