//! Unsigned variable-length integers: the wire form used by the proxy
//! handshake codec for tags, lengths and numeric fields.
//!
//! A value is emitted least-significant seven bits first; every byte but
//! the last has its high bit set. `spec_varint` is the canonical encoding;
//! `spec_decode_varint` accepts any terminating byte sequence whose value
//! fits in 64 bits.

use vstd::prelude::*;

verus! {

/// Canonical variable-length encoding of `n`.
pub open spec fn spec_varint(n: u64) -> Seq<u8>
    decreases n,
{
    if n < 0x80 {
        seq![n as u8]
    } else {
        seq![(n % 0x80 + 0x80) as u8] + spec_varint(n / 0x80)
    }
}

/// Result of decoding the byte sequence `s` from its start: the value and
/// the number of bytes consumed, or `None` when `s` ends inside the
/// encoding or the value overflows 64 bits.
pub open spec fn spec_decode_varint(s: Seq<u8>) -> Option<(u64, nat)>
    decreases s.len(),
{
    if s.len() == 0 {
        None
    } else if s[0] < 0x80 {
        Some((s[0] as u64, 1nat))
    } else {
        match spec_decode_varint(s.skip(1)) {
            None => None,
            Some((m, l)) => {
                let v = (s[0] - 0x80) + 0x80 * (m as int);
                if v <= u64::MAX {
                    Some((v as u64, l + 1))
                } else {
                    None
                }
            },
        }
    }
}

/// `128^k`, the least value whose encoding takes `k + 1` bytes.
spec fn pow128(k: nat) -> int
    decreases k,
{
    if k == 0 {
        1
    } else {
        0x80 * pow128((k - 1) as nat)
    }
}

/// A value whose encoding takes at least `k` bytes is at least `128^(k-1)`.
proof fn lemma_varint_len_bound(n: u64, k: nat)
    requires
        spec_varint(n).len() >= k,
        k >= 2,
    ensures
        n as int >= pow128((k - 1) as nat),
    decreases k,
{
    assert(n >= 0x80);
    assert(spec_varint(n) == seq![(n % 0x80 + 0x80) as u8] + spec_varint(n / 0x80));
    assert(spec_varint(n / 0x80).len() >= k - 1);
    if k == 2 {
        assert(pow128(1) == 0x80 * pow128(0));
    } else {
        lemma_varint_len_bound(n / 0x80, (k - 1) as nat);
        assert(n >= 0x80 * (n / 0x80));
        assert(0x80 * (n as int / 0x80) >= 0x80 * pow128((k - 2) as nat)) by (nonlinear_arith)
            requires
                n as int / 0x80 >= pow128((k - 2) as nat),
        ;
        assert(pow128((k - 1) as nat) == 0x80 * pow128((k - 2) as nat));
    }
}

/// The canonical encoding is short: never more than ten bytes.
pub proof fn lemma_varint_len(n: u64)
    ensures
        1 <= spec_varint(n).len() <= 10,
    decreases n,
{
    if n >= 0x80 {
        lemma_varint_len(n / 0x80);
        if spec_varint(n / 0x80).len() == 10 {
            lemma_varint_len_bound(n / 0x80, 10);
            assert(pow128(9) == 0x8000000000000000) by {
                assert(pow128(0) == 1);
                assert(pow128(1) == 0x80);
                assert(pow128(2) == 0x4000);
                assert(pow128(3) == 0x200000);
                assert(pow128(4) == 0x10000000);
                assert(pow128(5) == 0x800000000);
                assert(pow128(6) == 0x40000000000);
                assert(pow128(7) == 0x2000000000000);
                assert(pow128(8) == 0x100000000000000);
            };
            assert(n >= 0x80 * (n / 0x80));
            assert(0x80 * (n as int / 0x80) >= 0x80 * 0x8000000000000000) by (nonlinear_arith)
                requires
                    n as int / 0x80 >= 0x8000000000000000,
            ;
        }
    }
}

/// Decoding the canonical encoding of `n`, with anything after it, returns
/// `n` and consumes exactly the encoding.
pub proof fn lemma_varint_roundtrip(n: u64, rest: Seq<u8>)
    ensures
        spec_decode_varint(spec_varint(n) + rest) == Some((n, spec_varint(n).len())),
    decreases n,
{
    let s = spec_varint(n) + rest;
    if n < 0x80 {
        assert(s[0] == n as u8);
    } else {
        lemma_varint_roundtrip(n / 0x80, rest);
        assert(s.skip(1) =~= spec_varint(n / 0x80) + rest);
        assert(s[0] == (n % 0x80 + 0x80) as u8);
        assert((s[0] - 0x80) + 0x80 * (n / 0x80) == n as int);
    }
}

/// Append the canonical encoding of `n` to `out`.
pub fn encode_varint(n: u64, out: &mut Vec<u8>)
    ensures
        final(out)@ == old(out)@ + spec_varint(n),
    decreases n,
{
    if n < 0x80 {
        out.push(n as u8);
        assert(final(out)@ =~= old(out)@ + spec_varint(n));
    } else {
        out.push((n % 0x80 + 0x80) as u8);
        encode_varint(n / 0x80, out);
        assert(final(out)@ =~= old(out)@ + spec_varint(n));
    }
}

/// Number of bytes of the canonical encoding of `n`.
pub fn varint_len(n: u64) -> (r: usize)
    ensures
        r == spec_varint(n).len(),
    decreases n,
{
    proof {
        lemma_varint_len(n);
    }
    if n < 0x80 {
        1
    } else {
        1 + varint_len(n / 0x80)
    }
}

/// Decode a variable-length integer from `buf` at `pos`; on success the
/// value and the position just past it.
pub fn decode_varint(buf: &Vec<u8>, pos: usize) -> (r: Option<(u64, usize)>)
    requires
        pos <= buf@.len(),
    ensures
        match r {
            None => spec_decode_varint(buf@.skip(pos as int)) is None,
            Some((n, end)) => {
                &&& pos < end <= buf@.len()
                &&& spec_decode_varint(buf@.skip(pos as int)) == Some((n, (end - pos) as nat))
            },
        },
    decreases buf@.len() - pos,
{
    if pos == buf.len() {
        return None;
    }
    let b = buf[pos];
    assert(buf@.skip(pos as int)[0] == b);
    if b < 0x80 {
        Some((b as u64, pos + 1))
    } else {
        assert(buf@.skip(pos as int).skip(1) =~= buf@.skip(pos as int + 1));
        match decode_varint(buf, pos + 1) {
            None => None,
            Some((m, end)) => {
                let c = (b - 0x80) as u64;
                if m <= (u64::MAX - c) / 0x80 {
                    proof {
                        assert(0x80 * (m as int) + c <= u64::MAX) by (nonlinear_arith)
                            requires
                                m <= (u64::MAX - c) / 0x80,
                                0 <= c < 0x80,
                                0 <= m,
                        ;
                    }
                    Some((c + 0x80 * m, end))
                } else {
                    proof {
                        assert(0x80 * (m as int) + c > u64::MAX) by (nonlinear_arith)
                            requires
                                m > (u64::MAX - c) / 0x80,
                                0 <= c < 0x80,
                        ;
                    }
                    None
                }
            },
        }
    }
}

} // verus!
