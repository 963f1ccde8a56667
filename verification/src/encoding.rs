//! Little-endian encodings of the fixed-width integers of the wire format.
//!
//! Every integer is written field by field, least significant byte first, so
//! that the streams mean the same on every machine.

use vstd::prelude::*;

verus! {

/// The four bytes of `x`, least significant first.
#[verifier::opaque]
pub open spec fn u32_le_bytes(x: u32) -> Seq<u8> {
    seq![
        (x % 256) as u8,
        (x / 256 % 256) as u8,
        (x / 256 / 256 % 256) as u8,
        (x / 256 / 256 / 256) as u8,
    ]
}

/// The integer whose little-endian bytes are the first four of `s`.
#[verifier::opaque]
pub open spec fn u32_from_le_bytes(s: Seq<u8>) -> u32
    recommends
        s.len() == 4,
{
    (s[0] + 256 * (s[1] + 256 * (s[2] + 256 * s[3]))) as u32
}

/// The eight bytes of `x`, least significant first.
#[verifier::opaque]
pub open spec fn u64_le_bytes(x: u64) -> Seq<u8> {
    u32_le_bytes((x % 0x1_0000_0000) as u32) + u32_le_bytes((x / 0x1_0000_0000) as u32)
}

/// The integer whose little-endian bytes are the first eight of `s`.
#[verifier::opaque]
pub open spec fn u64_from_le_bytes(s: Seq<u8>) -> u64
    recommends
        s.len() == 8,
{
    (u32_from_le_bytes(s.subrange(0, 4)) + 0x1_0000_0000 * u32_from_le_bytes(
        s.subrange(4, 8),
    )) as u64
}

/// Decoding the bytes of a 32-bit integer gives the integer back.
pub proof fn lemma_u32_le_round_trip(x: u32)
    ensures
        u32_le_bytes(x).len() == 4,
        u32_from_le_bytes(u32_le_bytes(x)) == x,
{
    reveal(u32_le_bytes);
    reveal(u32_from_le_bytes);
    let q1 = x / 256;
    let q2 = q1 / 256;
    let q3 = q2 / 256;
    assert(x == 256 * q1 + x % 256);
    assert(q1 == 256 * q2 + q1 % 256);
    assert(q2 == 256 * q3 + q2 % 256);
    assert(q3 < 256);
    let s = u32_le_bytes(x);
    assert(s[0] == x % 256 && s[1] == q1 % 256 && s[2] == q2 % 256 && s[3] == q3);
}

/// Encoding the integer that four bytes stand for gives the bytes back.
pub proof fn lemma_u32_le_bytes_round_trip(s: Seq<u8>)
    requires
        s.len() == 4,
    ensures
        u32_le_bytes(u32_from_le_bytes(s)) == s,
{
    reveal(u32_le_bytes);
    reveal(u32_from_le_bytes);
    let high = s[2] + 256 * s[3];
    let mid = s[1] + 256 * high;
    let x = s[0] + 256 * mid;
    assert(x % 256 == s[0] && x / 256 == mid);
    assert(mid % 256 == s[1] && mid / 256 == high);
    assert(high % 256 == s[2] && high / 256 == s[3]);
    assert(x <= u32::MAX);
    assert(u32_le_bytes(u32_from_le_bytes(s)) =~= s);
}

/// Decoding the bytes of a 64-bit integer gives the integer back.
pub proof fn lemma_u64_le_round_trip(x: u64)
    ensures
        u64_le_bytes(x).len() == 8,
        u64_from_le_bytes(u64_le_bytes(x)) == x,
{
    reveal(u64_le_bytes);
    reveal(u64_from_le_bytes);
    let lo = (x % 0x1_0000_0000) as u32;
    let hi = (x / 0x1_0000_0000) as u32;
    lemma_u32_le_round_trip(lo);
    lemma_u32_le_round_trip(hi);
    assert(u64_le_bytes(x).subrange(0, 4) =~= u32_le_bytes(lo));
    assert(u64_le_bytes(x).subrange(4, 8) =~= u32_le_bytes(hi));
}

proof fn lemma_u64_halves(lo: u32, hi: u32)
    ensures
        lo + 0x1_0000_0000 * hi <= u64::MAX,
        (lo + 0x1_0000_0000 * hi) % 0x1_0000_0000 == lo,
        (lo + 0x1_0000_0000 * hi) / 0x1_0000_0000 == hi,
{
}

/// Encoding the integer that eight bytes stand for gives the bytes back.
pub proof fn lemma_u64_le_bytes_round_trip(s: Seq<u8>)
    requires
        s.len() == 8,
    ensures
        u64_le_bytes(u64_from_le_bytes(s)) == s,
{
    reveal(u64_le_bytes);
    reveal(u64_from_le_bytes);
    let lo = u32_from_le_bytes(s.subrange(0, 4));
    let hi = u32_from_le_bytes(s.subrange(4, 8));
    let x = u64_from_le_bytes(s);
    assert((x % 0x1_0000_0000) as u32 == lo && (x / 0x1_0000_0000) as u32 == hi) by {
        lemma_u64_halves(lo, hi);
    }
    assert(u32_le_bytes(lo) == s.subrange(0, 4)) by {
        lemma_u32_le_bytes_round_trip(s.subrange(0, 4));
    }
    assert(u32_le_bytes(hi) == s.subrange(4, 8)) by {
        lemma_u32_le_bytes_round_trip(s.subrange(4, 8));
    }
    assert(s.subrange(0, 4) + s.subrange(4, 8) =~= s);
}

/// Encodes a 32-bit integer.
pub fn u32_to_le(x: u32) -> (r: [u8; 4])
    ensures
        r@ == u32_le_bytes(x),
{
    proof {
        reveal(u32_le_bytes);
    }
    let r: [u8; 4] = [
        (x % 256) as u8,
        (x / 256 % 256) as u8,
        (x / 256 / 256 % 256) as u8,
        (x / 256 / 256 / 256) as u8,
    ];
    assert(r@ =~= u32_le_bytes(x));
    r
}

/// Decodes the 32-bit integer that starts at `at`.
pub fn u32_from_le(s: &[u8], at: usize) -> (r: u32)
    requires
        at + 4 <= s.len(),
    ensures
        r == u32_from_le_bytes(s@.subrange(at as int, at + 4)),
{
    proof {
        reveal(u32_from_le_bytes);
    }
    let b0: u32 = s[at] as u32;
    let b1: u32 = s[at + 1] as u32;
    let b2: u32 = s[at + 2] as u32;
    let b3: u32 = s[at + 3] as u32;
    b0 + 256 * (b1 + 256 * (b2 + 256 * b3))
}

/// Encodes a 64-bit integer.
pub fn u64_to_le(x: u64) -> (r: [u8; 8])
    ensures
        r@ == u64_le_bytes(x),
{
    proof {
        reveal(u64_le_bytes);
        reveal(u32_le_bytes);
    }
    let lo = u32_to_le((x % 0x1_0000_0000) as u32);
    let hi = u32_to_le((x / 0x1_0000_0000) as u32);
    let r: [u8; 8] = [lo[0], lo[1], lo[2], lo[3], hi[0], hi[1], hi[2], hi[3]];
    assert(r@ =~= u64_le_bytes(x));
    r
}

/// Decodes the 64-bit integer that starts at `at`.
pub fn u64_from_le(s: &[u8], at: usize) -> (r: u64)
    requires
        at + 8 <= s.len(),
    ensures
        r == u64_from_le_bytes(s@.subrange(at as int, at + 8)),
{
    proof {
        reveal(u64_from_le_bytes);
    }
    let lo: u64 = u32_from_le(s, at) as u64;
    let hi: u64 = u32_from_le(s, at + 4) as u64;
    proof {
        let w = s@.subrange(at as int, at + 8);
        assert(w.subrange(0, 4) =~= s@.subrange(at as int, at + 4));
        assert(w.subrange(4, 8) =~= s@.subrange(at + 4, at + 8));
    }
    lo + 0x1_0000_0000 * hi
}

} // verus!
