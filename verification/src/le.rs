//! Little-endian encoding of fixed-width unsigned integers.
//!
//! Every multi-byte field of a frame is little-endian: byte `i` of an
//! encoded integer `x` is `x / 256^i % 256`.

use vstd::prelude::*;

verus! {

/// The two bytes of `x`, least significant first.
pub open spec fn u16_to_le(x: u16) -> Seq<u8> {
    seq![(x % 256) as u8, (x / 256) as u8]
}

/// The four bytes of `x`, least significant first.
pub open spec fn u32_to_le(x: u32) -> Seq<u8> {
    seq![
        (x % 256) as u8,
        (x / 0x100 % 256) as u8,
        (x / 0x1_0000 % 256) as u8,
        (x / 0x100_0000) as u8,
    ]
}

/// The eight bytes of `x`, least significant first.
pub open spec fn u64_to_le(x: u64) -> Seq<u8> {
    seq![
        (x % 256) as u8,
        (x / 0x100 % 256) as u8,
        (x / 0x1_0000 % 256) as u8,
        (x / 0x100_0000 % 256) as u8,
        (x / 0x1_0000_0000 % 256) as u8,
        (x / 0x100_0000_0000 % 256) as u8,
        (x / 0x1_0000_0000_0000 % 256) as u8,
        (x / 0x100_0000_0000_0000) as u8,
    ]
}

/// The integer that the two bytes of `s` from index `at` on encode.
pub open spec fn u16_from_le(s: Seq<u8>, at: int) -> u16
    recommends
        0 <= at,
        at + 2 <= s.len(),
{
    (s[at] + 0x100 * s[at + 1]) as u16
}

/// The integer that the four bytes of `s` from index `at` on encode.
pub open spec fn u32_from_le(s: Seq<u8>, at: int) -> u32
    recommends
        0 <= at,
        at + 4 <= s.len(),
{
    (s[at] + 0x100 * s[at + 1] + 0x1_0000 * s[at + 2] + 0x100_0000 * s[at + 3]) as u32
}

/// The integer that the eight bytes of `s` from index `at` on encode.
pub open spec fn u64_from_le(s: Seq<u8>, at: int) -> u64
    recommends
        0 <= at,
        at + 8 <= s.len(),
{
    (s[at] + 0x100 * s[at + 1] + 0x1_0000 * s[at + 2] + 0x100_0000 * s[at + 3] + 0x1_0000_0000
        * s[at + 4] + 0x100_0000_0000 * s[at + 5] + 0x1_0000_0000_0000 * s[at + 6]
        + 0x100_0000_0000_0000 * s[at + 7]) as u64
}

/// Whether every byte of `s` is zero.
pub open spec fn all_zero(s: Seq<u8>) -> bool {
    forall|i: int| 0 <= i < s.len() ==> s[i] == 0
}

/// Decoding undoes encoding of a `u16`.
pub proof fn lemma_u16_roundtrip(x: u16)
    ensures
        u16_to_le(x).len() == 2,
        u16_from_le(u16_to_le(x), 0) == x,
{
}

/// Encoding undoes decoding of two bytes.
pub proof fn lemma_u16_bytes_roundtrip(s: Seq<u8>, at: int)
    requires
        0 <= at,
        at + 2 <= s.len(),
    ensures
        u16_to_le(u16_from_le(s, at)) == s.subrange(at, at + 2),
{
    assert(u16_to_le(u16_from_le(s, at)) =~= s.subrange(at, at + 2));
}

/// Decoding undoes encoding of a `u32`.
pub proof fn lemma_u32_roundtrip(x: u32)
    ensures
        u32_to_le(x).len() == 4,
        u32_from_le(u32_to_le(x), 0) == x,
{
    let q1 = x / 0x100;
    let q2 = q1 / 0x100;
    let q3 = q2 / 0x100;
    assert(x / 0x1_0000 == x / 0x100 / 0x100) by (bit_vector);
    assert(x / 0x100_0000 == x / 0x100 / 0x100 / 0x100) by (bit_vector);
    let s = u32_to_le(x);
    assert(s[0] == x % 256);
    assert(s[1] == q1 % 256);
    assert(s[2] == q2 % 256);
    assert(s[3] == q3);
    assert(q2 == s[2] + 0x100 * s[3]);
    assert(q1 == s[1] + 0x100 * q2);
    assert(x == s[0] + 0x100 * q1);
}

/// Encoding undoes decoding of four bytes.
pub proof fn lemma_u32_bytes_roundtrip(s: Seq<u8>, at: int)
    requires
        0 <= at,
        at + 4 <= s.len(),
    ensures
        u32_to_le(u32_from_le(s, at)) == s.subrange(at, at + 4),
{
    let x = u32_from_le(s, at);
    let r3 = s[at + 3] as int;
    let r2 = s[at + 2] + 0x100 * r3;
    let r1 = s[at + 1] + 0x100 * r2;
    assert(x == s[at] + 0x100 * r1);
    assert(x / 0x1_0000 == x / 0x100 / 0x100) by (bit_vector);
    assert(x / 0x100_0000 == x / 0x100 / 0x100 / 0x100) by (bit_vector);
    assert(x / 0x100 == r1 && x % 256 == s[at]);
    assert(r1 / 0x100 == r2 && r1 % 256 == s[at + 1]);
    assert(r2 / 0x100 == r3 && r2 % 256 == s[at + 2]);
    assert(u32_to_le(x) =~= s.subrange(at, at + 4));
}

/// Decoding undoes encoding of a `u64`.
pub proof fn lemma_u64_roundtrip(x: u64)
    ensures
        u64_to_le(x).len() == 8,
        u64_from_le(u64_to_le(x), 0) == x,
{
    let q1 = x / 0x100;
    let q2 = q1 / 0x100;
    let q3 = q2 / 0x100;
    let q4 = q3 / 0x100;
    let q5 = q4 / 0x100;
    let q6 = q5 / 0x100;
    let q7 = q6 / 0x100;
    assert(x / 0x1_0000 == x / 0x100 / 0x100) by (bit_vector);
    assert(x / 0x100_0000 == x / 0x100 / 0x100 / 0x100) by (bit_vector);
    assert(x / 0x1_0000_0000 == x / 0x100 / 0x100 / 0x100 / 0x100) by (bit_vector);
    assert(x / 0x100_0000_0000 == x / 0x100 / 0x100 / 0x100 / 0x100 / 0x100) by (bit_vector);
    assert(x / 0x1_0000_0000_0000 == x / 0x100 / 0x100 / 0x100 / 0x100 / 0x100 / 0x100)
        by (bit_vector);
    assert(x / 0x100_0000_0000_0000 == x / 0x100 / 0x100 / 0x100 / 0x100 / 0x100 / 0x100 / 0x100)
        by (bit_vector);
    let s = u64_to_le(x);
    assert(s[0] == x % 256);
    assert(s[1] == q1 % 256);
    assert(s[2] == q2 % 256);
    assert(s[3] == q3 % 256);
    assert(s[4] == q4 % 256);
    assert(s[5] == q5 % 256);
    assert(s[6] == q6 % 256);
    assert(s[7] == q7);
    assert(q6 == s[6] + 0x100 * s[7]);
    assert(q5 == s[5] + 0x100 * q6);
    assert(q4 == s[4] + 0x100 * q5);
    assert(q3 == s[3] + 0x100 * q4);
    assert(q2 == s[2] + 0x100 * q3);
    assert(q1 == s[1] + 0x100 * q2);
    assert(x == s[0] + 0x100 * q1);
}

/// Encoding undoes decoding of eight bytes.
pub proof fn lemma_u64_bytes_roundtrip(s: Seq<u8>, at: int)
    requires
        0 <= at,
        at + 8 <= s.len(),
    ensures
        u64_to_le(u64_from_le(s, at)) == s.subrange(at, at + 8),
{
    let x = u64_from_le(s, at);
    let r7 = s[at + 7] as int;
    let r6 = s[at + 6] + 0x100 * r7;
    let r5 = s[at + 5] + 0x100 * r6;
    let r4 = s[at + 4] + 0x100 * r5;
    let r3 = s[at + 3] + 0x100 * r4;
    let r2 = s[at + 2] + 0x100 * r3;
    let r1 = s[at + 1] + 0x100 * r2;
    assert(x == s[at] + 0x100 * r1);
    assert(x / 0x1_0000 == x / 0x100 / 0x100) by (bit_vector);
    assert(x / 0x100_0000 == x / 0x100 / 0x100 / 0x100) by (bit_vector);
    assert(x / 0x1_0000_0000 == x / 0x100 / 0x100 / 0x100 / 0x100) by (bit_vector);
    assert(x / 0x100_0000_0000 == x / 0x100 / 0x100 / 0x100 / 0x100 / 0x100) by (bit_vector);
    assert(x / 0x1_0000_0000_0000 == x / 0x100 / 0x100 / 0x100 / 0x100 / 0x100 / 0x100)
        by (bit_vector);
    assert(x / 0x100_0000_0000_0000 == x / 0x100 / 0x100 / 0x100 / 0x100 / 0x100 / 0x100 / 0x100)
        by (bit_vector);
    assert(x / 0x100 == r1 && x % 256 == s[at]);
    assert(r1 / 0x100 == r2 && r1 % 256 == s[at + 1]);
    assert(r2 / 0x100 == r3 && r2 % 256 == s[at + 2]);
    assert(r3 / 0x100 == r4 && r3 % 256 == s[at + 3]);
    assert(r4 / 0x100 == r5 && r4 % 256 == s[at + 4]);
    assert(r5 / 0x100 == r6 && r5 % 256 == s[at + 5]);
    assert(r6 / 0x100 == r7 && r6 % 256 == s[at + 6]);
    assert(u64_to_le(x) =~= s.subrange(at, at + 8));
}

/// Appends the little-endian encoding of `x` to `out`.
pub fn put_u16(out: &mut Vec<u8>, x: u16)
    ensures
        final(out)@ == old(out)@ + u16_to_le(x),
{
    out.push((x % 256) as u8);
    out.push((x / 256) as u8);
    assert(out@ =~= old(out)@ + u16_to_le(x));
}

/// Appends the little-endian encoding of `x` to `out`.
pub fn put_u32(out: &mut Vec<u8>, x: u32)
    ensures
        final(out)@ == old(out)@ + u32_to_le(x),
{
    out.push((x % 256) as u8);
    out.push((x / 0x100 % 256) as u8);
    out.push((x / 0x1_0000 % 256) as u8);
    out.push((x / 0x100_0000) as u8);
    assert(out@ =~= old(out)@ + u32_to_le(x));
}

/// Appends the little-endian encoding of `x` to `out`.
pub fn put_u64(out: &mut Vec<u8>, x: u64)
    ensures
        final(out)@ == old(out)@ + u64_to_le(x),
{
    out.push((x % 256) as u8);
    out.push((x / 0x100 % 256) as u8);
    out.push((x / 0x1_0000 % 256) as u8);
    out.push((x / 0x100_0000 % 256) as u8);
    out.push((x / 0x1_0000_0000 % 256) as u8);
    out.push((x / 0x100_0000_0000 % 256) as u8);
    out.push((x / 0x1_0000_0000_0000 % 256) as u8);
    out.push((x / 0x100_0000_0000_0000) as u8);
    assert(out@ =~= old(out)@ + u64_to_le(x));
}

/// Reads the little-endian `u16` at index `at` of `bytes`.
pub fn get_u16(bytes: &[u8], at: usize) -> (x: u16)
    requires
        at + 2 <= bytes@.len(),
    ensures
        x == u16_from_le(bytes@, at as int),
{
    bytes[at] as u16 + 0x100 * (bytes[at + 1] as u16)
}

/// Reads the little-endian `u32` at index `at` of `bytes`.
pub fn get_u32(bytes: &[u8], at: usize) -> (x: u32)
    requires
        at + 4 <= bytes@.len(),
    ensures
        x == u32_from_le(bytes@, at as int),
{
    bytes[at] as u32 + 0x100 * (bytes[at + 1] as u32) + 0x1_0000 * (bytes[at + 2] as u32)
        + 0x100_0000 * (bytes[at + 3] as u32)
}

/// Reads the little-endian `u64` at index `at` of `bytes`.
pub fn get_u64(bytes: &[u8], at: usize) -> (x: u64)
    requires
        at + 8 <= bytes@.len(),
    ensures
        x == u64_from_le(bytes@, at as int),
{
    bytes[at] as u64 + 0x100 * (bytes[at + 1] as u64) + 0x1_0000 * (bytes[at + 2] as u64)
        + 0x100_0000 * (bytes[at + 3] as u64) + 0x1_0000_0000 * (bytes[at + 4] as u64)
        + 0x100_0000_0000 * (bytes[at + 5] as u64) + 0x1_0000_0000_0000 * (bytes[at + 6] as u64)
        + 0x100_0000_0000_0000 * (bytes[at + 7] as u64)
}

} // verus!
