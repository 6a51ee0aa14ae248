//! Fixed-width integers as bytes: big-endian for the network and save formats,
//! little-endian for the bundled canvas file.

use vstd::prelude::*;

verus! {

/// The `u16` whose big-endian bytes are `b0 b1`.
#[verifier::opaque]
pub open spec fn u16_from_be(b0: u8, b1: u8) -> u16 {
    ((b0 as u16) << 8u16) | (b1 as u16)
}

/// The `u32` whose big-endian bytes are `b0 b1 b2 b3`.
#[verifier::opaque]
pub open spec fn u32_from_be(b0: u8, b1: u8, b2: u8, b3: u8) -> u32 {
    ((b0 as u32) << 24u32) | ((b1 as u32) << 16u32) | ((b2 as u32) << 8u32) | (b3 as u32)
}

/// The `u64` whose big-endian bytes are `hi` followed by `lo`, each a `u32`.
#[verifier::opaque]
pub open spec fn u64_from_halves(hi: u32, lo: u32) -> u64 {
    ((hi as u64) << 32u64) | (lo as u64)
}

/// The big-endian `u16` at the front of `b`.
pub open spec fn be_u16(b: Seq<u8>) -> u16 {
    u16_from_be(b[0], b[1])
}

/// The big-endian `u32` at the front of `b`.
pub open spec fn be_u32(b: Seq<u8>) -> u32 {
    u32_from_be(b[0], b[1], b[2], b[3])
}

/// The big-endian `u64` at the front of `b`.
pub open spec fn be_u64(b: Seq<u8>) -> u64 {
    u64_from_halves(u32_from_be(b[0], b[1], b[2], b[3]), u32_from_be(b[4], b[5], b[6], b[7]))
}

/// The little-endian `u16` at the front of `b`.
pub open spec fn le_u16(b: Seq<u8>) -> u16 {
    u16_from_be(b[1], b[0])
}

/// The little-endian `u32` at the front of `b`.
pub open spec fn le_u32(b: Seq<u8>) -> u32 {
    u32_from_be(b[3], b[2], b[1], b[0])
}

/// The little-endian `u64` at the front of `b`.
pub open spec fn le_u64(b: Seq<u8>) -> u64 {
    u64_from_halves(u32_from_be(b[7], b[6], b[5], b[4]), u32_from_be(b[3], b[2], b[1], b[0]))
}

/// The big-endian bytes of a `u16`.
pub open spec fn u16_be_bytes(v: u16) -> Seq<u8> {
    seq![(v >> 8u16) as u8, v as u8]
}

/// The big-endian bytes of a `u32`.
pub open spec fn u32_be_bytes(v: u32) -> Seq<u8> {
    seq![(v >> 24u32) as u8, (v >> 16u32) as u8, (v >> 8u32) as u8, v as u8]
}

/// The big-endian bytes of a `u64`.
pub open spec fn u64_be_bytes(v: u64) -> Seq<u8> {
    u32_be_bytes((v >> 32u64) as u32) + u32_be_bytes(v as u32)
}

proof fn lemma_u16_raw(v: u16)
    by (bit_vector)
    ensures
        ((((v >> 8u16) as u8) as u16) << 8u16) | ((v as u8) as u16) == v,
{
}

proof fn lemma_u16_bits(v: u16)
    ensures
        u16_from_be((v >> 8u16) as u8, v as u8) == v,
{
    reveal(u16_from_be);
    lemma_u16_raw(v);
}

proof fn lemma_u32_raw(v: u32)
    by (bit_vector)
    ensures
        ((((v >> 24u32) as u8) as u32) << 24u32) | ((((v >> 16u32) as u8) as u32) << 16u32) | ((((
        v >> 8u32) as u8) as u32) << 8u32) | ((v as u8) as u32) == v,
{
}

proof fn lemma_u32_bits(v: u32)
    ensures
        u32_from_be((v >> 24u32) as u8, (v >> 16u32) as u8, (v >> 8u32) as u8, v as u8) == v,
{
    reveal(u32_from_be);
    lemma_u32_raw(v);
}

proof fn lemma_u64_raw(v: u64)
    by (bit_vector)
    ensures
        ((((v >> 32u64) as u32) as u64) << 32u64) | ((v as u32) as u64) == v,
{
}

proof fn lemma_u64_bits(v: u64)
    ensures
        u64_from_halves((v >> 32u64) as u32, v as u32) == v,
{
    reveal(u64_from_halves);
    lemma_u64_raw(v);
}

/// Decoding the big-endian bytes of a `u16`, whatever follows them, gives it back.
pub proof fn lemma_be_u16_roundtrip(v: u16, rest: Seq<u8>)
    ensures
        (u16_be_bytes(v) + rest).len() == 2 + rest.len(),
        be_u16(u16_be_bytes(v) + rest) == v,
        (u16_be_bytes(v) + rest).skip(2) == rest,
{
    lemma_u16_bits(v);
    assert((u16_be_bytes(v) + rest).skip(2) =~= rest);
}

/// Decoding the big-endian bytes of a `u32`, whatever follows them, gives it back.
pub proof fn lemma_be_u32_roundtrip(v: u32, rest: Seq<u8>)
    ensures
        (u32_be_bytes(v) + rest).len() == 4 + rest.len(),
        be_u32(u32_be_bytes(v) + rest) == v,
        (u32_be_bytes(v) + rest).skip(4) == rest,
{
    lemma_u32_bits(v);
    assert((u32_be_bytes(v) + rest).skip(4) =~= rest);
}

/// Decoding the big-endian bytes of a `u64`, whatever follows them, gives it back.
pub proof fn lemma_be_u64_roundtrip(v: u64, rest: Seq<u8>)
    ensures
        (u64_be_bytes(v) + rest).len() == 8 + rest.len(),
        be_u64(u64_be_bytes(v) + rest) == v,
        (u64_be_bytes(v) + rest).skip(8) == rest,
{
    let hi = (v >> 32u64) as u32;
    let lo = v as u32;
    lemma_u32_bits(hi);
    lemma_u32_bits(lo);
    lemma_u64_bits(v);
    let s = u64_be_bytes(v) + rest;
    assert(s[0] == u32_be_bytes(hi)[0]);
    assert(s[4] == u32_be_bytes(lo)[0]);
    assert(s.skip(8) =~= rest);
}

/// The little-endian bytes of a `u32`.
pub open spec fn u32_le_bytes(v: u32) -> Seq<u8> {
    seq![v as u8, (v >> 8u32) as u8, (v >> 16u32) as u8, (v >> 24u32) as u8]
}

/// Decoding the little-endian bytes of a `u32`, whatever follows them, gives
/// it back.
pub proof fn lemma_le_u32_roundtrip(v: u32, rest: Seq<u8>)
    ensures
        (u32_le_bytes(v) + rest).len() == 4 + rest.len(),
        le_u32(u32_le_bytes(v) + rest) == v,
        (u32_le_bytes(v) + rest).skip(4) == rest,
{
    lemma_u32_bits(v);
    assert((u32_le_bytes(v) + rest).skip(4) =~= rest);
}

/// Skipping `j` then `k` items skips `j + k`.
pub proof fn lemma_skip_skip<T>(b: Seq<T>, j: int, k: int)
    requires
        0 <= j,
        0 <= k,
        j + k <= b.len(),
    ensures
        b.skip(j).skip(k) == b.skip(j + k),
{
    assert(b.skip(j).skip(k) =~= b.skip(j + k));
}

/// Skipping into the first part of a concatenation.
pub proof fn lemma_skip_concat<T>(a: Seq<T>, b: Seq<T>, k: int)
    requires
        0 <= k <= a.len(),
    ensures
        (a + b).skip(k) == a.skip(k) + b,
        (a + b).skip(a.len() as int) == b,
{
    assert((a + b).skip(k) =~= a.skip(k) + b);
    assert((a + b).skip(a.len() as int) =~= b);
}

} // verus!
