//! Little-endian integers in byte buffers.
//!
//! Every multi-byte field on the wire, and in the ELF files the host reads, is
//! little-endian. This module defines that layout once, both ways.

use vstd::prelude::*;

verus! {

/// The two bytes of `v`, low byte first.
#[verifier::opaque]
pub open spec fn le16(v: u16) -> Seq<u8> {
    seq![(v % 0x100) as u8, (v / 0x100) as u8]
}

/// The four bytes of `v`, low byte first.
#[verifier::opaque]
pub open spec fn le32(v: u32) -> Seq<u8> {
    seq![
        (v % 0x100) as u8,
        (v / 0x100 % 0x100) as u8,
        (v / 0x1_0000 % 0x100) as u8,
        (v / 0x100_0000) as u8,
    ]
}

/// The eight bytes of `v`, low byte first.
#[verifier::opaque]
pub open spec fn le64(v: u64) -> Seq<u8> {
    le32((v % 0x1_0000_0000) as u32) + le32((v / 0x1_0000_0000) as u32)
}

/// The `u16` whose bytes start at `off`.
#[verifier::opaque]
pub open spec fn u16_at(b: Seq<u8>, off: int) -> u16 {
    (b[off] + 0x100 * b[off + 1]) as u16
}

/// The `u32` whose bytes start at `off`.
#[verifier::opaque]
pub open spec fn u32_at(b: Seq<u8>, off: int) -> u32 {
    (b[off] + 0x100 * b[off + 1] + 0x1_0000 * b[off + 2] + 0x100_0000 * b[off + 3]) as u32
}

/// The `u64` whose bytes start at `off`.
#[verifier::opaque]
pub open spec fn u64_at(b: Seq<u8>, off: int) -> u64 {
    (u32_at(b, off) + 0x1_0000_0000 * u32_at(b, off + 4)) as u64
}

/// A `u16` has two bytes.
pub broadcast proof fn lemma_le16_len(v: u16)
    ensures
        (#[trigger] le16(v)).len() == 2,
{
    reveal(le16);
}

/// A `u32` has four bytes.
pub broadcast proof fn lemma_le32_len(v: u32)
    ensures
        (#[trigger] le32(v)).len() == 4,
{
    reveal(le32);
}

/// A `u64` has eight bytes.
pub broadcast proof fn lemma_le64_len(v: u64)
    ensures
        (#[trigger] le64(v)).len() == 8,
{
    reveal(le64);
    reveal(le32);
}

/// How many bytes each width has.
pub broadcast group group_le_len {
    lemma_le16_len,
    lemma_le32_len,
    lemma_le64_len,
}

/// `s` with the bytes from `at` on replaced by `p`.
pub open spec fn splice(s: Seq<u8>, at: int, p: Seq<u8>) -> Seq<u8> {
    s.take(at) + p + s.skip(at + p.len())
}

/// Writes a `u16` as two bytes, low byte first.
pub fn u16_to_le(v: u16) -> (bytes: [u8; 2])
    ensures
        bytes@ == le16(v),
{
    reveal(le16);
    let bytes: [u8; 2] = [(v % 0x100) as u8, (v / 0x100) as u8];
    assert(bytes@ =~= le16(v));
    bytes
}

/// Writes a `u32` as four bytes, low byte first.
pub fn u32_to_le(v: u32) -> (bytes: [u8; 4])
    ensures
        bytes@ == le32(v),
{
    reveal(le32);
    let bytes: [u8; 4] = [
        (v % 0x100) as u8,
        (v / 0x100 % 0x100) as u8,
        (v / 0x1_0000 % 0x100) as u8,
        (v / 0x100_0000) as u8,
    ];
    assert(bytes@ =~= le32(v));
    bytes
}

/// Writes a `u64` as eight bytes, low byte first.
pub fn u64_to_le(v: u64) -> (bytes: [u8; 8])
    ensures
        bytes@ == le64(v),
{
    reveal(le64);
    reveal(le32);
    let lo: [u8; 4] = u32_to_le((v % 0x1_0000_0000) as u32);
    let hi: [u8; 4] = u32_to_le((v / 0x1_0000_0000) as u32);
    let bytes: [u8; 8] = [lo[0], lo[1], lo[2], lo[3], hi[0], hi[1], hi[2], hi[3]];
    assert(bytes@ =~= le64(v));
    bytes
}

/// Reads the `u16` at `off`.
pub fn rd_u16(b: &[u8], off: usize) -> (v: u16)
    requires
        off + 2 <= b@.len(),
    ensures
        v == u16_at(b@, off as int),
{
    reveal(u16_at);
    b[off] as u16 + 0x100 * (b[off + 1] as u16)
}

/// Reads the `u32` at `off`.
pub fn rd_u32(b: &[u8], off: usize) -> (v: u32)
    requires
        off + 4 <= b@.len(),
    ensures
        v == u32_at(b@, off as int),
{
    reveal(u32_at);
    b[off] as u32 + 0x100 * (b[off + 1] as u32) + 0x1_0000 * (b[off + 2] as u32) + 0x100_0000 * (
    b[off + 3] as u32)
}

/// Reads the `u64` at `off`.
pub fn rd_u64(b: &[u8], off: usize) -> (v: u64)
    requires
        off + 8 <= b@.len(),
    ensures
        v == u64_at(b@, off as int),
{
    reveal(u64_at);
    assert(b@.len() == b.len());
    rd_u32(b, off) as u64 + 0x1_0000_0000 * (rd_u32(b, off + 4) as u64)
}

/// Copies `src` into `out`, starting at `at`.
pub fn put(out: &mut [u8], at: usize, src: &[u8])
    requires
        at + src@.len() <= old(out)@.len(),
    ensures
        final(out)@ == splice(old(out)@, at as int, src@),
{
    let ghost before = out@;
    let mut i: usize = 0;
    assert(out@ =~= splice(before, at as int, src@.take(0)));
    while i < src.len()
        invariant
            i <= src@.len(),
            at + src@.len() <= before.len() == out.len(),
            out@ == splice(before, at as int, src@.take(i as int)),
        decreases src@.len() - i,
    {
        out[at + i] = src[i];
        assert(out@ =~= splice(before, at as int, src@.take(i + 1)));
        i = i + 1;
    }
    assert(src@.take(src@.len() as int) =~= src@);
}

/// Where the bytes of a number stand in a buffer, reading there gives the number.
pub proof fn lemma_u16_placed(s: Seq<u8>, off: int, v: u16)
    requires
        0 <= off,
        off + 2 <= s.len(),
        s.subrange(off, off + 2) == le16(v),
    ensures
        u16_at(s, off) == v,
{
    reveal(le16);
    reveal(u16_at);
    assert(s[off] == s.subrange(off, off + 2)[0]);
    assert(s[off + 1] == s.subrange(off, off + 2)[1]);
}

/// Where the bytes of a number stand in a buffer, reading there gives the number.
pub proof fn lemma_u32_placed(s: Seq<u8>, off: int, v: u32)
    requires
        0 <= off,
        off + 4 <= s.len(),
        s.subrange(off, off + 4) == le32(v),
    ensures
        u32_at(s, off) == v,
{
    reveal(le32);
    reveal(u32_at);
    assert(s[off] == s.subrange(off, off + 4)[0]);
    assert(s[off + 1] == s.subrange(off, off + 4)[1]);
    assert(s[off + 2] == s.subrange(off, off + 4)[2]);
    assert(s[off + 3] == s.subrange(off, off + 4)[3]);
}

/// Where the bytes of a number stand in a buffer, reading there gives the number.
pub proof fn lemma_u64_placed(s: Seq<u8>, off: int, v: u64)
    requires
        0 <= off,
        off + 8 <= s.len(),
        s.subrange(off, off + 8) == le64(v),
    ensures
        u64_at(s, off) == v,
{
    broadcast use group_le_len;

    reveal(le64);
    reveal(u64_at);
    let lo = (v % 0x1_0000_0000) as u32;
    let hi = (v / 0x1_0000_0000) as u32;
    assert(s.subrange(off, off + 4) =~= s.subrange(off, off + 8).subrange(0, 4));
    assert(s.subrange(off + 4, off + 8) =~= s.subrange(off, off + 8).subrange(4, 8));
    assert(le64(v).subrange(0, 4) =~= le32(lo));
    assert(le64(v).subrange(4, 8) =~= le32(hi));
    lemma_u32_placed(s, off, lo);
    lemma_u32_placed(s, off + 4, hi);
}

/// Reading back what was written gives the number again, for every width.
pub proof fn lemma_le_round_trip(a: u16, b: u32, c: u64)
    ensures
        u16_at(le16(a), 0) == a,
        u32_at(le32(b), 0) == b,
        u64_at(le64(c), 0) == c,
{
    broadcast use group_le_len;

    assert(le16(a).subrange(0, 2) =~= le16(a));
    assert(le32(b).subrange(0, 4) =~= le32(b));
    assert(le64(c).subrange(0, 8) =~= le64(c));
    lemma_u16_placed(le16(a), 0, a);
    lemma_u32_placed(le32(b), 0, b);
    lemma_u64_placed(le64(c), 0, c);
}

/// Writing a number that was read gives the bytes it was read from.
pub proof fn lemma_le_written_back(s: Seq<u8>, off: int)
    requires
        0 <= off,
    ensures
        off + 2 <= s.len() ==> le16(u16_at(s, off)) == s.subrange(off, off + 2),
        off + 4 <= s.len() ==> le32(u32_at(s, off)) == s.subrange(off, off + 4),
        off + 8 <= s.len() ==> le64(u64_at(s, off)) == s.subrange(off, off + 8),
{
    if off + 2 <= s.len() {
        reveal(le16);
        reveal(u16_at);
        assert(le16(u16_at(s, off)) =~= s.subrange(off, off + 2));
    }
    if off + 4 <= s.len() {
        lemma_le32_written_back(s, off);
    }
    if off + 8 <= s.len() {
        lemma_le64_written_back(s, off);
    }
}

proof fn lemma_le64_written_back(s: Seq<u8>, off: int)
    requires
        0 <= off,
        off + 8 <= s.len(),
    ensures
        le64(u64_at(s, off)) == s.subrange(off, off + 8),
{
    broadcast use group_le_len;

    reveal(u64_at);
    let v = u64_at(s, off);
    lemma_le64_halves(u32_at(s, off), u32_at(s, off + 4), v);
    assert(le64(v) == s.subrange(off, off + 4) + s.subrange(off + 4, off + 8)) by {
        lemma_le32_written_back(s, off);
        lemma_le32_written_back(s, off + 4);
    }
    assert(s.subrange(off, off + 8) =~= s.subrange(off, off + 4) + s.subrange(off + 4, off + 8));
}

proof fn lemma_le64_halves(lo: u32, hi: u32, v: u64)
    requires
        v == (lo + 0x1_0000_0000 * hi) as u64,
    ensures
        le64(v) == le32(lo) + le32(hi),
{
    reveal(le64);
    assert(v % 0x1_0000_0000 == lo);
    assert(v / 0x1_0000_0000 == hi);
}

proof fn lemma_le32_written_back(s: Seq<u8>, off: int)
    requires
        0 <= off,
        off + 4 <= s.len(),
    ensures
        le32(u32_at(s, off)) == s.subrange(off, off + 4),
{
    reveal(le32);
    reveal(u32_at);
    lemma_le32_digits(s[off], s[off + 1], s[off + 2], s[off + 3]);
    assert(le32(u32_at(s, off)) =~= s.subrange(off, off + 4));
}

proof fn lemma_le32_digits(a: u8, b: u8, c: u8, d: u8)
    ensures
        ({
            let v = a + 0x100 * b + 0x1_0000 * c + 0x100_0000 * d;
            &&& 0 <= v <= u32::MAX
            &&& v % 0x100 == a
            &&& v / 0x100 % 0x100 == b
            &&& v / 0x1_0000 % 0x100 == c
            &&& v / 0x100_0000 == d
        }),
{
    let v = a + 0x100 * b + 0x1_0000 * c + 0x100_0000 * d;
    let v1 = b + 0x100 * c + 0x1_0000 * d;
    let v2 = c + 0x100 * d;
    assert(v == a + 0x100 * v1);
    assert(v / 0x100 == v1);
    assert(v1 == b + 0x100 * v2);
    assert(v1 / 0x100 == v2);
    assert(v / 0x1_0000 == v2);
    assert(v / 0x100_0000 == d);
}

/// The low byte comes first, and each next one counts 256 times as much.
pub proof fn lemma_low_byte_first(b: Seq<u8>, off: int, v: u64)
    ensures
        u16_at(b, off) == b[off] + 0x100 * b[off + 1],
        u32_at(b, off) == b[off] + 0x100 * b[off + 1] + 0x1_0000 * b[off + 2] + 0x100_0000 * b[off
            + 3],
        u64_at(b, off) == u32_at(b, off) + 0x1_0000_0000 * u32_at(b, off + 4),
        le16(v as u16)[0] == v as u16 % 0x100,
        le32(v as u32)[0] == v as u32 % 0x100,
        le32(v as u32)[3] == v as u32 / 0x100_0000,
        le64(v)[0] == v % 0x100,
{
    reveal(le16);
    reveal(le32);
    reveal(le64);
    reveal(u16_at);
    reveal(u32_at);
    reveal(u64_at);
}

/// Writing in place changes the bytes that are written over, and no other.
pub proof fn lemma_splice(s: Seq<u8>, at: int, p: Seq<u8>, i: int)
    requires
        0 <= at,
        at + p.len() <= s.len(),
        0 <= i < s.len(),
    ensures
        splice(s, at, p).len() == s.len(),
        at <= i < at + p.len() ==> splice(s, at, p)[i] == p[i - at],
        i < at || at + p.len() <= i ==> splice(s, at, p)[i] == s[i],
{
}

} // verus!
