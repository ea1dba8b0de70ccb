//! CRC-32/ISO-HDLC (the "zlib"/PKZIP CRC): reflected polynomial `0xEDB88320`,
//! init `0xFFFF_FFFF`, final XOR `0xFFFF_FFFF`.
//!
//! Chosen because it is the CRC everyone already has a reference for, which
//! matters for an interoperable wire format. The model is the bitwise register:
//! a byte is folded in by eight shift-and-reduce rounds. The code folds whole
//! bytes through a 256-entry table and is proved to agree with the model.

use vstd::prelude::*;

use crate::crc_table::TABLE;

verus! {

/// Value the register starts from, and the mask of the final XOR.
pub const CRC_INIT: u32 = 0xFFFF_FFFF;

/// One round of the reflected register: shift right, reduce if a one fell out.
pub open spec fn crc_round(x: u32) -> u32 {
    if x & 1 == 1 {
        (x >> 1) ^ 0xEDB8_8320
    } else {
        x >> 1
    }
}

/// The eight rounds that one input byte takes.
#[verifier::opaque]
pub open spec fn eight_rounds(x: u32) -> u32 {
    crc_round(crc_round(crc_round(crc_round(crc_round(crc_round(crc_round(crc_round(x))))))))
}

/// The register after byte `b` is folded into `state`.
pub open spec fn crc_byte(state: u32, b: u8) -> u32 {
    eight_rounds(state ^ (b as u32))
}

/// The register after all of `bytes`, in order, are folded into `state`.
pub open spec fn crc_fold(state: u32, bytes: Seq<u8>) -> u32
    decreases bytes.len(),
{
    if bytes.len() == 0 {
        state
    } else {
        crc_byte(crc_fold(state, bytes.drop_last()), bytes.last())
    }
}

/// The CRC-32 of `bytes`.
pub open spec fn crc32_of(bytes: Seq<u8>) -> u32 {
    crc_fold(CRC_INIT, bytes) ^ CRC_INIT
}

/// An incremental CRC-32 accumulator.
///
/// Feed bytes with [`update`](Self::update) in any number of chunks, then take
/// the result with [`finalize`](Self::finalize). Splitting a buffer across
/// several `update` calls yields the same value as one call over the
/// concatenation, which is what lets the loader hash an image as it streams in.
#[derive(Debug)]
pub struct Crc32 {
    state: u32,
}

impl Crc32 {
    /// The register.
    pub closed spec fn register(&self) -> u32 {
        self.state
    }

    /// Creates an accumulator primed with the standard initial value.
    pub fn new() -> (crc: Self)
        ensures
            crc.register() == CRC_INIT,
    {
        Crc32 { state: CRC_INIT }
    }

    /// Folds `bytes` into the running CRC.
    pub fn update(&mut self, bytes: &[u8])
        ensures
            final(self).register() == crc_fold(old(self).register(), bytes@),
    {
        let mut state: u32 = self.state;
        let mut i: usize = 0;
        assert(bytes@.take(0) =~= Seq::<u8>::empty());
        while i < bytes.len()
            invariant
                i <= bytes@.len(),
                state == crc_fold(self.state, bytes@.take(i as int)),
            decreases bytes@.len() - i,
        {
            let b: u8 = bytes[i];
            let idx: usize = ((state ^ (b as u32)) & 0xff) as usize;
            proof {
                lemma_table_step(state, b);
                assert(bytes@.take(i + 1).drop_last() =~= bytes@.take(i as int));
            }
            state = (state >> 8) ^ TABLE[idx];
            i = i + 1;
        }
        assert(bytes@.take(bytes@.len() as int) =~= bytes@);
        self.state = state;
    }

    /// Consumes the accumulator and returns the final CRC-32 value.
    pub fn finalize(self) -> (crc: u32)
        ensures
            crc == self.register() ^ CRC_INIT,
    {
        self.state ^ CRC_INIT
    }
}

impl Clone for Crc32 {
    fn clone(&self) -> (copy: Self)
        ensures
            copy == *self,
    {
        Crc32 { state: self.state }
    }
}

impl Default for Crc32 {
    fn default() -> (crc: Self)
        ensures
            crc.register() == CRC_INIT,
    {
        Self::new()
    }
}

/// Computes the CRC-32 of `data` in one call.
pub fn crc32(data: &[u8]) -> (crc: u32)
    ensures
        crc == crc32_of(data@),
{
    let mut c = Crc32::new();
    c.update(data);
    c.finalize()
}

/// Folding through the table is folding bit by bit.
proof fn lemma_table_step(state: u32, b: u8)
    ensures
        ((state ^ (b as u32)) & 0xff) < 256,
        (state >> 8) ^ TABLE@[((state ^ (b as u32)) & 0xff) as int] == crc_byte(state, b),
{
    let x = state ^ (b as u32);
    assert(x & 0xff < 256) by (bit_vector);
    assert(x >> 8 == state >> 8) by (bit_vector)
        requires
            x == state ^ (b as u32),
    ;
    assert(eight_rounds(x) == (x >> 8) ^ eight_rounds(x & 0xff)) by (bit_vector);
    crate::crc_table::lemma_table_entry((x & 0xff) as int);
}

/// Streaming: folding `a` and then `b` is folding their concatenation, so a
/// buffer may be split across any number of `update` calls.
pub proof fn lemma_crc_streaming(state: u32, a: Seq<u8>, b: Seq<u8>)
    ensures
        crc_fold(crc_fold(state, a), b) == crc_fold(state, a + b),
    decreases b.len(),
{
    if b.len() == 0 {
        assert(a + b =~= a);
    } else {
        lemma_crc_streaming(state, a, b.drop_last());
        assert((a + b).drop_last() =~= a + b.drop_last());
        assert((a + b).last() == b.last());
    }
}

/// Distinct registers stay distinct, and so do distinct bytes from one register.
proof fn lemma_crc_byte_injective(s: u32, t: u32, b: u8, c: u8)
    ensures
        s != t ==> crc_byte(s, b) != crc_byte(t, b),
        b != c ==> crc_byte(s, b) != crc_byte(s, c),
{
    let x = s ^ (b as u32);
    let y = t ^ (b as u32);
    let z = s ^ (c as u32);
    assert(s != t ==> x != y) by (bit_vector)
        requires
            x == s ^ (b as u32),
            y == t ^ (b as u32),
    ;
    assert(b != c ==> x != z) by (bit_vector)
        requires
            x == s ^ (b as u32),
            z == s ^ (c as u32),
    ;
    lemma_eight_rounds_injective(x, y);
    lemma_eight_rounds_injective(x, z);
}

proof fn lemma_eight_rounds_injective(x: u32, y: u32)
    ensures
        x != y ==> eight_rounds(x) != eight_rounds(y),
{
    assert(x != y ==> eight_rounds(x) != eight_rounds(y)) by (bit_vector);
}

proof fn lemma_crc_fold_injective(s: u32, t: u32, bytes: Seq<u8>)
    requires
        s != t,
    ensures
        crc_fold(s, bytes) != crc_fold(t, bytes),
    decreases bytes.len(),
{
    if bytes.len() > 0 {
        lemma_crc_fold_injective(s, t, bytes.drop_last());
        lemma_crc_byte_injective(
            crc_fold(s, bytes.drop_last()),
            crc_fold(t, bytes.drop_last()),
            bytes.last(),
            bytes.last(),
        );
    }
}

/// Changing any single byte of a buffer changes its CRC-32.
pub proof fn lemma_crc_detects_changed_byte(bytes: Seq<u8>, i: int, b: u8)
    requires
        0 <= i < bytes.len(),
        b != bytes[i],
    ensures
        crc32_of(bytes.update(i, b)) != crc32_of(bytes),
{
    let pre = bytes.take(i);
    let post = bytes.skip(i + 1);
    let s = crc_fold(CRC_INIT, pre);
    lemma_crc_streaming(CRC_INIT, pre, seq![bytes[i]]);
    lemma_crc_streaming(CRC_INIT, pre, seq![b]);
    lemma_crc_streaming(CRC_INIT, pre + seq![bytes[i]], post);
    lemma_crc_streaming(CRC_INIT, pre + seq![b], post);
    assert(pre + seq![bytes[i]] + post =~= bytes);
    assert(pre + seq![b] + post =~= bytes.update(i, b));
    assert forall|c: u8| #[trigger] crc_fold(s, seq![c]) == crc_byte(s, c) by {
        assert(seq![c].drop_last() =~= Seq::<u8>::empty());
        reveal_with_fuel(crc_fold, 2);
    }
    lemma_crc_byte_injective(s, s, b, bytes[i]);
    lemma_crc_fold_injective(crc_byte(s, b), crc_byte(s, bytes[i]), post);
    let x = crc_fold(CRC_INIT, bytes);
    let y = crc_fold(CRC_INIT, bytes.update(i, b));
    assert(x != y ==> x ^ CRC_INIT != y ^ CRC_INIT) by (bit_vector);
}

/// One more byte: the checksum goes on from the one before, whatever came
/// earlier and however much. No bytes have checksum zero.
pub proof fn lemma_crc_goes_on(a: Seq<u8>, b: Seq<u8>, byte: u8)
    ensures
        crc32_of(Seq::empty()) == 0,
        crc32_of(a + b) == crc_fold(crc32_of(a) ^ 0xFFFF_FFFF, b) ^ 0xFFFF_FFFF,
        crc32_of(a.push(byte)) == eight_rounds((crc32_of(a) ^ 0xFFFF_FFFF) ^ (byte as u32))
            ^ 0xFFFF_FFFF,
{
    let s = crc_fold(CRC_INIT, a);
    assert((s ^ 0xFFFF_FFFF) ^ 0xFFFF_FFFF == s && 0xFFFF_FFFFu32 ^ 0xFFFF_FFFFu32 == 0)
        by (bit_vector);
    lemma_crc_streaming(CRC_INIT, a, b);
    assert(a.push(byte).drop_last() =~= a);
    assert(crc_fold(CRC_INIT, Seq::empty()) == CRC_INIT);
}

} // verus!
