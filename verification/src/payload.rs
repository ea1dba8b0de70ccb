//! What the example payload checks.
//!
//! A payload's zero-initialized data is not part of the transferred image. It
//! reads as zero at entry only if it was cleared before.

use vstd::prelude::*;

verus! {

/// How many of `bytes` are not zero.
pub open spec fn nonzero_count(bytes: Seq<u8>) -> nat
    decreases bytes.len(),
{
    if bytes.len() == 0 {
        0
    } else {
        nonzero_count(bytes.drop_last()) + if bytes.last() != 0 {
            1nat
        } else {
            0
        }
    }
}

/// Counts the bytes that are not zero.
pub fn count_nonzero(bytes: &[u8]) -> (n: usize)
    ensures
        n == nonzero_count(bytes@),
        n <= bytes@.len(),
{
    let mut n: usize = 0;
    let mut i: usize = 0;
    assert(bytes@.take(0) =~= Seq::<u8>::empty());
    while i < bytes.len()
        invariant
            n <= i <= bytes@.len(),
            n == nonzero_count(bytes@.take(i as int)),
        decreases bytes@.len() - i,
    {
        assert(bytes@.take(i + 1).drop_last() =~= bytes@.take(i as int));
        if bytes[i] != 0 {
            n = n + 1;
        }
        i = i + 1;
    }
    assert(bytes@.take(bytes@.len() as int) =~= bytes@);
    n
}

/// A count of zero means that every byte is zero.
pub proof fn lemma_all_zero(bytes: Seq<u8>)
    ensures
        nonzero_count(bytes) == 0 <==> forall|i: int| 0 <= i < bytes.len() ==> bytes[i] == 0,
    decreases bytes.len(),
{
    if bytes.len() > 0 {
        let init = bytes.drop_last();
        lemma_all_zero(init);
        assert(forall|i: int| 0 <= i < init.len() ==> init[i] == bytes[i]);
        assert(bytes[bytes.len() - 1] == bytes.last());
    }
}

/// Counting goes piece by piece, and a byte counts once unless it is zero.
pub proof fn lemma_count(a: Seq<u8>, b: Seq<u8>, byte: u8)
    ensures
        nonzero_count(a + b) == nonzero_count(a) + nonzero_count(b),
        nonzero_count(seq![0u8]) == 0,
        byte != 0 ==> nonzero_count(seq![byte]) == 1,
    decreases b.len(),
{
    let none = Seq::<u8>::empty();
    assert(nonzero_count(none) == 0);
    assert(seq![0u8].drop_last() =~= none);
    assert(seq![byte].drop_last() =~= none);
    if b.len() == 0 {
        assert(a + b =~= a);
    } else {
        lemma_count(a, b.drop_last(), byte);
        assert((a + b).drop_last() =~= a + b.drop_last());
        assert((a + b).last() == b.last());
    }
}

} // verus!
