//! Facts about the single bits of a 64-bit word.
//!
//! A word is read as the set of the positions of its one bits. The lemmas
//! here carry the bitwise operations of the summary over to that reading.

use vstd::prelude::*;

verus! {

/// Whether bit `i` of `word` is set. No bit outside `0..64` is.
pub open spec fn has_bit(word: u64, i: int) -> bool {
    0 <= i < 64 && (word >> (i as u64)) & 1 == 1
}

/// The empty word has no bit.
pub proof fn lemma_zero_has_no_bit(i: int)
    ensures
        !has_bit(0, i),
{
    if 0 <= i < 64 {
        let k = i as u64;
        assert((0u64 >> k) & 1 == 0) by (bit_vector);
    }
}

/// The full word has every bit.
pub proof fn lemma_full_has_every_bit(i: int)
    requires
        0 <= i < 64,
    ensures
        has_bit(u64::MAX, i),
{
    let k = i as u64;
    assert((0xffff_ffff_ffff_ffffu64 >> k) & 1 == 1) by (bit_vector)
        requires
            k < 64,
    ;
}

/// Setting bit `h` adds `h` and leaves every other bit as it was.
pub proof fn lemma_set_bit(word: u64, h: u64, i: int)
    requires
        h < 64,
    ensures
        has_bit(word | (1u64 << h), i) <==> (has_bit(word, i) || i == h),
{
    if 0 <= i < 64 {
        let k = i as u64;
        assert((((word | (1u64 << h)) >> k) & 1 == 1) <==> (((word >> k) & 1 == 1) || k == h))
            by (bit_vector)
            requires
                h < 64,
                k < 64,
        ;
    }
}

/// A bit of `a & b` is a bit of both.
pub proof fn lemma_and_bit(a: u64, b: u64, i: int)
    ensures
        has_bit(a & b, i) <==> (has_bit(a, i) && has_bit(b, i)),
{
    if 0 <= i < 64 {
        let k = i as u64;
        assert((((a & b) >> k) & 1 == 1) <==> (((a >> k) & 1 == 1) && ((b >> k) & 1 == 1)))
            by (bit_vector)
            requires
                k < 64,
        ;
    }
}

/// A word whose bits from `n` upwards are all clear is below `2^n`.
proof fn lemma_clear_from(word: u64, n: nat)
    requires
        n <= 63,
        forall|i: int| n <= i < 64 ==> !has_bit(word, i),
    ensures
        word >> (n as u64) == 0,
    decreases 63 - n,
{
    let k = n as u64;
    assert(!has_bit(word, n as int));
    if n == 63 {
        assert((word >> 63) & 1 != 1 ==> word >> 63 == 0) by (bit_vector);
    } else {
        lemma_clear_from(word, n + 1);
        let m = (n + 1) as u64;
        assert(word >> k == 0) by (bit_vector)
            requires
                k < 63,
                m == k + 1,
                word >> m == 0,
                (word >> k) & 1 != 1,
        ;
    }
}

/// Two words with the same bits are the same word.
pub proof fn lemma_same_bits(a: u64, b: u64)
    requires
        forall|i: int| 0 <= i < 64 ==> (has_bit(a, i) <==> has_bit(b, i)),
    ensures
        a == b,
{
    let x = a ^ b;
    assert forall|i: int| 0 <= i < 64 implies !has_bit(x, i) by {
        let k = i as u64;
        assert(has_bit(a, i) <==> has_bit(b, i));
        assert((((a ^ b) >> k) & 1 == 1) <==> (((a >> k) & 1 == 1) != ((b >> k) & 1 == 1)))
            by (bit_vector)
            requires
                k < 64,
        ;
    }
    lemma_clear_from(x, 0);
    assert(a == b) by (bit_vector)
        requires
            (a ^ b) >> 0 == 0,
    ;
}

} // verus!
