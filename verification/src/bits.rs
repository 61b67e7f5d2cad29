//! Bit-level helpers shared by the bitboard code: a population count with a
//! mathematical specification, and the lemmas about it that the board
//! primitives need.

use vstd::prelude::*;

verus! {

/// The number of set bits of `x`, defined one bit at a time.
pub open spec fn spec_popcount(x: u64) -> nat
    decreases x,
{
    if x == 0 {
        0
    } else {
        ((x & 1) as nat) + spec_popcount(x / 2)
    }
}

/// Counts the set bits of `x`.
pub fn popcount(x: u64) -> (r: u32)
    ensures
        r == spec_popcount(x),
        r <= 64,
{
    let mut remaining: u64 = x;
    let mut count: u32 = 0;
    let mut i: u32 = 0;
    proof {
        assert(x >> 0u32 == x && x >> 64u32 == 0) by (bit_vector);
    }
    while i < 64
        invariant
            i <= 64,
            count <= i,
            remaining == x >> i,
            count + spec_popcount(remaining) == spec_popcount(x),
        decreases 64 - i,
    {
        proof {
            assert(remaining & 1 == remaining % 2 && remaining >> 1 == remaining / 2 && (i < 64
                ==> (x >> i) >> 1 == x >> (i + 1))) by (bit_vector)
                requires
                    remaining == x >> i,
            ;
        }
        count = count + (remaining & 1) as u32;
        remaining = remaining >> 1;
        i = i + 1;
    }
    count
}

/// A word covered by another has no more set bits than its cover.
pub proof fn lemma_popcount_subset(x: u64, y: u64)
    requires
        x & !y == 0,
    ensures
        spec_popcount(x) <= spec_popcount(y),
    decreases y,
{
    if x != 0 {
        assert(x & !y == 0 && x != 0 ==> y != 0 && (x / 2) & !(y / 2) == 0 && (x & 1) <= (y & 1)
            && x / 2 <= y / 2 && y / 2 < y) by (bit_vector);
        lemma_popcount_subset(x / 2, y / 2);
    }
}

/// The set bits of two disjoint words add up.
pub proof fn lemma_popcount_or_disjoint(a: u64, b: u64)
    requires
        a & b == 0,
    ensures
        spec_popcount(a | b) == spec_popcount(a) + spec_popcount(b),
    decreases a | b,
{
    if a == 0 {
        assert(0u64 | b == b) by (bit_vector);
    } else if b == 0 {
        assert(a | 0u64 == a) by (bit_vector);
    } else {
        assert(a & b == 0 ==> (a | b) / 2 == (a / 2) | (b / 2) && (a / 2) & (b / 2) == 0
            && ((a | b) & 1) == (a & 1) + (b & 1) && (a | b != 0 ==> (a | b) / 2 < (a | b))
            && (a != 0 || b != 0 ==> a | b != 0)
            && ((a / 2) | (b / 2)) == (a | b) / 2) by (bit_vector);
        lemma_popcount_or_disjoint(a / 2, b / 2);
    }
}

/// A bit set in a covered word is set in its cover.
pub proof fn lemma_subset_bit(a: u64, b: u64, m: u64)
    by (bit_vector)
    requires
        a & !b == 0,
        a & m != 0,
    ensures
        b & m != 0,
{
}

/// A word with exactly one set bit has a count of one.
pub proof fn lemma_popcount_single(b: u64)
    requires
        b != 0,
        b & ((b - 1) as u64) == 0,
    ensures
        spec_popcount(b) == 1,
    decreases b,
{
    assert(1u64 & 1 == 1 && (b != 0 && b & ((b - 1) as u64) == 0 && b != 1 ==> b & 1 == 0 && b / 2
        != 0 && (b / 2) & ((b / 2 - 1) as u64) == 0 && b / 2 < b)) by (bit_vector);
    if b == 1 {
        assert(spec_popcount(1) == 1 + spec_popcount(0));
    } else {
        lemma_popcount_single(b / 2);
    }
}

} // verus!
