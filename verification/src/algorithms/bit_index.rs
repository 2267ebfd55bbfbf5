//! The vocabulary of bit positions in a machine word.
//!
//! A word is read as a `u64`; narrower words are zero-extended, which changes neither their lowest
//! nor their highest set bit. Positions are counted from the least significant bit, starting at 0.

use vstd::prelude::*;
use vstd::std_specs::bits::{
    axiom_u64_leading_zeros, axiom_u64_trailing_zeros, u64_leading_zeros, u64_trailing_zeros,
};

verus! {

/// Bit `i` of `v` is set.
pub open spec fn bit_is_set(v: u64, i: nat) -> bool {
    i < 64 && (v >> (i as u64)) & 1 == 1
}

/// Bit `i` of `v` is set and every bit below it is clear.
pub open spec fn is_lowest_set_bit(v: u64, i: nat) -> bool {
    &&& bit_is_set(v, i)
    &&& forall|j: nat| j < i ==> !#[trigger] bit_is_set(v, j)
}

/// Bit `i` of `v` is set and every bit above it is clear.
pub open spec fn is_highest_set_bit(v: u64, i: nat) -> bool {
    &&& bit_is_set(v, i)
    &&& forall|j: nat| i < j ==> !#[trigger] bit_is_set(v, j)
}

/// The first set bit of `v` met when walking upward from position `from`, or 0 when the walk
/// runs off the top of the word.
pub open spec fn scan_up(v: u64, from: nat) -> nat
    decreases 64 - from,
{
    if from >= 64 {
        0
    } else if bit_is_set(v, from) {
        from
    } else {
        scan_up(v, from + 1)
    }
}

/// The first set bit of `v` met when walking downward from position `from`, or 0 when the walk
/// reaches the bottom of the word.
pub open spec fn scan_down(v: u64, from: nat) -> nat
    decreases from,
{
    if bit_is_set(v, from) {
        from
    } else if from == 0 {
        0
    } else {
        scan_down(v, (from - 1) as nat)
    }
}

/// The position of the least significant set bit of `v`, by linear scan; 0 when `v` is 0.
pub open spec fn lowest_set_bit(v: u64) -> nat {
    scan_up(v, 0)
}

/// The position of the most significant set bit of `v`, by linear scan; 0 when `v` is 0.
pub open spec fn highest_set_bit(v: u64) -> nat {
    scan_down(v, 63)
}

/// The word with bit `i` alone set.
pub open spec fn single_bit(i: nat) -> u64 {
    1u64 << (i as u64)
}

proof fn lemma_scan_up_reaches(v: u64, i: nat, from: nat)
    requires
        is_lowest_set_bit(v, i),
        from <= i,
    ensures
        scan_up(v, from) == i,
    decreases i - from,
{
    if from < i {
        assert(!bit_is_set(v, from));
        lemma_scan_up_reaches(v, i, from + 1);
    }
}

proof fn lemma_scan_down_reaches(v: u64, i: nat, from: nat)
    requires
        is_highest_set_bit(v, i),
        i <= from,
    ensures
        scan_down(v, from) == i,
    decreases from - i,
{
    if i < from {
        assert(!bit_is_set(v, from));
        lemma_scan_down_reaches(v, i, (from - 1) as nat);
    }
}

proof fn lemma_scan_up_of_zero(from: nat)
    ensures
        scan_up(0, from) == 0,
    decreases 64 - from,
{
    if from < 64 {
        let j = from as u64;
        assert((0u64 >> j) & 1 != 1) by (bit_vector);
        lemma_scan_up_of_zero(from + 1);
    }
}

proof fn lemma_scan_down_of_zero(from: nat)
    ensures
        scan_down(0, from) == 0,
    decreases from,
{
    if from < 64 {
        let j = from as u64;
        assert((0u64 >> j) & 1 != 1) by (bit_vector);
    }
    if from > 0 {
        lemma_scan_down_of_zero((from - 1) as nat);
    }
}

/// A position that is the lowest set bit of `v` is the one the upward scan finds.
pub proof fn lemma_lowest_set_bit_is(v: u64, i: nat)
    requires
        is_lowest_set_bit(v, i),
    ensures
        lowest_set_bit(v) == i,
{
    lemma_scan_up_reaches(v, i, 0);
}

/// A position that is the highest set bit of `v` is the one the downward scan finds.
pub proof fn lemma_highest_set_bit_is(v: u64, i: nat)
    requires
        is_highest_set_bit(v, i),
    ensures
        highest_set_bit(v) == i,
{
    lemma_scan_down_reaches(v, i, 63);
}

/// Both scans answer 0 on the empty word.
pub proof fn lemma_scans_of_zero()
    ensures
        lowest_set_bit(0) == 0,
        highest_set_bit(0) == 0,
{
    lemma_scan_up_of_zero(0);
    lemma_scan_down_of_zero(63);
}

/// In a word other than 0 the lowest set bit is the count of trailing zeros.
pub proof fn lemma_lowest_is_trailing_zeros(v: u64)
    requires
        v != 0,
    ensures
        u64_trailing_zeros(v) < 64,
        is_lowest_set_bit(v, u64_trailing_zeros(v) as nat),
        lowest_set_bit(v) == u64_trailing_zeros(v),
{
    axiom_u64_trailing_zeros(v);
    let t = u64_trailing_zeros(v) as nat;
    assert(bit_is_set(v, t));
    assert forall|j: nat| j < t implies !#[trigger] bit_is_set(v, j) by {
        let k = j as u64;
        assert((v >> k) & 1u64 == 0u64);
    }
    lemma_lowest_set_bit_is(v, t);
}

/// In a word other than 0 the highest set bit is 63 less the count of leading zeros.
pub proof fn lemma_highest_is_leading_zeros(v: u64)
    requires
        v != 0,
    ensures
        0 <= u64_leading_zeros(v) < 64,
        is_highest_set_bit(v, (63 - u64_leading_zeros(v)) as nat),
        highest_set_bit(v) == 63 - u64_leading_zeros(v),
{
    axiom_u64_leading_zeros(v);
    let z = u64_leading_zeros(v) as u64;
    let t = (63 - z) as u64;
    assert((v >> t) & 1 == 1) by (bit_vector)
        requires
            z < 64,
            t == 63 - z,
            (v >> ((63u64 - z) as u64)) & 1u64 != 0u64,
    ;
    assert(bit_is_set(v, t as nat));
    assert forall|j: nat| t < j implies !#[trigger] bit_is_set(v, j) by {
        if j < 64 {
            let k = j as u64;
            assert((v >> k) & 1u64 == 0u64);
        }
    }
    lemma_highest_set_bit_is(v, t as nat);
}

/// A word other than 0 has a lowest and a highest set bit, and the scans find them.
pub proof fn lemma_scans_find_extremes(v: u64)
    requires
        v != 0,
    ensures
        is_lowest_set_bit(v, lowest_set_bit(v)),
        is_highest_set_bit(v, highest_set_bit(v)),
        lowest_set_bit(v) <= highest_set_bit(v) < 64,
{
    lemma_lowest_is_trailing_zeros(v);
    lemma_highest_is_leading_zeros(v);
    let lo = lowest_set_bit(v);
    let hi = highest_set_bit(v);
    if hi < lo {
        assert(!bit_is_set(v, hi));
    }
}

/// The lowest, and the highest, set bit of a word with one bit set is that bit.
pub proof fn lemma_single_bit(i: nat)
    requires
        i < 64,
    ensures
        single_bit(i) != 0,
        is_lowest_set_bit(single_bit(i), i),
        is_highest_set_bit(single_bit(i), i),
        lowest_set_bit(single_bit(i)) == i,
        highest_set_bit(single_bit(i)) == i,
{
    let p = i as u64;
    let v = single_bit(i);
    assert(v != 0 && (v >> p) & 1 == 1) by (bit_vector)
        requires
            p < 64,
            v == 1u64 << p,
    ;
    assert forall|j: nat| j != i implies !#[trigger] bit_is_set(v, j) by {
        if j < 64 {
            let k = j as u64;
            assert((v >> k) & 1 != 1) by (bit_vector)
                requires
                    p < 64,
                    k < 64,
                    k != p,
                    v == 1u64 << p,
            ;
        }
    }
    lemma_lowest_set_bit_is(v, i);
    lemma_highest_set_bit_is(v, i);
}

/// The word with bit `i` alone set is the same in every width that has a bit `i`.
pub proof fn lemma_single_bit_in_narrow_words(i: nat)
    requires
        i < 32,
    ensures
        i < 8 ==> (1u8 << (i as u8)) as u64 == single_bit(i),
        i < 16 ==> (1u16 << (i as u16)) as u64 == single_bit(i),
        (1u32 << (i as u32)) as u64 == single_bit(i),
{
    let p = i as u64;
    let a = i as u8;
    let b = i as u16;
    let c = i as u32;
    assert(p < 8 && a == p ==> (1u8 << a) as u64 == 1u64 << p) by (bit_vector);
    assert(p < 16 && b == p ==> (1u16 << b) as u64 == 1u64 << p) by (bit_vector);
    assert(p < 32 && c == p ==> (1u32 << c) as u64 == 1u64 << p) by (bit_vector);
}

/// No bit at or above the word size is set in a machine word.
pub proof fn lemma_word_has_no_high_bits(value: usize, i: nat)
    requires
        usize::BITS <= i,
    ensures
        !bit_is_set(value as u64, i),
{
    if i < 64 {
        let v = value as u64;
        let k = i as u64;
        assert((v >> k) & 1 != 1) by (bit_vector)
            requires
                v <= 0xFFFF_FFFF,
                32 <= k < 64,
        ;
    }
}

/// No bit is set in the word 0.
pub proof fn lemma_zero_has_no_bits(i: nat)
    ensures
        !bit_is_set(0, i),
{
    if i < 64 {
        let k = i as u64;
        assert((0u64 >> k) & 1 != 1) by (bit_vector);
    }
}

/// A bit is set in `a | b` exactly when it is set in `a` or in `b`.
pub proof fn lemma_bit_of_or(a: usize, b: usize, i: nat)
    ensures
        bit_is_set((a | b) as u64, i) <==> bit_is_set(a as u64, i) || bit_is_set(b as u64, i),
{
    if i < 64 {
        let k = i as u64;
        assert((((a | b) as u64) >> k) & 1 == 1 <==> ((a as u64) >> k) & 1 == 1 || ((b as u64)
            >> k) & 1 == 1) by (bit_vector);
    }
}

/// A bit is set in `a & !b` exactly when it is set in `a` and not in `b`.
pub proof fn lemma_bit_of_and_not(a: usize, b: usize, i: nat)
    ensures
        bit_is_set((a & !b) as u64, i) <==> bit_is_set(a as u64, i) && !bit_is_set(b as u64, i),
{
    if i < 64 {
        let k = i as u64;
        assert((((a & !b) as u64) >> k) & 1 == 1 <==> ((a as u64) >> k) & 1 == 1 && ((b as u64)
            >> k) & 1 != 1) by (bit_vector);
    }
}

/// In the machine word `1 << index` the bit `index` is set and no other.
pub proof fn lemma_bit_of_shifted_one(index: usize, i: nat)
    requires
        index < usize::BITS,
    ensures
        bit_is_set((1usize << index) as u64, i) <==> i == index,
{
    if i < 64 {
        let k = i as u64;
        assert((((1usize << index) as u64) >> k) & 1 == 1 <==> k == index) by (bit_vector)
            requires
                index < usize::BITS,
                k < 64,
        ;
    }
}

} // verus!
