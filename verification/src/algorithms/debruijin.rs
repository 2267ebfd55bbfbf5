//! Lowest and highest set bit in constant time, by De Bruijn sequences.
//!
//! A De Bruijn sequence of length N, N a power of two, is a cyclic sequence of bits in which every
//! window of log2(N) bits occurs exactly once. Multiplying such a sequence by a power of two
//! shifts it left, so the top log2(N) bits of the product differ for each of the N powers of two:
//! they index a table that gives the exponent back. The lowest set bit of a word is isolated by
//! `value & -value`, which is such a power of two.
//!
//! No step depends on which bit is set: the cost is the same for every input.

use crate::algorithms::bit_index::{
    bit_is_set, highest_set_bit, is_highest_set_bit, is_lowest_set_bit, lemma_highest_set_bit_is,
    lemma_lowest_set_bit_is, lemma_scans_find_extremes, lemma_scans_of_zero,
    lemma_word_has_no_high_bits, lowest_set_bit,
};
use vstd::prelude::*;

verus! {

/// A De Bruijn sequence of 8 bits that starts with zeros.
const DEBRUIJIN_NUMBER_8: u8 = 0x17;

/// For each window of the 8-bit sequence, the shift that brings it to the top.
const DEBRUIJIN_INDICES_8: [u8; 8] = [0, 1, 2, 4, 7, 3, 6, 5];

/// The shift that leaves the top window of a 8-bit product.
const DEBRUIJIN_SHIFT_8: u8 = 5;

/// A De Bruijn sequence of 16 bits that starts with zeros.
const DEBRUIJIN_NUMBER_16: u16 = 0x09AF;

/// For each window of the 16-bit sequence, the shift that brings it to the top.
const DEBRUIJIN_INDICES_16: [u16; 16] = [0, 1, 2, 5, 3, 9, 6, 11, 15, 4, 8, 10, 14, 7, 13, 12];

/// The shift that leaves the top window of a 16-bit product.
const DEBRUIJIN_SHIFT_16: u16 = 12;

/// A De Bruijn sequence of 32 bits that starts with zeros.
const DEBRUIJIN_NUMBER_32: u32 = 0x0465_3ADF;

/// For each window of the 32-bit sequence, the shift that brings it to the top.
const DEBRUIJIN_INDICES_32: [u32; 32] = [
    0, 1, 2, 6, 3, 11, 7, 16, 4, 14, 12, 21, 8, 23, 17, 26,
    31, 5, 10, 15, 13, 20, 22, 25, 30, 9, 19, 24, 29, 18, 28, 27,
];

/// The shift that leaves the top window of a 32-bit product.
const DEBRUIJIN_SHIFT_32: u32 = 27;

/// A De Bruijn sequence of 64 bits that starts with zeros.
const DEBRUIJIN_NUMBER_64: u64 = 0x0218_A392_CD3D_5DBF;

/// For each window of the 64-bit sequence, the shift that brings it to the top.
const DEBRUIJIN_INDICES_64: [u64; 64] = [
    0, 1, 2, 7, 3, 13, 8, 19, 4, 25, 14, 28, 9, 34, 20, 40,
    5, 17, 26, 38, 15, 46, 29, 48, 10, 31, 35, 54, 21, 50, 41, 57,
    63, 6, 12, 18, 24, 27, 33, 39, 16, 37, 45, 47, 30, 53, 49, 56,
    62, 11, 23, 32, 36, 44, 52, 55, 61, 22, 43, 51, 60, 42, 59, 58,
];

/// The shift that leaves the top window of a 64-bit product.
const DEBRUIJIN_SHIFT_64: u64 = 58;

/// Bit `i` of `v` is set and the bits below it are clear, said with a mask.
spec fn lowest_by_mask(v: u64, i: u64) -> bool {
    i < 64 && v & (1u64 << i) != 0 && v & (((1u64 << i) - 1) as u64) == 0
}

/// The window `slot` was read and `bit` is the lowest set bit of `v`.
spec fn window(v: u64, index: u64, slot: u64, bit: u64) -> bool {
    index == slot && lowest_by_mask(v, bit)
}

/// The mask that is clear in `v` covers every bit below `i`.
proof fn lemma_mask_clears_below(v: u64, i: u64, j: u64)
    by (bit_vector)
    requires
        i < 64,
        v & (1u64 << i) != 0,
        v & (((1u64 << i) - 1) as u64) == 0,
        j < i,
    ensures
        (v >> j) & 1 != 1,
{
}

/// A bit that the mask `1 << i` finds in `v` is bit `i` of `v`.
proof fn lemma_mask_keeps_bit(v: u64, i: u64)
    by (bit_vector)
    requires
        i < 64,
        v & (1u64 << i) != 0,
    ensures
        (v >> i) & 1 == 1,
{
}

/// What the mask says of the lowest set bit is what the scan finds.
proof fn lemma_lowest_by_mask(v: u64, i: u64)
    requires
        lowest_by_mask(v, i),
    ensures
        is_lowest_set_bit(v, i as nat),
        lowest_set_bit(v) == i,
{
    lemma_mask_keeps_bit(v, i);
    assert forall|j: nat| j < i implies !#[trigger] bit_is_set(v, j) by {
        lemma_mask_clears_below(v, i, j as u64);
    }
    lemma_lowest_set_bit_is(v, i as nat);
}

/// The lowest set bit of an 8-bit word, and 0 for the word 0.
pub fn get_lowest_set_bit_8(value: u8) -> (r: u8)
    ensures
        r == lowest_set_bit(value as u64),
        value == 0 ==> r == 0,
        r < 8,
        value != 0 ==> is_lowest_set_bit(value as u64, r as nat),
{
    let isolated_bit: u8 = value & ((!value).wrapping_add(1));
    let index: u8 = DEBRUIJIN_NUMBER_8.wrapping_mul(isolated_bit) >> DEBRUIJIN_SHIFT_8;
    let ghost v: u64 = value as u64;
    assert(index < 8 && (value == 0 ==> index == 0)) by (bit_vector)
        requires
            isolated_bit == value & ((!value).wrapping_add(1)),
            index == DEBRUIJIN_NUMBER_8.wrapping_mul(isolated_bit) >> DEBRUIJIN_SHIFT_8,
    ;
    assert(value != 0 ==> {
        ||| window(v, index as u64, 0, 0)
        ||| window(v, index as u64, 1, 1)
        ||| window(v, index as u64, 2, 2)
        ||| window(v, index as u64, 3, 4)
        ||| window(v, index as u64, 4, 7)
        ||| window(v, index as u64, 5, 3)
        ||| window(v, index as u64, 6, 6)
        ||| window(v, index as u64, 7, 5)
    }) by (bit_vector)
        requires
            v == value as u64,
            isolated_bit == value & ((!value).wrapping_add(1)),
            index == DEBRUIJIN_NUMBER_8.wrapping_mul(isolated_bit) >> DEBRUIJIN_SHIFT_8,
    ;
    let r = DEBRUIJIN_INDICES_8[index as usize];
    proof {
        if value == 0 {
            lemma_scans_of_zero();
        } else {
            assert(lowest_by_mask(v, r as u64));
            lemma_lowest_by_mask(v, r as u64);
        }
    }
    r
}

/// The lowest set bit of a 16-bit word, and 0 for the word 0.
pub fn get_lowest_set_bit_16(value: u16) -> (r: u16)
    ensures
        r == lowest_set_bit(value as u64),
        value == 0 ==> r == 0,
        r < 16,
        value != 0 ==> is_lowest_set_bit(value as u64, r as nat),
{
    let isolated_bit: u16 = value & ((!value).wrapping_add(1));
    let index: u16 = DEBRUIJIN_NUMBER_16.wrapping_mul(isolated_bit) >> DEBRUIJIN_SHIFT_16;
    let ghost v: u64 = value as u64;
    assert(index < 16 && (value == 0 ==> index == 0)) by (bit_vector)
        requires
            isolated_bit == value & ((!value).wrapping_add(1)),
            index == DEBRUIJIN_NUMBER_16.wrapping_mul(isolated_bit) >> DEBRUIJIN_SHIFT_16,
    ;
    assert(value != 0 ==> {
        ||| window(v, index as u64, 0, 0)
        ||| window(v, index as u64, 1, 1)
        ||| window(v, index as u64, 2, 2)
        ||| window(v, index as u64, 3, 5)
        ||| window(v, index as u64, 4, 3)
        ||| window(v, index as u64, 5, 9)
        ||| window(v, index as u64, 6, 6)
        ||| window(v, index as u64, 7, 11)
        ||| window(v, index as u64, 8, 15)
        ||| window(v, index as u64, 9, 4)
        ||| window(v, index as u64, 10, 8)
        ||| window(v, index as u64, 11, 10)
        ||| window(v, index as u64, 12, 14)
        ||| window(v, index as u64, 13, 7)
        ||| window(v, index as u64, 14, 13)
        ||| window(v, index as u64, 15, 12)
    }) by (bit_vector)
        requires
            v == value as u64,
            isolated_bit == value & ((!value).wrapping_add(1)),
            index == DEBRUIJIN_NUMBER_16.wrapping_mul(isolated_bit) >> DEBRUIJIN_SHIFT_16,
    ;
    let r = DEBRUIJIN_INDICES_16[index as usize];
    proof {
        if value == 0 {
            lemma_scans_of_zero();
        } else {
            assert(lowest_by_mask(v, r as u64));
            lemma_lowest_by_mask(v, r as u64);
        }
    }
    r
}

/// The lowest set bit of a 32-bit word, and 0 for the word 0.
pub fn get_lowest_set_bit_32(value: u32) -> (r: u32)
    ensures
        r == lowest_set_bit(value as u64),
        value == 0 ==> r == 0,
        r < 32,
        value != 0 ==> is_lowest_set_bit(value as u64, r as nat),
{
    let isolated_bit: u32 = value & ((!value).wrapping_add(1));
    let index: u32 = DEBRUIJIN_NUMBER_32.wrapping_mul(isolated_bit) >> DEBRUIJIN_SHIFT_32;
    let ghost v: u64 = value as u64;
    assert(index < 32 && (value == 0 ==> index == 0)) by (bit_vector)
        requires
            isolated_bit == value & ((!value).wrapping_add(1)),
            index == DEBRUIJIN_NUMBER_32.wrapping_mul(isolated_bit) >> DEBRUIJIN_SHIFT_32,
    ;
    assert(value != 0 ==> {
        ||| window(v, index as u64, 0, 0)
        ||| window(v, index as u64, 1, 1)
        ||| window(v, index as u64, 2, 2)
        ||| window(v, index as u64, 3, 6)
        ||| window(v, index as u64, 4, 3)
        ||| window(v, index as u64, 5, 11)
        ||| window(v, index as u64, 6, 7)
        ||| window(v, index as u64, 7, 16)
        ||| window(v, index as u64, 8, 4)
        ||| window(v, index as u64, 9, 14)
        ||| window(v, index as u64, 10, 12)
        ||| window(v, index as u64, 11, 21)
        ||| window(v, index as u64, 12, 8)
        ||| window(v, index as u64, 13, 23)
        ||| window(v, index as u64, 14, 17)
        ||| window(v, index as u64, 15, 26)
        ||| window(v, index as u64, 16, 31)
        ||| window(v, index as u64, 17, 5)
        ||| window(v, index as u64, 18, 10)
        ||| window(v, index as u64, 19, 15)
        ||| window(v, index as u64, 20, 13)
        ||| window(v, index as u64, 21, 20)
        ||| window(v, index as u64, 22, 22)
        ||| window(v, index as u64, 23, 25)
        ||| window(v, index as u64, 24, 30)
        ||| window(v, index as u64, 25, 9)
        ||| window(v, index as u64, 26, 19)
        ||| window(v, index as u64, 27, 24)
        ||| window(v, index as u64, 28, 29)
        ||| window(v, index as u64, 29, 18)
        ||| window(v, index as u64, 30, 28)
        ||| window(v, index as u64, 31, 27)
    }) by (bit_vector)
        requires
            v == value as u64,
            isolated_bit == value & ((!value).wrapping_add(1)),
            index == DEBRUIJIN_NUMBER_32.wrapping_mul(isolated_bit) >> DEBRUIJIN_SHIFT_32,
    ;
    let r = DEBRUIJIN_INDICES_32[index as usize];
    proof {
        if value == 0 {
            lemma_scans_of_zero();
        } else {
            assert(lowest_by_mask(v, r as u64));
            lemma_lowest_by_mask(v, r as u64);
        }
    }
    r
}

/// The lowest set bit of a 64-bit word, and 0 for the word 0.
pub fn get_lowest_set_bit_64(value: u64) -> (r: u64)
    ensures
        r == lowest_set_bit(value as u64),
        value == 0 ==> r == 0,
        r < 64,
        value != 0 ==> is_lowest_set_bit(value as u64, r as nat),
{
    let isolated_bit: u64 = value & ((!value).wrapping_add(1));
    let index: u64 = DEBRUIJIN_NUMBER_64.wrapping_mul(isolated_bit) >> DEBRUIJIN_SHIFT_64;
    let ghost v: u64 = value as u64;
    assert(index < 64 && (value == 0 ==> index == 0)) by (bit_vector)
        requires
            isolated_bit == value & ((!value).wrapping_add(1)),
            index == DEBRUIJIN_NUMBER_64.wrapping_mul(isolated_bit) >> DEBRUIJIN_SHIFT_64,
    ;
    assert(value != 0 ==> {
        ||| window(v, index as u64, 0, 0)
        ||| window(v, index as u64, 1, 1)
        ||| window(v, index as u64, 2, 2)
        ||| window(v, index as u64, 3, 7)
        ||| window(v, index as u64, 4, 3)
        ||| window(v, index as u64, 5, 13)
        ||| window(v, index as u64, 6, 8)
        ||| window(v, index as u64, 7, 19)
        ||| window(v, index as u64, 8, 4)
        ||| window(v, index as u64, 9, 25)
        ||| window(v, index as u64, 10, 14)
        ||| window(v, index as u64, 11, 28)
        ||| window(v, index as u64, 12, 9)
        ||| window(v, index as u64, 13, 34)
        ||| window(v, index as u64, 14, 20)
        ||| window(v, index as u64, 15, 40)
        ||| window(v, index as u64, 16, 5)
        ||| window(v, index as u64, 17, 17)
        ||| window(v, index as u64, 18, 26)
        ||| window(v, index as u64, 19, 38)
        ||| window(v, index as u64, 20, 15)
        ||| window(v, index as u64, 21, 46)
        ||| window(v, index as u64, 22, 29)
        ||| window(v, index as u64, 23, 48)
        ||| window(v, index as u64, 24, 10)
        ||| window(v, index as u64, 25, 31)
        ||| window(v, index as u64, 26, 35)
        ||| window(v, index as u64, 27, 54)
        ||| window(v, index as u64, 28, 21)
        ||| window(v, index as u64, 29, 50)
        ||| window(v, index as u64, 30, 41)
        ||| window(v, index as u64, 31, 57)
        ||| window(v, index as u64, 32, 63)
        ||| window(v, index as u64, 33, 6)
        ||| window(v, index as u64, 34, 12)
        ||| window(v, index as u64, 35, 18)
        ||| window(v, index as u64, 36, 24)
        ||| window(v, index as u64, 37, 27)
        ||| window(v, index as u64, 38, 33)
        ||| window(v, index as u64, 39, 39)
        ||| window(v, index as u64, 40, 16)
        ||| window(v, index as u64, 41, 37)
        ||| window(v, index as u64, 42, 45)
        ||| window(v, index as u64, 43, 47)
        ||| window(v, index as u64, 44, 30)
        ||| window(v, index as u64, 45, 53)
        ||| window(v, index as u64, 46, 49)
        ||| window(v, index as u64, 47, 56)
        ||| window(v, index as u64, 48, 62)
        ||| window(v, index as u64, 49, 11)
        ||| window(v, index as u64, 50, 23)
        ||| window(v, index as u64, 51, 32)
        ||| window(v, index as u64, 52, 36)
        ||| window(v, index as u64, 53, 44)
        ||| window(v, index as u64, 54, 52)
        ||| window(v, index as u64, 55, 55)
        ||| window(v, index as u64, 56, 61)
        ||| window(v, index as u64, 57, 22)
        ||| window(v, index as u64, 58, 43)
        ||| window(v, index as u64, 59, 51)
        ||| window(v, index as u64, 60, 60)
        ||| window(v, index as u64, 61, 42)
        ||| window(v, index as u64, 62, 59)
        ||| window(v, index as u64, 63, 58)
    }) by (bit_vector)
        requires
            v == value as u64,
            isolated_bit == value & ((!value).wrapping_add(1)),
            index == DEBRUIJIN_NUMBER_64.wrapping_mul(isolated_bit) >> DEBRUIJIN_SHIFT_64,
    ;
    let r = DEBRUIJIN_INDICES_64[index as usize];
    proof {
        if value == 0 {
            lemma_scans_of_zero();
        } else {
            assert(lowest_by_mask(v, r as u64));
            lemma_lowest_by_mask(v, r as u64);
        }
    }
    r
}

/// `usize::reverse_bits`: the word with the order of its bits reversed, so that the least
/// significant bit becomes the most significant one, the second the second, and so on.
pub assume_specification[ usize::reverse_bits ](x: usize) -> (r: usize)
    ensures
        forall|i: nat|
            i < usize::BITS ==> (#[trigger] bit_is_set(r as u64, i) <==> bit_is_set(
                x as u64,
                (usize::BITS - 1 - i) as nat,
            )),
;

/// The lowest set bit of a machine word, and 0 for the word 0.
///
/// Found in constant time with a De Bruijn sequence and a lookup table.
pub fn get_lowest_set_bit(value: usize) -> (r: usize)
    ensures
        r == lowest_set_bit(value as u64),
        value == 0 ==> r == 0,
        r < usize::BITS,
        value != 0 ==> is_lowest_set_bit(value as u64, r as nat),
{
    if usize::BITS == 8 {
        get_lowest_set_bit_8(value as u8) as usize
    } else if usize::BITS == 16 {
        get_lowest_set_bit_16(value as u16) as usize
    } else if usize::BITS == 32 {
        get_lowest_set_bit_32(value as u32) as usize
    } else if usize::BITS == 64 {
        get_lowest_set_bit_64(value as u64) as usize
    } else {
        0
    }
}

/// The highest set bit of a machine word, and 0 for the word 0.
///
/// The bits are reversed, the lowest set bit of the result is found as above, and its position
/// is counted from the other end.
pub fn get_highest_set_bit(value: usize) -> (r: usize)
    ensures
        r == highest_set_bit(value as u64),
        value == 0 ==> r == 0,
        r < usize::BITS,
        value != 0 ==> is_highest_set_bit(value as u64, r as nat),
{
    if value == 0 {
        proof {
            lemma_scans_of_zero();
        }
        return 0;
    }
    let bits_of: usize = usize::BITS as usize;
    let reversed: usize = value.reverse_bits();
    let ghost v: u64 = value as u64;
    let ghost w: u64 = reversed as u64;
    proof {
        lemma_scans_find_extremes(v);
        let p = lowest_set_bit(v);
        if p >= bits_of {
            lemma_word_has_no_high_bits(value, p);
        }
        let q = (bits_of - 1 - p) as nat;
        assert(bit_is_set(w, q));
        assert(w != 0) by {
            let k = q as u64;
            assert((0u64 >> k) & 1 != 1) by (bit_vector);
        }
    }
    let lowest: usize = get_lowest_set_bit(reversed);
    let r: usize = bits_of - lowest - 1;
    proof {
        assert(bit_is_set(w, lowest as nat));
        assert forall|j: nat| r < j implies !#[trigger] bit_is_set(v, j) by {
            if j < bits_of {
                let i = (bits_of - 1 - j) as nat;
                assert(!bit_is_set(w, i));
            } else {
                lemma_word_has_no_high_bits(value, j);
            }
        }
        lemma_highest_set_bit_is(v, r as nat);
    }
    r
}

} // verus!
