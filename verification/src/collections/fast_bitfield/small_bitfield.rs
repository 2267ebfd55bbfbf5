//! A fast bitfield of one machine word.

use super::{
    find_highest_set_bit, find_lowest_set_bit, lemma_word_members_and_not,
    lemma_word_members_bounded, lemma_word_members_empty, lemma_word_members_extremes,
    lemma_word_members_or, lemma_word_members_shifted_one, word_members, FastBitField,
};
use crate::algorithms::bit_index::{highest_set_bit, lowest_set_bit};
use vstd::prelude::*;

verus! {

/// Defines the maximum number of bits in a small bitfield.
pub const SMALL_BIT_FIELD_BIT_SIZE: usize = usize::BITS as usize;

/// A fast bitfield that holds its bits in one machine word: bit `i` of the word is set exactly
/// when the index `i` is a member.
pub struct SmallBitField {
    /// Holds the bitfield state.
    bitfield: usize,
}

/// The word `word` after `set_bit(index)`.
pub open spec fn word_with_bit_set(word: usize, index: usize) -> usize {
    if index < SMALL_BIT_FIELD_BIT_SIZE {
        word | (1usize << index)
    } else {
        word
    }
}

/// The word `word` after `clear_bit(index)`.
pub open spec fn word_with_bit_cleared(word: usize, index: usize) -> usize {
    if index < SMALL_BIT_FIELD_BIT_SIZE {
        word & !(1usize << index)
    } else {
        word
    }
}

impl View for SmallBitField {
    type V = usize;

    /// The word that holds the bits.
    closed spec fn view(&self) -> usize {
        self.bitfield
    }
}

/// Defines functionality unique to SmallBitField.
impl SmallBitField {
    /// Gets the word that holds the bits.
    pub fn get_field(&self) -> (r: usize)
        ensures
            r == self@,
    {
        self.bitfield
    }

    /// Sets the bits of `field` in the bitfield.
    pub fn set_field(&mut self, field: usize)
        ensures
            final(self)@ == old(self)@ | field,
            final(self).members() == old(self).members().union(word_members(field)),
    {
        proof {
            lemma_word_members_or(self.bitfield, field);
        }
        self.bitfield |= field;
    }

    /// Clears the bits of `field` in the bitfield.
    pub fn clear_field(&mut self, field: usize)
        ensures
            final(self)@ == old(self)@ & !field,
            final(self).members() == old(self).members().difference(word_members(field)),
    {
        proof {
            lemma_word_members_and_not(self.bitfield, field);
        }
        self.bitfield &= !field;
    }
}

/// Defines the FastBitField interface for SmallBitField.
impl FastBitField for SmallBitField {
    open spec fn members(&self) -> Set<nat> {
        word_members(self@)
    }

    open spec fn capacity() -> nat {
        SMALL_BIT_FIELD_BIT_SIZE as nat
    }

    open spec fn well_formed(&self) -> bool {
        true
    }

    fn new() -> (r: Self)
        ensures
            r@ == 0,
    {
        proof {
            lemma_word_members_empty(0);
        }
        SmallBitField { bitfield: 0 }
    }

    fn get_number_of_bits() -> (r: usize) {
        SMALL_BIT_FIELD_BIT_SIZE
    }

    fn set_bit(&mut self, index: usize)
        ensures
            final(self)@ == word_with_bit_set(old(self)@, index),
    {
        if index < SMALL_BIT_FIELD_BIT_SIZE {
            self.set_bit_unchecked(index);
        }
    }

    fn clear_bit(&mut self, index: usize)
        ensures
            final(self)@ == word_with_bit_cleared(old(self)@, index),
    {
        if index < SMALL_BIT_FIELD_BIT_SIZE {
            self.clear_bit_unchecked(index);
        }
    }

    fn get_lowest_set_bit(&self) -> (r: Option<usize>)
        ensures
            r == if self@ == 0 {
                None
            } else {
                Some(lowest_set_bit(self@ as u64) as usize)
            },
    {
        if self.is_empty() {
            return None;
        }
        Some(self.get_lowest_set_bit_unchecked())
    }

    fn get_highest_set_bit(&self) -> (r: Option<usize>)
        ensures
            r == if self@ == 0 {
                None
            } else {
                Some(highest_set_bit(self@ as u64) as usize)
            },
    {
        if self.is_empty() {
            return None;
        }
        Some(self.get_highest_set_bit_unchecked())
    }

    fn test_bit(&self, index: usize) -> (r: Option<bool>) {
        if index < SMALL_BIT_FIELD_BIT_SIZE {
            return Some(self.test_bit_unchecked(index));
        }
        proof {
            if self.members().contains(index as nat) {
                lemma_word_members_bounded(self@, index as nat);
            }
        }
        None
    }

    fn is_empty(&self) -> (r: bool)
        ensures
            r == (self@ == 0),
    {
        proof {
            lemma_word_members_empty(self.bitfield);
        }
        self.bitfield == 0
    }

    fn get_lowest_set_bit_unchecked(&self) -> (r: usize)
        ensures
            r == lowest_set_bit(self@ as u64),
    {
        proof {
            lemma_word_members_empty(self.bitfield);
            if self.bitfield != 0 {
                lemma_word_members_extremes(self.bitfield);
            }
        }
        find_lowest_set_bit(self.bitfield)
    }

    fn get_highest_set_bit_unchecked(&self) -> (r: usize)
        ensures
            r == highest_set_bit(self@ as u64),
    {
        proof {
            lemma_word_members_empty(self.bitfield);
            if self.bitfield != 0 {
                lemma_word_members_extremes(self.bitfield);
            }
        }
        find_highest_set_bit(self.bitfield)
    }

    fn set_bit_unchecked(&mut self, index: usize)
        ensures
            final(self)@ == old(self)@ | (1usize << index),
    {
        proof {
            lemma_word_members_or(self.bitfield, 1usize << index);
            lemma_word_members_shifted_one(index);
            assert(self.members().union(Set::<nat>::empty().insert(index as nat))
                =~= self.members().insert(index as nat));
        }
        self.bitfield |= 1usize << index;
    }

    fn clear_bit_unchecked(&mut self, index: usize)
        ensures
            final(self)@ == old(self)@ & !(1usize << index),
    {
        proof {
            lemma_word_members_and_not(self.bitfield, 1usize << index);
            lemma_word_members_shifted_one(index);
            assert(self.members().difference(Set::<nat>::empty().insert(index as nat))
                =~= self.members().remove(index as nat));
        }
        self.bitfield &= !(1usize << index);
    }

    fn test_bit_unchecked(&self, index: usize) -> (r: bool)
        ensures
            r == (self@ & (1usize << index) != 0),
    {
        proof {
            lemma_bit_test(self.bitfield, index);
        }
        (self.bitfield & (1usize << index)) != 0
    }
}

/// Masking a word with `1 << index` tells whether its bit `index` is set.
pub proof fn lemma_bit_test(word: usize, index: usize)
    requires
        index < usize::BITS,
    ensures
        (word & (1usize << index) != 0) == word_members(word).contains(index as nat),
{
    let v = word as u64;
    let k = index as u64;
    assert((word & (1usize << index) != 0) == ((v >> k) & 1 == 1)) by (bit_vector)
        requires
            index < usize::BITS,
            v == word as u64,
            k == index as u64,
    ;
}

/// Setting a bit a second time changes nothing, and neither does clearing it a second time.
pub proof fn lemma_bit_idempotence(word: usize, index: usize)
    ensures
        word_with_bit_set(word_with_bit_set(word, index), index) == word_with_bit_set(
            word,
            index,
        ),
        word_with_bit_cleared(word_with_bit_cleared(word, index), index) == word_with_bit_cleared(
            word,
            index,
        ),
{
    let mask = 1usize << index;
    assert((word | mask) | mask == word | mask) by (bit_vector);
    assert((word & !mask) & !mask == word & !mask) by (bit_vector);
}

/// A write to an index at or above the capacity changes nothing.
pub proof fn lemma_out_of_range_writes(word: usize, index: usize)
    requires
        index >= SMALL_BIT_FIELD_BIT_SIZE,
    ensures
        word_with_bit_set(word, index) == word,
        word_with_bit_cleared(word, index) == word,
{
}

} // verus!
