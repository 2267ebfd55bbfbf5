//! # Fast Bitfield
//!
//! A fast bitfield is a set of indices below a fixed capacity that can set, clear and test a bit,
//! tell whether it is empty, and find its lowest and its highest set bit, each in a time that does
//! not depend on what the bitfield holds.
//!
//! A bitfield holds no lock: whoever shares one serializes the calls.

use crate::algorithms::bit_index::{
    bit_is_set, highest_set_bit, is_highest_set_bit, is_lowest_set_bit, lemma_bit_of_and_not,
    lemma_bit_of_or, lemma_bit_of_shifted_one, lemma_highest_is_leading_zeros,
    lemma_lowest_is_trailing_zeros, lemma_scans_find_extremes, lemma_scans_of_zero,
    lemma_word_has_no_high_bits, lemma_zero_has_no_bits, lowest_set_bit,
};
use crate::algorithms::debruijin;
use crate::cpu_features::opcodes;
use vstd::prelude::*;
use vstd::std_specs::bits::{u64_leading_zeros, u64_trailing_zeros};

pub mod large_bitfield;
pub mod large_state;
pub mod small_bitfield;

pub use large_bitfield::LargeBitField;
pub use large_state::{
    LargeState, LARGE_BIT_FIELD_BIT_SIZE, LARGE_BIT_FIELD_GROUP_COUNT, LARGE_BIT_FIELD_GROUP_SLOTS,
};
pub use small_bitfield::{SmallBitField, SMALL_BIT_FIELD_BIT_SIZE};

verus! {

/// `i` is a member of `s` and no member is smaller.
pub open spec fn is_least_member(s: Set<nat>, i: nat) -> bool {
    s.contains(i) && forall|j: nat| s.contains(j) ==> i <= j
}

/// `i` is a member of `s` and no member is greater.
pub open spec fn is_greatest_member(s: Set<nat>, i: nat) -> bool {
    s.contains(i) && forall|j: nat| s.contains(j) ==> j <= i
}

/// The positions of the bits that are set in a machine word.
pub open spec fn word_members(word: usize) -> Set<nat> {
    Set::new(|i: nat| bit_is_set(word as u64, i))
}

/// The bits of a machine word lie below the word size.
pub proof fn lemma_word_members_bounded(word: usize, i: nat)
    requires
        word_members(word).contains(i),
    ensures
        i < usize::BITS,
{
    if i >= usize::BITS {
        lemma_word_has_no_high_bits(word, i);
    }
}

/// The word 0 has no bits, and it is the only such word.
pub proof fn lemma_word_members_empty(word: usize)
    ensures
        word == 0 <==> word_members(word) == Set::<nat>::empty(),
{
    if word == 0 {
        assert forall|i: nat| !word_members(word).contains(i) by {
            lemma_zero_has_no_bits(i);
        }
        assert(word_members(word) =~= Set::<nat>::empty());
    } else {
        lemma_scans_find_extremes(word as u64);
        assert(word_members(word).contains(lowest_set_bit(word as u64)));
    }
}

/// The bits of `a | b` are those of `a` together with those of `b`.
pub proof fn lemma_word_members_or(a: usize, b: usize)
    ensures
        word_members(a | b) == word_members(a).union(word_members(b)),
{
    assert forall|i: nat|
        word_members(a | b).contains(i) <==> word_members(a).union(word_members(b)).contains(
            i,
        ) by {
        lemma_bit_of_or(a, b, i);
    }
    assert(word_members(a | b) =~= word_members(a).union(word_members(b)));
}

/// The bits of `a & !b` are those of `a` without those of `b`.
pub proof fn lemma_word_members_and_not(a: usize, b: usize)
    ensures
        word_members(a & !b) == word_members(a).difference(word_members(b)),
{
    assert forall|i: nat|
        word_members(a & !b).contains(i) <==> word_members(a).difference(
            word_members(b),
        ).contains(i) by {
        lemma_bit_of_and_not(a, b, i);
    }
    assert(word_members(a & !b) =~= word_members(a).difference(word_members(b)));
}

/// The word `1 << index` has the one bit `index`.
pub proof fn lemma_word_members_shifted_one(index: usize)
    requires
        index < usize::BITS,
    ensures
        word_members(1usize << index) == Set::<nat>::empty().insert(index as nat),
{
    assert forall|i: nat|
        word_members(1usize << index).contains(i) <==> Set::<nat>::empty().insert(
            index as nat,
        ).contains(i) by {
        lemma_bit_of_shifted_one(index, i);
    }
    assert(word_members(1usize << index) =~= Set::<nat>::empty().insert(index as nat));
}

/// The lowest set bit of a word other than 0 is the least of its bits, and the highest set bit
/// the greatest.
pub proof fn lemma_word_members_extremes(word: usize)
    requires
        word != 0,
    ensures
        is_least_member(word_members(word), lowest_set_bit(word as u64)),
        is_greatest_member(word_members(word), highest_set_bit(word as u64)),
{
    lemma_scans_find_extremes(word as u64);
}

/// Defines the required functionality for fast bitfields.
pub trait FastBitField: Sized {
    /// The indices that the bitfield holds.
    spec fn members(&self) -> Set<nat>;

    /// The number of indices that the bitfield type can hold.
    spec fn capacity() -> nat;

    /// What the parts of a bitfield owe each other. Every bitfield that this interface hands
    /// out or leaves behind is well formed.
    spec fn well_formed(&self) -> bool;

    /// Creates a new, empty bitfield.
    fn new() -> (r: Self)
        ensures
            r.well_formed(),
            r.members() == Set::<nat>::empty(),
    ;

    /// Gets the number of bits available in the bitfield type.
    fn get_number_of_bits() -> (r: usize)
        ensures
            r == Self::capacity(),
    ;

    /// Sets a bit in the bitfield. An index at or above the capacity changes nothing.
    fn set_bit(&mut self, index: usize)
        requires
            old(self).well_formed(),
        ensures
            final(self).well_formed(),
            index < Self::capacity() ==> final(self).members() == old(self).members().insert(
                index as nat,
            ),
            index >= Self::capacity() ==> *final(self) == *old(self),
    ;

    /// Clears a bit in the bitfield. An index at or above the capacity changes nothing.
    fn clear_bit(&mut self, index: usize)
        requires
            old(self).well_formed(),
        ensures
            final(self).well_formed(),
            index < Self::capacity() ==> final(self).members() == old(self).members().remove(
                index as nat,
            ),
            index >= Self::capacity() ==> *final(self) == *old(self),
    ;

    /// Gets the lowest set bit, or `None` if no bits are set.
    fn get_lowest_set_bit(&self) -> (r: Option<usize>)
        requires
            self.well_formed(),
        ensures
            match r {
                Some(i) => is_least_member(self.members(), i as nat),
                None => self.members() == Set::<nat>::empty(),
            },
    ;

    /// Gets the highest set bit, or `None` if no bits are set.
    fn get_highest_set_bit(&self) -> (r: Option<usize>)
        requires
            self.well_formed(),
        ensures
            match r {
                Some(i) => is_greatest_member(self.members(), i as nat),
                None => self.members() == Set::<nat>::empty(),
            },
    ;

    /// Gets the value of a specific bit: `Some(true)` if it is set, `Some(false)` if it is
    /// cleared, `None` if the index is at or above the capacity.
    fn test_bit(&self, index: usize) -> (r: Option<bool>)
        requires
            self.well_formed(),
        ensures
            r == if index < Self::capacity() {
                Some(self.members().contains(index as nat))
            } else {
                None
            },
    ;

    /// Determines whether or not the bitfield is empty.
    fn is_empty(&self) -> (r: bool)
        requires
            self.well_formed(),
        ensures
            r == (self.members() == Set::<nat>::empty()),
    ;

    /// Gets the lowest set bit without a branch, in a time that does not depend on the state of
    /// the bitfield.
    ///
    /// Only to be used where the bitfield is known to hold a bit: of an empty bitfield this
    /// interface promises no particular result.
    fn get_lowest_set_bit_unchecked(&self) -> (r: usize)
        requires
            self.well_formed(),
        ensures
            self.members() != Set::<nat>::empty() ==> is_least_member(self.members(), r as nat),
    ;

    /// Gets the highest set bit without a branch, in a time that does not depend on the state
    /// of the bitfield.
    ///
    /// Only to be used where the bitfield is known to hold a bit: of an empty bitfield this
    /// interface promises no particular result.
    fn get_highest_set_bit_unchecked(&self) -> (r: usize)
        requires
            self.well_formed(),
        ensures
            self.members() != Set::<nat>::empty() ==> is_greatest_member(
                self.members(),
                r as nat,
            ),
    ;

    /// Sets a bit in the bitfield, without checking the index: the caller guarantees that it
    /// is below the capacity.
    fn set_bit_unchecked(&mut self, index: usize)
        requires
            old(self).well_formed(),
            index < Self::capacity(),
        ensures
            final(self).well_formed(),
            final(self).members() == old(self).members().insert(index as nat),
    ;

    /// Clears a bit in the bitfield, without checking the index: the caller guarantees that it
    /// is below the capacity.
    fn clear_bit_unchecked(&mut self, index: usize)
        requires
            old(self).well_formed(),
            index < Self::capacity(),
        ensures
            final(self).well_formed(),
            final(self).members() == old(self).members().remove(index as nat),
    ;

    /// Gets the value of a specific bit, without checking the index: the caller guarantees
    /// that it is below the capacity.
    fn test_bit_unchecked(&self, index: usize) -> (r: bool)
        requires
            self.well_formed(),
            index < Self::capacity(),
        ensures
            r == self.members().contains(index as nat),
    ;
}

/// The lowest set bit of a machine word as the count of its trailing zeros gives it, with 0
/// for the word 0.
pub open spec fn lowest_by_count(value: usize) -> nat {
    if value == 0 {
        0
    } else {
        u64_trailing_zeros(value as u64) as nat
    }
}

/// The highest set bit of a machine word as the count of its leading zeros gives it, with 0
/// for the word 0.
pub open spec fn highest_by_count(value: usize) -> nat {
    if value == 0 {
        0
    } else {
        (63 - u64_leading_zeros(value as u64)) as nat
    }
}

/// The zero counts of the hardware and the linear scans, which is what the De Bruijn lookup
/// returns, name the same bit of every machine word.
pub proof fn lemma_counts_match_scans(value: usize)
    ensures
        lowest_by_count(value) == lowest_set_bit(value as u64),
        highest_by_count(value) == highest_set_bit(value as u64),
        lowest_by_count(value) < usize::BITS,
        highest_by_count(value) < usize::BITS,
        value != 0 ==> is_lowest_set_bit(value as u64, lowest_by_count(value)),
        value != 0 ==> is_highest_set_bit(value as u64, highest_by_count(value)),
{
    if value == 0 {
        lemma_scans_of_zero();
    } else {
        let v = value as u64;
        lemma_lowest_is_trailing_zeros(v);
        lemma_highest_is_leading_zeros(v);
        if lowest_by_count(value) >= usize::BITS {
            lemma_word_has_no_high_bits(value, lowest_by_count(value));
        }
        if highest_by_count(value) >= usize::BITS {
            lemma_word_has_no_high_bits(value, highest_by_count(value));
        }
    }
}

/// Gets the lowest set bit of a machine word from the count of its trailing zeros, and 0 for
/// the word 0.
pub fn native_lowest_set_bit(value: usize) -> (r: usize)
    ensures
        r == lowest_by_count(value),
{
    if value == 0 {
        0
    } else {
        proof {
            lemma_counts_match_scans(value);
        }
        (value as u64).trailing_zeros() as usize
    }
}

/// Gets the highest set bit of a machine word from the count of its leading zeros, and 0 for
/// the word 0.
pub fn native_highest_set_bit(value: usize) -> (r: usize)
    ensures
        r == highest_by_count(value),
{
    if value == 0 {
        0
    } else {
        proof {
            lemma_counts_match_scans(value);
        }
        63 - (value as u64).leading_zeros() as usize
    }
}

/// Gets the lowest set bit of a machine word, and 0 for the word 0.
///
/// Uses the instruction of the hardware where the target has one, and the De Bruijn lookup
/// where it has none.
pub fn find_lowest_set_bit(value: usize) -> (r: usize)
    ensures
        r == lowest_set_bit(value as u64),
        value == 0 ==> r == 0,
        r < usize::BITS,
        value != 0 ==> is_lowest_set_bit(value as u64, r as nat),
{
    if opcodes::count_leading_zeros_exists() {
        proof {
            lemma_counts_match_scans(value);
        }
        native_lowest_set_bit(value)
    } else {
        debruijin::get_lowest_set_bit(value)
    }
}

/// Gets the highest set bit of a machine word, and 0 for the word 0.
///
/// Uses the instruction of the hardware where the target has one, and the De Bruijn lookup
/// where it has none.
pub fn find_highest_set_bit(value: usize) -> (r: usize)
    ensures
        r == highest_set_bit(value as u64),
        value == 0 ==> r == 0,
        r < usize::BITS,
        value != 0 ==> is_highest_set_bit(value as u64, r as nat),
{
    if opcodes::count_leading_zeros_exists() {
        proof {
            lemma_counts_match_scans(value);
        }
        native_highest_set_bit(value)
    } else {
        debruijin::get_highest_set_bit(value)
    }
}

} // verus!
