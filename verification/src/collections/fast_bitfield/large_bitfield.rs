//! A fast bitfield of two levels: one machine word for each of `usize::BITS` groups, and a layer
//! cache, one more word, whose bit `g` tells whether group `g` holds any bit.
//!
//! The lowest or highest set bit is found with two lookups, whatever the bitfield holds: one
//! in the layer cache for the group, one in the word of that group for the bit.

use super::large_state::{
    lemma_clear_group, lemma_empty_by_layer_cache, lemma_empty_state, lemma_extremes,
    lemma_index_split, lemma_set_and_clear_bit, lemma_set_group, lemma_span_of_index,
    span_members, LargeState, LARGE_BIT_FIELD_BIT_SIZE, LARGE_BIT_FIELD_GROUP_COUNT,
    LARGE_BIT_FIELD_GROUP_SLOTS,
};
use super::small_bitfield::lemma_bit_test;
use super::{find_highest_set_bit, find_lowest_set_bit, FastBitField};
use crate::algorithms::bit_index::bit_is_set;
use vstd::prelude::*;

verus! {

/// A fast bitfield that holds `usize::BITS * usize::BITS` bits.
pub struct LargeBitField {
    /// Bit `g` is set exactly when group `g` holds any bit.
    layer_cache: usize,
    /// Holds the bitfield state, one word for each group.
    bitfield: [usize; LARGE_BIT_FIELD_GROUP_SLOTS],
}

impl View for LargeBitField {
    type V = LargeState;

    closed spec fn view(&self) -> LargeState {
        LargeState {
            layer_cache: self.layer_cache,
            groups: self.bitfield@.subrange(0, LARGE_BIT_FIELD_GROUP_COUNT as int),
        }
    }
}

/// Masking the layer cache with `1 << group` tells whether the group holds any bit.
proof fn lemma_group_test(s: LargeState, group: usize)
    requires
        s.well_formed(),
        group < LARGE_BIT_FIELD_GROUP_COUNT,
    ensures
        (s.layer_cache & (1usize << group) != 0) == (s.groups[group as int] != 0),
{
    lemma_bit_test(s.layer_cache, group);
    assert(bit_is_set(s.layer_cache as u64, group as nat) <==> s.groups[group as int] != 0);
}

/// Clearing no bit leaves a word as it is.
proof fn lemma_and_not_zero(word: usize)
    by (bit_vector)
    ensures
        word & !0usize == word,
{
}

/// Defines functionality unique to LargeBitField.
impl LargeBitField {
    /// Gets the layer cache.
    pub fn get_layer_cache(&self) -> (r: usize)
        ensures
            r == self@.layer_cache,
    {
        self.layer_cache
    }

    /// Gets the words of the groups.
    pub fn get_field(&self) -> (r: [usize; LARGE_BIT_FIELD_GROUP_SLOTS])
        ensures
            r@.subrange(0, LARGE_BIT_FIELD_GROUP_COUNT as int) == self@.groups,
    {
        self.bitfield
    }

    /// Tests whether a group holds any bit: `Some(true)` if it does, `Some(false)` if it
    /// does not, `None` if there is no such group.
    pub fn test_group(&self, group_index: usize) -> (r: Option<bool>)
        requires
            self@.well_formed(),
        ensures
            r == if group_index < LARGE_BIT_FIELD_GROUP_COUNT {
                Some(self@.groups[group_index as int] != 0)
            } else {
                None
            },
    {
        if group_index < LARGE_BIT_FIELD_GROUP_COUNT {
            return Some(self.test_group_unchecked(group_index));
        }
        None
    }

    /// Sets the bits of `group_field` in a group. A group that does not exist changes nothing.
    pub fn set_group(&mut self, group_index: usize, group_field: usize)
        requires
            old(self)@.well_formed(),
        ensures
            final(self)@ == old(self)@.set_group(group_index, group_field),
            final(self)@.well_formed(),
            final(self)@.members() == old(self)@.members().union(
                span_members(group_index, group_field),
            ),
    {
        proof {
            lemma_set_group(self@, group_index, group_field);
        }
        if group_index < LARGE_BIT_FIELD_GROUP_COUNT {
            self.set_group_unchecked(group_index, group_field);
        }
    }

    /// Clears the bits of `group_field` in a group. A group that does not exist changes
    /// nothing.
    pub fn clear_group(&mut self, group_index: usize, group_field: usize)
        requires
            old(self)@.well_formed(),
        ensures
            final(self)@ == old(self)@.clear_group(group_index, group_field),
            final(self)@.well_formed(),
            final(self)@.members() == old(self)@.members().difference(
                span_members(group_index, group_field),
            ),
    {
        proof {
            lemma_clear_group(self@, group_index, group_field);
        }
        if group_index < LARGE_BIT_FIELD_GROUP_COUNT {
            self.clear_group_unchecked(group_index, group_field);
        }
    }

    /// Tests whether a group holds any bit, without checking the index: the caller guarantees
    /// that the group exists.
    pub fn test_group_unchecked(&self, group_index: usize) -> (r: bool)
        requires
            self@.well_formed(),
            group_index < LARGE_BIT_FIELD_GROUP_COUNT,
        ensures
            r == (self@.groups[group_index as int] != 0),
    {
        proof {
            lemma_group_test(self@, group_index);
        }
        (self.layer_cache & (1usize << group_index)) != 0
    }

    /// Sets the bits of `group_field` in a group, without checking the index: the caller
    /// guarantees that the group exists.
    pub fn set_group_unchecked(&mut self, group_index: usize, group_field: usize)
        requires
            old(self)@.well_formed(),
            group_index < LARGE_BIT_FIELD_GROUP_COUNT,
        ensures
            final(self)@ == old(self)@.set_group(group_index, group_field),
            final(self)@.well_formed(),
            final(self)@.members() == old(self)@.members().union(
                span_members(group_index, group_field),
            ),
    {
        proof {
            lemma_set_group(self@, group_index, group_field);
        }
        // Turn the boolean into a word to avoid branching.
        let field_has_values: usize = (group_field != 0) as usize;
        let layer_cache_update: usize = (1usize << group_index) * field_has_values;

        let subfield: usize = self.bitfield[group_index] | group_field;
        self.bitfield[group_index] = subfield;

        self.layer_cache |= layer_cache_update;
        assert(self@.groups =~= old(self)@.set_group(group_index, group_field).groups);
    }

    /// Clears the bits of `group_field` in a group, without checking the index: the caller
    /// guarantees that the group exists.
    pub fn clear_group_unchecked(&mut self, group_index: usize, group_field: usize)
        requires
            old(self)@.well_formed(),
            group_index < LARGE_BIT_FIELD_GROUP_COUNT,
        ensures
            final(self)@ == old(self)@.clear_group(group_index, group_field),
            final(self)@.well_formed(),
            final(self)@.members() == old(self)@.members().difference(
                span_members(group_index, group_field),
            ),
    {
        proof {
            lemma_clear_group(self@, group_index, group_field);
        }
        let subfield: usize = self.bitfield[group_index] & !group_field;
        self.bitfield[group_index] = subfield;

        // Turn the boolean into a word to avoid branching.
        let is_clear: usize = (subfield == 0) as usize;
        let layer_cache_update: usize = (1usize << group_index) * is_clear;
        proof {
            lemma_and_not_zero(self.layer_cache);
        }
        self.layer_cache &= !layer_cache_update;
        assert(self@.groups =~= old(self)@.clear_group(group_index, group_field).groups);
    }

    /// Sets, in every group `g`, the bits of `values[g]`.
    pub fn set_field(&mut self, values: &[usize; LARGE_BIT_FIELD_GROUP_SLOTS])
        requires
            old(self)@.well_formed(),
        ensures
            final(self)@ == old(self)@.set_field(values@),
            final(self)@.well_formed(),
            forall|g: int|
                0 <= g < LARGE_BIT_FIELD_GROUP_COUNT ==> #[trigger] final(self)@.groups[g] == old(
                    self,
                )@.groups[g] | values@[g],
    {
        let mut index: usize = 0;
        while index < LARGE_BIT_FIELD_GROUP_COUNT
            invariant
                index <= LARGE_BIT_FIELD_GROUP_COUNT,
                self@ == old(self)@.set_groups(values@, index as nat),
                self@.well_formed(),
                forall|g: int|
                    0 <= g < index ==> #[trigger] self@.groups[g] == old(self)@.groups[g]
                        | values@[g],
                forall|g: int|
                    index <= g < LARGE_BIT_FIELD_GROUP_COUNT ==> #[trigger] self@.groups[g] == old(
                        self,
                    )@.groups[g],
            decreases LARGE_BIT_FIELD_GROUP_COUNT - index,
        {
            self.set_group_unchecked(index, values[index]);
            index += 1;
        }
    }

    /// Clears, in every group `g`, the bits of `values[g]`.
    pub fn clear_field(&mut self, values: &[usize; LARGE_BIT_FIELD_GROUP_SLOTS])
        requires
            old(self)@.well_formed(),
        ensures
            final(self)@ == old(self)@.clear_field(values@),
            final(self)@.well_formed(),
            forall|g: int|
                0 <= g < LARGE_BIT_FIELD_GROUP_COUNT ==> #[trigger] final(self)@.groups[g] == old(
                    self,
                )@.groups[g] & !values@[g],
    {
        let mut index: usize = 0;
        while index < LARGE_BIT_FIELD_GROUP_COUNT
            invariant
                index <= LARGE_BIT_FIELD_GROUP_COUNT,
                self@ == old(self)@.clear_groups(values@, index as nat),
                self@.well_formed(),
                forall|g: int|
                    0 <= g < index ==> #[trigger] self@.groups[g] == old(self)@.groups[g]
                        & !values@[g],
                forall|g: int|
                    index <= g < LARGE_BIT_FIELD_GROUP_COUNT ==> #[trigger] self@.groups[g] == old(
                        self,
                    )@.groups[g],
            decreases LARGE_BIT_FIELD_GROUP_COUNT - index,
        {
            self.clear_group_unchecked(index, values[index]);
            index += 1;
        }
    }
}

/// Defines the FastBitField interface for LargeBitField.
impl FastBitField for LargeBitField {
    open spec fn members(&self) -> Set<nat> {
        self@.members()
    }

    open spec fn capacity() -> nat {
        LARGE_BIT_FIELD_BIT_SIZE as nat
    }

    open spec fn well_formed(&self) -> bool {
        self@.well_formed()
    }

    fn new() -> (r: Self)
        ensures
            r@ == LargeState::empty(),
    {
        proof {
            lemma_empty_state();
        }
        let r = LargeBitField { layer_cache: 0, bitfield: [0; LARGE_BIT_FIELD_GROUP_SLOTS] };
        assert(r@.groups =~= LargeState::empty().groups);
        r
    }

    fn get_number_of_bits() -> (r: usize) {
        LARGE_BIT_FIELD_BIT_SIZE
    }

    fn set_bit(&mut self, index: usize)
        ensures
            final(self)@ == old(self)@.set_bit(index),
    {
        let top_layer: usize = index / LARGE_BIT_FIELD_GROUP_COUNT;
        proof {
            lemma_index_split(index as nat);
        }
        if top_layer < LARGE_BIT_FIELD_GROUP_COUNT {
            self.set_bit_unchecked(index);
        }
    }

    fn clear_bit(&mut self, index: usize)
        ensures
            final(self)@ == old(self)@.clear_bit(index),
    {
        let top_layer: usize = index / LARGE_BIT_FIELD_GROUP_COUNT;
        proof {
            lemma_index_split(index as nat);
        }
        if top_layer < LARGE_BIT_FIELD_GROUP_COUNT {
            self.clear_bit_unchecked(index);
        }
    }

    fn get_lowest_set_bit(&self) -> (r: Option<usize>)
        ensures
            r == if self@.layer_cache == 0 {
                None
            } else {
                Some(self@.lowest() as usize)
            },
    {
        if self.is_empty() {
            return None;
        }
        Some(self.get_lowest_set_bit_unchecked())
    }

    fn get_highest_set_bit(&self) -> (r: Option<usize>)
        ensures
            r == if self@.layer_cache == 0 {
                None
            } else {
                Some(self@.highest() as usize)
            },
    {
        if self.is_empty() {
            return None;
        }
        Some(self.get_highest_set_bit_unchecked())
    }

    fn test_bit(&self, index: usize) -> (r: Option<bool>) {
        if index < LARGE_BIT_FIELD_BIT_SIZE {
            return Some(self.test_bit_unchecked(index));
        }
        None
    }

    fn is_empty(&self) -> (r: bool)
        ensures
            r == (self@.layer_cache == 0),
    {
        proof {
            lemma_empty_by_layer_cache(self@);
        }
        self.layer_cache == 0
    }

    fn get_lowest_set_bit_unchecked(&self) -> (r: usize)
        ensures
            r == self@.lowest(),
    {
        let level: usize = find_lowest_set_bit(self.layer_cache);
        let sub_field: usize = self.bitfield[level];
        let offset: usize = find_lowest_set_bit(sub_field);
        proof {
            lemma_index_split(0);
            lemma_empty_by_layer_cache(self@);
            if self.layer_cache != 0 {
                lemma_extremes(self@);
            }
            assert(level * LARGE_BIT_FIELD_GROUP_COUNT <= 63 * 64) by (nonlinear_arith)
                requires
                    level < LARGE_BIT_FIELD_GROUP_COUNT <= 64,
            ;
        }
        (level * LARGE_BIT_FIELD_GROUP_COUNT) + offset
    }

    fn get_highest_set_bit_unchecked(&self) -> (r: usize)
        ensures
            r == self@.highest(),
    {
        let level: usize = find_highest_set_bit(self.layer_cache);
        let sub_field: usize = self.bitfield[level];
        let offset: usize = find_highest_set_bit(sub_field);
        proof {
            lemma_index_split(0);
            lemma_empty_by_layer_cache(self@);
            if self.layer_cache != 0 {
                lemma_extremes(self@);
            }
            assert(level * LARGE_BIT_FIELD_GROUP_COUNT <= 63 * 64) by (nonlinear_arith)
                requires
                    level < LARGE_BIT_FIELD_GROUP_COUNT <= 64,
            ;
        }
        (level * LARGE_BIT_FIELD_GROUP_COUNT) + offset
    }

    fn set_bit_unchecked(&mut self, index: usize)
        ensures
            final(self)@ == old(self)@.set_bit(index),
    {
        let top_layer: usize = index / LARGE_BIT_FIELD_GROUP_COUNT;
        let bottom_layer: usize = index % LARGE_BIT_FIELD_GROUP_COUNT;
        proof {
            lemma_span_of_index(index);
            lemma_set_and_clear_bit(self@, index);
        }
        self.layer_cache |= 1usize << top_layer;
        let sub_field: usize = self.bitfield[top_layer] | (1usize << bottom_layer);
        self.bitfield[top_layer] = sub_field;
        proof {
            lemma_shifted_one_is_not_zero(bottom_layer);
            assert(self@.groups =~= old(self)@.set_bit(index).groups);
        }
    }

    fn clear_bit_unchecked(&mut self, index: usize)
        ensures
            final(self)@ == old(self)@.clear_bit(index),
    {
        let top_layer: usize = index / LARGE_BIT_FIELD_GROUP_COUNT;
        let bottom_layer: usize = index % LARGE_BIT_FIELD_GROUP_COUNT;
        proof {
            lemma_span_of_index(index);
            lemma_set_and_clear_bit(self@, index);
        }
        let sub_field: usize = self.bitfield[top_layer] & !(1usize << bottom_layer);
        self.bitfield[top_layer] = sub_field;

        // Turn the boolean into a word to avoid branching.
        let is_clear: usize = (sub_field == 0) as usize;
        let layer_cache_update: usize = (1usize << top_layer) * is_clear;
        proof {
            lemma_and_not_zero(self.layer_cache);
        }
        self.layer_cache &= !layer_cache_update;
        assert(self@.groups =~= old(self)@.clear_bit(index).groups);
    }

    fn test_bit_unchecked(&self, index: usize) -> (r: bool) {
        let top_layer: usize = index / LARGE_BIT_FIELD_GROUP_COUNT;
        let bottom_layer: usize = index % LARGE_BIT_FIELD_GROUP_COUNT;
        proof {
            lemma_index_split(index as nat);
        }
        let bottom_mask: usize = 1usize << bottom_layer;
        let sub_field: usize = self.bitfield[top_layer];
        proof {
            lemma_bit_test(sub_field, bottom_layer);
        }
        (sub_field & bottom_mask) != 0
    }
}

/// The word `1 << offset` is not 0.
proof fn lemma_shifted_one_is_not_zero(offset: usize)
    by (bit_vector)
    requires
        offset < usize::BITS,
    ensures
        1usize << offset != 0,
{
}

} // verus!
