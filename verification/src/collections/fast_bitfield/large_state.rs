//! What a large bitfield holds, as a value of mathematics, and what each operation makes of it.

use super::{is_greatest_member, is_least_member};
use crate::algorithms::bit_index::{
    bit_is_set, highest_set_bit, lemma_bit_of_and_not, lemma_bit_of_or, lemma_bit_of_shifted_one,
    lemma_scans_find_extremes, lemma_word_has_no_high_bits, lemma_zero_has_no_bits,
    lowest_set_bit,
};
use vstd::prelude::*;

verus! {

/// Defines the number of groups in a large bitfield, and the number of bits in each.
pub const LARGE_BIT_FIELD_GROUP_COUNT: usize = usize::BITS as usize;

/// Defines the number of words that a large bitfield keeps for its groups: one for each bit of
/// the widest machine word. Where the machine word is narrower, the words past
/// `LARGE_BIT_FIELD_GROUP_COUNT` are never read or written.
pub const LARGE_BIT_FIELD_GROUP_SLOTS: usize = 64;

/// Defines the maximum number of bits in a large bitfield.
#[verifier::nonlinear]
pub const LARGE_BIT_FIELD_BIT_SIZE: usize = LARGE_BIT_FIELD_GROUP_COUNT
    * LARGE_BIT_FIELD_GROUP_COUNT;

/// The group that holds the index `i`.
pub open spec fn group_of(i: nat) -> nat {
    i / (LARGE_BIT_FIELD_GROUP_COUNT as nat)
}

/// The bit that stands for the index `i` in its group.
pub open spec fn offset_of(i: nat) -> nat {
    i % (LARGE_BIT_FIELD_GROUP_COUNT as nat)
}

/// The indices that the words of the groups hold: `i` is one exactly when bit `offset_of(i)`
/// of the word of group `group_of(i)` is set.
pub open spec fn groups_members(groups: Seq<usize>) -> Set<nat> {
    Set::new(
        |i: nat|
            i < LARGE_BIT_FIELD_BIT_SIZE && bit_is_set(
                groups[group_of(i) as int] as u64,
                offset_of(i),
            ),
    )
}

/// The indices that the word `field` stands for when it is read as the word of group `group`.
pub open spec fn span_members(group: usize, field: usize) -> Set<nat> {
    Set::new(
        |i: nat|
            i < LARGE_BIT_FIELD_BIT_SIZE && group_of(i) == group && bit_is_set(
                field as u64,
                offset_of(i),
            ),
    )
}

/// The state of a large bitfield: one word for each group, and the layer cache over them.
pub struct LargeState {
    /// Bit `g` tells whether group `g` holds any bit.
    pub layer_cache: usize,
    /// The words of the groups.
    pub groups: Seq<usize>,
}

impl LargeState {
    /// The state without any bit.
    pub open spec fn empty() -> LargeState {
        LargeState {
            layer_cache: 0,
            groups: Seq::new(LARGE_BIT_FIELD_GROUP_COUNT as nat, |g: int| 0usize),
        }
    }

    /// There is a word for each group, and bit `g` of the layer cache is set exactly when the
    /// word of group `g` is not 0.
    pub open spec fn well_formed(self) -> bool {
        &&& self.groups.len() == LARGE_BIT_FIELD_GROUP_COUNT
        &&& forall|g: nat|
            g < LARGE_BIT_FIELD_GROUP_COUNT ==> (#[trigger] bit_is_set(self.layer_cache as u64, g)
                <==> self.groups[g as int] != 0)
    }

    /// The indices that the state holds.
    pub open spec fn members(self) -> Set<nat> {
        groups_members(self.groups)
    }

    /// The lowest index that the state holds, as the two lookups find it: the lowest group
    /// that the layer cache names, then the lowest bit of that group. It is 0 for the empty
    /// state.
    pub open spec fn lowest(self) -> nat {
        let level = lowest_set_bit(self.layer_cache as u64);
        (level * LARGE_BIT_FIELD_GROUP_COUNT + lowest_set_bit(self.groups[level as int] as u64))
            as nat
    }

    /// The highest index that the state holds, as the two lookups find it: the highest group
    /// that the layer cache names, then the highest bit of that group. It is 0 for the empty
    /// state.
    pub open spec fn highest(self) -> nat {
        let level = highest_set_bit(self.layer_cache as u64);
        (level * LARGE_BIT_FIELD_GROUP_COUNT + highest_set_bit(
            self.groups[level as int] as u64,
        )) as nat
    }

    /// The state after the bits of `field` were set in group `group`. A group that does not
    /// exist leaves the state as it is.
    pub open spec fn set_group(self, group: usize, field: usize) -> LargeState {
        if group < LARGE_BIT_FIELD_GROUP_COUNT {
            LargeState {
                layer_cache: self.layer_cache | (if field != 0 {
                    1usize << group
                } else {
                    0
                }),
                groups: self.groups.update(group as int, self.groups[group as int] | field),
            }
        } else {
            self
        }
    }

    /// The state after the bits of `field` were cleared in group `group`. A group that does not
    /// exist leaves the state as it is.
    pub open spec fn clear_group(self, group: usize, field: usize) -> LargeState {
        if group < LARGE_BIT_FIELD_GROUP_COUNT {
            let word = self.groups[group as int] & !field;
            LargeState {
                layer_cache: if word == 0 {
                    self.layer_cache & !(1usize << group)
                } else {
                    self.layer_cache
                },
                groups: self.groups.update(group as int, word),
            }
        } else {
            self
        }
    }

    /// The state after the bit `index` was set. An index at or above the capacity leaves the
    /// state as it is.
    pub open spec fn set_bit(self, index: usize) -> LargeState {
        if index < LARGE_BIT_FIELD_BIT_SIZE {
            self.set_group(
                index / LARGE_BIT_FIELD_GROUP_COUNT,
                1usize << (index % LARGE_BIT_FIELD_GROUP_COUNT),
            )
        } else {
            self
        }
    }

    /// The state after the bit `index` was cleared. An index at or above the capacity leaves
    /// the state as it is.
    pub open spec fn clear_bit(self, index: usize) -> LargeState {
        if index < LARGE_BIT_FIELD_BIT_SIZE {
            self.clear_group(
                index / LARGE_BIT_FIELD_GROUP_COUNT,
                1usize << (index % LARGE_BIT_FIELD_GROUP_COUNT),
            )
        } else {
            self
        }
    }

    /// The state after the bits of `values[g]` were set in group `g`, for each of the first
    /// `count` groups in turn.
    pub open spec fn set_groups(self, values: Seq<usize>, count: nat) -> LargeState
        decreases count,
    {
        if count == 0 {
            self
        } else {
            let g = (count - 1) as nat;
            self.set_groups(values, g).set_group(g as usize, values[g as int])
        }
    }

    /// The state after the bits of `values[g]` were cleared in group `g`, for each of the
    /// first `count` groups in turn.
    pub open spec fn clear_groups(self, values: Seq<usize>, count: nat) -> LargeState
        decreases count,
    {
        if count == 0 {
            self
        } else {
            let g = (count - 1) as nat;
            self.clear_groups(values, g).clear_group(g as usize, values[g as int])
        }
    }

    /// The state after the bits of `values[g]` were set in group `g`, for every group.
    pub open spec fn set_field(self, values: Seq<usize>) -> LargeState {
        self.set_groups(values, LARGE_BIT_FIELD_GROUP_COUNT as nat)
    }

    /// The state after the bits of `values[g]` were cleared in group `g`, for every group.
    pub open spec fn clear_field(self, values: Seq<usize>) -> LargeState {
        self.clear_groups(values, LARGE_BIT_FIELD_GROUP_COUNT as nat)
    }
}

/// A large bitfield holds 32 groups of 32 bits or 64 groups of 64 bits, as the machine word
/// has 32 bits or 64.
pub proof fn lemma_capacity()
    ensures
        LARGE_BIT_FIELD_GROUP_COUNT == usize::BITS,
        LARGE_BIT_FIELD_GROUP_COUNT == 32 && LARGE_BIT_FIELD_BIT_SIZE == 1024
            || LARGE_BIT_FIELD_GROUP_COUNT == 64 && LARGE_BIT_FIELD_BIT_SIZE == 4096,
{
    assert(32 * 32 == 1024 && 64 * 64 == 4096);
}

/// An index is made of its group and its offset, and it lies below the capacity exactly
/// when its group exists.
pub proof fn lemma_index_split(i: nat)
    ensures
        LARGE_BIT_FIELD_GROUP_COUNT == 32 || LARGE_BIT_FIELD_GROUP_COUNT == 64,
        LARGE_BIT_FIELD_BIT_SIZE == LARGE_BIT_FIELD_GROUP_COUNT * LARGE_BIT_FIELD_GROUP_COUNT,
        offset_of(i) < LARGE_BIT_FIELD_GROUP_COUNT,
        i == group_of(i) * LARGE_BIT_FIELD_GROUP_COUNT + offset_of(i),
        i < LARGE_BIT_FIELD_BIT_SIZE <==> group_of(i) < LARGE_BIT_FIELD_GROUP_COUNT,
{
    lemma_capacity();
}

/// The index that stands at bit `offset` of group `group`.
pub proof fn lemma_index_join(group: nat, offset: nat)
    requires
        offset < LARGE_BIT_FIELD_GROUP_COUNT,
    ensures
        group_of((group * LARGE_BIT_FIELD_GROUP_COUNT + offset) as nat) == group,
        offset_of((group * LARGE_BIT_FIELD_GROUP_COUNT + offset) as nat) == offset,
{
    lemma_index_split(0);
    if LARGE_BIT_FIELD_GROUP_COUNT == 32 {
        assert((group * 32 + offset) / 32 == group);
        assert((group * 32 + offset) % 32 == offset);
    } else {
        assert((group * 64 + offset) / 64 == group);
        assert((group * 64 + offset) % 64 == offset);
    }
}

/// The empty state is well formed and holds no index.
pub proof fn lemma_empty_state()
    ensures
        LargeState::empty().well_formed(),
        LargeState::empty().members() == Set::<nat>::empty(),
        LargeState::empty().lowest() == 0,
        LargeState::empty().highest() == 0,
{
    let s = LargeState::empty();
    assert forall|g: nat| g < LARGE_BIT_FIELD_GROUP_COUNT implies (#[trigger] bit_is_set(
        s.layer_cache as u64,
        g,
    ) <==> s.groups[g as int] != 0) by {
        lemma_zero_has_no_bits(g);
    }
    assert forall|i: nat| !s.members().contains(i) by {
        lemma_index_split(i);
        lemma_zero_has_no_bits(offset_of(i));
    }
    assert(s.members() =~= Set::<nat>::empty());
    crate::algorithms::bit_index::lemma_scans_of_zero();
}

/// Setting bits in a group keeps the state well formed and adds the indices that the bits
/// stand for.
pub proof fn lemma_set_group(s: LargeState, group: usize, field: usize)
    requires
        s.well_formed(),
    ensures
        s.set_group(group, field).well_formed(),
        s.set_group(group, field).members() == s.members().union(span_members(group, field)),
{
    let t = s.set_group(group, field);
    if group < LARGE_BIT_FIELD_GROUP_COUNT {
        let old_word = s.groups[group as int];
        let update: usize = if field != 0 {
            1usize << group
        } else {
            0
        };
        assert((old_word | field) != 0 <==> old_word != 0 || field != 0) by (bit_vector);
        assert forall|g: nat| g < LARGE_BIT_FIELD_GROUP_COUNT implies (#[trigger] bit_is_set(
            t.layer_cache as u64,
            g,
        ) <==> t.groups[g as int] != 0) by {
            lemma_bit_of_or(s.layer_cache, update, g);
            if field != 0 {
                lemma_bit_of_shifted_one(group, g);
            } else {
                lemma_zero_has_no_bits(g);
            }
            assert(bit_is_set(s.layer_cache as u64, g) <==> s.groups[g as int] != 0);
        }
    }
    assert forall|i: nat|
        t.members().contains(i) <==> s.members().union(span_members(group, field)).contains(
            i,
        ) by {
        lemma_index_split(i);
        if group < LARGE_BIT_FIELD_GROUP_COUNT && group_of(i) == group {
            lemma_bit_of_or(s.groups[group as int], field, offset_of(i));
        }
    }
    assert(t.members() =~= s.members().union(span_members(group, field)));
}

/// Clearing bits in a group keeps the state well formed and removes the indices that the bits
/// stand for.
pub proof fn lemma_clear_group(s: LargeState, group: usize, field: usize)
    requires
        s.well_formed(),
    ensures
        s.clear_group(group, field).well_formed(),
        s.clear_group(group, field).members() == s.members().difference(
            span_members(group, field),
        ),
{
    let t = s.clear_group(group, field);
    if group < LARGE_BIT_FIELD_GROUP_COUNT {
        let old_word = s.groups[group as int];
        assert((old_word & !field) != 0 ==> old_word != 0) by (bit_vector);
        assert forall|g: nat| g < LARGE_BIT_FIELD_GROUP_COUNT implies (#[trigger] bit_is_set(
            t.layer_cache as u64,
            g,
        ) <==> t.groups[g as int] != 0) by {
            lemma_bit_of_and_not(s.layer_cache, 1usize << group, g);
            lemma_bit_of_shifted_one(group, g);
            assert(bit_is_set(s.layer_cache as u64, g) <==> s.groups[g as int] != 0);
        }
    }
    assert forall|i: nat|
        t.members().contains(i) <==> s.members().difference(
            span_members(group, field),
        ).contains(i) by {
        lemma_index_split(i);
        if group < LARGE_BIT_FIELD_GROUP_COUNT && group_of(i) == group {
            lemma_bit_of_and_not(s.groups[group as int], field, offset_of(i));
        }
    }
    assert(t.members() =~= s.members().difference(span_members(group, field)));
}

/// The word `1 << offset_of(index)`, read as the word of group `group_of(index)`, stands for
/// the one index `index`.
pub proof fn lemma_span_of_index(index: usize)
    requires
        index < LARGE_BIT_FIELD_BIT_SIZE,
    ensures
        index / LARGE_BIT_FIELD_GROUP_COUNT < LARGE_BIT_FIELD_GROUP_COUNT,
        index % LARGE_BIT_FIELD_GROUP_COUNT < LARGE_BIT_FIELD_GROUP_COUNT,
        span_members(
            index / LARGE_BIT_FIELD_GROUP_COUNT,
            1usize << (index % LARGE_BIT_FIELD_GROUP_COUNT),
        ) == Set::<nat>::empty().insert(index as nat),
{
    lemma_index_split(index as nat);
    let group = index / LARGE_BIT_FIELD_GROUP_COUNT;
    let offset = index % LARGE_BIT_FIELD_GROUP_COUNT;
    let span = span_members(group, 1usize << offset);
    assert forall|i: nat| span.contains(i) <==> i == index by {
        lemma_index_split(i);
        lemma_bit_of_shifted_one(offset, offset_of(i));
    }
    assert(span =~= Set::<nat>::empty().insert(index as nat));
}

/// Setting a bit keeps the state well formed and adds its index; clearing a bit keeps the
/// state well formed and removes its index.
pub proof fn lemma_set_and_clear_bit(s: LargeState, index: usize)
    requires
        s.well_formed(),
        index < LARGE_BIT_FIELD_BIT_SIZE,
    ensures
        s.set_bit(index).well_formed(),
        s.set_bit(index).members() == s.members().insert(index as nat),
        s.clear_bit(index).well_formed(),
        s.clear_bit(index).members() == s.members().remove(index as nat),
{
    let group = index / LARGE_BIT_FIELD_GROUP_COUNT;
    let field = 1usize << (index % LARGE_BIT_FIELD_GROUP_COUNT);
    lemma_span_of_index(index);
    lemma_set_group(s, group, field);
    lemma_clear_group(s, group, field);
    let one = Set::<nat>::empty().insert(index as nat);
    assert(s.members().union(one) =~= s.members().insert(index as nat));
    assert(s.members().difference(one) =~= s.members().remove(index as nat));
}

/// A well-formed state holds no index exactly when its layer cache is 0.
pub proof fn lemma_empty_by_layer_cache(s: LargeState)
    requires
        s.well_formed(),
    ensures
        s.layer_cache == 0 <==> s.members() == Set::<nat>::empty(),
{
    if s.layer_cache == 0 {
        assert forall|i: nat| !s.members().contains(i) by {
            lemma_index_split(i);
            if i < LARGE_BIT_FIELD_BIT_SIZE {
                let g = group_of(i);
                lemma_zero_has_no_bits(g);
                assert(!bit_is_set(s.layer_cache as u64, g));
                assert(s.groups[g as int] == 0);
                lemma_zero_has_no_bits(offset_of(i));
            }
        }
        assert(s.members() =~= Set::<nat>::empty());
    } else {
        lemma_extremes(s);
        assert(s.members().contains(s.lowest()));
    }
}

/// In a well-formed state that holds an index, the two lookups find the least and the
/// greatest index that it holds.
pub proof fn lemma_extremes(s: LargeState)
    requires
        s.well_formed(),
        s.layer_cache != 0,
    ensures
        is_least_member(s.members(), s.lowest()),
        is_greatest_member(s.members(), s.highest()),
        s.lowest() < LARGE_BIT_FIELD_BIT_SIZE,
        s.highest() < LARGE_BIT_FIELD_BIT_SIZE,
{
    let n = LARGE_BIT_FIELD_GROUP_COUNT as nat;
    lemma_index_split(0);
    lemma_scans_find_extremes(s.layer_cache as u64);
    let low = lowest_set_bit(s.layer_cache as u64);
    let high = highest_set_bit(s.layer_cache as u64);
    if low >= n {
        lemma_word_has_no_high_bits(s.layer_cache, low);
    }
    if high >= n {
        lemma_word_has_no_high_bits(s.layer_cache, high);
    }
    let low_word = s.groups[low as int];
    let high_word = s.groups[high as int];
    assert(bit_is_set(s.layer_cache as u64, low));
    assert(bit_is_set(s.layer_cache as u64, high));
    lemma_scans_find_extremes(low_word as u64);
    lemma_scans_find_extremes(high_word as u64);
    let p = lowest_set_bit(low_word as u64);
    let q = highest_set_bit(high_word as u64);
    if p >= n {
        lemma_word_has_no_high_bits(low_word, p);
    }
    if q >= n {
        lemma_word_has_no_high_bits(high_word, q);
    }
    lemma_index_join(low, p);
    lemma_index_join(high, q);
    assert(s.lowest() < LARGE_BIT_FIELD_BIT_SIZE && s.highest() < LARGE_BIT_FIELD_BIT_SIZE)
        by (nonlinear_arith)
        requires
            s.lowest() == low * n + p,
            s.highest() == high * n + q,
            low < n,
            high < n,
            p < n,
            q < n,
            LARGE_BIT_FIELD_BIT_SIZE == n * n,
    ;
    assert forall|j: nat| s.members().contains(j) implies s.lowest() <= j <= s.highest() by {
        lemma_index_split(j);
        let g = group_of(j);
        let b = offset_of(j);
        lemma_zero_has_no_bits(b);
        assert(s.groups[g as int] != 0);
        assert(bit_is_set(s.layer_cache as u64, g));
        assert(low <= g <= high);
        if g == low {
            assert(p <= b);
        }
        if g == high {
            assert(b <= q);
        }
        assert(low * n + p <= g * n + b <= high * n + q) by (nonlinear_arith)
            requires
                low <= g <= high,
                g == low ==> p <= b,
                g == high ==> b <= q,
                p < n,
                q < n,
                b < n,
        ;
    }
}

/// Setting a bit that is set, or bits of which each is set, changes nothing; nor does clearing
/// what is clear.
proof fn lemma_word_idempotence(word: usize, field: usize)
    by (bit_vector)
    ensures
        (word | field) | field == word | field,
        (word & !field) & !field == word & !field,
{
}

/// Setting the bits of a group a second time changes nothing, and neither does clearing them
/// a second time.
pub proof fn lemma_group_idempotence(s: LargeState, group: usize, field: usize)
    requires
        s.well_formed(),
    ensures
        s.set_group(group, field).set_group(group, field) == s.set_group(group, field),
        s.clear_group(group, field).clear_group(group, field) == s.clear_group(group, field),
{
    if group < LARGE_BIT_FIELD_GROUP_COUNT {
        let update: usize = if field != 0 {
            1usize << group
        } else {
            0
        };
        lemma_word_idempotence(s.groups[group as int], field);
        lemma_word_idempotence(s.layer_cache, update);
        lemma_word_idempotence(s.layer_cache, 1usize << group);
        let once = s.set_group(group, field);
        assert(once.set_group(group, field).groups =~= once.groups);
        let cleared = s.clear_group(group, field);
        assert(cleared.clear_group(group, field).groups =~= cleared.groups);
    }
}

/// Setting a bit a second time changes nothing, and neither does clearing it a second time.
pub proof fn lemma_bit_idempotence(s: LargeState, index: usize)
    requires
        s.well_formed(),
    ensures
        s.set_bit(index).set_bit(index) == s.set_bit(index),
        s.clear_bit(index).clear_bit(index) == s.clear_bit(index),
{
    if index < LARGE_BIT_FIELD_BIT_SIZE {
        lemma_group_idempotence(
            s,
            index / LARGE_BIT_FIELD_GROUP_COUNT,
            1usize << (index % LARGE_BIT_FIELD_GROUP_COUNT),
        );
    }
}

/// A write to an index at or above the capacity, or to a group that does not exist, changes
/// nothing.
pub proof fn lemma_out_of_range_writes(s: LargeState, index: usize, group: usize, field: usize)
    requires
        index >= LARGE_BIT_FIELD_BIT_SIZE,
        group >= LARGE_BIT_FIELD_GROUP_COUNT,
    ensures
        s.set_bit(index) == s,
        s.clear_bit(index) == s,
        s.set_group(group, field) == s,
        s.clear_group(group, field) == s,
{
}

/// Whatever is set or cleared, bit by bit or group by group, bit `g` of the layer cache goes
/// on telling whether the word of group `g` is other than 0.
pub proof fn lemma_layer_cache_invariant(s: LargeState, index: usize, group: usize, field: usize)
    requires
        s.well_formed(),
    ensures
        s.set_bit(index).well_formed(),
        s.clear_bit(index).well_formed(),
        s.set_group(group, field).well_formed(),
        s.clear_group(group, field).well_formed(),
{
    lemma_set_group(s, group, field);
    lemma_clear_group(s, group, field);
    if index < LARGE_BIT_FIELD_BIT_SIZE {
        lemma_set_and_clear_bit(s, index);
    }
}

/// Setting a field group by group keeps the state well formed, and leaves in each group the
/// bits that it had together with those of the field.
pub proof fn lemma_set_groups(s: LargeState, values: Seq<usize>, count: nat)
    requires
        s.well_formed(),
        count <= LARGE_BIT_FIELD_GROUP_COUNT,
    ensures
        s.set_groups(values, count).well_formed(),
        forall|g: int|
            0 <= g < count ==> #[trigger] s.set_groups(values, count).groups[g] == s.groups[g]
                | values[g],
        forall|g: int|
            count <= g < LARGE_BIT_FIELD_GROUP_COUNT ==> #[trigger] s.set_groups(
                values,
                count,
            ).groups[g] == s.groups[g],
    decreases count,
{
    if count > 0 {
        let g = (count - 1) as nat;
        lemma_set_groups(s, values, g);
        lemma_set_group(s.set_groups(values, g), g as usize, values[g as int]);
    }
}

/// Clearing a field group by group keeps the state well formed, and leaves in each group the
/// bits that it had without those of the field.
pub proof fn lemma_clear_groups(s: LargeState, values: Seq<usize>, count: nat)
    requires
        s.well_formed(),
        count <= LARGE_BIT_FIELD_GROUP_COUNT,
    ensures
        s.clear_groups(values, count).well_formed(),
        forall|g: int|
            0 <= g < count ==> #[trigger] s.clear_groups(values, count).groups[g] == s.groups[g]
                & !values[g],
        forall|g: int|
            count <= g < LARGE_BIT_FIELD_GROUP_COUNT ==> #[trigger] s.clear_groups(
                values,
                count,
            ).groups[g] == s.groups[g],
    decreases count,
{
    if count > 0 {
        let g = (count - 1) as nat;
        lemma_clear_groups(s, values, g);
        lemma_clear_group(s.clear_groups(values, g), g as usize, values[g as int]);
    }
}

/// A well-formed state is the empty state as soon as the words of all its groups are 0.
pub proof fn lemma_all_groups_clear(s: LargeState)
    requires
        s.well_formed(),
        forall|g: int| 0 <= g < LARGE_BIT_FIELD_GROUP_COUNT ==> s.groups[g] == 0,
    ensures
        s == LargeState::empty(),
{
    assert forall|i: nat| !s.members().contains(i) by {
        lemma_index_split(i);
        lemma_zero_has_no_bits(offset_of(i));
    }
    assert(s.members() =~= Set::<nat>::empty());
    lemma_empty_by_layer_cache(s);
    assert(s.groups =~= LargeState::empty().groups);
}

/// Clearing the field that was set, where that field has every bit of every group, leaves
/// the empty state: the words of all groups are 0 and so is the layer cache.
pub proof fn lemma_field_round_trip(s: LargeState, values: Seq<usize>)
    requires
        s.well_formed(),
        forall|g: int| 0 <= g < LARGE_BIT_FIELD_GROUP_COUNT ==> values[g] == usize::MAX,
    ensures
        s.set_field(values).clear_field(values) == LargeState::empty(),
        s.set_field(values).clear_field(values).layer_cache == 0,
{
    let n = LARGE_BIT_FIELD_GROUP_COUNT as nat;
    let full = s.set_field(values);
    lemma_set_groups(s, values, n);
    lemma_clear_groups(full, values, n);
    let after = full.clear_field(values);
    assert forall|g: int| 0 <= g < LARGE_BIT_FIELD_GROUP_COUNT implies after.groups[g] == 0 by {
        let word = full.groups[g];
        let field = values[g];
        let field64 = field as u64;
        assert(word & !field == 0) by (bit_vector)
            requires
                field64 == field as u64,
                usize::BITS == 64 && field64 == 0xFFFF_FFFF_FFFF_FFFF || usize::BITS == 32
                    && field64 == 0xFFFF_FFFF,
        ;
    }
    lemma_all_groups_clear(after);
}

} // verus!
