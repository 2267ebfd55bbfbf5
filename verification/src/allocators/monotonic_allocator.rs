//! # Monotonic Allocator
//!
//! The allocator hands out the bytes of a heap of fixed size from its start to its end. It keeps
//! a free index, the offset of the next byte that is available: an allocation moves the free
//! index up, past the bytes it hands out, and a free changes nothing. This wastes the memory
//! that is freed, and bounds the time of every allocation.
//!
//! The allocator keeps the book on a heap and never touches its bytes: it tells offsets, and
//! whoever owns the memory turns them into addresses.

use super::alignment::{
    align_up, is_power_of_two, lemma_align_up, lemma_align_up_by_mask, lemma_aligned_by_mask,
    lemma_power_of_two_ceiling, lemma_power_of_two_test, power_of_two_ceiling,
};
use vstd::prelude::*;

verus! {

/// The state of a monotonic allocator.
pub struct AllocatorState {
    /// The number of bytes in the heap.
    pub heap_size: nat,
    /// The offset of the next free byte in the heap.
    pub free_index: nat,
}

impl AllocatorState {
    /// The free index lies in the heap or at its end, and the heap is no larger than any
    /// object in memory can be.
    pub open spec fn well_formed(self) -> bool {
        self.free_index <= self.heap_size <= isize::MAX
    }

    /// The offset at which an allocation with the alignment `align` would start.
    pub open spec fn aligned_index(self, align: nat) -> nat {
        align_up(self.free_index, align)
    }

    /// The heap has room for `size` bytes at the alignment `align`: the size is not 0, the
    /// alignment is a power of two, and the bytes end in the heap.
    pub open spec fn can_allocate(self, size: nat, align: nat) -> bool {
        &&& size != 0
        &&& is_power_of_two(align)
        &&& self.aligned_index(align) + size <= self.heap_size
    }

    /// The state after an allocation of `size` bytes at the alignment `align`: the free index
    /// stands behind the bytes where there was room for them, and where it stood where there
    /// was none.
    pub open spec fn allocate(self, size: nat, align: nat) -> AllocatorState {
        if self.can_allocate(size, align) {
            AllocatorState {
                heap_size: self.heap_size,
                free_index: self.aligned_index(align) + size,
            }
        } else {
            self
        }
    }
}

/// `usize::next_power_of_two`: the smallest power of two that is not below `x`. It is for
/// words up to the greatest power of two that a machine word holds.
pub assume_specification[ usize::next_power_of_two ](x: usize) -> (r: usize)
    requires
        x <= usize::MAX / 2 + 1,
    ensures
        is_power_of_two(r as nat),
        x <= r,
        forall|p: nat| #[trigger] is_power_of_two(p) && x <= p ==> r <= p,
;

/// Defines the structure for the Monotonic Allocator.
/// This type is not thread-safe.
pub struct MonotonicAllocator {
    /// The number of bytes in the heap.
    heap_size: usize,
    /// The offset of the next free byte in the heap.
    free_index: usize,
}

impl View for MonotonicAllocator {
    type V = AllocatorState;

    closed spec fn view(&self) -> AllocatorState {
        AllocatorState { heap_size: self.heap_size as nat, free_index: self.free_index as nat }
    }
}

/// Implements the functionality unique to `MonotonicAllocator`.
impl MonotonicAllocator {
    /// Creates a new allocator for a heap of `size` bytes at `address`.
    ///
    /// The heap is to be aligned to its size, rounded up to a power of two: the result is
    /// `None` where it is not, and where no object in memory can have the size.
    pub fn new(address: usize, size: usize) -> (r: Option<Self>)
        ensures
            r.is_some() <==> size <= isize::MAX && (address as nat) % power_of_two_ceiling(
                size as nat,
            ) == 0,
            r.is_some() ==> r.unwrap()@ == (AllocatorState {
                heap_size: size as nat,
                free_index: 0,
            }) && r.unwrap()@.well_formed(),
    {
        if size > isize::MAX as usize {
            return None;
        }
        // Verify the alignment.
        let desired_alignment: usize = size.next_power_of_two();
        proof {
            lemma_power_of_two_ceiling(size as nat);
            let spec_alignment = power_of_two_ceiling(size as nat);
            assert(is_power_of_two(spec_alignment));
            assert(spec_alignment == desired_alignment);
            lemma_power_of_two_test(desired_alignment);
            lemma_aligned_by_mask(address, desired_alignment);
        }
        if address & (desired_alignment - 1) != 0 {
            return None;
        }
        Some(MonotonicAllocator { heap_size: size, free_index: 0 })
    }

    /// Determines the amount of free space remaining in the allocator.
    pub fn free_space(&self) -> (r: usize)
        requires
            self@.well_formed(),
        ensures
            r == self@.heap_size - self@.free_index,
    {
        self.heap_size - self.free_index
    }

    /// Gets the offset of the next free byte in the heap.
    pub fn get_free_index(&self) -> (r: usize)
        ensures
            r == self@.free_index,
    {
        self.free_index
    }

    /// Allocates `size` bytes at the alignment `align`.
    ///
    /// Returns the offset of the bytes in the heap, or `None` if the allocator doesn't have
    /// enough memory or cannot serve the request: a size of 0, or an alignment that is not a
    /// power of two.
    pub fn alloc_memory(&mut self, size: usize, align: usize) -> (r: Option<usize>)
        requires
            old(self)@.well_formed(),
        ensures
            final(self)@.well_formed(),
            final(self)@ == old(self)@.allocate(size as nat, align as nat),
            r == if old(self)@.can_allocate(size as nat, align as nat) {
                Some(old(self)@.aligned_index(align as nat) as usize)
            } else {
                None
            },
    {
        proof {
            lemma_power_of_two_test(align);
        }
        if align == 0 || align & (align - 1) != 0 {
            return None;
        }
        proof {
            lemma_high_power_of_two(align);
            lemma_align_up_by_mask(self.free_index, align);
            lemma_align_up(self.free_index as nat, align as nat);
        }
        let align_mask: usize = align - 1;
        let aligned_index: usize = (self.free_index + align_mask) & !align_mask;

        if size != 0 {
            if aligned_index <= self.heap_size && (self.heap_size - aligned_index) >= size {
                self.free_index = aligned_index + size;
                return Some(aligned_index);
            }
        }
        None
    }

    /// Frees memory to the allocator, which does nothing.
    pub fn dealloc(&mut self, _offset: usize, _size: usize, _align: usize)
        ensures
            *final(self) == *old(self),
    {
    }
}

/// A power of two in a machine word is at most one more than half of the greatest word.
proof fn lemma_high_power_of_two(align: usize)
    by (bit_vector)
    requires
        align != 0,
        align & ((align - 1) as usize) == 0,
    ensures
        align <= (!0usize) / 2 + 1,
{
}

} // verus!
