//! Sequence numbers: a 30-bit counter that wraps.

use crate::frame::SEQUENCE_SPAN;
use vstd::prelude::*;

verus! {

/// The sequence number that follows `seq`, wrapping to zero past the last one.
pub open spec fn next_sequence(seq: u32) -> u32 {
    if seq + 1 >= SEQUENCE_SPAN {
        0u32
    } else {
        (seq + 1) as u32
    }
}

/// Hands out sequence numbers in increasing order, one per request.
#[derive(Debug)]
pub struct SequenceAllocator {
    next: u32,
}

impl SequenceAllocator {
    #[verifier::type_invariant]
    spec fn in_range(self) -> bool {
        self.next < SEQUENCE_SPAN
    }

    /// The number that the next call of `allocate` returns.
    pub closed spec fn upcoming(self) -> u32 {
        self.next
    }

    /// A fresh allocator, which starts at zero.
    pub fn new() -> (alloc: Self)
        ensures
            alloc.upcoming() == 0,
    {
        SequenceAllocator { next: 0 }
    }

    /// An allocator whose first number is `first`, reduced to thirty bits.
    pub fn starting_at(first: u32) -> (alloc: Self)
        ensures
            alloc.upcoming() == first % SEQUENCE_SPAN,
    {
        SequenceAllocator { next: first % SEQUENCE_SPAN }
    }

    /// The number that the next call of `allocate` returns.
    pub fn peek(&self) -> (seq: u32)
        ensures
            seq == self.upcoming(),
            seq < SEQUENCE_SPAN,
    {
        proof {
            use_type_invariant(self);
        }
        self.next
    }

    /// Reserves the upcoming number and moves on to the one after it.
    pub fn allocate(&mut self) -> (seq: u32)
        ensures
            seq == old(self).upcoming(),
            seq < SEQUENCE_SPAN,
            final(self).upcoming() == next_sequence(seq),
    {
        proof {
            use_type_invariant(&*self);
        }
        let seq: u32 = self.next;
        if seq + 1 >= SEQUENCE_SPAN {
            self.next = 0;
        } else {
            self.next = seq + 1;
        }
        seq
    }
}

} // verus!
