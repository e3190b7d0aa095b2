//! Allocation of identifiers that are never handed out twice.

use vstd::prelude::*;

verus! {

/// Hands out 32-bit identifiers in increasing order, starting from zero.
pub struct IdAllocator {
    next: u32,
}

impl IdAllocator {
    /// The identifier that the next allocation returns.
    pub closed spec fn spec_next(self) -> int {
        self.next as int
    }

    /// How many identifiers are left.
    pub open spec fn remaining(self) -> int {
        u32::MAX - self.spec_next()
    }

    /// The next identifier is a 32-bit number.
    pub proof fn lemma_next_in_range(self)
        ensures
            0 <= self.spec_next() <= u32::MAX,
    {
    }

    /// An allocator that has handed out nothing yet.
    pub fn new() -> (a: IdAllocator)
        ensures
            a.spec_next() == 0,
    {
        IdAllocator { next: 0 }
    }

    /// The identifier that the next allocation returns.
    pub fn next(&self) -> (n: u32)
        ensures
            n == self.spec_next(),
    {
        self.next
    }

    /// Whether `count` more identifiers can be allocated.
    pub fn has_remaining(&self, count: u32) -> (enough: bool)
        ensures
            enough == (self.remaining() >= count),
    {
        u32::MAX - self.next >= count
    }

    /// Allocate a new identifier.
    pub fn allocate(&mut self) -> (id: u32)
        requires
            old(self).remaining() >= 1,
        ensures
            id == old(self).spec_next(),
            final(self).spec_next() == old(self).spec_next() + 1,
    {
        let id = self.next;
        self.next = self.next + 1;
        id
    }
}

} // verus!
