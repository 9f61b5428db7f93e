//! Identifiers for tensors.
use vstd::prelude::*;

verus! {

/// Issues identifiers, each one once.
///
/// Every tensor gets its identifier from an allocator when it is built.
/// Tensors built with one allocator have identifiers that differ from each
/// other, which is what keeps their gradient slots apart.
pub struct UniqueIds {
    pub next: usize,
}

impl UniqueIds {
    /// An allocator that has issued nothing yet.
    pub fn new() -> (r: Self)
        ensures
            r.next == 0,
    {
        UniqueIds { next: 0 }
    }

    /// Whether the allocator has issued the identifier.
    pub open spec fn issued(&self, id: usize) -> bool {
        id < self.next
    }

    /// Whether another identifier can be issued.
    pub open spec fn has_more(&self) -> bool {
        self.next < usize::MAX
    }

    /// Whether identifiers are left.
    pub fn can_issue(&self) -> (r: bool)
        ensures
            r == self.has_more(),
    {
        self.next < usize::MAX
    }

    /// Issues the next identifier.
    pub fn fresh(&mut self) -> (id: usize)
        requires
            old(self).has_more(),
        ensures
            id == old(self).next,
            final(self).next == id + 1,
            !old(self).issued(id),
            final(self).issued(id),
    {
        let id = self.next;
        self.next = id + 1;
        id
    }
}

} // verus!
