use vstd::prelude::*;

verus! {

/// Allocator of process-wide client ids: a monotonic counter. Every id it
/// has issued lies below `next_id()`, so an id, once handed out, is never
/// issued again for the life of the process.
pub struct IdCounter {
    next: u64,
}

impl IdCounter {
    /// The id the next call of `fresh_id` will return.
    pub closed spec fn next_id(&self) -> u64 {
        self.next
    }

    /// A fresh counter; the first id issued is 1.
    pub fn new() -> (r: IdCounter)
        ensures
            r.next_id() == 1,
    {
        IdCounter { next: 1 }
    }

    /// The id the next call of `fresh_id` will return, for callers that
    /// must check headroom before minting.
    pub fn peek_next_id(&self) -> (n: u64)
        ensures
            n == self.next_id(),
    {
        self.next
    }

    /// Mints a new client id. The counter strictly increases, so two calls
    /// never return the same id.
    pub fn fresh_id(&mut self) -> (id: u64)
        requires
            old(self).next_id() < u64::MAX,
        ensures
            id == old(self).next_id(),
            final(self).next_id() == old(self).next_id() + 1,
    {
        let id = self.next;
        self.next = self.next + 1;
        id
    }

    /// An id is never reissued: whatever set of ids was issued so far, each
    /// lies below `next_id()`, so the next fresh id is none of them.
    pub proof fn lemma_fresh_id_never_reissued(self, issued: Set<u64>)
        requires
            forall|i: u64| issued.contains(i) ==> i < self.next_id(),
        ensures
            !issued.contains(self.next_id()),
    {
    }
}

} // verus!
