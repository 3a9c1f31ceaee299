//! The handle allocator: issues opaque numeric identifiers that are unique
//! for the process lifetime, strictly increasing, and never reused even after
//! the resource they named has been removed.

use vstd::prelude::*;

verus! {

/// Issues monotonically increasing identifiers. Session creation and
/// connection creation share one allocator, so a handle names at most one
/// resource ever. The caller wraps it in its own mutual exclusion; every
/// operation here is a single read-modify-write of the counter.
pub struct HandleAllocator {
    /// The next identifier to hand out; every identifier issued so far is
    /// strictly below this value.
    pub counter: u64,
}

impl HandleAllocator {
    /// A fresh allocator. Identifiers start at 1, so 0 never names a resource.
    pub fn new() -> (r: HandleAllocator)
        ensures
            r.counter == 1,
    {
        HandleAllocator { counter: 1 }
    }

    /// Issues the next identifier. Strictly increasing across calls: the
    /// result equals the old counter, and the new counter lies above it, so
    /// no two calls ever return the same value. Exhaustion of the 64-bit
    /// space is treated as unreachable and excluded by the precondition.
    pub fn next(&mut self) -> (h: u64)
        requires
            old(self).counter < u64::MAX,
        ensures
            h == old(self).counter,
            final(self).counter == old(self).counter + 1,
            h < final(self).counter,
    {
        let h = self.counter;
        self.counter = self.counter + 1;
        h
    }
}

} // verus!
