//! The credit pool: a counting semaphore that bounds how many events may be
//! "in flight" toward the consumer at once. A unit of credit is held from
//! the moment an event is handed to the consumer context until the callback
//! for that event has returned, so the producer can never outrun the
//! consumer by more than the pool's capacity.

use vstd::prelude::*;

verus! {

/// A counting semaphore sized to the event queue capacity.
pub struct CreditPool {
    /// The fixed number of credits the pool was created with.
    pub capacity: usize,
    /// How many credits are currently held by in-flight deliveries.
    pub held: usize,
}

impl CreditPool {
    /// The pool invariant: the credits held never exceed the capacity.
    pub open spec fn wf(self) -> bool {
        self.held <= self.capacity
    }

    /// A pool with all credits free.
    pub fn new(capacity: usize) -> (p: CreditPool)
        ensures
            p.capacity == capacity,
            p.held == 0,
            p.wf(),
    {
        CreditPool { capacity, held: 0 }
    }

    /// Takes one credit if any is free. Returns false, changing nothing,
    /// when every credit is held by an in-flight delivery: the caller then
    /// suspends until some callback returns.
    pub fn try_acquire(&mut self) -> (ok: bool)
        requires
            old(self).wf(),
        ensures
            final(self).wf(),
            final(self).capacity == old(self).capacity,
            ok ==> old(self).held < old(self).capacity
                && final(self).held == old(self).held + 1,
            !ok ==> old(self).held == old(self).capacity
                && final(self).held == old(self).held,
    {
        if self.held < self.capacity {
            self.held = self.held + 1;
            true
        } else {
            false
        }
    }

    /// Returns one credit; called when the consumer callback for an
    /// in-flight event has returned (even if the callback itself failed).
    pub fn release(&mut self)
        requires
            old(self).wf(),
            old(self).held >= 1,
        ensures
            final(self).wf(),
            final(self).capacity == old(self).capacity,
            final(self).held == old(self).held - 1,
    {
        self.held = self.held - 1;
    }
}

/// The bounded-memory law: in every well-formed pool state — and `new`,
/// `try_acquire` and `release` all preserve well-formedness — the number of
/// credits held by in-flight deliveries is at most the pool's fixed
/// capacity. Events toward the consumer each hold one credit, so their
/// count never exceeds that bound, however fast frames arrive.
pub proof fn lemma_in_flight_bounded(p: CreditPool)
    requires
        p.wf(),
    ensures
        p.held <= p.capacity,
{
}

} // verus!
