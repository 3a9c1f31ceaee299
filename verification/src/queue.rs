//! The bounded in-order event queue between the pump and the dispatcher.
//!
//! The queue never exceeds its fixed capacity: a full queue refuses the push
//! and the producer suspends (exerts backpressure) rather than dropping the
//! event. Pops come out in exactly the order of the pushes.

use vstd::prelude::*;

use crate::events::WsEvent;

verus! {

/// A FIFO queue of events with a fixed capacity.
pub struct EventQueue {
    capacity: usize,
    items: Vec<WsEvent>,
}

impl EventQueue {
    /// The fixed bound the queue was created with.
    pub closed spec fn spec_capacity(self) -> usize {
        self.capacity
    }

    /// The queued events, oldest first.
    pub closed spec fn contents(self) -> Seq<WsEvent> {
        self.items@
    }

    /// The queue never holds more than its capacity, and the capacity is
    /// positive.
    pub open spec fn wf(self) -> bool {
        self.contents().len() <= self.spec_capacity() && self.spec_capacity() >= 1
    }

    /// An empty queue with the given capacity.
    pub fn new(capacity: usize) -> (q: EventQueue)
        requires
            capacity >= 1,
        ensures
            q.wf(),
            q.spec_capacity() == capacity,
            q.contents() == Seq::<WsEvent>::empty(),
    {
        EventQueue { capacity, items: Vec::new() }
    }

    /// How many events are queued right now.
    pub fn len(&self) -> (n: usize)
        ensures
            n == self.contents().len(),
    {
        self.items.len()
    }

    /// Appends an event if there is room. Returns the event itself when the
    /// queue is full, so the producer can suspend and try again: nothing is
    /// ever dropped here.
    pub fn push(&mut self, ev: WsEvent) -> (r: Option<WsEvent>)
        requires
            old(self).wf(),
        ensures
            final(self).wf(),
            final(self).spec_capacity() == old(self).spec_capacity(),
            match r {
                None => old(self).contents().len() < old(self).spec_capacity()
                    && final(self).contents() == old(self).contents().push(ev),
                Some(back) => old(self).contents().len() == old(self).spec_capacity()
                    && final(self).contents() == old(self).contents() && back == ev,
            },
    {
        if self.items.len() < self.capacity {
            self.items.push(ev);
            None
        } else {
            Some(ev)
        }
    }

    /// Removes and returns the oldest event; `None` exactly when the queue
    /// is empty.
    pub fn pop(&mut self) -> (r: Option<WsEvent>)
        requires
            old(self).wf(),
        ensures
            final(self).wf(),
            final(self).spec_capacity() == old(self).spec_capacity(),
            match r {
                None => old(self).contents().len() == 0
                    && final(self).contents() == old(self).contents(),
                Some(ev) => old(self).contents().len() > 0
                    && ev == old(self).contents()[0]
                    && final(self).contents() == old(self).contents().drop_first(),
            },
    {
        if self.items.len() > 0 {
            let ev = self.items.remove(0);
            Some(ev)
        } else {
            None
        }
    }
}

} // verus!
