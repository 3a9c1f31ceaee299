//! The dispatcher: the single consumer task of a connection's event queue.
//!
//! It drains events in strict FIFO order, takes one unit of credit before a
//! payload event goes to the consumer (suspending when every credit is held
//! by an in-flight callback), and is the sole authority for the terminal
//! notification: the first `Close` it sees is delivered and remembered,
//! every later `Close` is suppressed, and if the stream ends without one it
//! synthesizes exactly one. After the terminal delivery it removes the
//! connection's handle from the registry — the one place connections are
//! torn down from.

use vstd::prelude::*;

use crate::credits::CreditPool;
use crate::events::WsEvent;
use crate::queue::EventQueue;
use crate::pump::{close_count, frame_messages, lemma_close_count_concat,
    lemma_pump_close_terminated, lemma_pump_preserves_order, messages_of, pump_events};
use crate::registry::ConnectionRegistry;
use crate::WS_EVENT_BUFFER;

verus! {

/// What the events still in the queue will add to the consumer's view,
/// given whether a `Close` has already been delivered: every payload and
/// error event in order, the first `Close` and no later one, and a
/// synthesized `Close` at the end of the stream if none was delivered.
pub open spec fn delivered_from(evs: Seq<WsEvent>, close_emitted: bool) -> Seq<WsEvent>
    decreases evs.len(),
{
    if evs.len() == 0 {
        if close_emitted {
            Seq::empty()
        } else {
            seq![WsEvent::Close]
        }
    } else if evs[0] is Close {
        if close_emitted {
            delivered_from(evs.drop_first(), true)
        } else {
            seq![WsEvent::Close] + delivered_from(evs.drop_first(), true)
        }
    } else {
        seq![evs[0]] + delivered_from(evs.drop_first(), close_emitted)
    }
}

/// Everything the consumer observes for a queue that ends up holding `evs`.
pub open spec fn delivered(evs: Seq<WsEvent>) -> Seq<WsEvent> {
    delivered_from(evs, false)
}

/// The dispatcher's state for one connection: whether the terminal
/// notification has gone out, and the credit pool bounding in-flight
/// deliveries.
pub struct Dispatcher {
    /// Set when the first `Close` is delivered; suppresses every later one.
    pub close_emitted: bool,
    /// The credit pool shared by this connection's in-flight deliveries.
    pub credits: CreditPool,
}

/// The dispatcher's decision for one dequeued event.
pub enum DispatchOutcome {
    /// Hand this event to the consumer context now. For a payload event a
    /// credit is held until the callback returns.
    Delivered(WsEvent),
    /// A `Close` after the terminal notification already went out; nothing
    /// reaches the consumer.
    Suppressed,
    /// Every credit is held by an in-flight callback; the event is handed
    /// back and the caller suspends until one returns.
    Blocked(WsEvent),
}

impl Dispatcher {
    /// The in-flight bound always holds.
    pub open spec fn wf(self) -> bool {
        self.credits.wf()
    }

    /// A dispatcher that has delivered nothing, with all credits free.
    pub fn new(capacity: usize) -> (d: Dispatcher)
        ensures
            d.wf(),
            !d.close_emitted,
            d.credits.capacity == capacity,
            d.credits.held == 0,
    {
        Dispatcher { close_emitted: false, credits: CreditPool::new(capacity) }
    }

    /// Decides one dequeued event. Payload events need a free credit and
    /// are otherwise handed back unchanged; error events go through without
    /// credit, as the consumer may already be gone; a `Close` is delivered
    /// the first time and suppressed afterwards.
    pub fn on_event(&mut self, ev: WsEvent) -> (r: DispatchOutcome)
        requires
            old(self).wf(),
        ensures
            final(self).wf(),
            final(self).credits.capacity == old(self).credits.capacity,
            ev.is_message() && old(self).credits.held < old(self).credits.capacity ==> r
                == DispatchOutcome::Delivered(ev) && final(self).credits.held == old(
                self,
            ).credits.held + 1 && final(self).close_emitted == old(self).close_emitted,
            ev.is_message() && old(self).credits.held == old(self).credits.capacity ==> r
                == DispatchOutcome::Blocked(ev) && *final(self) == *old(self),
            ev is Error ==> r == DispatchOutcome::Delivered(ev) && *final(self) == *old(self),
            ev is Close && !old(self).close_emitted ==> r == DispatchOutcome::Delivered(
                WsEvent::Close,
            ) && final(self).close_emitted && final(self).credits == old(self).credits,
            ev is Close && old(self).close_emitted ==> r == DispatchOutcome::Suppressed
                && *final(self) == *old(self),
    {
        match ev {
            WsEvent::Text(t) => {
                if self.credits.try_acquire() {
                    DispatchOutcome::Delivered(WsEvent::Text(t))
                } else {
                    DispatchOutcome::Blocked(WsEvent::Text(t))
                }
            },
            WsEvent::Binary(b) => {
                if self.credits.try_acquire() {
                    DispatchOutcome::Delivered(WsEvent::Binary(b))
                } else {
                    DispatchOutcome::Blocked(WsEvent::Binary(b))
                }
            },
            WsEvent::Error(m) => DispatchOutcome::Delivered(WsEvent::Error(m)),
            WsEvent::Close => {
                if self.close_emitted {
                    DispatchOutcome::Suppressed
                } else {
                    self.close_emitted = true;
                    DispatchOutcome::Delivered(WsEvent::Close)
                }
            },
        }
    }

    /// Called when the consumer callback for an in-flight payload event has
    /// returned — even if the callback itself failed, the credit is still
    /// released, so a throwing consumer can never exhaust the pool.
    pub fn on_callback_done(&mut self)
        requires
            old(self).wf(),
            old(self).credits.held >= 1,
        ensures
            final(self).wf(),
            final(self).credits.capacity == old(self).credits.capacity,
            final(self).credits.held == old(self).credits.held - 1,
            final(self).close_emitted == old(self).close_emitted,
    {
        self.credits.release();
    }

    /// The end of the event stream: synthesizes the terminal notification
    /// if none was delivered, and unconditionally removes the connection's
    /// handle from the registry — the sole point of connection teardown.
    pub fn finish(&mut self, registry: &mut ConnectionRegistry, handle: u64) -> (r: Option<
        WsEvent,
    >)
        requires
            old(self).wf(),
            old(registry).wf(),
        ensures
            final(self).wf(),
            final(registry).wf(),
            final(registry)@ == old(registry)@.remove(handle),
            final(self).close_emitted,
            final(self).credits == old(self).credits,
            r == (if old(self).close_emitted {
                Option::<WsEvent>::None
            } else {
                Option::<WsEvent>::Some(WsEvent::Close)
            }),
    {
        registry.remove_connection(handle);
        if self.close_emitted {
            None
        } else {
            self.close_emitted = true;
            Some(WsEvent::Close)
        }
    }
}

/// Exactly one `Close` is ever delivered, whatever the queue held: one that
/// arrives first is delivered and later ones are suppressed, and a stream
/// that ends without one has one synthesized. This covers the pump's
/// defensive double push of `Close` as well as streams with none.
pub proof fn lemma_delivered_one_close(evs: Seq<WsEvent>)
    ensures
        close_count(delivered(evs)) == 1,
{
    lemma_delivered_close_count(evs, false);
}

/// Credit accounting of `delivered_from`: with the flag set no further
/// `Close` is delivered; with it clear exactly one is.
proof fn lemma_delivered_close_count(evs: Seq<WsEvent>, close_emitted: bool)
    ensures
        close_count(delivered_from(evs, true)) == 0,
        close_count(delivered_from(evs, false)) == 1,
    decreases evs.len(),
{
    if evs.len() == 0 {
        assert(close_count(seq![WsEvent::Close]) == 1) by {
            reveal_with_fuel(close_count, 3);
        }
    } else {
        lemma_delivered_close_count(evs.drop_first(), close_emitted);
        if evs[0] is Close {
            lemma_close_count_concat(seq![WsEvent::Close], delivered_from(evs.drop_first(), true));
            assert(close_count(seq![WsEvent::Close]) == 1) by {
                reveal_with_fuel(close_count, 3);
            }
        } else {
            lemma_close_count_concat(seq![evs[0]], delivered_from(evs.drop_first(), true));
            lemma_close_count_concat(seq![evs[0]], delivered_from(evs.drop_first(), false));
            assert(close_count(seq![evs[0]]) == 0) by {
                reveal_with_fuel(close_count, 3);
            }
        }
    }
}

/// On a stream whose `Close`es all stand at the end of the sequence — as
/// the pump's output always is — delivery changes nothing: the sequence
/// already ends in its single terminal event.
proof fn lemma_delivered_identity(evs: Seq<WsEvent>)
    requires
        evs.len() >= 1,
        evs.last() is Close,
        forall|i: int| 0 <= i < evs.len() - 1 ==> !(#[trigger] evs[i] is Close),
    ensures
        delivered(evs) == evs,
    decreases evs.len(),
{
    if evs.len() == 1 {
        assert(evs[0] is Close);
        assert(delivered(evs) =~= seq![WsEvent::Close] + delivered_from(evs.drop_first(), true));
        assert(evs.drop_first() =~= Seq::<WsEvent>::empty());
        assert(delivered(evs) =~= evs);
    } else {
        assert(!(evs[0] is Close));
        let rest = evs.drop_first();
        assert(rest.last() == evs.last());
        assert forall|i: int| 0 <= i < rest.len() - 1 implies !(#[trigger] rest[i] is Close) by {
            assert(rest[i] == evs[i + 1]);
        }
        lemma_delivered_identity(rest);
        assert(delivered(evs) =~= seq![evs[0]] + rest);
        assert(delivered(evs) =~= evs);
    }
}

/// The end-to-end close law for a whole connection: for any stream of reads
/// — any number of payload frames, however it ends — what the consumer
/// observes is the pump's output unchanged, it contains exactly one `Close`
/// (explicit or synthesized), the `Close` is the last event observed, and
/// no event follows it.
pub proof fn lemma_exactly_one_close(frames: Seq<crate::events::FrameRead>)
    ensures
        delivered(pump_events(frames)) == pump_events(frames),
        close_count(delivered(pump_events(frames))) == 1,
        delivered(pump_events(frames)).len() >= 1,
        delivered(pump_events(frames)).last() is Close,
        forall|i: int|
            0 <= i < delivered(pump_events(frames)).len() - 1 ==> !(#[trigger] delivered(
                pump_events(frames),
            )[i] is Close),
{
    lemma_pump_close_terminated(frames);
    lemma_delivered_identity(pump_events(frames));
    lemma_delivered_one_close(pump_events(frames));
}

/// The end-to-end order law: the payload events the consumer observes are
/// exactly the payload frames that arrived before the stream ended, in
/// arrival order — nothing reordered, lost, duplicated, or interleaved.
pub proof fn lemma_delivery_order(frames: Seq<crate::events::FrameRead>)
    ensures
        messages_of(delivered(pump_events(frames))) == frame_messages(frames),
{
    lemma_pump_close_terminated(frames);
    lemma_delivered_identity(pump_events(frames));
    lemma_pump_preserves_order(frames);
}

/// Delivers one dequeued event to a consumer that always keeps up (its
/// callback has returned by the time the next event is looked at), so a
/// credit is always free. Used by the sequential whole-run form.
fn deliver_step(d: &mut Dispatcher, out: &mut Vec<WsEvent>, ev: WsEvent)
    requires
        old(d).wf(),
        old(d).credits.held == 0,
        old(d).credits.capacity >= 1,
    ensures
        final(d).wf(),
        final(d).credits.capacity == old(d).credits.capacity,
        final(d).credits.held == 0,
        final(out)@ == old(out)@ + step_delivery(ev, old(d).close_emitted),
        final(d).close_emitted == (old(d).close_emitted || ev is Close),
{
    match d.on_event(ev) {
        DispatchOutcome::Delivered(e) => {
            let is_message = match &e {
                WsEvent::Text(_) => true,
                WsEvent::Binary(_) => true,
                _ => false,
            };
            out.push(e);
            if is_message {
                d.on_callback_done();
            }
            proof {
                assert(out@ =~= old(out)@ + step_delivery(ev, old(d).close_emitted));
            }
        },
        DispatchOutcome::Suppressed => {
            proof {
                assert(out@ =~= old(out)@ + step_delivery(ev, old(d).close_emitted));
            }
        },
        DispatchOutcome::Blocked(_) => {
            // Unreachable: a consumer that has always returned holds no
            // credit.
            proof {
                assert(false);
            }
        },
    }
}

/// What one event adds to the consumer's view, given whether a `Close` has
/// already been delivered.
pub open spec fn step_delivery(ev: WsEvent, close_emitted: bool) -> Seq<WsEvent> {
    if ev is Close {
        if close_emitted {
            Seq::empty()
        } else {
            seq![WsEvent::Close]
        }
    } else {
        seq![ev]
    }
}

/// Puts one event into the bounded queue, delivering from the front first
/// when the queue is full: the producer never drops an event and the queue
/// never exceeds its capacity. `tail` is everything that will still follow
/// this event.
fn absorb(
    q: &mut EventQueue,
    d: &mut Dispatcher,
    out: &mut Vec<WsEvent>,
    ev: WsEvent,
    tail: Ghost<Seq<WsEvent>>,
)
    requires
        old(q).wf(),
        old(d).wf(),
        old(d).credits.held == 0,
        old(d).credits.capacity >= 1,
    ensures
        final(q).wf(),
        final(d).wf(),
        final(q).spec_capacity() == old(q).spec_capacity(),
        final(d).credits.capacity == old(d).credits.capacity,
        final(d).credits.held == 0,
        final(out)@ + delivered_from(final(q).contents() + tail@, final(d).close_emitted) == old(
            out,
        )@ + delivered_from(old(q).contents() + seq![ev] + tail@, old(d).close_emitted),
{
    let mut pending = ev;
    loop
        invariant
            q.wf(),
            d.wf(),
            q.spec_capacity() == old(q).spec_capacity(),
            d.credits.capacity == old(d).credits.capacity,
            d.credits.held == 0,
            d.credits.capacity >= 1,
            out@ + delivered_from(q.contents() + seq![pending] + tail@, d.close_emitted) == old(
                out,
            )@ + delivered_from(old(q).contents() + seq![ev] + tail@, old(d).close_emitted),
        decreases q.contents().len(),
    {
        let ghost q_pre = q.contents();
        match q.push(pending) {
            None => {
                proof {
                    assert(q.contents() + tail@ =~= q_pre + seq![pending] + tail@);
                }
                return ;
            },
            Some(back) => {
                pending = back;
                match q.pop() {
                    Some(head) => {
                        proof {
                            assert(q_pre =~= seq![q_pre[0]] + q.contents());
                            assert((q_pre + seq![pending] + tail@)[0] == q_pre[0]);
                            assert((q_pre + seq![pending] + tail@).drop_first() =~= q.contents()
                                + seq![pending] + tail@);
                        }
                        let ghost flag_pre = d.close_emitted;
                        deliver_step(d, out, head);
                        proof {
                            assert(delivered_from(q_pre + seq![pending] + tail@, flag_pre)
                                == step_delivery(q_pre[0], flag_pre) + delivered_from(
                                q.contents() + seq![pending] + tail@,
                                d.close_emitted,
                            ));
                        }
                    },
                    None => {
                        // Unreachable: a full queue with positive capacity
                        // is not empty.
                        proof {
                            assert(false);
                        }
                    },
                }
            },
        }
    }
}

/// Runs the whole pipeline from the pump's output to the consumer: every
/// event goes through the bounded queue under backpressure (a full queue
/// delivers from the front before the producer may add), the dispatcher
/// drains in FIFO order with a consumer whose callback returns before the
/// next delivery, and the run ends with the terminal
/// synthesis-or-suppression step and the registry teardown.
pub fn dispatch_run(events: Vec<WsEvent>, registry: &mut ConnectionRegistry, handle: u64) -> (out:
    Vec<WsEvent>)
    requires
        old(registry).wf(),
    ensures
        final(registry).wf(),
        final(registry)@ == old(registry)@.remove(handle),
        out@ == delivered(events@),
{
    let mut d = Dispatcher::new(WS_EVENT_BUFFER);
    let mut q = EventQueue::new(WS_EVENT_BUFFER);
    let mut rest = events;
    let ghost all = rest@;
    let mut out: Vec<WsEvent> = Vec::new();
    proof {
        assert(q.contents() + rest@ =~= rest@);
    }
    while rest.len() > 0
        invariant
            all == events@,
            q.wf(),
            d.wf(),
            q.spec_capacity() == WS_EVENT_BUFFER,
            d.credits.capacity == WS_EVENT_BUFFER,
            d.credits.held == 0,
            delivered(all) == out@ + delivered_from(q.contents() + rest@, d.close_emitted),
        decreases rest@.len(),
    {
        let ghost before = rest@;
        let ev = rest.remove(0);
        proof {
            assert(rest@ =~= before.drop_first());
            assert(q.contents() + before =~= q.contents() + seq![ev] + rest@);
        }
        absorb(&mut q, &mut d, &mut out, ev, Ghost(rest@));
    }
    proof {
        assert(q.contents() + rest@ =~= q.contents());
    }
    while q.len() > 0
        invariant
            q.wf(),
            d.wf(),
            d.credits.capacity == WS_EVENT_BUFFER,
            d.credits.held == 0,
            delivered(all) == out@ + delivered_from(q.contents(), d.close_emitted),
        decreases q.contents().len(),
    {
        let ghost q_pre = q.contents();
        match q.pop() {
            Some(head) => {
                proof {
                    assert(q_pre =~= seq![q_pre[0]] + q.contents());
                    assert(q_pre[0] == head);
                    assert(q_pre.drop_first() =~= q.contents());
                }
                let ghost flag_pre = d.close_emitted;
                deliver_step(&mut d, &mut out, head);
                proof {
                    assert(delivered_from(q_pre, flag_pre) == step_delivery(q_pre[0], flag_pre)
                        + delivered_from(q.contents(), d.close_emitted));
                    assert(out@ + delivered_from(q.contents(), d.close_emitted) =~= delivered(
                        all,
                    ));
                }
            },
            None => {
                // Unreachable: the loop runs only while the queue is
                // non-empty.
                proof {
                    assert(false);
                }
            },
        }
    }
    proof {
        assert(q.contents() =~= Seq::<WsEvent>::empty());
    }
    match d.finish(registry, handle) {
        Some(ev) => {
            out.push(ev);
            proof {
                assert(out@ =~= delivered(all));
            }
        },
        None => {
            proof {
                assert(out@ =~= delivered(all));
            }
        },
    }
    out
}

} // verus!
