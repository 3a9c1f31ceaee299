//! The event pump: the single reader of a connection's inbound frame stream.
//!
//! Each read from the transport collaborator is classified into the internal
//! event set: payload frames become `Text`/`Binary` events, control frames
//! are consumed and ignored, a protocol close frame or a read error ends the
//! stream. Every exit path — normal stream end, explicit close, or error —
//! is followed in order by exactly one `Close` event.

use vstd::prelude::*;

use crate::events::{FrameRead, WsEvent};

verus! {

/// True on the reads that end the pump loop: an explicit close frame or a
/// read error.
pub open spec fn is_terminal(f: FrameRead) -> bool {
    f is CloseFrame || f is ReadError
}

/// The events a single read contributes, not counting the terminal `Close`:
/// payload frames map to their event, control frames to nothing, a close
/// frame to nothing, a read error to one `Error` event.
pub open spec fn frame_events(f: FrameRead) -> Seq<WsEvent> {
    match f {
        FrameRead::Text(t) => seq![WsEvent::Text(t)],
        FrameRead::Binary(b) => seq![WsEvent::Binary(b)],
        FrameRead::Control => Seq::empty(),
        FrameRead::CloseFrame => Seq::empty(),
        FrameRead::ReadError(e) => seq![WsEvent::Error(e)],
    }
}

/// Everything the pump enqueues for a stream whose successive reads are
/// `frames`: the per-read events up to and including the first terminal
/// read (or the whole sequence, if the stream just ends), then one `Close`.
pub open spec fn pump_events(frames: Seq<FrameRead>) -> Seq<WsEvent>
    decreases frames.len(),
{
    if frames.len() == 0 {
        seq![WsEvent::Close]
    } else if is_terminal(frames[0]) {
        frame_events(frames[0]) + seq![WsEvent::Close]
    } else {
        frame_events(frames[0]) + pump_events(frames.drop_first())
    }
}

/// The payload events among `frames` in arrival order, up to the first
/// terminal read: what the consumer's message callback should see.
pub open spec fn frame_messages(frames: Seq<FrameRead>) -> Seq<WsEvent>
    decreases frames.len(),
{
    if frames.len() == 0 || is_terminal(frames[0]) {
        Seq::empty()
    } else {
        (match frames[0] {
            FrameRead::Text(t) => seq![WsEvent::Text(t)],
            FrameRead::Binary(b) => seq![WsEvent::Binary(b)],
            _ => Seq::empty(),
        }) + frame_messages(frames.drop_first())
    }
}

/// The payload events in an event sequence, in order.
pub open spec fn messages_of(evs: Seq<WsEvent>) -> Seq<WsEvent>
    decreases evs.len(),
{
    if evs.len() == 0 {
        Seq::empty()
    } else if evs[0].is_message() {
        seq![evs[0]] + messages_of(evs.drop_first())
    } else {
        messages_of(evs.drop_first())
    }
}

/// How many `Close` events a sequence holds.
pub open spec fn close_count(evs: Seq<WsEvent>) -> nat
    decreases evs.len(),
{
    if evs.len() == 0 {
        0
    } else {
        (if evs[0] is Close {
            1nat
        } else {
            0nat
        }) + close_count(evs.drop_first())
    }
}

/// The pump's output always ends in `Close`, holds no `Close` anywhere
/// else, and so holds exactly one: whichever way the stream ended, the
/// terminal event is enqueued once and nothing follows it.
pub proof fn lemma_pump_close_terminated(frames: Seq<FrameRead>)
    ensures
        pump_events(frames).len() >= 1,
        pump_events(frames).last() == WsEvent::Close,
        forall|i: int|
            0 <= i < pump_events(frames).len() - 1 ==> !(#[trigger] pump_events(frames)[i]
                is Close),
        close_count(pump_events(frames)) == 1,
    decreases frames.len(),
{
    let out = pump_events(frames);
    if frames.len() == 0 {
        assert(out =~= seq![WsEvent::Close]);
        assert(close_count(out) == 1 + close_count(out.drop_first()));
        assert(out.drop_first() =~= Seq::<WsEvent>::empty());
    } else if is_terminal(frames[0]) {
        let head = frame_events(frames[0]);
        lemma_close_count_concat(head, seq![WsEvent::Close]);
        assert(close_count(head) == 0) by {
            reveal_with_fuel(close_count, 3);
        }
        assert(close_count(seq![WsEvent::Close]) == 1) by {
            reveal_with_fuel(close_count, 3);
        }
    } else {
        let head = frame_events(frames[0]);
        let rest = pump_events(frames.drop_first());
        lemma_pump_close_terminated(frames.drop_first());
        lemma_close_count_concat(head, rest);
        assert(close_count(head) == 0) by {
            reveal_with_fuel(close_count, 3);
        }
        assert forall|i: int| 0 <= i < out.len() - 1 implies !(#[trigger] out[i] is Close) by {
            if i >= head.len() {
                assert(out[i] == rest[i - head.len()]);
            }
        }
    }
}

/// Counting `Close` events distributes over concatenation.
pub proof fn lemma_close_count_concat(a: Seq<WsEvent>, b: Seq<WsEvent>)
    ensures
        close_count(a + b) == close_count(a) + close_count(b),
    decreases a.len(),
{
    if a.len() == 0 {
        assert(a + b =~= b);
    } else {
        assert((a + b).drop_first() =~= a.drop_first() + b);
        lemma_close_count_concat(a.drop_first(), b);
    }
}

/// Filtering for payload events distributes over concatenation.
pub proof fn lemma_messages_concat(a: Seq<WsEvent>, b: Seq<WsEvent>)
    ensures
        messages_of(a + b) == messages_of(a) + messages_of(b),
    decreases a.len(),
{
    if a.len() == 0 {
        assert(a + b =~= b);
        assert(messages_of(a) =~= Seq::empty());
        assert(messages_of(a) + messages_of(b) =~= messages_of(b));
    } else {
        assert((a + b).drop_first() =~= a.drop_first() + b);
        lemma_messages_concat(a.drop_first(), b);
        if a[0].is_message() {
            assert(seq![a[0]] + (messages_of(a.drop_first()) + messages_of(b)) =~= (seq![a[0]]
                + messages_of(a.drop_first())) + messages_of(b));
        }
    }
}

/// Order preservation at the pump: the payload events in the pump's output
/// are exactly the payload frames that arrived before the stream ended, in
/// arrival order. Nothing is reordered, lost, or duplicated.
pub proof fn lemma_pump_preserves_order(frames: Seq<FrameRead>)
    ensures
        messages_of(pump_events(frames)) == frame_messages(frames),
    decreases frames.len(),
{
    reveal_with_fuel(messages_of, 3);
    if frames.len() == 0 {
        assert(pump_events(frames).drop_first() =~= Seq::<WsEvent>::empty());
    } else if is_terminal(frames[0]) {
        let out = frame_events(frames[0]) + seq![WsEvent::Close];
        lemma_messages_concat(frame_events(frames[0]), seq![WsEvent::Close]);
        assert(messages_of(seq![WsEvent::Close]) =~= Seq::<WsEvent>::empty());
        assert(messages_of(frame_events(frames[0])) =~= Seq::<WsEvent>::empty());
        assert(messages_of(out) =~= frame_messages(frames));
    } else {
        lemma_pump_preserves_order(frames.drop_first());
        lemma_messages_concat(frame_events(frames[0]), pump_events(frames.drop_first()));
        assert(messages_of(pump_events(frames)) =~= frame_messages(frames));
    }
}

/// Classifies one read: returns the events to enqueue for it, and whether
/// the pump must stop after it. The caller enqueues the events in order,
/// appends the final `Close` by calling `pump_finish` when it stops, and
/// suspends on a full queue rather than dropping anything.
pub fn pump_step(frame: FrameRead) -> (r: (Vec<WsEvent>, bool))
    ensures
        r.0@ == frame_events(frame),
        r.1 == is_terminal(frame),
{
    match frame {
        FrameRead::Text(t) => {
            let mut out: Vec<WsEvent> = Vec::new();
            out.push(WsEvent::Text(t));
            proof {
                assert(out@ =~= frame_events(frame));
            }
            (out, false)
        },
        FrameRead::Binary(b) => {
            let mut out: Vec<WsEvent> = Vec::new();
            out.push(WsEvent::Binary(b));
            proof {
                assert(out@ =~= frame_events(frame));
            }
            (out, false)
        },
        FrameRead::Control => {
            let out: Vec<WsEvent> = Vec::new();
            proof {
                assert(out@ =~= frame_events(frame));
            }
            (out, false)
        },
        FrameRead::CloseFrame => {
            let out: Vec<WsEvent> = Vec::new();
            proof {
                assert(out@ =~= frame_events(frame));
            }
            (out, true)
        },
        FrameRead::ReadError(e) => {
            let mut out: Vec<WsEvent> = Vec::new();
            out.push(WsEvent::Error(e));
            proof {
                assert(out@ =~= frame_events(frame));
            }
            (out, true)
        },
    }
}

/// The single event the pump enqueues after its loop ends, whichever exit
/// path was taken.
pub fn pump_finish() -> (ev: WsEvent)
    ensures
        ev == WsEvent::Close,
{
    WsEvent::Close
}

/// Runs the whole pump over a stream whose reads are `frames`, yielding the
/// events in the order they would be enqueued. This is the sequential form
/// of the pump task: reads after the first terminal read are never looked
/// at, and the output is exactly `pump_events`.
pub fn pump_run(frames: Vec<FrameRead>) -> (out: Vec<WsEvent>)
    ensures
        out@ == pump_events(frames@),
{
    let mut rest = frames;
    let ghost all = rest@;
    let mut out: Vec<WsEvent> = Vec::new();
    while rest.len() > 0
        invariant
            all == frames@,
            pump_events(all) == out@ + pump_events(rest@),
        decreases rest@.len(),
    {
        let ghost before = rest@;
        let f = rest.remove(0);
        proof {
            assert(rest@ =~= before.drop_first());
        }
        match f {
            FrameRead::Text(t) => {
                out.push(WsEvent::Text(t));
                proof {
                    assert(out@ + pump_events(rest@) =~= pump_events(all));
                }
            },
            FrameRead::Binary(b) => {
                out.push(WsEvent::Binary(b));
                proof {
                    assert(out@ + pump_events(rest@) =~= pump_events(all));
                }
            },
            FrameRead::Control => {
                proof {
                    assert(frame_events(f) =~= Seq::<WsEvent>::empty());
                    assert(out@ + pump_events(rest@) =~= pump_events(all));
                }
            },
            FrameRead::CloseFrame => {
                out.push(WsEvent::Close);
                proof {
                    assert(pump_events(before) =~= seq![WsEvent::Close]);
                    assert(out@ =~= pump_events(all));
                }
                return out;
            },
            FrameRead::ReadError(e) => {
                out.push(WsEvent::Error(e));
                out.push(WsEvent::Close);
                proof {
                    assert(pump_events(before) =~= seq![WsEvent::Error(e), WsEvent::Close]);
                    assert(out@ =~= pump_events(all));
                }
                return out;
            },
        }
    }
    out.push(WsEvent::Close);
    proof {
        assert(pump_events(rest@) =~= seq![WsEvent::Close]);
        assert(out@ =~= pump_events(all));
    }
    out
}

} // verus!
