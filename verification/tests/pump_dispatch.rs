use netbridge::credits::CreditPool;
use netbridge::dispatch::{dispatch_run, DispatchOutcome, Dispatcher};
use netbridge::events::{FrameRead, WsEvent};
use netbridge::handles::HandleAllocator;
use netbridge::pump::{pump_finish, pump_run, pump_step};
use netbridge::queue::EventQueue;
use netbridge::registry::{ConnectionRegistry, UpgradeOutcome};
use netbridge::WS_EVENT_BUFFER;

fn text(s: &str) -> WsEvent {
    WsEvent::Text(String::from(s))
}

fn is_close(ev: &WsEvent) -> bool {
    matches!(ev, WsEvent::Close)
}

fn expect_text(ev: &WsEvent, want: &str) {
    match ev {
        WsEvent::Text(t) => assert_eq!(t, want),
        _ => panic!("expected a text event"),
    }
}

#[test]
fn pump_text_frames_in_order() {
    let frames = vec![
        FrameRead::Text(String::from("A")),
        FrameRead::Text(String::from("B")),
        FrameRead::Text(String::from("C")),
    ];
    let out = pump_run(frames);
    assert_eq!(out.len(), 4);
    expect_text(&out[0], "A");
    expect_text(&out[1], "B");
    expect_text(&out[2], "C");
    assert!(is_close(&out[3]));
}

#[test]
fn pump_close_frame_stops_reading() {
    let frames = vec![
        FrameRead::Text(String::from("A")),
        FrameRead::CloseFrame,
        FrameRead::Text(String::from("never read")),
    ];
    let out = pump_run(frames);
    assert_eq!(out.len(), 2);
    expect_text(&out[0], "A");
    assert!(is_close(&out[1]));
}

#[test]
fn pump_read_error_gives_error_then_close() {
    let frames = vec![FrameRead::ReadError(String::from("boom"))];
    let out = pump_run(frames);
    assert_eq!(out.len(), 2);
    match &out[0] {
        WsEvent::Error(m) => assert_eq!(m, "boom"),
        _ => panic!("expected an error event"),
    }
    assert!(is_close(&out[1]));
}

#[test]
fn pump_ignores_control_frames() {
    let frames = vec![
        FrameRead::Control,
        FrameRead::Text(String::from("A")),
        FrameRead::Control,
        FrameRead::Binary(vec![1u8, 2u8]),
    ];
    let out = pump_run(frames);
    assert_eq!(out.len(), 3);
    expect_text(&out[0], "A");
    match &out[1] {
        WsEvent::Binary(b) => assert_eq!(b, &vec![1u8, 2u8]),
        _ => panic!("expected a binary event"),
    }
    assert!(is_close(&out[2]));
}

#[test]
fn pump_step_classifies_and_stops() {
    let (evs, stop) = pump_step(FrameRead::Text(String::from("x")));
    assert_eq!(evs.len(), 1);
    assert!(!stop);
    let (evs, stop) = pump_step(FrameRead::Control);
    assert_eq!(evs.len(), 0);
    assert!(!stop);
    let (evs, stop) = pump_step(FrameRead::CloseFrame);
    assert_eq!(evs.len(), 0);
    assert!(stop);
    let (evs, stop) = pump_step(FrameRead::ReadError(String::from("e")));
    assert_eq!(evs.len(), 1);
    assert!(stop);
    assert!(is_close(&pump_finish()));
}

#[test]
fn delivery_order_equals_arrival_order() {
    // Frames "A","B","C" from a mock transport: the consumer observes them
    // in that order with no interleaving, then the single Close.
    let frames = vec![
        FrameRead::Text(String::from("A")),
        FrameRead::Text(String::from("B")),
        FrameRead::Text(String::from("C")),
    ];
    let events = pump_run(frames);
    let mut registry = ConnectionRegistry::new();
    let delivered = dispatch_run(events, &mut registry, 7);
    assert_eq!(delivered.len(), 4);
    expect_text(&delivered[0], "A");
    expect_text(&delivered[1], "B");
    expect_text(&delivered[2], "C");
    assert!(is_close(&delivered[3]));
}

#[test]
fn dispatch_synthesizes_close_when_stream_ends() {
    let mut registry = ConnectionRegistry::new();
    let delivered = dispatch_run(vec![text("A")], &mut registry, 1);
    assert_eq!(delivered.len(), 2);
    expect_text(&delivered[0], "A");
    assert!(is_close(&delivered[1]));
}

#[test]
fn dispatch_suppresses_duplicate_close() {
    // The pump may defensively push Close twice; only one reaches the
    // consumer.
    let mut registry = ConnectionRegistry::new();
    let delivered = dispatch_run(vec![WsEvent::Close, WsEvent::Close], &mut registry, 1);
    assert_eq!(delivered.len(), 1);
    assert!(is_close(&delivered[0]));
}

#[test]
fn dispatch_delivers_error_then_single_close() {
    let mut registry = ConnectionRegistry::new();
    let delivered = dispatch_run(
        vec![WsEvent::Error(String::from("boom")), WsEvent::Close, WsEvent::Close],
        &mut registry,
        1,
    );
    assert_eq!(delivered.len(), 2);
    match &delivered[0] {
        WsEvent::Error(m) => assert_eq!(m, "boom"),
        _ => panic!("expected an error event"),
    }
    assert!(is_close(&delivered[1]));
}

#[test]
fn dispatch_removes_handle_on_finish() {
    let mut registry = ConnectionRegistry::new();
    let mut alloc = HandleAllocator::new();
    let handle = match netbridge::registry::websocket_connect(
        &mut registry,
        &mut alloc,
        UpgradeOutcome::Established(10),
    ) {
        Ok(h) => h,
        Err(_) => panic!("upgrade should register"),
    };
    assert!(registry.get_connection(handle).is_some());
    let _ = dispatch_run(vec![text("A"), WsEvent::Close], &mut registry, handle);
    assert!(registry.get_connection(handle).is_none());
}

#[test]
fn in_flight_events_never_exceed_credit_pool() {
    // Flood a connection with more payload events than the pool size while
    // the consumer callback is held: exactly the pool size is in flight,
    // the rest are blocked, and the held count never passes the capacity.
    let mut d = Dispatcher::new(WS_EVENT_BUFFER);
    let mut delivered: usize = 0;
    let mut blocked: usize = 0;
    for i in 0..(WS_EVENT_BUFFER + 36) {
        match d.on_event(WsEvent::Text(format!("m{}", i))) {
            DispatchOutcome::Delivered(_) => delivered += 1,
            DispatchOutcome::Blocked(_) => blocked += 1,
            DispatchOutcome::Suppressed => panic!("nothing to suppress"),
        }
        assert!(d.credits.held <= d.credits.capacity);
    }
    assert_eq!(delivered, WS_EVENT_BUFFER);
    assert_eq!(blocked, 36);
    assert_eq!(d.credits.held, WS_EVENT_BUFFER);
    // One callback returns: exactly one more event fits.
    d.on_callback_done();
    match d.on_event(text("late")) {
        DispatchOutcome::Delivered(_) => {}
        _ => panic!("a credit was free"),
    }
    assert_eq!(d.credits.held, WS_EVENT_BUFFER);
}

#[test]
fn credit_pool_acquire_release() {
    let mut p = CreditPool::new(2);
    assert!(p.try_acquire());
    assert!(p.try_acquire());
    assert!(!p.try_acquire());
    assert_eq!(p.held, 2);
    p.release();
    assert!(p.try_acquire());
    assert_eq!(p.held, 2);
}

#[test]
fn queue_refuses_push_when_full_and_keeps_order() {
    let mut q = EventQueue::new(2);
    assert!(q.push(text("A")).is_none());
    assert!(q.push(text("B")).is_none());
    // Full: the event comes back instead of being dropped.
    match q.push(text("C")) {
        Some(back) => expect_text(&back, "C"),
        None => panic!("queue should be full"),
    }
    assert_eq!(q.len(), 2);
    match q.pop() {
        Some(ev) => expect_text(&ev, "A"),
        None => panic!("queue should not be empty"),
    }
    match q.pop() {
        Some(ev) => expect_text(&ev, "B"),
        None => panic!("queue should not be empty"),
    }
    assert!(q.pop().is_none());
}
