use netbridge::dispatch::dispatch_run;
use netbridge::events::{FrameRead, WsEvent};
use netbridge::handles::HandleAllocator;
use netbridge::pump::pump_run;
use netbridge::registry::{
    websocket_close, websocket_connect, websocket_send, ConnectionRegistry, OutboundFrame,
    UpgradeOutcome, WsConnection,
};

#[test]
fn connect_sends_close_exactly_one_close() {
    // connect -> N x send -> close: exactly one Close reaches the consumer
    // and no event follows it.
    let mut registry = ConnectionRegistry::new();
    let mut alloc = HandleAllocator::new();
    let handle =
        websocket_connect(&mut registry, &mut alloc, UpgradeOutcome::Established(100)).unwrap();
    for i in 0..5 {
        let action = websocket_send(
            &registry,
            handle,
            OutboundFrame::Text(format!("payload {}", i)),
        )
        .unwrap();
        assert_eq!(action.sender, 100);
    }
    let close_action = websocket_close(&mut registry, handle).unwrap();
    assert!(matches!(close_action.frame, OutboundFrame::Close));
    // The close frame makes the peer end the stream; the pump sees the
    // protocol close and the dispatcher delivers the terminal event.
    let events = pump_run(vec![FrameRead::CloseFrame]);
    let delivered = dispatch_run(events, &mut registry, handle);
    let closes = delivered.iter().filter(|e| matches!(e, WsEvent::Close)).count();
    assert_eq!(closes, 1);
    assert!(matches!(delivered.last(), Some(WsEvent::Close)));
}

#[test]
fn close_unknown_handle_is_not_found() {
    let mut registry = ConnectionRegistry::new();
    let err = websocket_close(&mut registry, 42).unwrap_err();
    assert!(err.is_not_found());
    assert_eq!(err.message(), "not found");
}

#[test]
fn second_close_is_not_found_and_delivers_nothing() {
    let mut registry = ConnectionRegistry::new();
    let mut alloc = HandleAllocator::new();
    let handle =
        websocket_connect(&mut registry, &mut alloc, UpgradeOutcome::Established(3)).unwrap();
    assert!(websocket_close(&mut registry, handle).is_ok());
    // Already closed: a typed not-found outcome, no action, no delivery.
    let err = websocket_close(&mut registry, handle).unwrap_err();
    assert!(err.is_not_found());
}

#[test]
fn mock_upgrade_one_text_then_close() {
    // connect against a mock upgrade that immediately sends one text frame
    // "hi" then closes: the consumer observes the message exactly once,
    // then the close exactly once, and a later send fails with not-found.
    let mut registry = ConnectionRegistry::new();
    let mut alloc = HandleAllocator::new();
    let handle =
        websocket_connect(&mut registry, &mut alloc, UpgradeOutcome::Established(8)).unwrap();
    let events = pump_run(vec![FrameRead::Text(String::from("hi")), FrameRead::CloseFrame]);
    let delivered = dispatch_run(events, &mut registry, handle);
    assert_eq!(delivered.len(), 2);
    match &delivered[0] {
        WsEvent::Text(t) => assert_eq!(t, "hi"),
        _ => panic!("expected the text message first"),
    }
    assert!(matches!(delivered[1], WsEvent::Close));
    // The dispatcher tore the connection down: the handle is stale.
    let err = websocket_send(&registry, handle, OutboundFrame::Text(String::from("x")))
        .unwrap_err();
    assert!(err.is_not_found());
}

#[test]
fn failed_handshake_allocates_no_handle() {
    let mut registry = ConnectionRegistry::new();
    let mut alloc = HandleAllocator::new();
    let before = alloc.counter;
    let err = websocket_connect(
        &mut registry,
        &mut alloc,
        UpgradeOutcome::Failed(String::from("upgrade refused")),
    )
    .unwrap_err();
    assert_eq!(err.message(), "handshake failed: upgrade refused");
    assert_eq!(alloc.counter, before);
    assert!(registry.get_connection(before).is_none());
}

#[test]
fn handles_are_unique_and_increasing() {
    let mut registry = ConnectionRegistry::new();
    let mut alloc = HandleAllocator::new();
    let h1 =
        websocket_connect(&mut registry, &mut alloc, UpgradeOutcome::Established(1)).unwrap();
    let h2 =
        websocket_connect(&mut registry, &mut alloc, UpgradeOutcome::Established(2)).unwrap();
    let h3 =
        websocket_connect(&mut registry, &mut alloc, UpgradeOutcome::Established(3)).unwrap();
    assert!(h1 < h2 && h2 < h3);
    // Removal never recycles a handle.
    registry.remove_connection(h2);
    let h4 =
        websocket_connect(&mut registry, &mut alloc, UpgradeOutcome::Established(4)).unwrap();
    assert!(h4 > h3);
    assert!(registry.get_connection(h2).is_none());
}

#[test]
fn store_get_remove_roundtrip() {
    let mut registry = ConnectionRegistry::new();
    let mut alloc = HandleAllocator::new();
    let h = registry.store_connection(&mut alloc, WsConnection::new(55));
    let conn = registry.get_connection(h).unwrap();
    assert_eq!(conn.sender, 55);
    registry.remove_connection(h);
    assert!(registry.get_connection(h).is_none());
    // Idempotent: removing again is a no-op, not an error.
    registry.remove_connection(h);
    assert!(registry.get_connection(h).is_none());
}

#[test]
fn send_actions_carry_payload_and_sender() {
    let conn = WsConnection::new(9);
    let a = conn.send_text(String::from("hello"));
    assert_eq!(a.sender, 9);
    match a.frame {
        OutboundFrame::Text(t) => assert_eq!(t, "hello"),
        _ => panic!("expected a text frame"),
    }
    let b = conn.send_binary(vec![0u8, 255u8]);
    match b.frame {
        OutboundFrame::Binary(d) => assert_eq!(d, vec![0u8, 255u8]),
        _ => panic!("expected a binary frame"),
    }
    let c = conn.close();
    assert!(matches!(c.frame, OutboundFrame::Close));
}

#[test]
fn send_on_unknown_handle_is_not_found() {
    let registry = ConnectionRegistry::new();
    let err =
        websocket_send(&registry, 1, OutboundFrame::Text(String::from("x"))).unwrap_err();
    assert!(err.is_not_found());
}
