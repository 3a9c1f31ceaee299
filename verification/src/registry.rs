//! The connection half of the resource registry, and the consumer-facing
//! connect/send/close operations on it.
//!
//! The registry is an explicit service instance — constructed once at
//! process start and passed to every operation — mapping a handle to the
//! live connection it names. Lookups of absent handles yield a typed
//! not-found outcome; removal is idempotent. The network work itself
//! (handshake, frame writes) is the transport collaborator's: operations
//! here take its outcome or return the action to perform, so every decision
//! around it is verified.

use vstd::prelude::*;

use crate::assoc::{assoc_map, lemma_assoc_map_contains, lemma_assoc_map_index,
    lemma_assoc_map_push, lemma_assoc_map_remove_at, unique_keys};
use crate::errors::BridgeError;
use crate::handles::HandleAllocator;

verus! {

/// A live socket connection: the registry's record of the outbound sender
/// half, named by an opaque token that the caller's transport layer maps to
/// the real, mutex-guarded sink. The token is shared by every `send` and
/// `close` caller for this connection.
#[derive(Clone, Copy, PartialEq, Eq, Structural, Debug)]
pub struct WsConnection {
    /// The token naming the connection's outbound sender half.
    pub sender: u64,
}

/// A frame to put on the wire, in the order the transport should see it.
#[derive(Debug)]
pub enum OutboundFrame {
    /// A text message.
    Text(String),
    /// A binary message.
    Binary(Vec<u8>),
    /// A close frame.
    Close,
}

/// An instruction to the transport layer: write `frame` on the sender named
/// by `sender`, under that sender's exclusive lock.
#[derive(Debug)]
pub struct SendAction {
    /// Which outbound sender to write on.
    pub sender: u64,
    /// What to write.
    pub frame: OutboundFrame,
}

impl WsConnection {
    /// Wraps a sender token as a connection record.
    pub fn new(sender: u64) -> (c: WsConnection)
        ensures
            c.sender == sender,
    {
        WsConnection { sender }
    }

    /// The action that sends a text message on this connection.
    pub fn send_text(&self, text: String) -> (a: SendAction)
        ensures
            a.sender == self.sender,
            a.frame == OutboundFrame::Text(text),
    {
        SendAction { sender: self.sender, frame: OutboundFrame::Text(text) }
    }

    /// The action that sends a binary message on this connection.
    pub fn send_binary(&self, data: Vec<u8>) -> (a: SendAction)
        ensures
            a.sender == self.sender,
            a.frame == OutboundFrame::Binary(data),
    {
        SendAction { sender: self.sender, frame: OutboundFrame::Binary(data) }
    }

    /// The action that sends a close frame on this connection.
    pub fn close(&self) -> (a: SendAction)
        ensures
            a.sender == self.sender,
            a.frame == OutboundFrame::Close,
    {
        SendAction { sender: self.sender, frame: OutboundFrame::Close }
    }
}

/// The registry of live connections, keyed by handle. Its view is the map
/// from handle to connection record.
pub struct ConnectionRegistry {
    entries: Vec<(u64, WsConnection)>,
}

impl View for ConnectionRegistry {
    type V = Map<u64, WsConnection>;

    closed spec fn view(&self) -> Map<u64, WsConnection> {
        assoc_map(self.entries@)
    }
}

impl ConnectionRegistry {
    /// At most one entry per handle.
    pub closed spec fn wf(self) -> bool {
        unique_keys(self.entries@)
    }

    /// Every registered handle lies below `bound`; with the allocator's
    /// counter as the bound, a freshly issued handle can never collide.
    pub closed spec fn handles_below(self, bound: u64) -> bool {
        forall|i: int|
            0 <= i < self.entries@.len() ==> (#[trigger] self.entries@[i]).0 < bound
    }

    /// An empty registry.
    pub fn new() -> (r: ConnectionRegistry)
        ensures
            r.wf(),
            r@ == Map::<u64, WsConnection>::empty(),
            forall|b: u64| r.handles_below(b),
    {
        ConnectionRegistry { entries: Vec::new() }
    }

    /// Registers a connection under a freshly issued handle and returns the
    /// handle. The handle was never in the registry before — the allocator
    /// never re-issues — so no live entry is ever overwritten.
    pub fn store_connection(&mut self, alloc: &mut HandleAllocator, conn: WsConnection) -> (h: u64)
        requires
            old(self).wf(),
            old(self).handles_below(old(alloc).counter),
            old(alloc).counter < u64::MAX,
        ensures
            final(self).wf(),
            final(self).handles_below(final(alloc).counter),
            h == old(alloc).counter,
            final(alloc).counter == old(alloc).counter + 1,
            !old(self)@.contains_key(h),
            final(self)@ == old(self)@.insert(h, conn),
    {
        let h = alloc.next();
        proof {
            lemma_assoc_map_contains(self.entries@, h);
            lemma_assoc_map_push(self.entries@, h, conn);
        }
        self.entries.push((h, conn));
        h
    }

    /// Looks a handle up; yields a copy of the record exactly when the
    /// handle names a live entry, and nothing when it is absent or already
    /// removed.
    pub fn get_connection(&self, handle: u64) -> (r: Option<WsConnection>)
        requires
            self.wf(),
        ensures
            match r {
                Some(c) => self@.contains_key(handle) && c == self@[handle],
                None => !self@.contains_key(handle),
            },
    {
        let n = self.entries.len();
        let mut i: usize = 0;
        while i < n
            invariant
                self.wf(),
                n == self.entries@.len(),
                0 <= i <= n,
                forall|j: int| 0 <= j < i ==> (#[trigger] self.entries@[j]).0 != handle,
            decreases n - i,
        {
            if self.entries[i].0 == handle {
                proof {
                    lemma_assoc_map_index(self.entries@, i as int);
                }
                return Some(self.entries[i].1);
            }
            i = i + 1;
        }
        proof {
            lemma_assoc_map_contains(self.entries@, handle);
        }
        None
    }

    /// Removes a handle's entry. Idempotent: removing an absent handle
    /// changes nothing and is not an error, and once removed a handle is
    /// never returned by a lookup again.
    pub fn remove_connection(&mut self, handle: u64)
        requires
            old(self).wf(),
        ensures
            final(self).wf(),
            final(self)@ == old(self)@.remove(handle),
            forall|b: u64| old(self).handles_below(b) ==> final(self).handles_below(b),
    {
        let n = self.entries.len();
        let mut i: usize = 0;
        while i < n
            invariant
                *old(self) == *self,
                old(self).wf(),
                n == self.entries@.len(),
                0 <= i <= n,
                forall|j: int| 0 <= j < i ==> (#[trigger] self.entries@[j]).0 != handle,
            decreases n - i,
        {
            if self.entries[i].0 == handle {
                proof {
                    lemma_assoc_map_remove_at(self.entries@, i as int);
                }
                let ghost pre = self.entries@;
                self.entries.remove(i);
                proof {
                    assert forall|a: int, c: int|
                        0 <= a < c < self.entries@.len() implies (#[trigger] self.entries@[a]).0
                        != (#[trigger] self.entries@[c]).0 by {
                        assert(self.entries@[a] == pre.remove(i as int)[a]);
                        assert(self.entries@[c] == pre.remove(i as int)[c]);
                    }
                }
                return ;
            }
            i = i + 1;
        }
        proof {
            lemma_assoc_map_contains(self.entries@, handle);
            assert(self@.remove(handle) =~= self@);
        }
    }
}

/// What the transport collaborator's handshake attempt produced: either an
/// established connection (named by the token its sender half was stored
/// under by the caller's transport layer) or a failure message.
#[derive(Debug)]
pub enum UpgradeOutcome {
    /// The upgrade succeeded; the connection's outbound sender is ready.
    Established(u64),
    /// The upgrade failed with this message.
    Failed(String),
}

/// Completes a connect: on a successful upgrade, registers the connection
/// under a fresh handle and returns it; on a failed upgrade, reports a
/// handshake error with nothing allocated and nothing registered, so no
/// partial state is left behind.
pub fn websocket_connect(
    registry: &mut ConnectionRegistry,
    alloc: &mut HandleAllocator,
    upgrade: UpgradeOutcome,
) -> (r: Result<u64, BridgeError>)
    requires
        old(registry).wf(),
        old(registry).handles_below(old(alloc).counter),
        old(alloc).counter < u64::MAX,
    ensures
        final(registry).wf(),
        final(registry).handles_below(final(alloc).counter),
        match upgrade {
            UpgradeOutcome::Established(sender) => {
                &&& r == Result::<u64, BridgeError>::Ok(old(alloc).counter)
                &&& !old(registry)@.contains_key(old(alloc).counter)
                &&& final(registry)@ == old(registry)@.insert(
                    old(alloc).counter,
                    WsConnection { sender },
                )
                &&& final(alloc).counter == old(alloc).counter + 1
            },
            UpgradeOutcome::Failed(m) => {
                &&& r == Result::<u64, BridgeError>::Err(BridgeError::Handshake(m))
                &&& *final(registry) == *old(registry)
                &&& *final(alloc) == *old(alloc)
            },
        },
{
    match upgrade {
        UpgradeOutcome::Established(sender) => {
            let h = registry.store_connection(alloc, WsConnection::new(sender));
            Ok(h)
        },
        UpgradeOutcome::Failed(m) => Err(BridgeError::Handshake(m)),
    }
}

/// Completes a send: looks the handle up and, when it names a live
/// connection, returns the action that forwards the payload on that
/// connection's sender. A stale or unknown handle yields a not-found error
/// and no action, so nothing is ever written for it.
pub fn websocket_send(registry: &ConnectionRegistry, handle: u64, frame: OutboundFrame) -> (r:
    Result<SendAction, BridgeError>)
    requires
        registry.wf(),
    ensures
        match r {
            Ok(a) => registry@.contains_key(handle) && a.sender == registry@[handle].sender
                && a.frame == frame,
            Err(e) => !registry@.contains_key(handle) && e is NotFound,
        },
{
    match registry.get_connection(handle) {
        Some(conn) => Ok(SendAction { sender: conn.sender, frame }),
        None => Err(BridgeError::NotFound),
    }
}

/// Completes a close: when the handle is live, returns the action that
/// sends a close frame and unconditionally removes the handle — whether or
/// not the pump/dispatcher pair has already torn the connection down, the
/// caller sees no leak. Closing an already-closed or never-opened handle
/// yields a not-found error, changes nothing, and delivers nothing.
pub fn websocket_close(registry: &mut ConnectionRegistry, handle: u64) -> (r: Result<
    SendAction,
    BridgeError,
>)
    requires
        old(registry).wf(),
    ensures
        final(registry).wf(),
        forall|b: u64| old(registry).handles_below(b) ==> final(registry).handles_below(b),
        match r {
            Ok(a) => old(registry)@.contains_key(handle) && a.sender == old(registry)@[
                handle].sender && a.frame == OutboundFrame::Close && final(registry)@ == old(
                registry,
            )@.remove(handle),
            Err(e) => !old(registry)@.contains_key(handle) && e is NotFound && *final(registry)
                == *old(registry),
        },
{
    match registry.get_connection(handle) {
        Some(conn) => {
            registry.remove_connection(handle);
            Ok(conn.close())
        },
        None => Err(BridgeError::NotFound),
    }
}

} // verus!
