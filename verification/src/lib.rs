//! A verified core for a bridge that exposes long-lived network resources
//! (reusable HTTP sessions and streaming socket connections) to a
//! single-threaded consumer that is driven one callback at a time.
//!
//! The transport itself (handshakes, frame I/O, TLS profile emulation) is an
//! external collaborator; this crate holds the decision logic around it:
//! the handle allocator, the resource registries, the session manager, the
//! event pump that classifies incoming frames, and the credit-limited
//! dispatcher that guarantees in-order, exactly-once-close delivery.

pub mod assoc;
pub mod cookies;
pub mod credits;
pub mod dispatch;
pub mod errors;
pub mod events;
pub mod handles;
pub mod http;
pub mod pump;
pub mod queue;
pub mod registry;
pub mod session;

use vstd::prelude::*;

verus! {

/// Capacity of the per-connection event queue, and of the credit pool that
/// bounds how many events may be in flight toward the consumer at once.
pub const WS_EVENT_BUFFER: usize = 64;

} // verus!
