//! The error taxonomy of the bridge.
//!
//! Registry and session lookups return a typed not-found outcome rather than
//! panicking, so callers can decide to no-op (drop) or to fail loudly
//! (send/close). Construction-time failures carry the collaborator's message.

use vstd::prelude::*;

verus! {

/// An error surfaced by a consumer-facing operation.
#[derive(Debug)]
pub enum BridgeError {
    /// A bad proxy specification or profile, or a failed client build.
    Configuration(String),
    /// The named handle or session is unknown (absent or already removed).
    NotFound,
    /// The connect/upgrade exchange did not succeed.
    Handshake(String),
    /// A read or write on an established connection failed.
    Transport(String),
}

impl BridgeError {
    /// A descriptive message for the consumer.
    pub fn message(&self) -> (r: String)
        ensures
            match self {
                BridgeError::Configuration(m) => r@ == "configuration error: "@ + m@,
                BridgeError::NotFound => r@ == "not found"@,
                BridgeError::Handshake(m) => r@ == "handshake failed: "@ + m@,
                BridgeError::Transport(m) => r@ == "transport error: "@ + m@,
            },
    {
        match self {
            BridgeError::Configuration(m) => {
                String::from_str("configuration error: ").concat(m.as_str())
            },
            BridgeError::NotFound => String::from_str("not found"),
            BridgeError::Handshake(m) => String::from_str("handshake failed: ").concat(m.as_str()),
            BridgeError::Transport(m) => String::from_str("transport error: ").concat(m.as_str()),
        }
    }

    /// True exactly on the not-found variant; lets unverified callers test
    /// the outcome without matching on the enum.
    pub fn is_not_found(&self) -> (r: bool)
        ensures
            r == (self is NotFound),
    {
        match self {
            BridgeError::NotFound => true,
            _ => false,
        }
    }
}

} // verus!
