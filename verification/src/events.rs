//! The closed set of internal event values that flows from the event pump to
//! the dispatcher, and the classification of what one read from the
//! transport's inbound frame stream yielded.

use vstd::prelude::*;

verus! {

/// An internal event, produced only by the event pump and consumed only by
/// the dispatcher. `Close`, once enqueued, is always the last event the pump
/// sends for its connection.
#[derive(Debug)]
pub enum WsEvent {
    /// A text frame's payload, for the consumer's message callback.
    Text(String),
    /// A binary frame's payload, for the consumer's message callback.
    Binary(Vec<u8>),
    /// A transport failure, surfaced to the consumer as an event rather than
    /// aborting the process.
    Error(String),
    /// The terminal notification; delivered at most once per connection.
    Close,
}

impl WsEvent {
    /// True on the payload-carrying events, which are subject to the credit
    /// discipline; false on `Error` and `Close`, which are not.
    pub open spec fn is_message(self) -> bool {
        self is Text || self is Binary
    }
}

/// What one read from the transport collaborator's inbound stream yielded,
/// as classified by the pump: a payload frame, a protocol close frame, an
/// unrecognized control frame (ping/pong), or a read error. The end of the
/// stream is represented by the input sequence simply ending.
#[derive(Debug)]
pub enum FrameRead {
    /// A text frame arrived.
    Text(String),
    /// A binary frame arrived.
    Binary(Vec<u8>),
    /// The peer sent an explicit close frame.
    CloseFrame,
    /// A ping/pong or other control frame; consumed and never surfaced.
    Control,
    /// The read itself failed with the given message.
    ReadError(String),
}

} // verus!
