//! The frames that adapter and bridge exchange.

use vstd::prelude::*;

verus! {

/// What the adapter sends to the bridge.
#[derive(Debug, Clone, PartialEq, Eq)]
pub enum BridgeInbound {
    /// Asks to be let in.
    Auth { token: String, sender_id: String },
    /// Passes a message on.
    Message { id: String, sender_id: String, content: String },
    /// Asks for a sign of life.
    Ping { nonce: Option<String> },
}

/// What the bridge sends to the adapter.
#[derive(Debug, Clone, PartialEq, Eq)]
pub enum BridgeOutbound {
    /// The adapter has been let in.
    Ready { sender_id: String, endpoint: String },
    /// Something has been refused.
    Error { code: String, message: String },
    /// A message to deliver.
    Message {
        id: String,
        recipient: String,
        content: String,
        subject: Option<String>,
        thread_ts: Option<String>,
    },
    /// The assistant types, or has stopped.
    Typing { recipient: String, active: bool },
    /// An answer in the making.
    Draft { recipient: String, message_id: String, event: String, text: Option<String> },
    /// An emoji on a message.
    Reaction { action: String, channel_id: String, message_id: String, emoji: String },
    /// A message has been taken in.
    Ack { id: String },
    /// A sign of life.
    Pong { nonce: Option<String> },
}

} // verus!
