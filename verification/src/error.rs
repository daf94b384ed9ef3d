//! What can go wrong in a network operation.

use vstd::prelude::*;

use crate::connection_id::ConnectionId;

verus! {

/// The error of an input or output operation, carried and never looked into.
#[verifier::external_type_specification]
#[verifier::external_body]
pub struct ExIoError(std::io::Error);

/// The error of a websocket, carried and never looked into.
#[verifier::external_type_specification]
#[verifier::external_body]
pub struct ExWebSocketError(tungstenite::Error);

/// An error of a network operation.
#[derive(Debug)]
pub enum NetworkError {
    /// A new client could not be accepted.
    Accept(std::io::Error),
    /// The websocket handshake with a new client failed.
    WSAccept(tungstenite::Error),
    /// Listening for new clients could not be started.
    Listen(std::io::Error),
    /// No client is connected under this identity.
    ConnectionNotFound(ConnectionId),
    /// The client does not take any more messages.
    ChannelClosed(ConnectionId),
}

} // verus!
