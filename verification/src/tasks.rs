//! The decisions of a server's tasks: what each does next, after what has just happened to it.

use vstd::prelude::*;

use crate::connection::NewIncomingConnection;
use crate::connection_id::ConnectionId;
use crate::error::NetworkError;
use crate::event::NetworkSettings;
use crate::packet::{frame_of, packet_in, NetworkPacket, Payload};
use crate::server::NetworkServer;
use crate::state::ServerState;
use crate::tables::ReceivedMessage;

verus! {

/// What happens to the task that listens for new clients.
#[derive(Debug)]
pub enum ListenEvent {
    /// The address is bound.
    Bound,
    /// The address could not be bound.
    BindFailed(std::io::Error),
    /// A client has opened a TCP connection.
    Accepted,
    /// No TCP connection could be accepted.
    AcceptFailed(std::io::Error),
    /// The websocket handshake with the client is done.
    Opened(NewIncomingConnection),
    /// The websocket handshake with the client has failed.
    HandshakeFailed(tungstenite::Error),
}

/// What the task that listens for new clients does next.
#[derive(Debug, Clone, Copy, PartialEq, Eq)]
pub enum ListenAction {
    /// Wait for a client.
    Accept,
    /// Do the websocket handshake with the client that was just accepted.
    Handshake,
    /// End.
    Stop,
}

/// What happens to the task that reads from a client.
#[derive(Debug)]
pub enum ReceiveEvent {
    /// A frame was read.
    Frame(Vec<u8>),
    /// Reading has failed.
    Failed,
    /// There is nothing more to read.
    Closed,
    /// The message in a packet is one of a known type.
    Decoded {
        kind: String,
        data: Vec<u8>,
    },
    /// The message in a packet is of no known type.
    Undecodable,
}

/// What the task that reads from a client does next.
#[derive(Debug)]
pub enum ReceiveAction {
    /// Read the next frame. A packet that was just decoded is kept, or dropped as its kind is not
    /// registered.
    Read {
        kept: bool,
    },
    /// Decode the message in a packet.
    Decode {
        kind: String,
        data: Vec<u8>,
    },
    /// End. The connection has been noted as ended.
    Stop,
}

/// What happens to the task that writes to a client.
#[derive(Debug)]
pub enum SendEvent {
    /// A packet is to be sent.
    Packet(NetworkPacket),
    /// A frame was written.
    Written,
    /// A frame could not be written.
    WriteFailed,
    /// There are no more packets to send.
    Closed,
}

/// What the task that writes to a client does next.
#[derive(Debug)]
pub enum SendAction {
    /// Write a frame.
    Write(Vec<u8>),
    /// Wait for the next packet.
    Next,
    /// End.
    Stop,
}

impl ServerState {
    /// The state once a connection has ended.
    pub open spec fn with_ended(self, id: ConnectionId) -> ServerState {
        ServerState { disconnected: self.disconnected.push(id), ..self }
    }

    /// The state once a client has connected or failed to.
    pub open spec fn with_incoming(
        self,
        incoming: Result<NewIncomingConnection, NetworkError>,
    ) -> ServerState {
        ServerState { incoming: self.incoming.push(incoming), ..self }
    }

    /// The decision of the task that listens for new clients.
    pub open spec fn listens(
        self,
        after: ServerState,
        event: ListenEvent,
        action: ListenAction,
    ) -> bool {
        match event {
            ListenEvent::Bound => action is Accept && after == self,
            ListenEvent::BindFailed(error) => {
                &&& action is Stop
                &&& after == ServerState {
                    errors: self.errors.push(NetworkError::Listen(error)),
                    ..self
                }
            },
            ListenEvent::Accepted => action is Handshake && after == self,
            ListenEvent::AcceptFailed(error) => {
                &&& action is Accept
                &&& after == self.with_incoming(Err(NetworkError::Accept(error)))
            },
            ListenEvent::Opened(new) => {
                &&& action is Accept
                &&& after == self.with_incoming(Ok(new))
            },
            ListenEvent::HandshakeFailed(error) => {
                &&& action is Accept
                &&& after == self.with_incoming(Err(NetworkError::WSAccept(error)))
            },
        }
    }

    /// The decision of the task that reads from the client `id`, where packets have at most
    /// `max_packet_length` bytes.
    pub open spec fn receives(
        self,
        after: ServerState,
        max_packet_length: nat,
        id: ConnectionId,
        event: ReceiveEvent,
        action: ReceiveAction,
    ) -> bool {
        match event {
            ReceiveEvent::Frame(frame) => if frame@.len() <= max_packet_length && packet_in(
                frame@,
            ) is Some {
                &&& action matches ReceiveAction::Decode { kind, data }
                &&& kind@ == packet_in(frame@)->0.kind
                &&& Some(data@) == packet_in(frame@)->0.data
                &&& after == self
            } else {
                action is Stop && after == self.with_ended(id)
            },
            ReceiveEvent::Failed | ReceiveEvent::Closed | ReceiveEvent::Undecodable => {
                action is Stop && after == self.with_ended(id)
            },
            ReceiveEvent::Decoded { kind, data } => {
                &&& action == (ReceiveAction::Read { kept: self.messages.contains_key(kind@) })
                &&& after == self.with_message(kind@, ReceivedMessage { source: id, data })
            },
        }
    }
}

/// The decision of the task that writes to a client.
pub open spec fn sends_on(event: SendEvent, action: SendAction) -> bool {
    match event {
        SendEvent::Packet(packet) => match frame_of(packet@) {
            Some(frame) => action matches SendAction::Write(bytes) && bytes@ == frame,
            None => action is Next,
        },
        SendEvent::Written => action is Next,
        SendEvent::WriteFailed | SendEvent::Closed => action is Stop,
    }
}

impl NetworkServer {
    /// One step of the task that listens for new clients.
    pub fn listen_step(&mut self, event: ListenEvent) -> (action: ListenAction)
        requires
            old(self).wf(),
        ensures
            final(self).wf(),
            old(self)@.listens(final(self)@, event, action),
    {
        let incoming = match event {
            ListenEvent::Bound => {
                return ListenAction::Accept;
            },
            ListenEvent::BindFailed(error) => {
                self.note_failed(NetworkError::Listen(error));
                return ListenAction::Stop;
            },
            ListenEvent::Accepted => {
                return ListenAction::Handshake;
            },
            ListenEvent::AcceptFailed(error) => Err(NetworkError::Accept(error)),
            ListenEvent::Opened(new) => Ok(new),
            ListenEvent::HandshakeFailed(error) => Err(NetworkError::WSAccept(error)),
        };
        if self.note_incoming(incoming) {
            ListenAction::Accept
        } else {
            ListenAction::Stop
        }
    }

    /// One step of the task that reads from the client `conn_id`.
    ///
    /// The client is disconnected where it sends a packet that is too long, or one that cannot be
    /// decoded.
    pub fn receive_step(
        &mut self,
        settings: &NetworkSettings,
        conn_id: &ConnectionId,
        event: ReceiveEvent,
    ) -> (action: ReceiveAction)
        requires
            old(self).wf(),
        ensures
            final(self).wf(),
            old(self)@.receives(
                final(self)@,
                settings.max_packet_length as nat,
                *conn_id,
                event,
                action,
            ),
    {
        match event {
            ReceiveEvent::Frame(frame) => {
                if frame.len() <= settings.max_packet_length {
                    if let Some(packet) = NetworkPacket::decode(frame.as_slice()) {
                        if let Payload::Encoded(data) = packet.data {
                            return ReceiveAction::Decode { kind: packet.kind, data };
                        }
                    }
                }
            },
            ReceiveEvent::Decoded { kind, data } => {
                let message = ReceivedMessage { source: conn_id.clone(), data };
                let kept = self.keep_message(kind.as_str(), message);
                return ReceiveAction::Read { kept };
            },
            ReceiveEvent::Failed | ReceiveEvent::Closed | ReceiveEvent::Undecodable => {},
        }
        self.note_ended(conn_id.clone());
        ReceiveAction::Stop
    }
}

/// One step of the task that writes to a client.
///
/// A packet whose message has no encoding is skipped.
pub fn send_step(event: SendEvent) -> (action: SendAction)
    ensures
        sends_on(event, action),
{
    match event {
        SendEvent::Packet(packet) => match packet.encode() {
            Some(frame) => SendAction::Write(frame),
            None => SendAction::Next,
        },
        SendEvent::Written => SendAction::Next,
        SendEvent::WriteFailed | SendEvent::Closed => SendAction::Stop,
    }
}

} // verus!
