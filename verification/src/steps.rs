//! What can be done to a server, step by step.

use tokio::net::TcpStream;
use tokio::sync::mpsc::UnboundedSender;
use tokio::task::JoinHandle;
use tokio_tungstenite::WebSocketStream;
use vstd::prelude::*;

use crate::connection::{ClientConnection, NewIncomingConnection};
use crate::connection_id::{ConnectionId, ConnectionKey};
use crate::error::NetworkError;
use crate::event::ServerNetworkEvent;
use crate::packet::{NetworkPacket, PacketView};
use crate::state::{admits, keys_of, ServerState, Stopped};
use crate::tables::ReceivedMessage;
use crate::tasks::{ListenAction, ListenEvent, ReceiveAction, ReceiveEvent};

verus! {

/// One thing that is done to a server, with what came of it.
pub enum Step<F> {
    /// It starts to listen.
    Listen { stopped: Option<Stopped> },
    /// It stops.
    Stop { stopped: Option<Stopped> },
    /// A client is disconnected.
    Disconnect { id: ConnectionId, closed: Result<ClientConnection, NetworkError> },
    /// A message is sent to a client.
    Send { id: ConnectionId, packet: PacketView, sent: Result<(), NetworkError> },
    /// A message is sent to all clients.
    Broadcast { packet: PacketView, missed: Seq<ConnectionId> },
    /// A kind of messages is registered.
    Register { kind: Seq<char> },
    /// The messages of a kind are taken.
    Take { kind: Seq<char>, taken: Seq<ReceivedMessage> },
    /// The task that listens for new clients reports.
    Listened { event: ListenEvent, action: ListenAction },
    /// The task that reads from a client reports.
    Received {
        max_packet_length: usize,
        id: ConnectionId,
        event: ReceiveEvent,
        action: ReceiveAction,
    },
    /// A frame is handled.
    Frame {
        spawn: F,
        clients: Seq<Option<ClientConnection>>,
        events: Seq<ServerNetworkEvent>,
    },
    /// A new client is entered, outside of a frame.
    Enter {
        spawn: F,
        new: NewIncomingConnection,
        client: ClientConnection,
        event: ServerNetworkEvent,
    },
    /// A connection is put among the established ones, without a report.
    Establish { connection: ClientConnection },
}

/// The events that a step gives the application.
pub open spec fn events_of<F>(step: Step<F>) -> Seq<ServerNetworkEvent> {
    match step {
        Step::Frame { events, .. } => events,
        Step::Enter { event, .. } => seq![event],
        _ => Seq::empty(),
    }
}

/// The new clients that a step enters, or fails to.
pub open spec fn clients_of<F>(step: Step<F>) -> Seq<Option<ClientConnection>> {
    match step {
        Step::Frame { clients, .. } => clients,
        Step::Enter { client, .. } => seq![Some(client)],
        _ => Seq::empty(),
    }
}

/// The events that some steps give the application, in their order.
pub open spec fn reported<F>(steps: Seq<Step<F>>) -> Seq<ServerNetworkEvent>
    decreases steps.len(),
{
    if steps.len() == 0 {
        Seq::empty()
    } else {
        reported(steps.drop_last()) + events_of(steps.last())
    }
}

/// Whether a step leads from one state to another.
pub open spec fn leads_to<
    F: Fn(ConnectionId, WebSocketStream<TcpStream>) -> (
        JoinHandle<()>,
        JoinHandle<()>,
        UnboundedSender<NetworkPacket>,
    ),
>(before: ServerState, step: Step<F>, after: ServerState) -> bool {
    match step {
        Step::Listen { stopped } => {
            &&& after.listener is Some
            &&& before.stops(ServerState { listener: None, ..after }, stopped)
        },
        Step::Stop { stopped } => before.stops(after, stopped),
        Step::Disconnect { id, closed } => before.disconnects(after, id, closed),
        Step::Send { id, packet, sent } => before.sends(after, id, packet, sent),
        Step::Broadcast { packet, missed } => before.broadcasts(after, packet, missed),
        Step::Register { kind } => {
            &&& !before.messages.contains_key(kind)
            &&& after == ServerState {
                messages: before.messages.insert(kind, Seq::empty()),
                ..before
            }
        },
        Step::Take { kind, taken } => before.takes(after, kind, taken),
        Step::Listened { event, action } => before.listens(after, event, action),
        Step::Received { max_packet_length, id, event, action } => before.receives(
            after,
            max_packet_length as nat,
            id,
            event,
            action,
        ),
        Step::Frame { spawn, clients, events } => before.handles(after, spawn, clients, events),
        Step::Enter { spawn, new, client, event } => {
            &&& admits(spawn, Ok(new), Some(client), event)
            &&& after == ServerState {
                connections: before.connections.insert(client.id@.key(), client),
                ..before
            }
        },
        Step::Establish { connection } => after == ServerState {
            connections: before.connections.insert(connection.id@.key(), connection),
            ..before
        },
    }
}

/// A run: the states that a server goes through, from whatever state it is in.
pub open spec fn is_run<
    F: Fn(ConnectionId, WebSocketStream<TcpStream>) -> (
        JoinHandle<()>,
        JoinHandle<()>,
        UnboundedSender<NetworkPacket>,
    ),
>(states: Seq<ServerState>, steps: Seq<Step<F>>) -> bool {
    &&& states.len() == steps.len() + 1
    &&& forall|i: int|
        0 <= i < steps.len() ==> leads_to(states[i], #[trigger] steps[i], states[i + 1])
}

/// Whether a step puts a connection under this key, be it of a new client or not.
pub open spec fn enters_key<F>(step: Step<F>, key: ConnectionKey) -> bool {
    ||| step matches Step::Establish { connection } && connection.id@.key() == key
    ||| exists|i: int|
        #![trigger clients_of(step)[i]]
        0 <= i < clients_of(step).len() && clients_of(step)[i] is Some && clients_of(
            step,
        )[i]->0.id@.key() == key
}

/// Whether a step may take the connection under this key out: a server that listens is stopped, the
/// client is disconnected, or it is reported as disconnected.
pub open spec fn removes_key<F>(step: Step<F>, key: ConnectionKey) -> bool {
    match step {
        Step::Listen { stopped } => stopped is Some,
        Step::Stop { stopped } => stopped is Some,
        Step::Disconnect { id, .. } => id@.key() == key,
        _ => exists|i: int|
            #![trigger events_of(step)[i]]
            0 <= i < events_of(step).len() && events_of(step)[i] is Disconnected && events_of(
                step,
            )[i]->Disconnected_0@.key() == key,
    }
}

/// Whether some steps leave the connection under this key in its place: none takes it out, and none
/// puts another there.
pub open spec fn keep_connection<F>(steps: Seq<Step<F>>, key: ConnectionKey) -> bool {
    forall|i: int|
        0 <= i < steps.len() ==> !removes_key(#[trigger] steps[i], key) && !enters_key(
            steps[i],
            key,
        )
}

/// A frame takes out only those connections that it reports.
pub proof fn lemma_ended_is_reported<
    F: Fn(ConnectionId, WebSocketStream<TcpStream>) -> (
        JoinHandle<()>,
        JoinHandle<()>,
        UnboundedSender<NetworkPacket>,
    ),
>(before: ServerState, step: Step<F>, after: ServerState, key: ConnectionKey)
    requires
        leads_to(before, step, after),
        step is Frame,
        keys_of(before.disconnected).contains(key),
    ensures
        removes_key(step, key),
{
    let keys = keys_of(before.disconnected);
    let k = choose|k: int| 0 <= k < keys.len() && keys[k] == key;
    let m = before.incoming.len() as int;
    assert(events_of(step)[m + k] == ServerNetworkEvent::Disconnected(before.disconnected[k]));
}

} // verus!
