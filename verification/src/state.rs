//! The mathematical state of a server, and what each operation does to it.

use tokio::net::TcpStream;
use tokio::sync::mpsc::UnboundedSender;
use tokio::task::JoinHandle;
use tokio_tungstenite::WebSocketStream;
use vstd::prelude::*;

use crate::connection::{abort_requested, task_id, ClientConnection, NewIncomingConnection};
use crate::connection_id::{ConnectionId, ConnectionKey};
use crate::error::NetworkError;
use crate::event::{decoded_data, NetworkDataView, ServerNetworkEvent};
use crate::packet::{NetworkPacket, PacketView};
use crate::tables::ReceivedMessage;

verus! {

/// The state of a server.
#[verifier::ext_equal]
pub struct ServerState {
    /// The established connections.
    pub connections: Map<ConnectionKey, ClientConnection>,
    /// The messages that wait for each registered kind, the oldest first.
    pub messages: Map<Seq<char>, Seq<ReceivedMessage>>,
    /// The clients that have connected or failed to since the last frame, the oldest first.
    pub incoming: Seq<Result<NewIncomingConnection, NetworkError>>,
    /// The connections that have ended since the last frame, the oldest first.
    pub disconnected: Seq<ConnectionId>,
    /// The failures to start listening.
    pub errors: Seq<NetworkError>,
    /// The task that listens for new clients.
    pub listener: Option<JoinHandle<()>>,
}

/// What was closed when a server stopped.
#[derive(Debug)]
pub struct Stopped {
    /// The task that listened for new clients.
    pub listener: JoinHandle<()>,
    /// The connections of all clients.
    pub connections: Vec<ClientConnection>,
}

/// The identities of some connections.
pub open spec fn ids_of(connections: Seq<ClientConnection>) -> Seq<ConnectionId> {
    connections.map_values(|connection: ClientConnection| connection.id)
}

/// The keys of some identities.
pub open spec fn keys_of(ids: Seq<ConnectionId>) -> Seq<ConnectionKey> {
    ids.map_values(|id: ConnectionId| id@.key())
}

/// The keys of a list of identities, with one more behind them.
pub proof fn lemma_keys_push(ids: Seq<ConnectionId>, id: ConnectionId)
    ensures
        keys_of(ids.push(id)) == keys_of(ids).push(id@.key()),
        forall|key: ConnectionKey| #[trigger]
            keys_of(ids.push(id)).contains(key) <==> keys_of(ids).contains(key) || key == id@.key(),
        keys_of(ids).no_duplicates() && !keys_of(ids).contains(id@.key()) ==> keys_of(
            ids.push(id),
        ).no_duplicates(),
{
    let keys = keys_of(ids);
    let more = keys_of(ids.push(id));
    assert(more == keys.push(id@.key()));
    assert forall|key: ConnectionKey| keys.contains(key) || key == id@.key() implies #[trigger] keys_of(
        ids.push(id),
    ).contains(key) by {
        if key == id@.key() {
            assert(more[keys.len() as int] == key);
        } else {
            let j = choose|j: int| 0 <= j < keys.len() && keys[j] == key;
            assert(more[j] == key);
        }
    }
}

/// The connections once those of new clients were entered, one after the other.
pub open spec fn with_clients(
    connections: Map<ConnectionKey, ClientConnection>,
    clients: Seq<Option<ClientConnection>>,
) -> Map<ConnectionKey, ClientConnection>
    decreases clients.len(),
{
    if clients.len() == 0 {
        connections
    } else {
        let before = with_clients(connections, clients.drop_last());
        match clients.last() {
            Some(client) => before.insert(client.id@.key(), client),
            None => before,
        }
    }
}

/// What becomes of a client that has connected or failed to: a new connection, with a new identity
/// and the tasks that `spawn` started for it, which is reported; or the report of the failure.
pub open spec fn admits<
    F: Fn(ConnectionId, WebSocketStream<TcpStream>) -> (
        JoinHandle<()>,
        JoinHandle<()>,
        UnboundedSender<NetworkPacket>,
    ),
>(
    spawn: F,
    incoming: Result<NewIncomingConnection, NetworkError>,
    client: Option<ClientConnection>,
    event: ServerNetworkEvent,
) -> bool {
    match incoming {
        Ok(new) => {
            &&& client matches Some(client)
            &&& client.id@.is_client_at(new.addr@)
            &&& client.addr == new.addr
            &&& call_ensures(
                spawn,
                (client.id, new.socket),
                (client.receive_task, client.send_task, client.send_message),
            )
            &&& event == ServerNetworkEvent::Connected(client.id)
        },
        Err(error) => client is None && event == ServerNetworkEvent::Error(error),
    }
}

impl ServerState {
    /// A server that was just made.
    pub open spec fn initial() -> ServerState {
        ServerState {
            connections: Map::empty(),
            messages: Map::empty(),
            incoming: Seq::empty(),
            disconnected: Seq::empty(),
            errors: Seq::empty(),
            listener: None,
        }
    }

    /// Every connection stands under the key of its own identity.
    pub open spec fn wf(self) -> bool {
        forall|key: ConnectionKey|
            #[trigger] self.connections.contains_key(key) ==> self.connections[key].id@.key()
                == key
    }

    /// Whether a client is connected under this identity.
    pub open spec fn has(self, id: ConnectionId) -> bool {
        self.connections.contains_key(id@.key())
    }

    /// Stopping: every connection is closed and reported, and nothing is left to report of clients
    /// that were about to connect. A server that does not listen stays as it is.
    pub open spec fn stops(self, after: ServerState, stopped: Option<Stopped>) -> bool {
        match self.listener {
            None => stopped is None && after == self,
            Some(listener) => {
                &&& stopped matches Some(stopped)
                &&& task_id(stopped.listener) == task_id(listener)
                &&& abort_requested(stopped.listener)
                &&& keys_of(ids_of(stopped.connections@)).no_duplicates()
                &&& keys_of(ids_of(stopped.connections@)).to_set() == self.connections.dom()
                &&& forall|i: int|
                    0 <= i < stopped.connections@.len()
                        ==> (#[trigger] stopped.connections@[i]).is_stop_of(
                        self.connections[stopped.connections@[i].id@.key()],
                    )
                &&& after == ServerState {
                    connections: Map::empty(),
                    messages: Map::empty(),
                    incoming: Seq::empty(),
                    disconnected: self.disconnected + ids_of(stopped.connections@),
                    listener: None,
                    ..self
                }
            },
        }
    }

    /// The messages that wait for a kind, the oldest first.
    pub open spec fn waiting_for(self, kind: Seq<char>) -> Seq<ReceivedMessage> {
        if self.messages.contains_key(kind) {
            self.messages[kind]
        } else {
            Seq::empty()
        }
    }

    /// Turning the messages of a kind into data of the type `T`: all that wait for it are taken, in
    /// the order in which they came, and each is decoded by `decode`. Those that do not decode are
    /// left out.
    pub open spec fn registers<T, F: Fn(&Vec<u8>) -> Option<T>>(
        self,
        after: ServerState,
        kind: Seq<char>,
        decode: F,
        decoded: Seq<(ConnectionId, Option<T>)>,
        events: Seq<NetworkDataView<T>>,
    ) -> bool {
        let messages = self.waiting_for(kind);
        &&& self.takes(after, kind, messages)
        &&& decoded.len() == messages.len()
        &&& forall|i: int|
            #![trigger decoded[i]]
            0 <= i < messages.len() ==> decoded[i].0 == messages[i].source && call_ensures(
                decode,
                (&messages[i].data,),
                decoded[i].1,
            )
        &&& events == decoded_data(decoded)
    }

    /// Taking the messages of a kind: all that wait for it, in the order in which they came.
    pub open spec fn takes(
        self,
        after: ServerState,
        kind: Seq<char>,
        taken: Seq<ReceivedMessage>,
    ) -> bool {
        &&& taken == self.waiting_for(kind)
        &&& after == if self.messages.contains_key(kind) {
            ServerState { messages: self.messages.insert(kind, Seq::empty()), ..self }
        } else {
            self
        }
    }

    /// The state once a message was received: it waits behind those of its kind, where the kind is
    /// registered.
    pub open spec fn with_message(self, kind: Seq<char>, message: ReceivedMessage) -> ServerState {
        if self.messages.contains_key(kind) {
            ServerState {
                messages: self.messages.insert(kind, self.messages[kind].push(message)),
                ..self
            }
        } else {
            self
        }
    }

    /// Disconnecting a client: its connection is closed and taken out.
    pub open spec fn disconnects(
        self,
        after: ServerState,
        id: ConnectionId,
        closed: Result<ClientConnection, NetworkError>,
    ) -> bool {
        if self.has(id) {
            &&& closed matches Ok(connection)
            &&& connection.is_stop_of(self.connections[id@.key()])
            &&& after == ServerState { connections: self.connections.remove(id@.key()), ..self }
        } else {
            &&& closed == Err::<ClientConnection, _>(NetworkError::ConnectionNotFound(id))
            &&& after == self
        }
    }

    /// Sending to a client: the packet is behind all others that were sent to it, or its channel
    /// is closed. No other connection is touched.
    pub open spec fn sends(
        self,
        after: ServerState,
        id: ConnectionId,
        packet: PacketView,
        sent: Result<(), NetworkError>,
    ) -> bool {
        if self.has(id) {
            &&& sent is Ok || sent == Err::<(), _>(NetworkError::ChannelClosed(id))
            &&& after.connections[id@.key()].is_send_of(
                self.connections[id@.key()],
                packet,
                sent is Ok,
            )
            &&& after == ServerState {
                connections: self.connections.insert(
                    id@.key(),
                    after.connections[id@.key()],
                ),
                ..self
            }
        } else {
            &&& sent == Err::<(), _>(NetworkError::ConnectionNotFound(id))
            &&& after == self
        }
    }

    /// Handling a frame: first every client that has connected or failed to is admitted or reported,
    /// in order; then every connection that has ended is taken out and reported, in order.
    pub open spec fn handles<
        F: Fn(ConnectionId, WebSocketStream<TcpStream>) -> (
            JoinHandle<()>,
            JoinHandle<()>,
            UnboundedSender<NetworkPacket>,
        ),
    >(
        self,
        after: ServerState,
        spawn: F,
        clients: Seq<Option<ClientConnection>>,
        events: Seq<ServerNetworkEvent>,
    ) -> bool {
        &&& clients.len() == self.incoming.len()
        &&& events.len() == self.incoming.len() + self.disconnected.len()
        &&& forall|i: int|
            0 <= i < self.incoming.len() ==> admits(
                spawn,
                #[trigger] self.incoming[i],
                clients[i],
                events[i],
            )
        &&& forall|i: int|
            0 <= i < self.disconnected.len() ==> events[self.incoming.len() + i]
                == ServerNetworkEvent::Disconnected(#[trigger] self.disconnected[i])
        &&& after == ServerState {
            connections: with_clients(self.connections, clients).remove_keys(
                keys_of(self.disconnected).to_set(),
            ),
            incoming: Seq::empty(),
            disconnected: Seq::empty(),
            ..self
        }
    }

    /// Sending to all clients: the packet is behind all others that were sent to each of them,
    /// except for those that are missed, as their channels are closed.
    pub open spec fn broadcasts(
        self,
        after: ServerState,
        packet: PacketView,
        missed: Seq<ConnectionId>,
    ) -> bool {
        &&& after == ServerState { connections: after.connections, ..self }
        &&& after.connections.dom() == self.connections.dom()
        &&& keys_of(missed).no_duplicates()
        &&& keys_of(missed).to_set().subset_of(self.connections.dom())
        &&& forall|key: ConnectionKey| #[trigger]
            self.connections.contains_key(key) ==> after.connections[key].is_send_of(
                self.connections[key],
                packet,
                !keys_of(missed).contains(key),
            )
    }
}

} // verus!
