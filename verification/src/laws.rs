//! What holds of a server as a whole, across its operations.

use tokio::net::TcpStream;
use tokio::sync::mpsc::UnboundedSender;
use tokio::task::JoinHandle;
use tokio_tungstenite::WebSocketStream;
use vstd::prelude::*;

use crate::connection::{accepted, ClientConnection};
use crate::connection_id::{is_random_uuid, ConnectionId, ConnectionIdView, ConnectionKey};
use crate::error::NetworkError;
use crate::event::ServerNetworkEvent;
use crate::packet::{law_frame_gives_back_packet, NetworkPacket, PacketView};
use crate::state::{ids_of, keys_of, with_clients, ServerState, Stopped};
use crate::tables::ReceivedMessage;
use crate::tasks::{sends_on, ReceiveAction, ReceiveEvent, SendAction, SendEvent};

verus! {

/// The identity of a client is never that of a server.
pub proof fn law_client_is_no_server(id: ConnectionIdView, addr: Seq<char>)
    requires
        id.is_client_at(addr),
    ensures
        !id.is_server(),
{
    let uuid = id.uuid;
    assert(is_random_uuid(uuid) ==> uuid != 0) by (bit_vector);
}

/// Stopping is idempotent: a second stop finds nothing to do, and changes nothing.
pub proof fn law_stop_is_idempotent(
    before: ServerState,
    between: ServerState,
    after: ServerState,
    first: Option<Stopped>,
    second: Option<Stopped>,
)
    requires
        before.stops(between, first),
        between.stops(after, second),
    ensures
        second is None,
        after == between,
{
}

/// Stopping does nothing if the server is not actively listening.
pub proof fn law_stop_needs_a_listener(
    before: ServerState,
    after: ServerState,
    stopped: Option<Stopped>,
)
    requires
        before.listener is None,
        before.stops(after, stopped),
    ensures
        stopped is None,
        after == before,
{
}

/// A server that stops listening disconnects all clients: none is connected any more, the
/// connection of each is closed, and each is noted as ended once.
pub proof fn law_stop_disconnects_all_clients(
    before: ServerState,
    after: ServerState,
    stopped: Option<Stopped>,
    id: ConnectionId,
)
    requires
        before.listener is Some,
        before.stops(after, stopped),
        before.has(id),
    ensures
        after.listener is None,
        after.connections.dom() == Set::<ConnectionKey>::empty(),
        after.incoming.len() == 0,
        exists|i: int|
            #![trigger stopped->0.connections@[i]]
            0 <= i < stopped->0.connections@.len() && stopped->0.connections@[i].is_stop_of(
                before.connections[id@.key()],
            ),
        exists|i: int|
            #![trigger after.disconnected[i]]
            before.disconnected.len() <= i < after.disconnected.len() && after.disconnected[i]
                == before.connections[id@.key()].id,
        forall|i: int, j: int|
            #![trigger after.disconnected[i], after.disconnected[j]]
            before.disconnected.len() <= i < j < after.disconnected.len()
                ==> after.disconnected[i]@.key() != after.disconnected[j]@.key(),
{
    let closed = stopped->0.connections@;
    let keys = keys_of(ids_of(closed));
    assert(keys.to_set().contains(id@.key()));
    let k = choose|k: int| 0 <= k < keys.len() && keys[k] == id@.key();
    assert(closed[k].is_stop_of(before.connections[id@.key()]));
    let n = before.disconnected.len() as int;
    assert(after.disconnected[n + k] == closed[k].id);
    assert forall|i: int, j: int|
        #![trigger after.disconnected[i], after.disconnected[j]]
        n <= i < j < after.disconnected.len() implies after.disconnected[i]@.key()
        != after.disconnected[j]@.key() by {
        assert(after.disconnected[i] == closed[i - n].id);
        assert(after.disconnected[j] == closed[j - n].id);
        assert(keys[i - n] != keys[j - n]);
    }
}

/// A server that was listening and starts to listen again has disconnected all clients first, as
/// stopping it would have.
pub proof fn law_listen_disconnects_first(
    before: ServerState,
    after: ServerState,
    stopped: Option<Stopped>,
    id: ConnectionId,
)
    requires
        before.listener is Some,
        before.stops(ServerState { listener: None, ..after }, stopped),
        before.has(id),
    ensures
        after.connections.dom() == Set::<ConnectionKey>::empty(),
        exists|i: int|
            #![trigger after.disconnected[i]]
            before.disconnected.len() <= i < after.disconnected.len() && after.disconnected[i]
                == before.connections[id@.key()].id,
{
    let between = ServerState { listener: None, ..after };
    law_stop_disconnects_all_clients(before, between, stopped, id);
    let i = choose|i: int|
        #![trigger between.disconnected[i]]
        before.disconnected.len() <= i < between.disconnected.len() && between.disconnected[i]
            == before.connections[id@.key()].id;
    assert(after.disconnected[i] == before.connections[id@.key()].id);
}

/// Every client that was connected when a server stopped is reported as disconnected in the next
/// frame, after which no client is connected.
pub proof fn law_stopped_clients_are_reported<
    F: Fn(ConnectionId, WebSocketStream<TcpStream>) -> (
        JoinHandle<()>,
        JoinHandle<()>,
        UnboundedSender<NetworkPacket>,
    ),
>(
    before: ServerState,
    between: ServerState,
    after: ServerState,
    stopped: Option<Stopped>,
    spawn: F,
    clients: Seq<Option<ClientConnection>>,
    events: Seq<ServerNetworkEvent>,
    id: ConnectionId,
)
    requires
        before.listener is Some,
        before.stops(between, stopped),
        between.handles(after, spawn, clients, events),
        before.has(id),
    ensures
        after.connections.dom() == Set::<ConnectionKey>::empty(),
        exists|i: int|
            #![trigger events[i]]
            0 <= i < events.len() && events[i] == ServerNetworkEvent::Disconnected(
                before.connections[id@.key()].id,
            ),
{
    law_stop_disconnects_all_clients(before, between, stopped, id);
    let i = choose|i: int|
        #![trigger between.disconnected[i]]
        before.disconnected.len() <= i < between.disconnected.len() && between.disconnected[i]
            == before.connections[id@.key()].id;
    assert(events[between.incoming.len() + i] == ServerNetworkEvent::Disconnected(
        between.disconnected[i],
    ));
    assert(with_clients(between.connections, clients) == between.connections);
}

/// A client that was disconnected is unknown: nothing can be sent to it, and it cannot be
/// disconnected again. Both requests are refused with its identity, and change nothing.
pub proof fn law_disconnected_client_is_unknown(
    before: ServerState,
    between: ServerState,
    id: ConnectionId,
    closed: Result<ClientConnection, NetworkError>,
    after_send: ServerState,
    packet: PacketView,
    sent: Result<(), NetworkError>,
    after_disconnect: ServerState,
    closed_again: Result<ClientConnection, NetworkError>,
)
    requires
        before.disconnects(between, id, closed),
        between.sends(after_send, id, packet, sent),
        between.disconnects(after_disconnect, id, closed_again),
    ensures
        !between.has(id),
        sent == Err::<(), _>(NetworkError::ConnectionNotFound(id)),
        closed_again == Err::<ClientConnection, _>(NetworkError::ConnectionNotFound(id)),
        after_send == between,
        after_disconnect == between,
{
}

/// Disconnecting one client leaves every other one connected as it was.
pub proof fn law_disconnect_leaves_others(
    before: ServerState,
    after: ServerState,
    id: ConnectionId,
    closed: Result<ClientConnection, NetworkError>,
    other: ConnectionId,
)
    requires
        before.disconnects(after, id, closed),
        other@.key() != id@.key(),
    ensures
        after.has(other) == before.has(other),
        before.has(other) ==> after.connections[other@.key()] == before.connections[other@.key()],
{
}

/// The channel of a client takes packets in the order in which they were sent to it.
pub proof fn law_sends_keep_their_order(
    before: ServerState,
    between: ServerState,
    after: ServerState,
    id: ConnectionId,
    first: PacketView,
    second: PacketView,
    first_sent: Result<(), NetworkError>,
    second_sent: Result<(), NetworkError>,
)
    requires
        before.sends(between, id, first, first_sent),
        between.sends(after, id, second, second_sent),
        first_sent is Ok,
        second_sent is Ok,
    ensures
        accepted(after.connections[id@.key()].send_message) == accepted(
            before.connections[id@.key()].send_message,
        ).push(first).push(second),
{
}

/// A client whose channel was found closed stays out of reach: every later message to it is refused
/// in the same way, and a broadcast misses it.
pub proof fn law_closed_channel_stays_closed(
    before: ServerState,
    between: ServerState,
    id: ConnectionId,
    first: PacketView,
    first_sent: Result<(), NetworkError>,
    after_send: ServerState,
    second: PacketView,
    second_sent: Result<(), NetworkError>,
    after_broadcast: ServerState,
    third: PacketView,
    missed: Seq<ConnectionId>,
)
    requires
        before.sends(between, id, first, first_sent),
        first_sent == Err::<(), _>(NetworkError::ChannelClosed(id)),
        between.sends(after_send, id, second, second_sent),
        between.broadcasts(after_broadcast, third, missed),
    ensures
        second_sent == Err::<(), _>(NetworkError::ChannelClosed(id)),
        keys_of(missed).contains(id@.key()),
{
    assert(between.connections.contains_key(id@.key()));
}

/// Sending to one client hands nothing to any other.
pub proof fn law_send_leaves_others(
    before: ServerState,
    after: ServerState,
    id: ConnectionId,
    packet: PacketView,
    sent: Result<(), NetworkError>,
    other: ConnectionId,
)
    requires
        before.sends(after, id, packet, sent),
        other@.key() != id@.key(),
    ensures
        after.has(other) == before.has(other),
        before.has(other) ==> after.connections[other@.key()] == before.connections[other@.key()],
{
}

/// A broadcast does to every connected client what sending to it alone would do.
pub proof fn law_broadcast_sends_to_each(
    before: ServerState,
    after: ServerState,
    packet: PacketView,
    missed: Seq<ConnectionId>,
    id: ConnectionId,
)
    requires
        before.broadcasts(after, packet, missed),
        before.has(id),
    ensures
        before.sends(
            ServerState {
                connections: before.connections.insert(
                    id@.key(),
                    after.connections[id@.key()],
                ),
                ..before
            },
            id,
            packet,
            if keys_of(missed).contains(id@.key()) {
                Err(NetworkError::ChannelClosed(id))
            } else {
                Ok(())
            },
        ),
{
}

/// The state once some messages of a kind were received, one after the other.
pub open spec fn with_messages(
    state: ServerState,
    kind: Seq<char>,
    messages: Seq<ReceivedMessage>,
) -> ServerState
    decreases messages.len(),
{
    if messages.len() == 0 {
        state
    } else {
        with_messages(state, kind, messages.drop_last()).with_message(kind, messages.last())
    }
}

/// Messages wait in the order in which they were received.
proof fn lemma_messages_wait(state: ServerState, kind: Seq<char>, messages: Seq<ReceivedMessage>)
    requires
        state.messages.contains_key(kind),
    ensures
        with_messages(state, kind, messages) == (ServerState {
            messages: state.messages.insert(kind, state.messages[kind] + messages),
            ..state
        }),
    decreases messages.len(),
{
    if messages.len() == 0 {
        assert(state.messages[kind] + messages == state.messages[kind]);
        assert(state.messages.insert(kind, state.messages[kind]) == state.messages);
    } else {
        let rest = messages.drop_last();
        lemma_messages_wait(state, kind, rest);
        let between = with_messages(state, kind, rest);
        assert((state.messages[kind] + rest).push(messages.last()) == state.messages[kind]
            + messages);
        assert(between.with_message(kind, messages.last()).messages == state.messages.insert(
            kind,
            state.messages[kind] + messages,
        ));
    }
}

/// Reliable and ordered: the messages that were received of a registered kind are handed out once,
/// none missing, in the order in which they came, behind those that waited already.
pub proof fn law_messages_are_handed_out_in_order(
    before: ServerState,
    kind: Seq<char>,
    messages: Seq<ReceivedMessage>,
    between: ServerState,
    taken: Seq<ReceivedMessage>,
    after: ServerState,
    taken_again: Seq<ReceivedMessage>,
)
    requires
        before.messages.contains_key(kind),
        with_messages(before, kind, messages).takes(between, kind, taken),
        between.takes(after, kind, taken_again),
    ensures
        taken == before.messages[kind] + messages,
        taken_again.len() == 0,
        after == between,
{
    lemma_messages_wait(before, kind, messages);
    assert(after.messages == between.messages);
}

/// A message touches the queue of its own kind only, and nothing where its kind is not registered.
pub proof fn law_message_touches_its_kind_only(
    before: ServerState,
    kind: Seq<char>,
    message: ReceivedMessage,
    other: Seq<char>,
)
    requires
        other != kind,
    ensures
        before.with_message(kind, message).messages.contains_key(other)
            == before.messages.contains_key(other),
        before.messages.contains_key(other) ==> before.with_message(kind, message).messages[other]
            == before.messages[other],
        !before.messages.contains_key(kind) ==> before.with_message(kind, message) == before,
{
}

/// A client that exceeds the maximum packet size is disconnected: it is reported so in the next
/// frame, and is not connected any more.
pub proof fn law_too_long_packet_disconnects<
    F: Fn(ConnectionId, WebSocketStream<TcpStream>) -> (
        JoinHandle<()>,
        JoinHandle<()>,
        UnboundedSender<NetworkPacket>,
    ),
>(
    before: ServerState,
    between: ServerState,
    after: ServerState,
    max_packet_length: nat,
    id: ConnectionId,
    frame: Vec<u8>,
    action: ReceiveAction,
    spawn: F,
    clients: Seq<Option<ClientConnection>>,
    events: Seq<ServerNetworkEvent>,
)
    requires
        frame@.len() > max_packet_length,
        before.receives(between, max_packet_length, id, ReceiveEvent::Frame(frame), action),
        between.handles(after, spawn, clients, events),
    ensures
        action is Stop,
        events.last() == ServerNetworkEvent::Disconnected(id),
        !after.has(id),
{
    let n = between.disconnected.len() - 1;
    assert(between.disconnected[n] == id);
    assert(events[between.incoming.len() + n] == ServerNetworkEvent::Disconnected(
        between.disconnected[n],
    ));
    assert(keys_of(between.disconnected)[n] == id@.key());
    assert(keys_of(between.disconnected).to_set().contains(id@.key()));
}

/// What the task that writes to a peer makes of a packet, the task that reads from it gets back:
/// the same kind and the same message, unless it is too long.
pub proof fn law_written_packet_is_read_back(
    packet: NetworkPacket,
    written: SendAction,
    frame: Vec<u8>,
    before: ServerState,
    after: ServerState,
    max_packet_length: nat,
    id: ConnectionId,
    read: ReceiveAction,
)
    requires
        sends_on(SendEvent::Packet(packet), written),
        written matches SendAction::Write(bytes) && bytes@ == frame@,
        frame@.len() <= max_packet_length,
        max_packet_length <= u64::MAX,
        before.receives(after, max_packet_length, id, ReceiveEvent::Frame(frame), read),
    ensures
        read matches ReceiveAction::Decode { kind, data } && kind@ == packet@.kind && Some(data@)
            == packet@.data,
        after == before,
{
    law_frame_gives_back_packet(packet@);
}

/// In the state after the first clients of a list were entered, each of them is connected.
proof fn lemma_clients_are_entered(
    connections: Map<ConnectionKey, ClientConnection>,
    clients: Seq<Option<ClientConnection>>,
    i: int,
)
    requires
        0 <= i < clients.len(),
        clients[i] is Some,
    ensures
        with_clients(connections, clients).contains_key(clients[i]->0.id@.key()),
    decreases clients.len(),
{
    if i < clients.len() - 1 {
        lemma_clients_are_entered(connections, clients.drop_last(), i);
    }
}

/// Whether the new clients have pairwise different identities.
pub open spec fn are_different(clients: Seq<Option<ClientConnection>>) -> bool {
    forall|i: int, j: int|
        #![trigger clients[i], clients[j]]
        0 <= i < j < clients.len() && clients[i] is Some && clients[j] is Some
            ==> clients[i]->0.id@.key() != clients[j]->0.id@.key()
}

/// Whether none of the new clients has this key.
pub open spec fn have_not_key(clients: Seq<Option<ClientConnection>>, key: ConnectionKey) -> bool {
    forall|i: int|
        0 <= i < clients.len() && (#[trigger] clients[i]) is Some ==> clients[i]->0.id@.key() != key
}

/// New clients for which pairwise different UUIDs were drawn have pairwise different identities,
/// which also differ from every identity with yet another UUID.
pub proof fn law_different_uuids_give_different_identities(
    clients: Seq<Option<ClientConnection>>,
    key: ConnectionKey,
)
    requires
        forall|i: int, j: int|
            #![trigger clients[i], clients[j]]
            0 <= i < j < clients.len() && clients[i] is Some && clients[j] is Some
                ==> clients[i]->0.id@.uuid != clients[j]->0.id@.uuid,
        forall|i: int|
            0 <= i < clients.len() && (#[trigger] clients[i]) is Some ==> clients[i]->0.id@.uuid
                != key.0,
    ensures
        are_different(clients),
        have_not_key(clients, key),
{
}

/// Entering new clients leaves an entry as it is, and enters nothing in its place, where its key is
/// not one of theirs.
pub proof fn law_new_clients_leave_others(
    connections: Map<ConnectionKey, ClientConnection>,
    clients: Seq<Option<ClientConnection>>,
    key: ConnectionKey,
)
    requires
        have_not_key(clients, key),
    ensures
        with_clients(connections, clients).contains_key(key) == connections.contains_key(key),
        connections.contains_key(key) ==> with_clients(connections, clients)[key]
            == connections[key],
    decreases clients.len(),
{
    if clients.len() > 0 {
        let rest = clients.drop_last();
        assert(have_not_key(rest, key)) by {
            assert forall|i: int| 0 <= i < rest.len() && (#[trigger] rest[i]) is Some implies rest[i]->0.id@.key()
                != key by {
                assert(rest[i] == clients[i]);
            }
        }
        law_new_clients_leave_others(connections, rest, key);
        assert(clients.last() is Some ==> clients[clients.len() - 1]->0.id@.key() != key);
    }
}

/// The connection of a new client is the one that is entered under its identity, where no other new
/// client has this identity.
proof fn lemma_client_keeps_its_place(
    connections: Map<ConnectionKey, ClientConnection>,
    clients: Seq<Option<ClientConnection>>,
    i: int,
)
    requires
        are_different(clients),
        0 <= i < clients.len(),
        clients[i] is Some,
    ensures
        with_clients(connections, clients).contains_key(clients[i]->0.id@.key()),
        with_clients(connections, clients)[clients[i]->0.id@.key()] == clients[i]->0,
    decreases clients.len(),
{
    let last = clients.len() - 1;
    if i < last {
        let rest = clients.drop_last();
        assert(are_different(rest)) by {
            assert forall|a: int, b: int|
                #![trigger rest[a], rest[b]]
                0 <= a < b < rest.len() && rest[a] is Some && rest[b] is Some implies rest[a]->0.id@.key()
                != rest[b]->0.id@.key() by {
                assert(rest[a] == clients[a] && rest[b] == clients[b]);
            }
        }
        lemma_client_keeps_its_place(connections, rest, i);
        assert(rest[i] == clients[i]);
        assert(clients[last] is Some ==> clients[i]->0.id@.key() != clients[last]->0.id@.key());
    }
}

/// Where no pair of UUID and URL is given twice, no connection is displaced: none of the new clients
/// of a frame is a server, and once the frame is handled each client, old or new, has its own
/// connection, unless it has ended.
pub proof fn law_new_clients_displace_nobody<
    F: Fn(ConnectionId, WebSocketStream<TcpStream>) -> (
        JoinHandle<()>,
        JoinHandle<()>,
        UnboundedSender<NetworkPacket>,
    ),
>(
    before: ServerState,
    after: ServerState,
    spawn: F,
    clients: Seq<Option<ClientConnection>>,
    events: Seq<ServerNetworkEvent>,
)
    requires
        before.handles(after, spawn, clients, events),
        are_different(clients),
        forall|key: ConnectionKey| #[trigger]
            before.connections.contains_key(key) ==> have_not_key(clients, key),
    ensures
        forall|i: int|
            #![trigger clients[i]]
            0 <= i < clients.len() && clients[i] is Some ==> {
                let key = clients[i]->0.id@.key();
                &&& !clients[i]->0.id@.is_server()
                &&& !keys_of(before.disconnected).contains(key) ==> after.connections.contains_key(
                    key,
                ) && after.connections[key] == clients[i]->0
            },
        forall|key: ConnectionKey| #[trigger]
            before.connections.contains_key(key) && !keys_of(before.disconnected).contains(key)
                ==> after.connections.contains_key(key) && after.connections[key]
                == before.connections[key],
{
    assert forall|i: int|
        #![trigger clients[i]]
        0 <= i < clients.len() && clients[i] is Some implies {
        let key = clients[i]->0.id@.key();
        &&& !clients[i]->0.id@.is_server()
        &&& !keys_of(before.disconnected).contains(key) ==> after.connections.contains_key(key)
            && after.connections[key] == clients[i]->0
    } by {
        assert(before.incoming[i] is Ok);
        law_client_is_no_server(clients[i]->0.id@, before.incoming[i]->Ok_0.addr@);
        lemma_client_keeps_its_place(before.connections, clients, i);
    }
    assert forall|key: ConnectionKey| #[trigger]
        before.connections.contains_key(key) && !keys_of(before.disconnected).contains(
            key,
        ) implies after.connections.contains_key(key) && after.connections[key]
        == before.connections[key] by {
        law_new_clients_leave_others(before.connections, clients, key);
    }
}

/// A client that is reported as connected is so once the frame is handled, unless its connection
/// has ended meanwhile.
pub proof fn law_reported_client_is_connected<
    F: Fn(ConnectionId, WebSocketStream<TcpStream>) -> (
        JoinHandle<()>,
        JoinHandle<()>,
        UnboundedSender<NetworkPacket>,
    ),
>(
    before: ServerState,
    after: ServerState,
    spawn: F,
    clients: Seq<Option<ClientConnection>>,
    events: Seq<ServerNetworkEvent>,
    i: int,
    id: ConnectionId,
)
    requires
        before.handles(after, spawn, clients, events),
        0 <= i < events.len(),
        events[i] == ServerNetworkEvent::Connected(id),
        !keys_of(before.disconnected).contains(id@.key()),
    ensures
        after.has(id),
        !id@.is_server(),
{
    if i >= before.incoming.len() {
        assert(events[before.incoming.len() + (i - before.incoming.len())]
            == ServerNetworkEvent::Disconnected(
            before.disconnected[i - before.incoming.len()],
        ));
    }
    assert(before.incoming[i] is Ok);
    lemma_clients_are_entered(before.connections, clients, i);
    law_client_is_no_server(id@, before.incoming[i]->Ok_0.addr@);
}

/// A client that is reported as disconnected is not connected once the frame is handled.
pub proof fn law_reported_client_is_disconnected<
    F: Fn(ConnectionId, WebSocketStream<TcpStream>) -> (
        JoinHandle<()>,
        JoinHandle<()>,
        UnboundedSender<NetworkPacket>,
    ),
>(
    before: ServerState,
    after: ServerState,
    spawn: F,
    clients: Seq<Option<ClientConnection>>,
    events: Seq<ServerNetworkEvent>,
    i: int,
    id: ConnectionId,
)
    requires
        before.handles(after, spawn, clients, events),
        0 <= i < events.len(),
        events[i] == ServerNetworkEvent::Disconnected(id),
    ensures
        !after.has(id),
{
    let n = before.incoming.len() as int;
    if i < n {
        assert(before.incoming[i] is Ok || before.incoming[i] is Err);
    } else {
        assert(before.disconnected[i - n] == id) by {
            assert(events[n + (i - n)] == ServerNetworkEvent::Disconnected(
                before.disconnected[i - n],
            ));
        }
        assert(keys_of(before.disconnected)[i - n] == id@.key());
        assert(keys_of(before.disconnected).to_set().contains(id@.key()));
    }
}

/// A frame in which there is no news reports nothing and changes nothing.
pub proof fn law_frame_without_news_changes_nothing<
    F: Fn(ConnectionId, WebSocketStream<TcpStream>) -> (
        JoinHandle<()>,
        JoinHandle<()>,
        UnboundedSender<NetworkPacket>,
    ),
>(
    before: ServerState,
    after: ServerState,
    spawn: F,
    clients: Seq<Option<ClientConnection>>,
    events: Seq<ServerNetworkEvent>,
)
    requires
        before.handles(after, spawn, clients, events),
        before.incoming.len() == 0,
        before.disconnected.len() == 0,
    ensures
        events.len() == 0,
        after == before,
{
    assert(after.connections == before.connections);
    assert(after.incoming == before.incoming);
    assert(after.disconnected == before.disconnected);
}

} // verus!
