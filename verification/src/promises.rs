//! What each operation of a server promises, said of what goes in and what comes out.

use tokio::net::TcpStream;
use tokio::sync::mpsc::UnboundedSender;
use tokio::task::JoinHandle;
use tokio_tungstenite::WebSocketStream;
use vstd::bytes::{spec_u64_from_le_bytes, spec_u64_to_le_bytes};
use vstd::prelude::*;
use vstd::utf8::{decode_utf8, encode_utf8, valid_utf8};

use crate::connection::{
    abort_requested, accepted, channel_id, has_refused, task_id, ClientConnection,
    NewIncomingConnection,
};
use crate::connection_id::{ConnectionId, ConnectionKey};
use crate::error::NetworkError;
use crate::event::{decoded_data, NetworkDataView, ServerNetworkEvent};
use crate::laws::law_client_is_no_server;
use crate::packet::{NetworkPacket, PacketView, Payload};
use crate::state::{admits, ids_of, keys_of, with_clients, ServerState, Stopped};
use crate::steps::{is_run, leads_to, Step};
use crate::tables::ReceivedMessage;
use crate::tasks::{
    sends_on, ListenAction, ListenEvent, ReceiveAction, ReceiveEvent, SendAction, SendEvent,
};

verus! {

/// A server that was just made has no clients, no messages and no news, and does not listen.
pub proof fn law_new_server_is_empty(key: ConnectionKey, kind: Seq<char>)
    ensures
        !ServerState::initial().connections.contains_key(key),
        !ServerState::initial().messages.contains_key(kind),
        ServerState::initial().incoming.len() == 0,
        ServerState::initial().disconnected.len() == 0,
        ServerState::initial().errors.len() == 0,
        ServerState::initial().listener is None,
{
}

/// A client is connected where a connection stands under its UUID and the text of its URL.
pub proof fn law_client_is_found_by_uuid_and_url(state: ServerState, id: ConnectionId)
    ensures
        state.has(id) <==> state.connections.contains_key((id@.uuid, id@.url.text)),
{
}

/// Closing a connection tells both its tasks to stop, and changes nothing else of it.
pub proof fn law_closing_tells_both_tasks(closed: ClientConnection, before: ClientConnection)
    requires
        closed.is_stop_of(before),
    ensures
        abort_requested(closed.receive_task),
        abort_requested(closed.send_task),
        task_id(closed.receive_task) == task_id(before.receive_task),
        task_id(closed.send_task) == task_id(before.send_task),
        closed.id == before.id,
        closed.send_message == before.send_message,
        closed.addr == before.addr,
{
}

/// Disconnecting a client tells both its tasks to stop, whatever else the server is doing, and takes
/// its connection out. Everything else stays as it is. Where no client is connected under the
/// identity, that is said, and nothing changes.
pub proof fn law_disconnecting_ends_both_tasks(
    before: ServerState,
    after: ServerState,
    id: ConnectionId,
    closed: Result<ClientConnection, NetworkError>,
)
    requires
        before.disconnects(after, id, closed),
    ensures
        before.connections.contains_key((id@.uuid, id@.url.text)) ==> {
            let connection = before.connections[(id@.uuid, id@.url.text)];
            &&& closed is Ok
            &&& abort_requested(closed->Ok_0.receive_task)
            &&& abort_requested(closed->Ok_0.send_task)
            &&& task_id(closed->Ok_0.receive_task) == task_id(connection.receive_task)
            &&& task_id(closed->Ok_0.send_task) == task_id(connection.send_task)
            &&& closed->Ok_0.id == connection.id
            &&& closed->Ok_0.addr == connection.addr
            &&& closed->Ok_0.send_message == connection.send_message
            &&& after.connections == before.connections.remove((id@.uuid, id@.url.text))
        },
        !before.connections.contains_key((id@.uuid, id@.url.text)) ==> {
            &&& closed == Err::<ClientConnection, _>(NetworkError::ConnectionNotFound(id))
            &&& after.connections == before.connections
        },
        after.messages == before.messages,
        after.incoming == before.incoming,
        after.disconnected == before.disconnected,
        after.errors == before.errors,
        after.listener == before.listener,
{
}

/// Stopping a server that listens tells its listening task to stop, whether or not clients are
/// connected.
pub proof fn law_stopping_ends_the_listening_task(
    before: ServerState,
    after: ServerState,
    stopped: Option<Stopped>,
)
    requires
        before.stops(after, stopped),
        before.listener is Some,
    ensures
        stopped is Some,
        task_id(stopped->0.listener) == task_id(before.listener->0),
        abort_requested(stopped->0.listener),
        after.listener is None,
{
}

/// A server that listens and starts to listen again has told its earlier listening task to stop.
pub proof fn law_listening_again_ends_the_listening_task(
    before: ServerState,
    after: ServerState,
    stopped: Option<Stopped>,
)
    requires
        before.stops(ServerState { listener: None, ..after }, stopped),
        before.listener is Some,
    ensures
        stopped is Some,
        task_id(stopped->0.listener) == task_id(before.listener->0),
        abort_requested(stopped->0.listener),
{
}

/// Stopping a server that listens tells both tasks of every client to stop, gives each connection
/// back once, and notes each as ended, behind those that have ended before. No client, no message
/// and nobody who was about to connect is left. Failures to listen are kept.
pub proof fn law_stopping_ends_all_tasks(
    before: ServerState,
    after: ServerState,
    stopped: Option<Stopped>,
)
    requires
        before.stops(after, stopped),
        before.listener is Some,
    ensures
        forall|key: ConnectionKey| #[trigger]
            before.connections.contains_key(key) ==> exists|i: int|
                {
                    let closed = #[trigger] stopped->0.connections@[i];
                    &&& 0 <= i < stopped->0.connections@.len()
                    &&& (closed.id@.uuid, closed.id@.url.text) == key
                },
        forall|i: int|
            0 <= i < stopped->0.connections@.len() ==> {
                let closed = #[trigger] stopped->0.connections@[i];
                let key = (closed.id@.uuid, closed.id@.url.text);
                &&& before.connections.contains_key(key)
                &&& abort_requested(closed.receive_task)
                &&& abort_requested(closed.send_task)
                &&& task_id(closed.receive_task) == task_id(before.connections[key].receive_task)
                &&& task_id(closed.send_task) == task_id(before.connections[key].send_task)
                &&& closed.id == before.connections[key].id
                &&& closed.addr == before.connections[key].addr
                &&& closed.send_message == before.connections[key].send_message
            },
        forall|i: int, j: int|
            0 <= i < j < stopped->0.connections@.len() ==> {
                let one = (#[trigger] stopped->0.connections@[i]).id@;
                let other = (#[trigger] stopped->0.connections@[j]).id@;
                (one.uuid, one.url.text) != (other.uuid, other.url.text)
            },
        after.disconnected.len() == before.disconnected.len() + stopped->0.connections@.len(),
        forall|i: int|
            0 <= i < before.disconnected.len() ==> #[trigger] after.disconnected[i]
                == before.disconnected[i],
        forall|i: int|
            0 <= i < stopped->0.connections@.len() ==> after.disconnected[before.disconnected.len()
                + i] == (#[trigger] stopped->0.connections@[i]).id,
        forall|key: ConnectionKey| !#[trigger] after.connections.contains_key(key),
        forall|kind: Seq<char>| !#[trigger] after.messages.contains_key(kind),
        after.incoming.len() == 0,
        after.errors == before.errors,
{
    let closed = stopped->0.connections@;
    let keys = keys_of(ids_of(closed));
    assert forall|i: int| 0 <= i < closed.len() implies keys[i] == (
        (#[trigger] closed[i]).id@.uuid,
        closed[i].id@.url.text,
    ) && before.connections.contains_key(keys[i]) by {
        assert(keys.to_set().contains(keys[i]));
    }
    assert forall|key: ConnectionKey| #[trigger]
        before.connections.contains_key(key) implies exists|i: int|
        {
            let connection = #[trigger] closed[i];
            &&& 0 <= i < closed.len()
            &&& (connection.id@.uuid, connection.id@.url.text) == key
        } by {
        assert(keys.to_set().contains(key));
        let i = choose|i: int| 0 <= i < keys.len() && keys[i] == key;
        assert(closed[i].id@.key() == key);
    }
    assert forall|i: int, j: int| 0 <= i < j < closed.len() implies {
        let one = (#[trigger] closed[i]).id@;
        let other = (#[trigger] closed[j]).id@;
        (one.uuid, one.url.text) != (other.uuid, other.url.text)
    } by {
        assert(keys[i] != keys[j]);
    }
}

/// Stopping a server that does not listen changes nothing of it.
pub proof fn law_stopping_an_idle_server_changes_nothing(
    before: ServerState,
    after: ServerState,
    stopped: Option<Stopped>,
)
    requires
        before.stops(after, stopped),
        before.listener is None,
    ensures
        stopped is None,
        after.connections == before.connections,
        after.messages == before.messages,
        after.incoming == before.incoming,
        after.disconnected == before.disconnected,
        after.errors == before.errors,
        after.listener is None,
{
}

/// A new client is reported under the very identity for which its tasks were started, and its
/// connection holds these tasks, their channel and the address of the client.
pub proof fn law_entered_client_is_the_one_spawned<
    F: Fn(ConnectionId, WebSocketStream<TcpStream>) -> (
        JoinHandle<()>,
        JoinHandle<()>,
        UnboundedSender<NetworkPacket>,
    ),
>(
    spawn: F,
    new: NewIncomingConnection,
    client: ClientConnection,
    event: ServerNetworkEvent,
)
    requires
        admits(spawn, Ok(new), Some(client), event),
    ensures
        event == ServerNetworkEvent::Connected(client.id),
        call_ensures(
            spawn,
            (client.id, new.socket),
            (client.receive_task, client.send_task, client.send_message),
        ),
        client.addr == new.addr,
        client.id@.is_client_at(new.addr@),
        client.id@.uuid != 0,
{
    law_client_is_no_server(client.id@, new.addr@);
}

/// A frame reports every client that has connected or failed to, in order, and behind them every
/// connection that has ended, in order. Nothing is left to report, and messages, failures to listen
/// and the listening task stay as they are.
pub proof fn law_frame_reports_all_news<
    F: Fn(ConnectionId, WebSocketStream<TcpStream>) -> (
        JoinHandle<()>,
        JoinHandle<()>,
        UnboundedSender<NetworkPacket>,
    ),
>(
    before: ServerState,
    after: ServerState,
    spawn: F,
    clients: Seq<Option<ClientConnection>>,
    events: Seq<ServerNetworkEvent>,
)
    requires
        before.handles(after, spawn, clients, events),
    ensures
        events.len() == before.incoming.len() + before.disconnected.len(),
        forall|i: int|
            0 <= i < before.incoming.len() ==> match #[trigger] before.incoming[i] {
                Ok(new) => events[i] is Connected && events[i]->Connected_0@.is_client_at(
                    new.addr@,
                ),
                Err(error) => events[i] == ServerNetworkEvent::Error(error),
            },
        forall|i: int|
            0 <= i < before.disconnected.len() ==> events[before.incoming.len() + i]
                == ServerNetworkEvent::Disconnected(#[trigger] before.disconnected[i]),
        after.incoming.len() == 0,
        after.disconnected.len() == 0,
        after.messages == before.messages,
        after.errors == before.errors,
        after.listener == before.listener,
{
}

/// An entry under a key stays the one that was entered last.
proof fn lemma_last_client_keeps_its_place(
    connections: Map<ConnectionKey, ClientConnection>,
    clients: Seq<Option<ClientConnection>>,
    i: int,
)
    requires
        0 <= i < clients.len(),
        clients[i] is Some,
        forall|j: int|
            i < j < clients.len() && (#[trigger] clients[j]) is Some ==> clients[j]->0.id@.key()
                != clients[i]->0.id@.key(),
    ensures
        with_clients(connections, clients).contains_key(clients[i]->0.id@.key()),
        with_clients(connections, clients)[clients[i]->0.id@.key()] == clients[i]->0,
    decreases clients.len(),
{
    let last = clients.len() - 1;
    if i < last {
        let rest = clients.drop_last();
        assert(rest[i] == clients[i]);
        assert forall|j: int| i < j < rest.len() && (#[trigger] rest[j]) is Some implies rest[j]->0.id@.key()
            != rest[i]->0.id@.key() by {
            assert(rest[j] == clients[j]);
        }
        lemma_last_client_keeps_its_place(connections, rest, i);
        assert(clients[last] is Some ==> clients[last]->0.id@.key() != clients[i]->0.id@.key());
    }
}

/// Every client that a frame reports as connected had its tasks started for the very identity under
/// which it is reported, on its own websocket. Once the frame is handled, the connection under this
/// identity holds these tasks and their channel, unless it has ended or the identity was given again
/// later in the frame. So what its reading task reports, it reports of a client that was reported as
/// connected.
pub proof fn law_reported_client_is_the_one_spawned<
    F: Fn(ConnectionId, WebSocketStream<TcpStream>) -> (
        JoinHandle<()>,
        JoinHandle<()>,
        UnboundedSender<NetworkPacket>,
    ),
>(
    before: ServerState,
    after: ServerState,
    spawn: F,
    clients: Seq<Option<ClientConnection>>,
    events: Seq<ServerNetworkEvent>,
    i: int,
    id: ConnectionId,
)
    requires
        before.handles(after, spawn, clients, events),
        0 <= i < events.len(),
        events[i] == ServerNetworkEvent::Connected(id),
    ensures
        i < before.incoming.len(),
        before.incoming[i] is Ok,
        id@.is_client_at(before.incoming[i]->Ok_0.addr@),
        exists|tasks: (JoinHandle<()>, JoinHandle<()>, UnboundedSender<NetworkPacket>)|
            {
                let key = (id@.uuid, id@.url.text);
                &&& #[trigger] call_ensures(spawn, (id, before.incoming[i]->Ok_0.socket), tasks)
                &&& ({
                    &&& forall|j: int|
                        i < j < events.len() && (#[trigger] events[j]) is Connected ==> (
                            events[j]->Connected_0@.uuid,
                            events[j]->Connected_0@.url.text,
                        ) != key
                    &&& forall|j: int|
                        0 <= j < before.disconnected.len() ==> (
                            (#[trigger] before.disconnected[j])@.uuid,
                            before.disconnected[j]@.url.text,
                        ) != key
                }) ==> {
                    &&& after.connections.contains_key(key)
                    &&& after.connections[key].id == id
                    &&& after.connections[key].receive_task == tasks.0
                    &&& after.connections[key].send_task == tasks.1
                    &&& after.connections[key].send_message == tasks.2
                    &&& after.connections[key].addr == before.incoming[i]->Ok_0.addr
                }
            },
{
    let n = before.incoming.len() as int;
    let key = (id@.uuid, id@.url.text);
    if i >= n {
        assert(events[n + (i - n)] == ServerNetworkEvent::Disconnected(before.disconnected[i - n]));
    }
    assert(before.incoming[i] is Ok || before.incoming[i] is Err);
    let client = clients[i]->0;
    let tasks = (client.receive_task, client.send_task, client.send_message);
    assert(call_ensures(spawn, (id, before.incoming[i]->Ok_0.socket), tasks));
    if (forall|j: int|
        i < j < events.len() && (#[trigger] events[j]) is Connected ==> (
            events[j]->Connected_0@.uuid,
            events[j]->Connected_0@.url.text,
        ) != key) && (forall|j: int|
        0 <= j < before.disconnected.len() ==> (
            (#[trigger] before.disconnected[j])@.uuid,
            before.disconnected[j]@.url.text,
        ) != key) {
        assert forall|j: int| i < j < clients.len() && (#[trigger] clients[j]) is Some implies clients[j]->0.id@.key()
            != clients[i]->0.id@.key() by {
            assert(before.incoming[j] is Ok || before.incoming[j] is Err);
            assert(events[j] is Connected);
        }
        lemma_last_client_keeps_its_place(before.connections, clients, i);
        let ended = keys_of(before.disconnected);
        assert(!ended.contains(key)) by {
            if ended.contains(key) {
                let j = choose|j: int| 0 <= j < ended.len() && ended[j] == key;
                assert(before.disconnected[j]@.key() == key);
            }
        }
    }
}

/// An entry that is there once new clients were entered is that of a new client, or the one that was
/// there before; and every entry that was there before is there.
proof fn lemma_entries(
    connections: Map<ConnectionKey, ClientConnection>,
    clients: Seq<Option<ClientConnection>>,
    key: ConnectionKey,
)
    ensures
        connections.contains_key(key) ==> with_clients(connections, clients).contains_key(key),
        ({
            let connection = with_clients(connections, clients)[key];
            with_clients(connections, clients).contains_key(key) ==> {
                ||| connections.contains_key(key) && connection == connections[key]
                ||| exists|i: int|
                    0 <= i < clients.len() && #[trigger] clients[i] == Some(connection)
                        && connection.id@.key() == key
            }
        }),
    decreases clients.len(),
{
    if clients.len() > 0 {
        let rest = clients.drop_last();
        let connection = with_clients(connections, clients)[key];
        lemma_entries(connections, rest, key);
        if clients.last() matches Some(client) && client.id@.key() == key {
            assert(clients[clients.len() - 1] == Some(connection));
        } else if exists|i: int|
            0 <= i < rest.len() && #[trigger] rest[i] == Some(connection) && connection.id@.key()
                == key {
            let i = choose|i: int|
                0 <= i < rest.len() && #[trigger] rest[i] == Some(connection)
                    && connection.id@.key() == key;
            assert(clients[i] == Some(connection));
        }
    }
}

/// A frame touches the connections of its news only: a connection that has ended is taken out; one
/// that was there and has not ended is there; and whatever is there afterwards was there before as
/// it is, or is that of a client that the frame reports as connected.
pub proof fn law_frame_touches_its_news_only<
    F: Fn(ConnectionId, WebSocketStream<TcpStream>) -> (
        JoinHandle<()>,
        JoinHandle<()>,
        UnboundedSender<NetworkPacket>,
    ),
>(
    before: ServerState,
    after: ServerState,
    spawn: F,
    clients: Seq<Option<ClientConnection>>,
    events: Seq<ServerNetworkEvent>,
    key: ConnectionKey,
)
    requires
        before.handles(after, spawn, clients, events),
    ensures
        (exists|j: int|
            0 <= j < before.disconnected.len() && (
                (#[trigger] before.disconnected[j])@.uuid,
                before.disconnected[j]@.url.text,
            ) == key) ==> !after.connections.contains_key(key),
        before.connections.contains_key(key) && (forall|j: int|
            0 <= j < before.disconnected.len() ==> (
                (#[trigger] before.disconnected[j])@.uuid,
                before.disconnected[j]@.url.text,
            ) != key) ==> after.connections.contains_key(key),
        after.connections.contains_key(key) ==> {
            ||| before.connections.contains_key(key) && after.connections[key]
                == before.connections[key]
            ||| exists|i: int|
                0 <= i < events.len() && #[trigger] events[i] == ServerNetworkEvent::Connected(
                    after.connections[key].id,
                )
        },
{
    let ended = keys_of(before.disconnected);
    lemma_entries(before.connections, clients, key);
    if exists|j: int|
        0 <= j < before.disconnected.len() && (
            (#[trigger] before.disconnected[j])@.uuid,
            before.disconnected[j]@.url.text,
        ) == key {
        let j = choose|j: int|
            0 <= j < before.disconnected.len() && (
                (#[trigger] before.disconnected[j])@.uuid,
                before.disconnected[j]@.url.text,
            ) == key;
        assert(ended[j] == key);
        assert(ended.to_set().contains(key));
    } else if ended.contains(key) {
        let j = choose|j: int| 0 <= j < ended.len() && ended[j] == key;
        assert(before.disconnected[j]@.key() == key);
    }
    if after.connections.contains_key(key) && !(before.connections.contains_key(key)
        && after.connections[key] == before.connections[key]) {
        let connection = after.connections[key];
        let i = choose|i: int|
            0 <= i < clients.len() && #[trigger] clients[i] == Some(connection)
                && connection.id@.key() == key;
        assert(before.incoming[i] is Ok || before.incoming[i] is Err);
        assert(events[i] == ServerNetworkEvent::Connected(connection.id));
    }
}

/// What the task that listens for new clients does after each thing that happens to it, and what the
/// server keeps of it: a client whose websocket is open, or the failure to get one, waits behind all
/// others for the next frame.
pub proof fn law_listening_task_queues_every_client(
    before: ServerState,
    after: ServerState,
    event: ListenEvent,
    action: ListenAction,
)
    requires
        before.listens(after, event, action),
    ensures
        match event {
            ListenEvent::Bound => action is Accept && after.incoming == before.incoming,
            ListenEvent::Accepted => action is Handshake && after.incoming == before.incoming,
            ListenEvent::BindFailed(_) => action is Stop && after.incoming == before.incoming,
            ListenEvent::Opened(new) => action is Accept && after.incoming
                == before.incoming.push(Ok(new)),
            ListenEvent::AcceptFailed(error) => action is Accept && after.incoming
                == before.incoming.push(Err(NetworkError::Accept(error))),
            ListenEvent::HandshakeFailed(error) => action is Accept && after.incoming
                == before.incoming.push(Err(NetworkError::WSAccept(error))),
        },
        match event {
            ListenEvent::BindFailed(error) => after.errors == before.errors.push(
                NetworkError::Listen(error),
            ),
            _ => after.errors == before.errors,
        },
        after.connections == before.connections,
        after.messages == before.messages,
        after.disconnected == before.disconnected,
        after.listener == before.listener,
{
}

/// A client whose websocket handshake is done is reported as connected in the next frame, behind the
/// news that waited already.
pub proof fn law_opened_client_is_reported<
    F: Fn(ConnectionId, WebSocketStream<TcpStream>) -> (
        JoinHandle<()>,
        JoinHandle<()>,
        UnboundedSender<NetworkPacket>,
    ),
>(
    before: ServerState,
    between: ServerState,
    after: ServerState,
    new: NewIncomingConnection,
    action: ListenAction,
    spawn: F,
    clients: Seq<Option<ClientConnection>>,
    events: Seq<ServerNetworkEvent>,
)
    requires
        before.listens(between, ListenEvent::Opened(new), action),
        between.handles(after, spawn, clients, events),
    ensures
        before.incoming.len() < events.len(),
        events[before.incoming.len() as int] is Connected,
        events[before.incoming.len() as int]->Connected_0@.is_client_at(new.addr@),
        clients[before.incoming.len() as int] is Some,
        clients[before.incoming.len() as int]->0.id
            == events[before.incoming.len() as int]->Connected_0,
        call_ensures(
            spawn,
            (events[before.incoming.len() as int]->Connected_0, new.socket),
            (
                clients[before.incoming.len() as int]->0.receive_task,
                clients[before.incoming.len() as int]->0.send_task,
                clients[before.incoming.len() as int]->0.send_message,
            ),
        ),
{
    let n = before.incoming.len() as int;
    assert(between.incoming[n] == Ok::<NewIncomingConnection, NetworkError>(new));
}

/// The clients that have connected or failed to over some steps, in their order.
pub open spec fn arrivals<F>(steps: Seq<Step<F>>) -> Seq<Result<NewIncomingConnection, NetworkError>>
    decreases steps.len(),
{
    if steps.len() == 0 {
        Seq::empty()
    } else {
        let earlier = arrivals(steps.drop_last());
        match steps.last() {
            Step::Listened { event: ListenEvent::Opened(new), .. } => earlier.push(Ok(new)),
            Step::Listened { event: ListenEvent::AcceptFailed(error), .. } => earlier.push(
                Err(NetworkError::Accept(error)),
            ),
            Step::Listened { event: ListenEvent::HandshakeFailed(error), .. } => earlier.push(
                Err(NetworkError::WSAccept(error)),
            ),
            _ => earlier,
        }
    }
}

/// The connections that have ended over some steps, in their order: those whose reading task was told
/// to end, and those that a stop has closed.
pub open spec fn endings<F>(steps: Seq<Step<F>>) -> Seq<ConnectionId>
    decreases steps.len(),
{
    if steps.len() == 0 {
        Seq::empty()
    } else {
        let earlier = endings(steps.drop_last());
        match steps.last() {
            Step::Received { id, action: ReceiveAction::Stop, .. } => earlier.push(id),
            Step::Stop { stopped: Some(stopped) } => earlier + stopped.connections@.map_values(
                |connection: ClientConnection| connection.id,
            ),
            Step::Listen { stopped: Some(stopped) } => earlier + stopped.connections@.map_values(
                |connection: ClientConnection| connection.id,
            ),
            _ => earlier,
        }
    }
}

/// Whatever is done to a server between two frames, each client that has connected or failed to, and
/// was not reported yet, waits for the next frame, in order and none missing, unless the server is
/// stopped.
pub proof fn law_arrivals_wait_for_the_frame<
    F: Fn(ConnectionId, WebSocketStream<TcpStream>) -> (
        JoinHandle<()>,
        JoinHandle<()>,
        UnboundedSender<NetworkPacket>,
    ),
>(states: Seq<ServerState>, steps: Seq<Step<F>>)
    requires
        is_run(states, steps),
        forall|i: int|
            0 <= i < steps.len() ==> match #[trigger] steps[i] {
                Step::Frame { .. } => false,
                Step::Stop { stopped } => stopped is None,
                Step::Listen { stopped } => stopped is None,
                _ => true,
            },
    ensures
        states.last().incoming == states[0].incoming + arrivals(steps),
    decreases steps.len(),
{
    if steps.len() == 0 {
        assert(states[0].incoming + arrivals(steps) == states[0].incoming);
    } else {
        let n = steps.len() - 1;
        let rest = steps.drop_last();
        let earlier = states.drop_last();
        lemma_shorter_run(states, steps);
        assert forall|i: int| 0 <= i < rest.len() implies match #[trigger] rest[i] {
            Step::Frame { .. } => false,
            Step::Stop { stopped } => stopped is None,
            Step::Listen { stopped } => stopped is None,
            _ => true,
        } by {
            assert(rest[i] == steps[i]);
        }
        law_arrivals_wait_for_the_frame(earlier, rest);
        assert(leads_to(states[n], steps[n], states[n + 1]));
        let come = states[0].incoming + arrivals(rest);
        assert(forall|news: Result<NewIncomingConnection, NetworkError>|
            #![trigger come.push(news)]
            come.push(news) == states[0].incoming + arrivals(rest).push(news));
    }
}

/// A run without its last step.
proof fn lemma_shorter_run<
    F: Fn(ConnectionId, WebSocketStream<TcpStream>) -> (
        JoinHandle<()>,
        JoinHandle<()>,
        UnboundedSender<NetworkPacket>,
    ),
>(states: Seq<ServerState>, steps: Seq<Step<F>>)
    requires
        is_run(states, steps),
        steps.len() > 0,
    ensures
        is_run(states.drop_last(), steps.drop_last()),
{
    let rest = steps.drop_last();
    let earlier = states.drop_last();
    assert forall|i: int| 0 <= i < rest.len() implies leads_to(
        earlier[i],
        #[trigger] rest[i],
        earlier[i + 1],
    ) by {
        assert(rest[i] == steps[i]);
    }
}

/// Whatever is done to a server between two frames, each connection that has ended, and was not
/// reported yet, waits for the next frame, in order and none missing.
pub proof fn law_endings_wait_for_the_frame<
    F: Fn(ConnectionId, WebSocketStream<TcpStream>) -> (
        JoinHandle<()>,
        JoinHandle<()>,
        UnboundedSender<NetworkPacket>,
    ),
>(states: Seq<ServerState>, steps: Seq<Step<F>>)
    requires
        is_run(states, steps),
        forall|i: int| 0 <= i < steps.len() ==> !((#[trigger] steps[i]) is Frame),
    ensures
        states.last().disconnected == states[0].disconnected + endings(steps),
    decreases steps.len(),
{
    if steps.len() == 0 {
        assert(states[0].disconnected + endings(steps) == states[0].disconnected);
    } else {
        let n = steps.len() - 1;
        let rest = steps.drop_last();
        let earlier = states.drop_last();
        lemma_shorter_run(states, steps);
        assert forall|i: int| 0 <= i < rest.len() implies !((#[trigger] rest[i]) is Frame) by {
            assert(rest[i] == steps[i]);
        }
        law_endings_wait_for_the_frame(earlier, rest);
        assert(leads_to(states[n], steps[n], states[n + 1]));
        let gone = states[0].disconnected + endings(rest);
        match steps[n] {
            Step::Received { id, .. } => {
                assert(gone.push(id) == states[0].disconnected + endings(rest).push(id));
            },
            Step::Stop { stopped: Some(stopped) } => {
                let ids = ids_of(stopped.connections@);
                assert(ids == stopped.connections@.map_values(
                    |connection: ClientConnection| connection.id,
                ));
                assert(gone + ids == states[0].disconnected + (endings(rest) + ids));
            },
            Step::Listen { stopped: Some(stopped) } => {
                let ids = ids_of(stopped.connections@);
                assert(ids == stopped.connections@.map_values(
                    |connection: ClientConnection| connection.id,
                ));
                assert(gone + ids == states[0].disconnected + (endings(rest) + ids));
            },
            _ => {},
        }
    }
}

/// The frame that ends a run without other frames reports what has come and gone meanwhile: every
/// client whose websocket was opened as connected, every failure as an error, and then every
/// connection that has ended, each in order and none missing, behind what waited when the run began.
pub proof fn law_next_frame_reports_what_happened<
    F: Fn(ConnectionId, WebSocketStream<TcpStream>) -> (
        JoinHandle<()>,
        JoinHandle<()>,
        UnboundedSender<NetworkPacket>,
    ),
>(states: Seq<ServerState>, steps: Seq<Step<F>>, after: ServerState, spawn: F, clients: Seq<
    Option<ClientConnection>,
>, events: Seq<ServerNetworkEvent>)
    requires
        is_run(states, steps),
        forall|i: int|
            0 <= i < steps.len() ==> match #[trigger] steps[i] {
                Step::Frame { .. } => false,
                Step::Stop { stopped } => stopped is None,
                Step::Listen { stopped } => stopped is None,
                _ => true,
            },
        states.last().handles(after, spawn, clients, events),
    ensures
        ({
            let come = states[0].incoming + arrivals(steps);
            let gone = states[0].disconnected + endings(steps);
            &&& events.len() == come.len() + gone.len()
            &&& forall|i: int|
                0 <= i < come.len() ==> match #[trigger] come[i] {
                    Ok(new) => events[i] is Connected && events[i]->Connected_0@.is_client_at(
                        new.addr@,
                    ),
                    Err(error) => events[i] == ServerNetworkEvent::Error(error),
                }
            &&& forall|i: int|
                0 <= i < gone.len() ==> events[come.len() + i]
                    == ServerNetworkEvent::Disconnected(#[trigger] gone[i])
        }),
{
    law_arrivals_wait_for_the_frame(states, steps);
    law_endings_wait_for_the_frame(states, steps);
    law_frame_reports_all_news(states.last(), after, spawn, clients, events);
}

/// What the task that reads from a client does with a frame: one that is not too long, and begins
/// with the length of a kind in eight little-endian bytes and a kind of that length in UTF-8, is to
/// be decoded as this kind with the rest as its message; any other ends the task, and the connection
/// is noted as ended.
pub proof fn law_reading_task_checks_every_frame(
    before: ServerState,
    after: ServerState,
    max_packet_length: nat,
    id: ConnectionId,
    frame: Vec<u8>,
    action: ReceiveAction,
)
    requires
        before.receives(after, max_packet_length, id, ReceiveEvent::Frame(frame), action),
    ensures
        ({
            let end = 8 + spec_u64_from_le_bytes(frame@.take(8));
            if frame@.len() <= max_packet_length && 8 <= frame@.len() && end <= frame@.len()
                && valid_utf8(frame@.subrange(8, end)) {
                &&& action is Decode
                &&& action->kind@ == decode_utf8(frame@.subrange(8, end))
                &&& action->data@ == frame@.skip(end)
                &&& after.disconnected == before.disconnected
            } else {
                &&& action is Stop
                &&& after.disconnected == before.disconnected.push(id)
            }
        }),
        after.connections == before.connections,
        after.messages == before.messages,
        after.incoming == before.incoming,
        after.errors == before.errors,
        after.listener == before.listener,
{
}

/// A connection that cannot be read from, has nothing more to read, or sends what is no known
/// message, ends: its reading task is told so, and it is noted behind all others.
pub proof fn law_reading_task_ends_with_its_connection(
    before: ServerState,
    after: ServerState,
    max_packet_length: nat,
    id: ConnectionId,
    event: ReceiveEvent,
    action: ReceiveAction,
)
    requires
        before.receives(after, max_packet_length, id, event, action),
        event is Failed || event is Closed || event is Undecodable,
    ensures
        action is Stop,
        after.disconnected == before.disconnected.push(id),
        after.connections == before.connections,
        after.messages == before.messages,
        after.incoming == before.incoming,
        after.errors == before.errors,
        after.listener == before.listener,
{
}

/// A message that was decoded waits behind all others of its kind, with the client that sent it as
/// its source, where the kind is registered; and the task goes on reading.
pub proof fn law_reading_task_keeps_every_message(
    before: ServerState,
    after: ServerState,
    max_packet_length: nat,
    id: ConnectionId,
    kind: String,
    data: Vec<u8>,
    action: ReceiveAction,
)
    requires
        before.receives(
            after,
            max_packet_length,
            id,
            ReceiveEvent::Decoded { kind, data },
            action,
        ),
    ensures
        action is Read,
        action->kept <==> before.messages.contains_key(kind@),
        before.messages.contains_key(kind@) ==> after.messages == before.messages.insert(
            kind@,
            before.messages[kind@].push(ReceivedMessage { source: id, data }),
        ),
        !before.messages.contains_key(kind@) ==> after.messages == before.messages,
        after.connections == before.connections,
        after.disconnected == before.disconnected,
        after.incoming == before.incoming,
        after.errors == before.errors,
        after.listener == before.listener,
{
}

/// Taking the messages of a kind gives all that wait for it, in order, and leaves none; the messages
/// of other kinds, and which kinds are registered, stay as they are, and so does everything else.
pub proof fn law_taking_gives_all_that_wait(
    before: ServerState,
    after: ServerState,
    kind: Seq<char>,
    taken: Seq<ReceivedMessage>,
    other: Seq<char>,
)
    requires
        before.takes(after, kind, taken),
    ensures
        before.messages.contains_key(kind) ==> taken == before.messages[kind]
            && after.messages[kind].len() == 0,
        !before.messages.contains_key(kind) ==> taken.len() == 0,
        after.messages.contains_key(other) <==> before.messages.contains_key(other),
        other != kind && before.messages.contains_key(other) ==> after.messages[other]
            == before.messages[other],
        after.connections == before.connections,
        after.incoming == before.incoming,
        after.disconnected == before.disconnected,
        after.errors == before.errors,
        after.listener == before.listener,
{
}

/// Which messages were decoded.
pub open spec fn was_decoded<T>() -> spec_fn((ConnectionId, Option<T>)) -> bool {
    |message: (ConnectionId, Option<T>)| message.1 is Some
}

/// No message that decodes is lost and none comes twice: there are as many events as messages that
/// decode, and each of these is the event at its place among them, with its source.
pub proof fn law_no_decoded_message_is_lost<T>(
    messages: Seq<(ConnectionId, Option<T>)>,
    events: Seq<NetworkDataView<T>>,
)
    requires
        events == decoded_data(messages),
    ensures
        events.len() == messages.filter(was_decoded()).len(),
        forall|i: int|
            0 <= i < messages.len() && (#[trigger] messages[i]).1 is Some ==> {
                let place = messages.take(i).filter(was_decoded()).len() as int;
                &&& place < events.len()
                &&& events[place].source == messages[i].0
                &&& events[place].inner == messages[i].1->0
            },
    decreases messages.len(),
{
    reveal(Seq::filter);
    if messages.len() > 0 {
        let last = messages.len() - 1;
        let rest = messages.drop_last();
        law_no_decoded_message_is_lost(rest, decoded_data(rest));
        assert(messages.take(last) == rest);
        assert forall|i: int| 0 <= i < messages.len() && (#[trigger] messages[i]).1 is Some implies {
            let place = messages.take(i).filter(was_decoded()).len() as int;
            &&& place < events.len()
            &&& events[place].source == messages[i].0
            &&& events[place].inner == messages[i].1->0
        } by {
            if i < last {
                assert(rest[i] == messages[i]);
                assert(rest.take(i) == messages.take(i));
            }
        }
    }
}

/// Where every message decodes, all come out, in order.
proof fn lemma_all_decoded<T>(messages: Seq<(ConnectionId, Option<T>)>)
    requires
        forall|i: int| 0 <= i < messages.len() ==> (#[trigger] messages[i]).1 is Some,
    ensures
        messages.filter(was_decoded()) == messages,
    decreases messages.len(),
{
    reveal(Seq::filter);
    if messages.len() > 0 {
        let rest = messages.drop_last();
        assert forall|i: int| 0 <= i < rest.len() implies (#[trigger] rest[i]).1 is Some by {
            assert(rest[i] == messages[i]);
        }
        lemma_all_decoded(rest);
        assert(messages[messages.len() - 1].1 is Some);
        assert(rest.push(messages.last()) == messages);
    }
}

/// Handing the messages of a kind to the application decodes each that waits, in order, as `decode`
/// does, and gives an event for each that decodes, at its place among them. None waits any more.
pub proof fn law_application_gets_every_message<T, F: Fn(&Vec<u8>) -> Option<T>>(
    before: ServerState,
    after: ServerState,
    kind: Seq<char>,
    decode: F,
    decoded: Seq<(ConnectionId, Option<T>)>,
    events: Seq<NetworkDataView<T>>,
)
    requires
        before.registers(after, kind, decode, decoded, events),
        before.messages.contains_key(kind),
    ensures
        decoded.len() == before.messages[kind].len(),
        forall|i: int|
            0 <= i < decoded.len() ==> (#[trigger] decoded[i]).0
                == before.messages[kind][i].source && call_ensures(
                decode,
                (&before.messages[kind][i].data,),
                decoded[i].1,
            ),
        events.len() == decoded.filter(was_decoded()).len(),
        forall|i: int|
            0 <= i < decoded.len() && (#[trigger] decoded[i]).1 is Some ==> {
                let place = decoded.take(i).filter(was_decoded()).len() as int;
                &&& place < events.len()
                &&& events[place].source == before.messages[kind][i].source
                &&& events[place].inner == decoded[i].1->0
            },
        after.messages == before.messages.insert(kind, Seq::empty()),
        after.connections == before.connections,
        after.incoming == before.incoming,
        after.disconnected == before.disconnected,
        after.errors == before.errors,
        after.listener == before.listener,
{
    law_no_decoded_message_is_lost(decoded, events);
}

/// Where all messages of a kind decode, the application gets exactly one event for each, in order,
/// with its source and what its data decodes to.
pub proof fn law_application_gets_all_where_all_decode<T, F: Fn(&Vec<u8>) -> Option<T>>(
    before: ServerState,
    after: ServerState,
    kind: Seq<char>,
    decode: F,
    decoded: Seq<(ConnectionId, Option<T>)>,
    events: Seq<NetworkDataView<T>>,
)
    requires
        before.registers(after, kind, decode, decoded, events),
        before.messages.contains_key(kind),
        forall|i: int, outcome: Option<T>|
            0 <= i < before.messages[kind].len() && #[trigger] call_ensures(
                decode,
                (&before.messages[kind][i].data,),
                outcome,
            ) ==> outcome is Some,
    ensures
        events.len() == before.messages[kind].len(),
        forall|i: int|
            0 <= i < events.len() ==> (#[trigger] events[i]).source
                == before.messages[kind][i].source && call_ensures(
                decode,
                (&before.messages[kind][i].data,),
                Some(events[i].inner),
            ),
{
    law_application_gets_every_message(before, after, kind, decode, decoded, events);
    assert forall|i: int| 0 <= i < decoded.len() implies (#[trigger] decoded[i]).1 is Some by {
        assert(call_ensures(decode, (&before.messages[kind][i].data,), decoded[i].1));
    }
    lemma_all_decoded(decoded);
    assert forall|i: int| 0 <= i < events.len() implies (#[trigger] events[i]).source
        == before.messages[kind][i].source && call_ensures(
        decode,
        (&before.messages[kind][i].data,),
        Some(events[i].inner),
    ) by {
        assert(decoded[i].1 is Some);
        let first = decoded.take(i);
        assert forall|j: int| 0 <= j < first.len() implies (#[trigger] first[j]).1 is Some by {
            assert(first[j] == decoded[j]);
        }
        lemma_all_decoded(first);
    }
}

/// Where nothing of a kind was registered, the application gets nothing, and nothing changes.
pub proof fn law_application_gets_nothing_unregistered<T, F: Fn(&Vec<u8>) -> Option<T>>(
    before: ServerState,
    after: ServerState,
    kind: Seq<char>,
    decode: F,
    decoded: Seq<(ConnectionId, Option<T>)>,
    events: Seq<NetworkDataView<T>>,
)
    requires
        before.registers(after, kind, decode, decoded, events),
        !before.messages.contains_key(kind),
    ensures
        events.len() == 0,
        after == before,
{
    law_no_decoded_message_is_lost(decoded, events);
}

/// A message that a client sends of a registered kind reaches the application the next time that its
/// kind is handed out: it is decoded behind those that waited, and where it decodes, it is the last
/// event, with the client as its source.
pub proof fn law_sent_message_reaches_the_application<T, F: Fn(&Vec<u8>) -> Option<T>>(
    before: ServerState,
    between: ServerState,
    after: ServerState,
    max_packet_length: nat,
    id: ConnectionId,
    kind: String,
    data: Vec<u8>,
    action: ReceiveAction,
    decode: F,
    decoded: Seq<(ConnectionId, Option<T>)>,
    events: Seq<NetworkDataView<T>>,
)
    requires
        before.messages.contains_key(kind@),
        before.receives(
            between,
            max_packet_length,
            id,
            ReceiveEvent::Decoded { kind, data },
            action,
        ),
        between.registers(after, kind@, decode, decoded, events),
    ensures
        decoded.len() == before.messages[kind@].len() + 1,
        decoded.last().0 == id,
        call_ensures(decode, (&data,), decoded.last().1),
        decoded.last().1 is Some ==> events.len() > 0 && events.last().source == id
            && events.last().inner == decoded.last().1->0,
{
    reveal(Seq::filter);
    let n = before.messages[kind@].len() as int;
    law_application_gets_every_message(between, after, kind@, decode, decoded, events);
    assert(between.messages[kind@][n] == ReceivedMessage { source: id, data });
    assert(decoded[n].0 == id);
    assert(decoded.take(n) == decoded.drop_last());
}

/// Sending to a connected client hands the packet to its channel, behind all that it took before,
/// or is refused as the channel is closed, which the channel then stays. Nothing else of the
/// connection changes, nor any other connection, nor anything else. Where no client is connected
/// under the identity, that is said, and nothing changes.
pub proof fn law_sending_hands_the_packet_over(
    before: ServerState,
    after: ServerState,
    id: ConnectionId,
    packet: PacketView,
    sent: Result<(), NetworkError>,
    other: ConnectionKey,
)
    requires
        before.sends(after, id, packet, sent),
    ensures
        before.connections.contains_key((id@.uuid, id@.url.text)) ==> {
            let was = before.connections[(id@.uuid, id@.url.text)];
            let is = after.connections[(id@.uuid, id@.url.text)];
            &&& after.connections.contains_key((id@.uuid, id@.url.text))
            &&& sent is Ok ==> accepted(is.send_message) == accepted(was.send_message).push(packet)
                && !has_refused(was.send_message) && !has_refused(is.send_message)
            &&& sent is Err ==> sent == Err::<(), _>(NetworkError::ChannelClosed(id)) && accepted(
                is.send_message,
            ) == accepted(was.send_message) && has_refused(is.send_message)
            &&& channel_id(is.send_message) == channel_id(was.send_message)
            &&& is.id == was.id
            &&& is.receive_task == was.receive_task
            &&& is.send_task == was.send_task
            &&& is.addr == was.addr
        },
        !before.connections.contains_key((id@.uuid, id@.url.text)) ==> sent == Err::<(), _>(
            NetworkError::ConnectionNotFound(id),
        ) && after.connections == before.connections,
        other != (id@.uuid, id@.url.text) ==> {
            &&& after.connections.contains_key(other) <==> before.connections.contains_key(other)
            &&& after.connections.contains_key(other) ==> after.connections[other]
                == before.connections[other]
        },
        after.messages == before.messages,
        after.incoming == before.incoming,
        after.disconnected == before.disconnected,
        after.errors == before.errors,
        after.listener == before.listener,
{
}

/// A broadcast hands the packet to the channel of every connected client, behind all that it took
/// before; only a client whose channel is closed is missed, and every such client is among those
/// that are given back, once. Nobody else is, no connection comes or goes, and nothing else changes.
pub proof fn law_broadcast_hands_the_packet_to_all(
    before: ServerState,
    after: ServerState,
    packet: PacketView,
    missed: Seq<ConnectionId>,
    key: ConnectionKey,
)
    requires
        before.broadcasts(after, packet, missed),
    ensures
        after.connections.contains_key(key) <==> before.connections.contains_key(key),
        before.connections.contains_key(key) ==> {
            let was = before.connections[key];
            let is = after.connections[key];
            let reached = forall|i: int|
                0 <= i < missed.len() ==> (
                    (#[trigger] missed[i])@.uuid,
                    missed[i]@.url.text,
                ) != key;
            &&& reached ==> accepted(is.send_message) == accepted(was.send_message).push(packet)
                && !has_refused(was.send_message) && !has_refused(is.send_message)
            &&& !reached ==> accepted(is.send_message) == accepted(was.send_message)
                && has_refused(is.send_message)
            &&& channel_id(is.send_message) == channel_id(was.send_message)
            &&& is.id == was.id
            &&& is.receive_task == was.receive_task
            &&& is.send_task == was.send_task
            &&& is.addr == was.addr
        },
        forall|i: int|
            0 <= i < missed.len() ==> before.connections.contains_key(
                ((#[trigger] missed[i])@.uuid, missed[i]@.url.text),
            ),
        forall|i: int, j: int|
            0 <= i < j < missed.len() ==> (
                (#[trigger] missed[i])@.uuid,
                missed[i]@.url.text,
            ) != ((#[trigger] missed[j])@.uuid, missed[j]@.url.text),
        after.messages == before.messages,
        after.incoming == before.incoming,
        after.disconnected == before.disconnected,
        after.errors == before.errors,
        after.listener == before.listener,
{
    let keys = keys_of(missed);
    assert forall|i: int| 0 <= i < missed.len() implies before.connections.contains_key(
        ((#[trigger] missed[i])@.uuid, missed[i]@.url.text),
    ) by {
        assert(keys[i] == (missed[i]@.uuid, missed[i]@.url.text));
        assert(keys.to_set().contains(keys[i]));
    }
    assert forall|i: int, j: int| 0 <= i < j < missed.len() implies (
        (#[trigger] missed[i])@.uuid,
        missed[i]@.url.text,
    ) != ((#[trigger] missed[j])@.uuid, missed[j]@.url.text) by {
        assert(keys[i] != keys[j]);
    }
    assert(keys.contains(key) <==> exists|i: int|
        0 <= i < missed.len() && ((#[trigger] missed[i])@.uuid, missed[i]@.url.text) == key) by {
        if keys.contains(key) {
            let i = choose|i: int| 0 <= i < keys.len() && keys[i] == key;
            assert((missed[i]@.uuid, missed[i]@.url.text) == key);
        }
        if exists|i: int|
            0 <= i < missed.len() && ((#[trigger] missed[i])@.uuid, missed[i]@.url.text) == key {
            let i = choose|i: int|
                0 <= i < missed.len() && ((#[trigger] missed[i])@.uuid, missed[i]@.url.text) == key;
            assert(keys[i] == key);
        }
    }
}

/// What the task that writes to a client does after each thing that happens to it: it writes a packet
/// whose message has an encoding, as the length of its kind in eight little-endian bytes, the kind
/// in UTF-8, and the message; it goes on after a packet without an encoding and after each write; and
/// it ends once a write has failed or no more packets come.
pub proof fn law_writing_task_writes_every_packet(event: SendEvent, action: SendAction)
    requires
        sends_on(event, action),
    ensures
        match event {
            SendEvent::Packet(packet) => match packet.data {
                Payload::Encoded(data) => {
                    &&& action is Write
                    &&& action->Write_0@ == spec_u64_to_le_bytes(
                        encode_utf8(packet.kind@).len() as u64,
                    ) + encode_utf8(packet.kind@) + data@
                },
                Payload::Unencodable => action is Next,
            },
            SendEvent::Written => action is Next,
            SendEvent::WriteFailed => action is Stop,
            SendEvent::Closed => action is Stop,
        },
{
}

/// The mathematical value of a packet is its kind and the bytes of its message, where there are any.
pub proof fn law_packet_is_its_kind_and_message(packet: NetworkPacket)
    ensures
        packet@.kind == packet.kind@,
        packet.data matches Payload::Encoded(data) ==> packet@.data == Some(data@),
        packet.data is Unencodable ==> packet@.data is None,
{
}

} // verus!
