//! The history of a server: what it reports over all that is ever done to it.

use tokio::net::TcpStream;
use tokio::sync::mpsc::UnboundedSender;
use tokio::task::JoinHandle;
use tokio_tungstenite::WebSocketStream;
use vstd::prelude::*;

use crate::connection::ClientConnection;
use crate::connection_id::{ConnectionId, ConnectionKey};
use crate::error::NetworkError;
use crate::event::ServerNetworkEvent;
use crate::laws::{
    are_different, have_not_key, law_client_is_no_server, law_reported_client_is_connected,
};
use crate::packet::{NetworkPacket, PacketView};
use crate::state::{ids_of, keys_of, with_clients, ServerState, Stopped};
use crate::steps::{
    clients_of, events_of, is_run, leads_to, lemma_ended_is_reported, removes_key, reported, Step,
};
use crate::tables::ReceivedMessage;
use crate::tasks::ReceiveEvent;

verus! {

/// Whether a client was reported as connected.
pub open spec fn was_connected(past: Seq<ServerNetworkEvent>, id: ConnectionId) -> bool {
    past.contains(ServerNetworkEvent::Connected(id))
}

/// Whether a step can be taken after the events in `past` were reported: only the task of a client
/// that was connected reads from it, and a connection is put among the established ones without a
/// report only where its client was connected.
pub open spec fn is_due<F>(step: Step<F>, past: Seq<ServerNetworkEvent>) -> bool {
    match step {
        Step::Received { id, .. } => was_connected(past, id),
        Step::Establish { connection } => was_connected(past, connection.id),
        _ => true,
    }
}

/// A history: a run of a new server.
pub open spec fn is_history<
    F: Fn(ConnectionId, WebSocketStream<TcpStream>) -> (
        JoinHandle<()>,
        JoinHandle<()>,
        UnboundedSender<NetworkPacket>,
    ),
>(states: Seq<ServerState>, steps: Seq<Step<F>>) -> bool {
    &&& is_run(states, steps)
    &&& states[0] == ServerState::initial()
    &&& forall|i: int|
        0 <= i < steps.len() ==> is_due(#[trigger] steps[i], reported(steps.take(i)))
}

/// Whether no pair of UUID and URL was given twice to the new clients of some steps.
pub open spec fn identities_are_new<F>(steps: Seq<Step<F>>) -> bool {
    &&& forall|i: int| 0 <= i < steps.len() ==> are_different(clients_of(#[trigger] steps[i]))
    &&& forall|i: int, j: int, k: int|
        #![trigger clients_of(steps[i])[k], steps[j]]
        0 <= i < j < steps.len() && 0 <= k < clients_of(steps[i]).len() && clients_of(
            steps[i],
        )[k] is Some ==> have_not_key(
            clients_of(steps[j]),
            clients_of(steps[i])[k]->0.id@.key(),
        )
}

/// Whether every client that is connected, or whose connection was noted as ended, was reported as
/// connected.
spec fn is_known(past: Seq<ServerNetworkEvent>, state: ServerState) -> bool {
    &&& forall|i: int|
        0 <= i < state.disconnected.len() ==> was_connected(past, #[trigger] state.disconnected[i])
    &&& forall|key: ConnectionKey| #[trigger]
        state.connections.contains_key(key) ==> was_connected(past, state.connections[key].id)
}

/// Whether every client that was reported as disconnected was reported as connected before.
pub open spec fn disconnected_after_connected(events: Seq<ServerNetworkEvent>) -> bool {
    forall|j: int|
        0 <= j < events.len() && (#[trigger] events[j]) is Disconnected ==> was_connected(
            events.take(j),
            events[j]->Disconnected_0,
        )
}

/// Whether no two reports of a connected client are for the same identity.
pub open spec fn connected_once(events: Seq<ServerNetworkEvent>) -> bool {
    forall|i: int, j: int|
        #![trigger events[i], events[j]]
        0 <= i < j < events.len() && events[i] is Connected && events[j] is Connected
            ==> events[i]->Connected_0@.key() != events[j]->Connected_0@.key()
}

/// What was reported stays so when more is.
proof fn lemma_still_connected(
    past: Seq<ServerNetworkEvent>,
    more: Seq<ServerNetworkEvent>,
    id: ConnectionId,
)
    requires
        was_connected(past, id),
    ensures
        was_connected(past + more, id),
{
    let event = ServerNetworkEvent::Connected(id);
    let i = choose|i: int| 0 <= i < past.len() && past[i] == event;
    assert((past + more)[i] == event);
}

/// An entry that is there once new clients were entered was there before, or is that of one of them.
proof fn lemma_where_clients_come_from(
    connections: Map<ConnectionKey, ClientConnection>,
    clients: Seq<Option<ClientConnection>>,
    key: ConnectionKey,
)
    requires
        with_clients(connections, clients).contains_key(key),
    ensures
        ({
            let connection = with_clients(connections, clients)[key];
            ||| connections.contains_key(key) && connection == connections[key]
            ||| exists|i: int|
                0 <= i < clients.len() && #[trigger] clients[i] == Some(connection)
        }),
    decreases clients.len(),
{
    if clients.len() > 0 {
        let rest = clients.drop_last();
        let connection = with_clients(connections, clients)[key];
        if clients.last() matches Some(client) && client.id@.key() == key {
            assert(clients[clients.len() - 1] == Some(connection));
        } else {
            lemma_where_clients_come_from(connections, rest, key);
            if exists|i: int| 0 <= i < rest.len() && #[trigger] rest[i] == Some(connection) {
                let i = choose|i: int|
                    0 <= i < rest.len() && #[trigger] rest[i] == Some(connection);
                assert(clients[i] == Some(connection));
            }
        }
    }
}

/// A server that stops notes as ended only clients that were connected.
proof fn lemma_stop_keeps_known(
    before: ServerState,
    after: ServerState,
    stopped: Option<Stopped>,
    past: Seq<ServerNetworkEvent>,
)
    requires
        before.stops(after, stopped),
        is_known(past, before),
    ensures
        is_known(past, after),
{
    if before.listener is Some {
        let closed = stopped->0.connections@;
        let n = before.disconnected.len() as int;
        assert forall|i: int| 0 <= i < after.disconnected.len() implies was_connected(
            past,
            #[trigger] after.disconnected[i],
        ) by {
            if i < n {
                assert(after.disconnected[i] == before.disconnected[i]);
            } else {
                let key = closed[i - n].id@.key();
                assert(after.disconnected[i] == closed[i - n].id);
                assert(keys_of(ids_of(closed))[i - n] == key);
                assert(keys_of(ids_of(closed)).to_set().contains(key));
                assert(before.connections.contains_key(key));
            }
        }
    }
}

/// A frame enters only clients that it reports.
proof fn lemma_frame_keeps_known<
    F: Fn(ConnectionId, WebSocketStream<TcpStream>) -> (
        JoinHandle<()>,
        JoinHandle<()>,
        UnboundedSender<NetworkPacket>,
    ),
>(
    before: ServerState,
    after: ServerState,
    spawn: F,
    clients: Seq<Option<ClientConnection>>,
    events: Seq<ServerNetworkEvent>,
    past: Seq<ServerNetworkEvent>,
)
    requires
        before.handles(after, spawn, clients, events),
        is_known(past, before),
    ensures
        is_known(past + events, after),
{
    assert forall|key: ConnectionKey| #[trigger]
        after.connections.contains_key(key) implies was_connected(
        past + events,
        after.connections[key].id,
    ) by {
        let connection = after.connections[key];
        lemma_where_clients_come_from(before.connections, clients, key);
        if before.connections.contains_key(key) && connection == before.connections[key] {
            lemma_still_connected(past, events, connection.id);
        } else {
            let i = choose|i: int|
                0 <= i < clients.len() && #[trigger] clients[i] == Some(connection);
            assert(before.incoming[i] is Ok);
            assert((past + events)[past.len() + i] == ServerNetworkEvent::Connected(connection.id));
        }
    }
}

/// Every step keeps to clients that were reported as connected.
proof fn lemma_step_keeps_known<
    F: Fn(ConnectionId, WebSocketStream<TcpStream>) -> (
        JoinHandle<()>,
        JoinHandle<()>,
        UnboundedSender<NetworkPacket>,
    ),
>(before: ServerState, step: Step<F>, after: ServerState, past: Seq<ServerNetworkEvent>)
    requires
        leads_to(before, step, after),
        is_due(step, past),
        is_known(past, before),
    ensures
        is_known(past + events_of(step), after),
{
    if !(step is Frame || step is Enter) {
        assert(past + events_of(step) == past);
    }
    match step {
        Step::Listen { stopped } => {
            let between = ServerState { listener: None, ..after };
            lemma_stop_keeps_known(before, between, stopped, past);
            assert(is_known(past, between));
            assert forall|i: int| 0 <= i < after.disconnected.len() implies was_connected(
                past,
                #[trigger] after.disconnected[i],
            ) by {
                assert(between.disconnected[i] == after.disconnected[i]);
            }
            assert forall|key: ConnectionKey| #[trigger]
                after.connections.contains_key(key) implies was_connected(
                past,
                after.connections[key].id,
            ) by {
                assert(between.connections.contains_key(key));
            }
        },
        Step::Stop { stopped } => {
            lemma_stop_keeps_known(before, after, stopped, past);
        },
        Step::Broadcast { packet, missed } => {
            assert forall|key: ConnectionKey| #[trigger]
                after.connections.contains_key(key) implies was_connected(
                past,
                after.connections[key].id,
            ) by {
                assert(before.connections.contains_key(key));
            }
        },
        Step::Received { max_packet_length, id, event, action } => {
            assert forall|i: int| 0 <= i < after.disconnected.len() implies was_connected(
                past,
                #[trigger] after.disconnected[i],
            ) by {
                if i < before.disconnected.len() {
                    assert(after.disconnected[i] == before.disconnected[i]);
                }
            }
        },
        Step::Frame { spawn, clients, events } => {
            lemma_frame_keeps_known(before, after, spawn, clients, events, past);
        },
        Step::Enter { spawn, new, client, event } => {
            let now = past + events_of(step);
            assert(now[past.len() as int] == ServerNetworkEvent::Connected(client.id));
            assert forall|i: int| 0 <= i < after.disconnected.len() implies was_connected(
                now,
                #[trigger] after.disconnected[i],
            ) by {
                lemma_still_connected(past, events_of(step), before.disconnected[i]);
            }
            assert forall|key: ConnectionKey| #[trigger]
                after.connections.contains_key(key) implies was_connected(
                now,
                after.connections[key].id,
            ) by {
                if key != client.id@.key() {
                    assert(before.connections.contains_key(key));
                    lemma_still_connected(past, events_of(step), before.connections[key].id);
                }
            }
        },
        Step::Establish { connection } => {
            assert forall|key: ConnectionKey| #[trigger]
                after.connections.contains_key(key) implies was_connected(
                past,
                after.connections[key].id,
            ) by {
                if key != connection.id@.key() {
                    assert(before.connections.contains_key(key));
                }
            }
        },
        _ => {
            assert forall|key: ConnectionKey| #[trigger]
                after.connections.contains_key(key) implies was_connected(
                past,
                after.connections[key].id,
            ) by {
                assert(before.connections.contains_key(key));
            }
        },
    }
}

/// Where all clients whose connections have ended were reported as connected, a step reports no
/// other as disconnected.
proof fn lemma_step_keeps_order<
    F: Fn(ConnectionId, WebSocketStream<TcpStream>) -> (
        JoinHandle<()>,
        JoinHandle<()>,
        UnboundedSender<NetworkPacket>,
    ),
>(before: ServerState, step: Step<F>, after: ServerState, past: Seq<ServerNetworkEvent>)
    requires
        leads_to(before, step, after),
        is_due(step, past),
        is_known(past, before),
        disconnected_after_connected(past),
    ensures
        disconnected_after_connected(past + events_of(step)),
{
    let events = past + events_of(step);
    let n = past.len() as int;
    assert forall|j: int| 0 <= j < events.len() && (#[trigger] events[j]) is Disconnected implies was_connected(
        events.take(j),
        events[j]->Disconnected_0,
    ) by {
        let id = events[j]->Disconnected_0;
        if j < n {
            assert(events[j] == past[j]);
            assert(events.take(j) == past.take(j));
        } else {
            let new = events_of(step);
            let m = before.incoming.len() as int;
            assert(events[j] == new[j - n]);
            if j - n < m {
                assert(before.incoming[j - n] is Ok || before.incoming[j - n] is Err);
            } else {
                let d = j - n - m;
                assert(new[m + d] == ServerNetworkEvent::Disconnected(before.disconnected[d]));
            }
            assert(was_connected(past, id));
            lemma_still_connected(past, new.take(j - n), id);
            assert(events.take(j) == past + new.take(j - n));
        }
    }
}

/// Over the first steps of a history, every client that is connected was reported so, and clients
/// are reported as disconnected only after that.
proof fn lemma_history<
    F: Fn(ConnectionId, WebSocketStream<TcpStream>) -> (
        JoinHandle<()>,
        JoinHandle<()>,
        UnboundedSender<NetworkPacket>,
    ),
>(states: Seq<ServerState>, steps: Seq<Step<F>>, n: int)
    requires
        is_history(states, steps),
        0 <= n <= steps.len(),
    ensures
        is_known(reported(steps.take(n)), states[n]),
        disconnected_after_connected(reported(steps.take(n))),
    decreases n,
{
    if n > 0 {
        let last = n - 1;
        let past = reported(steps.take(last));
        lemma_history(states, steps, last);
        assert(leads_to(states[last], steps[last], states[last + 1]));
        assert(is_due(steps[last], past));
        assert(steps.take(n).drop_last() == steps.take(last));
        assert(steps.take(n).last() == steps[last]);
        lemma_step_keeps_known(states[last], steps[last], states[n], past);
        lemma_step_keeps_order(states[last], steps[last], states[n], past);
    } else {
        assert(steps.take(0).len() == 0);
    }
}

/// Over every history of a server, however long and in whatever order things are done to it, each
/// client that is reported as disconnected was reported as connected before.
pub proof fn law_clients_connect_before_they_disconnect<
    F: Fn(ConnectionId, WebSocketStream<TcpStream>) -> (
        JoinHandle<()>,
        JoinHandle<()>,
        UnboundedSender<NetworkPacket>,
    ),
>(states: Seq<ServerState>, steps: Seq<Step<F>>)
    requires
        is_history(states, steps),
    ensures
        disconnected_after_connected(reported(steps)),
{
    let n = steps.len() as int;
    lemma_history(states, steps, n);
    assert(steps.take(n) == steps);
}

/// Whether a step enters a client with this identity, as the one at this place.
spec fn enters<F>(steps: Seq<Step<F>>, step: int, place: int, id: ConnectionId) -> bool {
    &&& 0 <= step < steps.len()
    &&& 0 <= place < clients_of(steps[step]).len()
    &&& clients_of(steps[step])[place] is Some
    &&& clients_of(steps[step])[place]->0.id == id
}

/// Whether one of the first `n` steps enters a client with this identity.
spec fn is_entered<F>(steps: Seq<Step<F>>, n: int, id: ConnectionId) -> bool {
    exists|step: int, place: int| #[trigger] enters(steps, step, place, id) && step < n
}

/// A client that a step reports as connected is one that it enters.
proof fn lemma_connected_is_entered<
    F: Fn(ConnectionId, WebSocketStream<TcpStream>) -> (
        JoinHandle<()>,
        JoinHandle<()>,
        UnboundedSender<NetworkPacket>,
    ),
>(before: ServerState, step: Step<F>, after: ServerState, i: int)
    requires
        leads_to(before, step, after),
        0 <= i < events_of(step).len(),
        events_of(step)[i] is Connected,
    ensures
        i < clients_of(step).len(),
        clients_of(step)[i] is Some,
        clients_of(step)[i]->0.id == events_of(step)[i]->Connected_0,
        !events_of(step)[i]->Connected_0@.is_server(),
{
    let id = events_of(step)[i]->Connected_0;
    if let Step::Enter { new, .. } = step {
        law_client_is_no_server(id@, new.addr@);
    } else {
        let m = before.incoming.len() as int;
        if i < m {
            assert(before.incoming[i] is Ok || before.incoming[i] is Err);
            law_client_is_no_server(id@, before.incoming[i]->Ok_0.addr@);
        } else {
            assert(events_of(step)[m + (i - m)] == ServerNetworkEvent::Disconnected(
                before.disconnected[i - m],
            ));
        }
    }
}

/// Over the first steps of a run, the clients that are reported as connected are those that are
/// entered, and each is reported once.
proof fn lemma_connected_once<
    F: Fn(ConnectionId, WebSocketStream<TcpStream>) -> (
        JoinHandle<()>,
        JoinHandle<()>,
        UnboundedSender<NetworkPacket>,
    ),
>(states: Seq<ServerState>, steps: Seq<Step<F>>, n: int)
    requires
        is_run(states, steps),
        identities_are_new(steps),
        0 <= n <= steps.len(),
    ensures
        connected_once(reported(steps.take(n))),
        forall|i: int|
            0 <= i < reported(steps.take(n)).len() && (#[trigger] reported(
                steps.take(n),
            )[i]) is Connected ==> is_entered(
                steps,
                n,
                reported(steps.take(n))[i]->Connected_0,
            ),
    decreases n,
{
    if n > 0 {
        let last = n - 1;
        let step = steps[last];
        let past = reported(steps.take(last));
        let new = events_of(step);
        let events = reported(steps.take(n));
        let m = past.len() as int;
        lemma_connected_once(states, steps, last);
        assert(leads_to(states[last], steps[last], states[last + 1]));
        assert(steps.take(n).drop_last() == steps.take(last));
        assert(steps.take(n).last() == step);
        assert(events == past + new);
        assert forall|i: int| 0 <= i < new.len() && (#[trigger] new[i]) is Connected implies i
            < clients_of(step).len() && clients_of(step)[i] is Some && clients_of(step)[i]->0.id
            == new[i]->Connected_0 by {
            lemma_connected_is_entered(states[last], step, states[n], i);
        }
        assert forall|i: int| 0 <= i < events.len() && (#[trigger] events[i]) is Connected implies is_entered(
            steps,
            n,
            events[i]->Connected_0,
        ) by {
            let id = events[i]->Connected_0;
            if i < m {
                assert(events[i] == past[i]);
                let (a, k) = choose|a: int, k: int| #[trigger] enters(steps, a, k, id) && a < last;
                assert(enters(steps, a, k, id) && a < n);
            } else {
                assert(events[i] == new[i - m]);
                assert(enters(steps, last, i - m, id) && last < n);
            }
        }
        assert forall|i: int, j: int|
            #![trigger events[i], events[j]]
            0 <= i < j < events.len() && events[i] is Connected
                && events[j] is Connected implies events[i]->Connected_0@.key()
            != events[j]->Connected_0@.key() by {
            if j < m {
                assert(events[i] == past[i] && events[j] == past[j]);
            } else {
                assert(events[j] == new[j - m]);
                if i < m {
                    assert(events[i] == past[i]);
                    let id = past[i]->Connected_0;
                    let (a, k) = choose|a: int, k: int| #[trigger]
                        enters(steps, a, k, id) && a < last;
                    assert(clients_of(steps[a])[k] is Some);
                    assert(have_not_key(clients_of(steps[last]), id@.key()));
                    assert(clients_of(step)[j - m] is Some);
                } else {
                    assert(events[i] == new[i - m]);
                    assert(are_different(clients_of(steps[last])));
                    assert(clients_of(step)[i - m] is Some && clients_of(step)[j - m] is Some);
                }
            }
        }
    } else {
        assert(steps.take(0).len() == 0);
    }
}

/// Over every run of a server, no identity is reported as connected twice, as long as no pair of
/// UUID and URL is given twice.
pub proof fn law_clients_connect_once<
    F: Fn(ConnectionId, WebSocketStream<TcpStream>) -> (
        JoinHandle<()>,
        JoinHandle<()>,
        UnboundedSender<NetworkPacket>,
    ),
>(states: Seq<ServerState>, steps: Seq<Step<F>>)
    requires
        is_run(states, steps),
        identities_are_new(steps),
    ensures
        connected_once(reported(steps)),
{
    let n = steps.len() as int;
    lemma_connected_once(states, steps, n);
    assert(steps.take(n) == steps);
}

/// A client stays connected over a step that does not take it out.
proof fn lemma_stays_connected<
    F: Fn(ConnectionId, WebSocketStream<TcpStream>) -> (
        JoinHandle<()>,
        JoinHandle<()>,
        UnboundedSender<NetworkPacket>,
    ),
>(before: ServerState, step: Step<F>, after: ServerState, id: ConnectionId)
    requires
        leads_to(before, step, after),
        before.has(id),
        !removes_key(step, id@.key()),
    ensures
        after.has(id),
{
    let key = id@.key();
    if let Step::Frame { clients, .. } = step {
        lemma_others_stay_entered(before.connections, clients, key);
        if keys_of(before.disconnected).contains(key) {
            lemma_ended_is_reported(before, step, after, key);
        }
    }
    if let Step::Broadcast { .. } = step {
        assert(after.connections.dom().contains(key));
    }
}

/// Entering new clients takes none out.
proof fn lemma_others_stay_entered(
    connections: Map<ConnectionKey, ClientConnection>,
    clients: Seq<Option<ClientConnection>>,
    key: ConnectionKey,
)
    requires
        connections.contains_key(key),
    ensures
        with_clients(connections, clients).contains_key(key),
    decreases clients.len(),
{
    if clients.len() > 0 {
        lemma_others_stay_entered(connections, clients.drop_last(), key);
    }
}

/// A client that was reported as connected can be addressed from then on, whatever is done to the
/// server: messages to it are not refused as those to an unknown client, unless the server was
/// stopped, or the client was disconnected or reported so.
pub proof fn law_reported_client_can_be_addressed<
    F: Fn(ConnectionId, WebSocketStream<TcpStream>) -> (
        JoinHandle<()>,
        JoinHandle<()>,
        UnboundedSender<NetworkPacket>,
    ),
>(states: Seq<ServerState>, steps: Seq<Step<F>>, i: int, n: int, id: ConnectionId)
    requires
        is_run(states, steps),
        0 <= i < n <= steps.len(),
        events_of(steps[i]).contains(ServerNetworkEvent::Connected(id)),
        forall|j: int| i <= j < n ==> !removes_key(#[trigger] steps[j], id@.key()),
    ensures
        states[n].has(id),
        !id@.is_server(),
        forall|after: ServerState, packet: PacketView, sent: Result<(), NetworkError>| #[trigger]
            states[n].sends(after, id, packet, sent) ==> sent is Ok || sent == Err::<(), _>(
                NetworkError::ChannelClosed(id),
            ),
        forall|after: ServerState, closed: Result<ClientConnection, NetworkError>| #[trigger]
            states[n].disconnects(after, id, closed) ==> closed is Ok,
    decreases n,
{
    let step = steps[n - 1];
    assert(leads_to(states[n - 1], steps[n - 1], states[n - 1 + 1]));
    if n > i + 1 {
        law_reported_client_can_be_addressed(states, steps, i, n - 1, id);
        lemma_stays_connected(states[n - 1], step, states[n], id);
    } else {
        let events = events_of(step);
        let k = choose|k: int|
            0 <= k < events.len() && events[k] == ServerNetworkEvent::Connected(id);
        lemma_connected_is_entered(states[i], step, states[n], k);
        if let Step::Frame { spawn, clients, events } = step {
            if keys_of(states[i].disconnected).contains(id@.key()) {
                lemma_ended_is_reported(states[i], step, states[n], id@.key());
            }
            law_reported_client_is_connected(states[i], states[n], spawn, clients, events, k, id);
        }
    }
}

/// The messages of a kind that some steps receive, in their order.
pub open spec fn received<F>(steps: Seq<Step<F>>, kind: Seq<char>) -> Seq<ReceivedMessage>
    decreases steps.len(),
{
    if steps.len() == 0 {
        Seq::empty()
    } else {
        match steps.last() {
            Step::Received {
                id,
                event: ReceiveEvent::Decoded { kind: name, data },
                ..
            } if name@ == kind => received(steps.drop_last(), kind).push(
                ReceivedMessage { source: id, data },
            ),
            _ => received(steps.drop_last(), kind),
        }
    }
}

/// The messages of a kind that some steps hand out, in their order.
pub open spec fn handed_out<F>(steps: Seq<Step<F>>, kind: Seq<char>) -> Seq<ReceivedMessage>
    decreases steps.len(),
{
    if steps.len() == 0 {
        Seq::empty()
    } else {
        match steps.last() {
            Step::Take { kind: name, taken } if name == kind => handed_out(steps.drop_last(), kind)
                + taken,
            _ => handed_out(steps.drop_last(), kind),
        }
    }
}

/// Whether a step stops a server that listens.
pub open spec fn stops_server<F>(step: Step<F>) -> bool {
    match step {
        Step::Listen { stopped } => stopped is Some,
        Step::Stop { stopped } => stopped is Some,
        _ => false,
    }
}

/// Reliable and ordered, whatever else is done to the server: as long as it is not stopped, the
/// messages of a registered kind are handed out once, none missing, in the order in which they came.
/// Those that were not handed out yet wait.
pub proof fn law_received_messages_are_handed_out_in_order<
    F: Fn(ConnectionId, WebSocketStream<TcpStream>) -> (
        JoinHandle<()>,
        JoinHandle<()>,
        UnboundedSender<NetworkPacket>,
    ),
>(states: Seq<ServerState>, steps: Seq<Step<F>>, kind: Seq<char>)
    requires
        is_run(states, steps),
        states[0].messages.contains_key(kind),
        forall|i: int| 0 <= i < steps.len() ==> !stops_server(#[trigger] steps[i]),
    ensures
        states.last().messages.contains_key(kind),
        handed_out(steps, kind) + states.last().messages[kind] == states[0].messages[kind]
            + received(steps, kind),
    decreases steps.len(),
{
    let start = states[0].messages[kind];
    if steps.len() > 0 {
        let n = steps.len() - 1;
        let rest = steps.drop_last();
        let earlier = states.drop_last();
        assert forall|i: int| 0 <= i < rest.len() implies leads_to(
            earlier[i],
            #[trigger] rest[i],
            earlier[i + 1],
        ) by {
            assert(rest[i] == steps[i]);
        }
        assert forall|i: int| 0 <= i < rest.len() implies !stops_server(#[trigger] rest[i]) by {
            assert(rest[i] == steps[i]);
        }
        law_received_messages_are_handed_out_in_order(earlier, rest, kind);
        assert(leads_to(states[n], steps[n], states[n + 1]));
        assert(!stops_server(steps[n]));
        let before = states[n];
        let after = states[n + 1];
        let out = handed_out(rest, kind);
        let come = received(rest, kind);
        assert(out + before.messages[kind] == start + come);
        match steps[n] {
            Step::Take { kind: name, taken } => {
                if name == kind {
                    assert(after.messages[kind] == Seq::<ReceivedMessage>::empty());
                    assert((out + taken) + after.messages[kind] == out + before.messages[kind]);
                }
            },
            Step::Received { id, event: ReceiveEvent::Decoded { kind: name, data }, .. } => {
                if name@ == kind {
                    let message = ReceivedMessage { source: id, data };
                    assert(after.messages[kind] == before.messages[kind].push(message));
                    assert(out + before.messages[kind].push(message) == (out
                        + before.messages[kind]).push(message));
                    assert((start + come).push(message) == start + come.push(message));
                }
            },
            _ => {},
        }
    } else {
        assert(handed_out(steps, kind) + start == start);
        assert(start + received(steps, kind) == start);
    }
}

} // verus!
