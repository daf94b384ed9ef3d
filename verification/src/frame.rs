//! What a server does once in each frame of the application.

use tokio::net::TcpStream;
use tokio::sync::mpsc::UnboundedSender;
use tokio::task::JoinHandle;
use tokio_tungstenite::WebSocketStream;
use vstd::prelude::*;

use crate::connection::{ClientConnection, NewIncomingConnection};
use crate::connection_id::{is_random_uuid, random_uuid, ConnectionId};
use crate::event::{data_views, decoded_events, NetworkData, ServerNetworkEvent};
use crate::packet::NetworkPacket;
use crate::server::NetworkServer;
use crate::state::{admits, keys_of, lemma_keys_push, with_clients, ServerState};

verus! {

/// Enters a new client, for which `uuid` was drawn, and returns the event that reports it.
///
/// `spawn` is given the identity and the websocket of the client.
pub fn enter_client<
    F: Fn(ConnectionId, WebSocketStream<TcpStream>) -> (
        JoinHandle<()>,
        JoinHandle<()>,
        UnboundedSender<NetworkPacket>,
    ),
>(server: &mut NetworkServer, uuid: u128, new: NewIncomingConnection, spawn: &F) -> (event:
    ServerNetworkEvent)
    requires
        old(server).wf(),
        is_random_uuid(uuid),
        forall|id: ConnectionId, socket: WebSocketStream<TcpStream>|
            call_requires(*spawn, (id, socket)),
    ensures
        final(server).wf(),
        exists|client: ClientConnection|
            {
                &&& #[trigger] admits(*spawn, Ok(new), Some(client), event)
                &&& client.id@.uuid == uuid
                &&& final(server)@ == (ServerState {
                    connections: old(server)@.connections.insert(client.id@.key(), client),
                    ..old(server)@
                })
            },
{
    let id = ConnectionId::client_with(uuid, new.addr.as_str());
    let (receive_task, send_task, send_message) = spawn(id.clone(), new.socket);
    let event = ServerNetworkEvent::Connected(id.clone());
    let client = ClientConnection { id, receive_task, send_task, send_message, addr: new.addr };
    server.establish(client);
    assert(admits(*spawn, Ok(new), Some(client), event));
    event
}

/// Handles what the tasks of a server have reported since the last frame, and returns the events
/// for the application.
///
/// For every new client, `spawn` is given its identity and its websocket; it starts the tasks that
/// read from it and write to it, and returns them with the channel of the second.
pub fn handle_new_incoming_connections<
    F: Fn(ConnectionId, WebSocketStream<TcpStream>) -> (
        JoinHandle<()>,
        JoinHandle<()>,
        UnboundedSender<NetworkPacket>,
    ),
>(server: &mut NetworkServer, spawn: F) -> (events: Vec<ServerNetworkEvent>)
    requires
        old(server).wf(),
        forall|id: ConnectionId, socket: WebSocketStream<TcpStream>|
            call_requires(spawn, (id, socket)),
    ensures
        final(server).wf(),
        exists|clients: Seq<Option<ClientConnection>>|
            old(server)@.handles(final(server)@, spawn, clients, events@),
{
    let ghost before = server@;
    let ghost mut clients: Seq<Option<ClientConnection>> = Seq::empty();
    let mut events: Vec<ServerNetworkEvent> = Vec::new();
    let ghost mut n: int = 0;
    loop
        invariant
            server.wf(),
            0 <= n <= before.incoming.len(),
            n == clients.len(),
            n == events.len(),
            forall|id: ConnectionId, socket: WebSocketStream<TcpStream>|
                call_requires(spawn, (id, socket)),
            forall|i: int|
                0 <= i < n ==> admits(
                    spawn,
                    #[trigger] before.incoming[i],
                    clients[i],
                    events@[i],
                ),
            server@ == (ServerState {
                connections: with_clients(before.connections, clients),
                incoming: before.incoming.skip(n),
                ..before
            }),
        ensures
            server.wf(),
            n == before.incoming.len(),
            n == clients.len(),
            n == events.len(),
            forall|i: int|
                0 <= i < n ==> admits(
                    spawn,
                    #[trigger] before.incoming[i],
                    clients[i],
                    events@[i],
                ),
            server@ == (ServerState {
                connections: with_clients(before.connections, clients),
                incoming: Seq::empty(),
                ..before
            }),
        decreases before.incoming.len() - n,
    {
        match server.next_incoming() {
            None => {
                break;
            },
            Some(Ok(new)) => {
                let ghost previous = server@;
                let event = enter_client(server, random_uuid(), new, &spawn);
                proof {
                    let client = choose|client: ClientConnection|
                        {
                            &&& #[trigger] admits(spawn, Ok(new), Some(client), event)
                            &&& server@ == (ServerState {
                                connections: previous.connections.insert(client.id@.key(), client),
                                ..previous
                            })
                        };
                    let more = clients.push(Some(client));
                    assert(more.drop_last() == clients);
                    clients = more;
                }
                events.push(event);
            },
            Some(Err(error)) => {
                events.push(ServerNetworkEvent::Error(error));
                proof {
                    let more = clients.push(None);
                    assert(more.drop_last() == clients);
                    clients = more;
                }
            },
        }
        proof {
            n = n + 1;
        }
    }
    let ghost between = server@;
    let ghost connected = events@;
    let ghost mut m: int = 0;
    loop
        invariant
            server.wf(),
            0 <= n,
            0 <= m <= between.disconnected.len(),
            events.len() == n + m,
            forall|i: int| 0 <= i < n ==> events@[i] == connected[i],
            forall|i: int|
                0 <= i < m ==> events@[n + i] == ServerNetworkEvent::Disconnected(
                    #[trigger] between.disconnected[i],
                ),
            server@ == (ServerState {
                connections: between.connections.remove_keys(
                    keys_of(between.disconnected.take(m)).to_set(),
                ),
                disconnected: between.disconnected.skip(m),
                ..between
            }),
        ensures
            server.wf(),
            m == between.disconnected.len(),
            events.len() == n + m,
            forall|i: int| 0 <= i < n ==> events@[i] == connected[i],
            forall|i: int|
                0 <= i < m ==> events@[n + i] == ServerNetworkEvent::Disconnected(
                    #[trigger] between.disconnected[i],
                ),
            server@ == (ServerState {
                connections: between.connections.remove_keys(
                    keys_of(between.disconnected).to_set(),
                ),
                disconnected: Seq::empty(),
                ..between
            }),
        decreases between.disconnected.len() - m,
    {
        match server.next_ended() {
            None => {
                assert(between.disconnected.take(m) == between.disconnected);
                break;
            },
            Some(id) => {
                proof {
                    let handled = between.disconnected.take(m);
                    lemma_keys_push(handled, id);
                    assert(between.disconnected.take(m + 1) == handled.push(id));
                    assert(between.connections.remove_keys(
                        keys_of(handled.push(id)).to_set(),
                    ) == between.connections.remove_keys(keys_of(handled).to_set()).remove(
                        id@.key(),
                    ));
                }
                server.forget(&id);
                events.push(ServerNetworkEvent::Disconnected(id));
            },
        }
        proof {
            m = m + 1;
        }
    }
    assert(before.handles(server@, spawn, clients, events@));
    events
}

/// Takes the messages of a kind that were received since the last frame, and returns those that
/// `decode` makes data of the type `T` of.
pub fn register_server_message<T, F: Fn(&Vec<u8>) -> Option<T>>(
    server: &mut NetworkServer,
    kind: &str,
    decode: F,
) -> (events: Vec<NetworkData<T>>)
    requires
        old(server).wf(),
        forall|data: Vec<u8>| call_requires(decode, (&data,)),
    ensures
        final(server).wf(),
        exists|decoded: Seq<(ConnectionId, Option<T>)>|
            old(server)@.registers(
                final(server)@,
                kind@,
                decode,
                decoded,
                data_views(events@),
            ),
{
    let messages = server.take_messages(kind);
    let ghost all = messages@;
    let mut decoded: Vec<(ConnectionId, Option<T>)> = Vec::new();
    for message in iter: messages
        invariant
            iter.seq() == all,
            decoded.len() == iter.index(),
            forall|data: Vec<u8>| call_requires(decode, (&data,)),
            forall|i: int|
                #![trigger decoded@[i]]
                0 <= i < decoded@.len() ==> decoded@[i].0 == all[i].source && call_ensures(
                    decode,
                    (&all[i].data,),
                    decoded@[i].1,
                ),
    {
        let inner = decode(&message.data);
        decoded.push((message.source, inner));
    }
    let ghost outcomes = decoded@;
    let events = decoded_events(decoded);
    assert(old(server)@.registers(
        server@,
        kind@,
        decode,
        outcomes,
        data_views(events@),
    ));
    events
}

} // verus!
