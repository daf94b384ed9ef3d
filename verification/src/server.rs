//! The server.

use tokio::task::JoinHandle;
use vstd::prelude::*;

use crate::channel::{Notice, SyncChannel};
use crate::connection::{abort_task, ClientConnection, NewIncomingConnection};
use crate::connection_id::{ConnectionId, ConnectionKey};
use crate::decimal::{decimal, decimal_text};
use crate::error::NetworkError;
use crate::packet::{NetworkPacket, PacketView, Payload};
use crate::state::{ids_of, keys_of, lemma_keys_push, ServerState, Stopped};
use crate::tables::{
    clear_messages, connection_count, connection_keys, connections_in, contains_kind,
    exchange_messages, insert_connection, insert_kind, key_views, messages_in, new_connections,
    new_messages, remove_connection, ConnectionTable, MessageTable, ReceivedMessage,
};

verus! {

/// A [`NetworkServer`] listens for new client connections, and talks to those that are
/// established.
///
/// Its tasks report to it between the frames of the application; once in each frame it handles
/// what they reported.
#[derive(Debug)]
pub struct NetworkServer {
    recv_message_map: MessageTable,
    established_connections: ConnectionTable,
    new_connections: SyncChannel,
    disconnected_connections: SyncChannel,
    error_channel: SyncChannel,
    server_handle: Option<JoinHandle<()>>,
}

impl View for NetworkServer {
    type V = ServerState;

    closed spec fn view(&self) -> ServerState {
        ServerState {
            connections: connections_in(self.established_connections),
            messages: messages_in(self.recv_message_map),
            incoming: self.new_connections@.map_values(|notice: Notice| notice->Incoming_0),
            disconnected: self.disconnected_connections@.map_values(
                |notice: Notice| notice->Ended_0,
            ),
            errors: self.error_channel@.map_values(|notice: Notice| notice->Failed_0),
            listener: self.server_handle,
        }
    }
}

impl NetworkServer {
    /// Every channel carries its own sort of notices, and every connection stands under the key of
    /// its own identity.
    pub closed spec fn wf(self) -> bool {
        &&& self.new_connections.wf()
        &&& self.disconnected_connections.wf()
        &&& self.error_channel.wf()
        &&& forall|i: int|
            0 <= i < self.new_connections@.len() ==> (#[trigger] self.new_connections@[i]) is Incoming
        &&& forall|i: int|
            0 <= i < self.disconnected_connections@.len()
                ==> (#[trigger] self.disconnected_connections@[i]) is Ended
        &&& forall|i: int|
            0 <= i < self.error_channel@.len() ==> (#[trigger] self.error_channel@[i]) is Failed
        &&& self@.wf()
    }

    /// A server that does not listen yet.
    pub fn new() -> (server: NetworkServer)
        ensures
            server.wf(),
            server@ == ServerState::initial(),
    {
        NetworkServer {
            recv_message_map: new_messages(),
            established_connections: new_connections(),
            new_connections: SyncChannel::new(),
            disconnected_connections: SyncChannel::new(),
            error_channel: SyncChannel::new(),
            server_handle: None,
        }
    }

    /// Whether messages of a kind are listened for.
    pub fn is_registered(&self, kind: &str) -> (yes: bool)
        ensures
            yes == self@.messages.contains_key(kind@),
    {
        contains_kind(&self.recv_message_map, kind)
    }

    /// Register a server message type by its name: its messages are kept from now on.
    ///
    /// A name is registered once.
    pub fn listen_for_server_message(&mut self, name: &'static str)
        requires
            old(self).wf(),
            !old(self)@.messages.contains_key(name@),
        ensures
            final(self).wf(),
            final(self)@ == (ServerState {
                messages: old(self)@.messages.insert(name@, Seq::empty()),
                ..old(self)@
            }),
    {
        insert_kind(&mut self.recv_message_map, name, Vec::new());
        assert(self@.connections == old(self)@.connections);
    }

    /// Takes the messages of a kind that were received since the last time, the oldest first.
    pub fn take_messages(&mut self, kind: &str) -> (taken: Vec<ReceivedMessage>)
        requires
            old(self).wf(),
        ensures
            final(self).wf(),
            old(self)@.takes(final(self)@, kind@, taken@),
    {
        let taken = exchange_messages(&mut self.recv_message_map, kind, Vec::new());
        assert(self@.connections == old(self)@.connections);
        match taken {
            Some(messages) => messages,
            None => Vec::new(),
        }
    }

    /// Keeps a message of a registered kind; one of another kind is dropped. Says whether it was
    /// kept.
    pub(crate) fn keep_message(&mut self, kind: &str, message: ReceivedMessage) -> (kept: bool)
        requires
            old(self).wf(),
        ensures
            final(self).wf(),
            kept == old(self)@.messages.contains_key(kind@),
            final(self)@ == old(self)@.with_message(kind@, message),
    {
        let ghost before = self@;
        match exchange_messages(&mut self.recv_message_map, kind, Vec::new()) {
            Some(messages) => {
                let mut messages = messages;
                messages.push(message);
                let _ = exchange_messages(&mut self.recv_message_map, kind, messages);
                assert(self@.messages == before.messages.insert(
                    kind@,
                    before.messages[kind@].push(message),
                ));
                assert(self@.connections == before.connections);
                true
            },
            None => {
                assert(self@.connections == before.connections);
                false
            },
        }
    }

    /// The server in words.
    pub fn description(&self) -> (text: String)
        ensures
            text@ == "NetworkServer ["@ + decimal(self@.connections.dom().len())
                + " Connected Clients]"@,
    {
        let mut text = "NetworkServer [".to_owned();
        text.append(decimal_text(connection_count(&self.established_connections) as u64).as_str());
        text.append(" Connected Clients]");
        text
    }

    /// Notes that listening could not be started.
    pub(crate) fn note_failed(&mut self, error: NetworkError)
        requires
            old(self).wf(),
        ensures
            final(self).wf(),
            final(self)@ == (ServerState { errors: old(self)@.errors.push(error), ..old(self)@ }),
    {
        let _ = self.error_channel.send(Notice::Failed(error));
        assert(self@.errors == old(self)@.errors.push(error));
    }

    /// Notes that a client has connected, or failed to. Says whether it could be noted, as it
    /// always can.
    pub(crate) fn note_incoming(
        &mut self,
        incoming: Result<NewIncomingConnection, NetworkError>,
    ) -> (noted: bool)
        requires
            old(self).wf(),
        ensures
            noted,
            final(self).wf(),
            final(self)@ == (ServerState {
                incoming: old(self)@.incoming.push(incoming),
                ..old(self)@
            }),
    {
        let noted = self.new_connections.send(Notice::Incoming(incoming));
        assert(self@.incoming == old(self)@.incoming.push(incoming));
        noted
    }

    /// Notes that a connection has ended.
    pub(crate) fn note_ended(&mut self, id: ConnectionId)
        requires
            old(self).wf(),
        ensures
            final(self).wf(),
            final(self)@ == (ServerState {
                disconnected: old(self)@.disconnected.push(id),
                ..old(self)@
            }),
    {
        let _ = self.disconnected_connections.send(Notice::Ended(id));
        assert(self@.disconnected == old(self)@.disconnected.push(id));
    }

    /// The client that has connected or failed to the longest ago, and was not handled yet.
    pub(crate) fn next_incoming(&mut self) -> (incoming: Option<
        Result<NewIncomingConnection, NetworkError>,
    >)
        requires
            old(self).wf(),
        ensures
            final(self).wf(),
            old(self)@.incoming.len() == 0 ==> incoming is None && final(self)@ == old(self)@,
            old(self)@.incoming.len() > 0 ==> {
                &&& incoming == Some(old(self)@.incoming[0])
                &&& final(self)@ == (ServerState {
                    incoming: old(self)@.incoming.drop_first(),
                    ..old(self)@
                })
            },
    {
        let ghost before = self@;
        let ghost waiting = self.new_connections@;
        let notice = self.new_connections.try_recv();
        assert(self@.connections == before.connections);
        match notice {
            Some(Notice::Incoming(incoming)) => {
                assert forall|i: int| 0 <= i < self.new_connections@.len() implies (
                #[trigger] self.new_connections@[i]) is Incoming by {
                    assert(waiting[i + 1] is Incoming);
                }
                assert(self@.incoming == before.incoming.drop_first());
                Some(incoming)
            },
            _ => {
                assert(waiting.len() > 0 ==> waiting[0] is Incoming);
                None
            },
        }
    }

    /// The connection that has ended the longest ago, and was not handled yet.
    pub(crate) fn next_ended(&mut self) -> (ended: Option<ConnectionId>)
        requires
            old(self).wf(),
        ensures
            final(self).wf(),
            old(self)@.disconnected.len() == 0 ==> ended is None && final(self)@ == old(self)@,
            old(self)@.disconnected.len() > 0 ==> {
                &&& ended == Some(old(self)@.disconnected[0])
                &&& final(self)@ == (ServerState {
                    disconnected: old(self)@.disconnected.drop_first(),
                    ..old(self)@
                })
            },
    {
        let ghost before = self@;
        let ghost waiting = self.disconnected_connections@;
        let notice = self.disconnected_connections.try_recv();
        assert(self@.connections == before.connections);
        match notice {
            Some(Notice::Ended(id)) => {
                assert forall|i: int| 0 <= i < self.disconnected_connections@.len() implies (
                #[trigger] self.disconnected_connections@[i]) is Ended by {
                    assert(waiting[i + 1] is Ended);
                }
                assert(self@.disconnected == before.disconnected.drop_first());
                Some(id)
            },
            _ => {
                assert(waiting.len() > 0 ==> waiting[0] is Ended);
                None
            },
        }
    }

    /// Enters a connection among the established ones, in place of one with the same identity.
    pub fn establish(&mut self, connection: ClientConnection)
        requires
            old(self).wf(),
        ensures
            final(self).wf(),
            final(self)@ == (ServerState {
                connections: old(self)@.connections.insert(connection.id@.key(), connection),
                ..old(self)@
            }),
    {
        let ghost before = self@;
        let key = connection.id.key();
        let _ = insert_connection(&mut self.established_connections, key, connection);
        assert(self@.connections == before.connections.insert(connection.id@.key(), connection));
    }

    /// Takes a connection out of the established ones.
    pub(crate) fn forget(&mut self, id: &ConnectionId)
        requires
            old(self).wf(),
        ensures
            final(self).wf(),
            final(self)@ == (ServerState {
                connections: old(self)@.connections.remove(id@.key()),
                ..old(self)@
            }),
    {
        let ghost before = self@;
        let _ = remove_connection(&mut self.established_connections, &id.key());
        assert(self@.connections == before.connections.remove(id@.key()));
    }

    /// Forgets the clients that were about to connect.
    fn drop_incoming(&mut self)
        requires
            old(self).wf(),
        ensures
            final(self).wf(),
            final(self)@ == (ServerState { incoming: Seq::empty(), ..old(self)@ }),
    {
        let ghost before = self@;
        loop
            invariant
                before.wf(),
                self.wf(),
                self@ == (ServerState { incoming: self@.incoming, ..before }),
            ensures
                self.wf(),
                self@ == (ServerState { incoming: Seq::empty(), ..before }),
            decreases self@.incoming.len(),
        {
            if self.next_incoming().is_none() {
                break;
            }
        }
    }

    /// Start listening for new clients, in the task that `spawn` starts.
    ///
    /// If you are already listening for new connections, then this will disconnect existing
    /// connections first.
    pub fn listen<F: FnOnce() -> JoinHandle<()>>(&mut self, spawn: F) -> (started: Result<
        Option<Stopped>,
        NetworkError,
    >)
        requires
            old(self).wf(),
            call_requires(spawn, ()),
        ensures
            final(self).wf(),
            started is Ok,
            final(self)@.listener is Some,
            call_ensures(spawn, (), final(self)@.listener->0),
            old(self)@.stops(
                (ServerState { listener: None, ..final(self)@ }),
                started->Ok_0,
            ),
    {
        let stopped = self.stop();
        let ghost between = self@;
        self.server_handle = Some(spawn());
        assert(self@.connections == between.connections);
        assert((ServerState { listener: None, ..self@ }) == between);
        Ok(stopped)
    }

    /// Send a message to a specific client.
    pub fn send_message(&mut self, client_id: ConnectionId, kind: &str, message: Payload) -> (sent:
        Result<(), NetworkError>)
        requires
            old(self).wf(),
        ensures
            final(self).wf(),
            old(self)@.sends(
                final(self)@,
                client_id,
                (PacketView { kind: kind@, data: message@ }),
                sent,
            ),
    {
        let ghost before = self@;
        let key = client_id.key();
        match remove_connection(&mut self.established_connections, &key) {
            None => {
                assert(self@.connections == before.connections);
                Err(NetworkError::ConnectionNotFound(client_id))
            },
            Some(connection) => {
                // The connection is put back as it is once its channel was handed the packet.
                let mut connection = connection;
                let packet = NetworkPacket { kind: kind.to_owned(), data: message };
                let taken = connection.send(packet);
                let _ = insert_connection(&mut self.established_connections, key, connection);
                assert(self@.connections == before.connections.insert(
                    client_id@.key(),
                    connection,
                ));
                send_outcome(client_id, taken)
            },
        }
    }

    /// Broadcast a message to all connected clients. Returned are those whose channels are closed.
    pub fn broadcast(&mut self, kind: &str, message: Payload) -> (missed: Vec<ConnectionId>)
        requires
            old(self).wf(),
        ensures
            final(self).wf(),
            old(self)@.broadcasts(
                final(self)@,
                (PacketView { kind: kind@, data: message@ }),
                missed@,
            ),
    {
        let ghost before = self@;
        let ghost sent = PacketView { kind: kind@, data: message@ };
        let keys = connection_keys(&self.established_connections);
        let ghost views = key_views(keys@);
        let mut missed: Vec<ConnectionId> = Vec::new();
        let mut i: usize = 0;
        while i < keys.len()
            invariant
                0 <= i <= keys.len(),
                views == key_views(keys@),
                views.no_duplicates(),
                views.to_set() == before.connections.dom(),
                before.wf(),
                self.wf(),
                sent == (PacketView { kind: kind@, data: message@ }),
                self@ == (ServerState { connections: self@.connections, ..before }),
                self@.connections.dom() == before.connections.dom(),
                keys_of(missed@).no_duplicates(),
                forall|key: ConnectionKey| #[trigger]
                    keys_of(missed@).contains(key) ==> views.take(i as int).contains(key),
                forall|key: ConnectionKey| #[trigger]
                    before.connections.contains_key(key) && !views.take(i as int).contains(key)
                        ==> self@.connections[key] == before.connections[key],
                forall|key: ConnectionKey| #[trigger]
                    before.connections.contains_key(key) && views.take(i as int).contains(key)
                        ==> self@.connections[key].is_send_of(
                        before.connections[key],
                        sent,
                        !keys_of(missed@).contains(key),
                    ),
            decreases keys.len() - i,
        {
            let ghost previous = self@;
            let ghost key = views[i as int];
            let ghost missed_before = missed@;
            proof {
                lemma_take_one(views, i as int);
            }
            assert(previous.connections.contains_key(key));
            if let Some(connection) = remove_connection(
                &mut self.established_connections,
                &keys[i],
            ) {
                let mut connection = connection;
                let packet = NetworkPacket { kind: kind.to_owned(), data: message.clone() };
                if !connection.send(packet) {
                    missed.push(connection.id.clone());
                    proof {
                        lemma_keys_push(missed_before, connection.id);
                    }
                }
                let key = connection.id.key();
                let _ = insert_connection(&mut self.established_connections, key, connection);
                assert(self@.connections == previous.connections.insert(views[i as int], connection));
            }
            i = i + 1;
        }
        proof {
            assert(views.take(i as int) == views);
            assert forall|key: ConnectionKey| keys_of(missed@).to_set().contains(
                key,
            ) implies before.connections.dom().contains(key) by {
                assert(views.to_set().contains(key));
            }
            assert forall|key: ConnectionKey| #[trigger]
                before.connections.contains_key(key) implies self@.connections[key].is_send_of(
                before.connections[key],
                sent,
                !keys_of(missed@).contains(key),
            ) by {
                assert(views.to_set().contains(key));
            }
        }
        missed
    }

    /// Disconnect a specific client. Returned is its connection, with both tasks told to stop.
    pub fn disconnect(&mut self, conn_id: ConnectionId) -> (closed: Result<
        ClientConnection,
        NetworkError,
    >)
        requires
            old(self).wf(),
        ensures
            final(self).wf(),
            old(self)@.disconnects(final(self)@, conn_id, closed),
    {
        let ghost before = self@;
        match remove_connection(&mut self.established_connections, &conn_id.key()) {
            Some(connection) => {
                assert(self@.connections == before.connections.remove(conn_id@.key()));
                Ok(connection.stop())
            },
            None => {
                assert(self@.connections == before.connections);
                Err(NetworkError::ConnectionNotFound(conn_id))
            },
        }
    }

    /// Disconnect all clients and stop listening for new ones.
    ///
    /// This operation is idempotent and will do nothing if you are not actively listening.
    pub fn stop(&mut self) -> (stopped: Option<Stopped>)
        requires
            old(self).wf(),
        ensures
            final(self).wf(),
            old(self)@.stops(final(self)@, stopped),
    {
        let ghost before = self@;
        match self.server_handle.take() {
            None => None,
            Some(handle) => {
                let mut listener = handle;
                abort_task(&mut listener);
                let keys = connection_keys(&self.established_connections);
                let ghost views = key_views(keys@);
                let mut connections: Vec<ClientConnection> = Vec::new();
                let mut i: usize = 0;
                proof {
                    assert(views.skip(0) == views);
                    assert(self@.connections == before.connections);
                    assert(before.disconnected + ids_of(connections@) == before.disconnected);
                    assert forall|key: ConnectionKey| #[trigger]
                        self@.connections.contains_key(key) <==> views.skip(0).contains(key) by {
                        assert(views.to_set().contains(key) <==> views.contains(key));
                    }
                }
                while i < keys.len()
                    invariant
                        0 <= i <= keys.len(),
                        connections.len() == i,
                        views == key_views(keys@),
                        views.no_duplicates(),
                        views.to_set() == before.connections.dom(),
                        before.wf(),
                        self.wf(),
                        forall|j: int|
                            0 <= j < i ==> (#[trigger] connections@[j]).is_stop_of(
                                before.connections[views[j]],
                            ) && connections@[j].id@.key() == views[j],
                        forall|key: ConnectionKey| #[trigger]
                            self@.connections.contains_key(key) <==> views.skip(i as int).contains(
                                key,
                            ),
                        forall|key: ConnectionKey| #[trigger]
                            self@.connections.contains_key(key) ==> self@.connections[key]
                                == before.connections[key],
                        self@ == (ServerState {
                            connections: self@.connections,
                            disconnected: before.disconnected + ids_of(connections@),
                            listener: None,
                            ..before
                        }),
                    decreases keys.len() - i,
                {
                    let ghost key = views[i as int];
                    let ghost previous = self@;
                    let ghost closed = connections@;
                    proof {
                        lemma_skip_one(views, i as int);
                    }
                    assert(previous.connections.contains_key(key));
                    if let Some(connection) = remove_connection(
                        &mut self.established_connections,
                        &keys[i],
                    ) {
                        self.note_ended(connection.id.clone());
                        connections.push(connection.stop());
                    }
                    assert(ids_of(connections@) == ids_of(closed).push(previous.connections[key].id));
                    i = i + 1;
                }
                clear_messages(&mut self.recv_message_map);
                self.drop_incoming();
                proof {
                    assert(self@.connections == Map::<ConnectionKey, ClientConnection>::empty());
                    assert(keys_of(ids_of(connections@)) == views);
                }
                Some(Stopped { listener, connections })
            },
        }
    }
}

/// What sending to a client comes to, once its channel has taken the packet or not.
pub fn send_outcome(client_id: ConnectionId, taken: bool) -> (sent: Result<(), NetworkError>)
    ensures
        taken ==> sent is Ok,
        !taken ==> sent == Err::<(), _>(NetworkError::ChannelClosed(client_id)),
{
    if taken {
        Ok(())
    } else {
        Err(NetworkError::ChannelClosed(client_id))
    }
}

/// The first `i + 1` elements of a sequence without duplicates are the first `i` and a new one.
proof fn lemma_take_one<A>(s: Seq<A>, i: int)
    requires
        s.no_duplicates(),
        0 <= i < s.len(),
    ensures
        !s.take(i).contains(s[i]),
        s.to_set().contains(s[i]),
        forall|x: A| #[trigger] s.take(i + 1).contains(x) <==> s.take(i).contains(x) || x == s[i],
{
    let less = s.take(i);
    let more = s.take(i + 1);
    assert(more[i] == s[i]);
    assert forall|x: A| less.contains(x) implies more.contains(x) by {
        let j = choose|j: int| 0 <= j < less.len() && less[j] == x;
        assert(more[j] == x);
    }
    assert forall|x: A| #[trigger] s.take(i + 1).contains(x) implies s.take(i).contains(x) || x
        == s[i] by {
        let j = choose|j: int| 0 <= j < more.len() && more[j] == x;
        if j < i {
            assert(less[j] == x);
        }
    }
}

/// What stands behind the first `i + 1` elements of a sequence without duplicates is what stands
/// behind the first `i`, except for the element between.
proof fn lemma_skip_one<A>(s: Seq<A>, i: int)
    requires
        s.no_duplicates(),
        0 <= i < s.len(),
    ensures
        s.skip(i).contains(s[i]),
        s.to_set().contains(s[i]),
        forall|x: A| #[trigger]
            s.skip(i + 1).contains(x) <==> s.skip(i).contains(x) && x != s[i],
{
    assert(s.skip(i)[0] == s[i]);
    assert forall|x: A| #[trigger] s.skip(i + 1).contains(x) implies s.skip(i).contains(x) && x
        != s[i] by {
        let next = s.skip(i + 1);
        let j = choose|j: int| 0 <= j < next.len() && next[j] == x;
        assert(s.skip(i)[j + 1] == x);
        assert(s[i + 1 + j] == x);
    }
    assert forall|x: A| s.skip(i).contains(x) && x != s[i] implies #[trigger] s.skip(
        i + 1,
    ).contains(x) by {
        let rest = s.skip(i);
        let j = choose|j: int| 0 <= j < rest.len() && rest[j] == x;
        assert(s.skip(i + 1)[j - 1] == x);
    }
}

} // verus!
