//! How packets get to clients: what the task that writes to a client makes of those that were sent
//! to it, and what a broadcast comes to.

use tokio::net::TcpStream;
use tokio::sync::mpsc::UnboundedSender;
use tokio::task::JoinHandle;
use tokio_tungstenite::WebSocketStream;
use vstd::prelude::*;

use crate::connection::{accepted, channel_id};
use crate::connection_id::{ConnectionId, ConnectionKey};
use crate::error::NetworkError;
use crate::laws::{have_not_key, law_new_clients_leave_others};
use crate::packet::{frame_of, NetworkPacket, PacketView};
use crate::state::{keys_of, lemma_keys_push, ServerState};
use crate::steps::{
    clients_of, enters_key, is_run, keep_connection, leads_to, lemma_ended_is_reported,
    removes_key, Step,
};
use crate::tasks::{sends_on, SendAction, SendEvent};

verus! {

/// The frames of packets, in their order. Those that have none are left out.
pub open spec fn frames_of(packets: Seq<PacketView>) -> Seq<Seq<u8>>
    decreases packets.len(),
{
    if packets.len() == 0 {
        Seq::empty()
    } else {
        match frame_of(packets.last()) {
            Some(frame) => frames_of(packets.drop_last()).push(frame),
            None => frames_of(packets.drop_last()),
        }
    }
}

/// The packets that a task was given to write, in their order.
pub open spec fn packets_given(events: Seq<SendEvent>) -> Seq<PacketView>
    decreases events.len(),
{
    if events.len() == 0 {
        Seq::empty()
    } else {
        match events.last() {
            SendEvent::Packet(packet) => packets_given(events.drop_last()).push(packet@),
            _ => packets_given(events.drop_last()),
        }
    }
}

/// The frames that a task was told to write, in their order.
pub open spec fn frames_written(actions: Seq<SendAction>) -> Seq<Seq<u8>>
    decreases actions.len(),
{
    if actions.len() == 0 {
        Seq::empty()
    } else {
        match actions.last() {
            SendAction::Write(bytes) => frames_written(actions.drop_last()).push(bytes@),
            _ => frames_written(actions.drop_last()),
        }
    }
}

/// What can happen to a task that writes to a client and does what it was told.
pub open spec fn can_follow(action: SendAction, event: SendEvent) -> bool {
    match action {
        SendAction::Write(_) => event is Written || event is WriteFailed,
        SendAction::Next => event is Packet || event is Closed,
        SendAction::Stop => false,
    }
}

/// A run of the task that writes to a client: it waits for a packet, and then does what it is told
/// after each thing that happens.
pub open spec fn is_writing(events: Seq<SendEvent>, actions: Seq<SendAction>) -> bool {
    &&& events.len() == actions.len()
    &&& forall|i: int| 0 <= i < events.len() ==> sends_on(#[trigger] events[i], actions[i])
    &&& forall|i: int|
        0 <= i < events.len() ==> can_follow(
            if i == 0 {
                SendAction::Next
            } else {
                actions[i - 1]
            },
            #[trigger] events[i],
        )
}

/// The start of a run is a run.
proof fn lemma_start_is_writing(events: Seq<SendEvent>, actions: Seq<SendAction>)
    requires
        is_writing(events, actions),
        events.len() > 0,
    ensures
        is_writing(events.drop_last(), actions.drop_last()),
{
    let first = events.drop_last();
    assert forall|i: int| 0 <= i < first.len() implies sends_on(
        #[trigger] first[i],
        actions.drop_last()[i],
    ) by {
        assert(first[i] == events[i]);
    }
    assert forall|i: int| 0 <= i < first.len() implies can_follow(
        if i == 0 {
            SendAction::Next
        } else {
            actions.drop_last()[i - 1]
        },
        #[trigger] first[i],
    ) by {
        assert(first[i] == events[i]);
    }
}

/// The task that writes to a client writes the frames of the packets that it is given, each once
/// and in their order. Packets that cannot be encoded are left out, and after a failed write
/// nothing more is written.
pub proof fn law_packets_are_written_in_order(events: Seq<SendEvent>, actions: Seq<SendAction>)
    requires
        is_writing(events, actions),
    ensures
        frames_written(actions) == frames_of(packets_given(events)),
        forall|i: int|
            0 <= i < events.len() && (#[trigger] events[i]) is WriteFailed ==> i == events.len() - 1
                && actions[i] is Stop,
    decreases events.len(),
{
    if events.len() > 0 {
        let last = events.len() - 1;
        lemma_start_is_writing(events, actions);
        law_packets_are_written_in_order(events.drop_last(), actions.drop_last());
        assert(sends_on(events[last], actions[last]));
        if let SendEvent::Packet(packet) = events[last] {
            let given = packets_given(events);
            assert(given.drop_last() == packets_given(events.drop_last()));
        }
        assert forall|i: int| 0 <= i < events.len() && (#[trigger] events[i]) is WriteFailed implies i
            == last && actions[i] is Stop by {
            assert(sends_on(events[i], actions[i]));
            if i < last {
                assert(can_follow(actions[i + 1 - 1], events[i + 1]));
            }
        }
    }
}

/// The frames of two lists of packets, one behind the other.
proof fn lemma_frames_of_both(first: Seq<PacketView>, second: Seq<PacketView>)
    ensures
        frames_of(first + second) == frames_of(first) + frames_of(second),
    decreases second.len(),
{
    let both = first + second;
    if second.len() == 0 {
        assert(both == first);
    } else {
        lemma_frames_of_both(first, second.drop_last());
        assert(both.drop_last() == first + second.drop_last());
        assert(both.last() == second.last());
    }
}

/// The packet that a step hands to the channel of a client, where there is one and the channel takes
/// it.
pub open spec fn packet_for<F>(step: Step<F>, key: ConnectionKey) -> Seq<PacketView> {
    match step {
        Step::Send { id, packet, sent } => if id@.key() == key && sent is Ok {
            seq![packet]
        } else {
            Seq::empty()
        },
        Step::Broadcast { packet, missed } => if keys_of(missed).contains(key) {
            Seq::empty()
        } else {
            seq![packet]
        },
        _ => Seq::empty(),
    }
}

/// The packets that some steps hand to the channel of a client, in their order.
pub open spec fn packets_for<F>(steps: Seq<Step<F>>, key: ConnectionKey) -> Seq<PacketView>
    decreases steps.len(),
{
    if steps.len() == 0 {
        Seq::empty()
    } else {
        packets_for(steps.drop_last(), key) + packet_for(steps.last(), key)
    }
}

/// A step that leaves the connection of a client in its place hands nothing to its channel but what
/// is sent to it.
proof fn lemma_step_for_client<
    F: Fn(ConnectionId, WebSocketStream<TcpStream>) -> (
        JoinHandle<()>,
        JoinHandle<()>,
        UnboundedSender<NetworkPacket>,
    ),
>(before: ServerState, step: Step<F>, after: ServerState, key: ConnectionKey)
    requires
        leads_to(before, step, after),
        before.connections.contains_key(key),
        !removes_key(step, key),
        !enters_key(step, key),
    ensures
        after.connections.contains_key(key),
        channel_id(after.connections[key].send_message) == channel_id(
            before.connections[key].send_message,
        ),
        accepted(after.connections[key].send_message) == accepted(
            before.connections[key].send_message,
        ) + packet_for(step, key),
{
    let taken = accepted(before.connections[key].send_message);
    assert(taken + Seq::<PacketView>::empty() == taken);
    match step {
        Step::Send { packet, .. } => {
            assert(taken + seq![packet] == taken.push(packet));
        },
        Step::Broadcast { packet, missed } => {
            assert(after.connections.dom().contains(key));
            assert(taken + seq![packet] == taken.push(packet));
        },
        Step::Frame { clients, .. } => {
            assert(have_not_key(clients, key)) by {
                assert forall|i: int| 0 <= i < clients.len() && (#[trigger] clients[i]) is Some implies clients[i]->0.id@.key()
                    != key by {
                    assert(clients_of(step)[i] is Some);
                }
            }
            law_new_clients_leave_others(before.connections, clients, key);
            if keys_of(before.disconnected).contains(key) {
                lemma_ended_is_reported(before, step, after, key);
            }
        },
        Step::Enter { client, .. } => {
            assert(clients_of(step)[0] == Some(client));
        },
        _ => {},
    }
}

/// Whatever is done to a server while a client stays connected, the channel of the client takes the
/// packets that are sent to it, be it alone or with others, in their order and nothing else.
pub proof fn law_channel_takes_what_is_sent<
    F: Fn(ConnectionId, WebSocketStream<TcpStream>) -> (
        JoinHandle<()>,
        JoinHandle<()>,
        UnboundedSender<NetworkPacket>,
    ),
>(states: Seq<ServerState>, steps: Seq<Step<F>>, key: ConnectionKey)
    requires
        is_run(states, steps),
        states[0].connections.contains_key(key),
        keep_connection(steps, key),
    ensures
        states.last().connections.contains_key(key),
        channel_id(states.last().connections[key].send_message) == channel_id(
            states[0].connections[key].send_message,
        ),
        accepted(states.last().connections[key].send_message) == accepted(
            states[0].connections[key].send_message,
        ) + packets_for(steps, key),
    decreases steps.len(),
{
    let start = accepted(states[0].connections[key].send_message);
    if steps.len() == 0 {
        assert(start + packets_for(steps, key) == start);
    } else {
        let n = steps.len() - 1;
        let rest = steps.drop_last();
        let earlier = states.drop_last();
        assert forall|i: int| 0 <= i < rest.len() implies leads_to(
            earlier[i],
            #[trigger] rest[i],
            earlier[i + 1],
        ) by {
            assert(rest[i] == steps[i]);
        }
        assert forall|i: int| 0 <= i < rest.len() implies !removes_key(#[trigger] rest[i], key)
            && !enters_key(rest[i], key) by {
            assert(rest[i] == steps[i]);
        }
        law_channel_takes_what_is_sent(earlier, rest, key);
        assert(leads_to(states[n], steps[n], states[n + 1]));
        lemma_step_for_client(states[n], steps[n], states[n + 1], key);
        assert((start + packets_for(rest, key)) + packet_for(steps[n], key) == start + packets_for(
            steps,
            key,
        ));
    }
}

/// Reliable and ordered: whatever else is done to a server while a client stays connected, the
/// packets that are sent to the client are written to it, once its task has got all that its channel
/// took. Each is written once, none is missing, and they keep their order, behind what was sent
/// before. Only packets that cannot be encoded are left out.
pub proof fn law_sent_packets_are_written_in_order<
    F: Fn(ConnectionId, WebSocketStream<TcpStream>) -> (
        JoinHandle<()>,
        JoinHandle<()>,
        UnboundedSender<NetworkPacket>,
    ),
>(
    states: Seq<ServerState>,
    steps: Seq<Step<F>>,
    key: ConnectionKey,
    events: Seq<SendEvent>,
    actions: Seq<SendAction>,
)
    requires
        is_run(states, steps),
        states[0].connections.contains_key(key),
        keep_connection(steps, key),
        is_writing(events, actions),
        packets_given(events) == accepted(states.last().connections[key].send_message),
    ensures
        frames_written(actions) == frames_of(accepted(states[0].connections[key].send_message))
            + frames_of(packets_for(steps, key)),
{
    law_channel_takes_what_is_sent(states, steps, key);
    law_packets_are_written_in_order(events, actions);
    lemma_frames_of_both(
        accepted(states[0].connections[key].send_message),
        packets_for(steps, key),
    );
}

/// Sending one packet to several clients, one after the other.
pub open spec fn is_sent_to_each(
    states: Seq<ServerState>,
    ids: Seq<ConnectionId>,
    packet: PacketView,
    sent: Seq<Result<(), NetworkError>>,
) -> bool {
    &&& states.len() == ids.len() + 1
    &&& sent.len() == ids.len()
    &&& forall|i: int|
        0 <= i < ids.len() ==> states[i].sends(states[i + 1], #[trigger] ids[i], packet, sent[i])
}

/// Those clients to which a packet could not be sent.
pub open spec fn refused(
    ids: Seq<ConnectionId>,
    sent: Seq<Result<(), NetworkError>>,
) -> Seq<ConnectionId>
    decreases ids.len(),
{
    if ids.len() == 0 {
        Seq::empty()
    } else if sent.last() is Ok {
        refused(ids.drop_last(), sent.drop_last())
    } else {
        refused(ids.drop_last(), sent.drop_last()).push(ids.last())
    }
}

/// Which keys are those of clients to which a packet could not be sent.
proof fn lemma_refused(ids: Seq<ConnectionId>, sent: Seq<Result<(), NetworkError>>)
    requires
        sent.len() == ids.len(),
        keys_of(ids).no_duplicates(),
    ensures
        keys_of(refused(ids, sent)).no_duplicates(),
        forall|key: ConnectionKey| #[trigger]
            keys_of(refused(ids, sent)).contains(key) ==> keys_of(ids).contains(key),
        forall|i: int|
            0 <= i < ids.len() ==> (keys_of(refused(ids, sent)).contains(
                (#[trigger] ids[i])@.key(),
            ) <==> sent[i] is Err),
    decreases ids.len(),
{
    if ids.len() > 0 {
        let last = ids.len() - 1;
        let rest = ids.drop_last();
        let others = refused(rest, sent.drop_last());
        assert(keys_of(rest) == keys_of(ids).drop_last());
        assert(rest.push(ids.last()) == ids);
        lemma_refused(rest, sent.drop_last());
        lemma_keys_push(rest, ids.last());
        lemma_keys_push(others, ids.last());
        assert(!keys_of(rest).contains(ids.last()@.key())) by {
            if keys_of(rest).contains(ids.last()@.key()) {
                let keys = keys_of(rest);
                let j = choose|j: int| 0 <= j < keys.len() && keys[j] == ids.last()@.key();
                assert(keys_of(ids)[j] == keys_of(ids)[last]);
            }
        }
        assert forall|i: int| 0 <= i < ids.len() implies (keys_of(refused(ids, sent)).contains(
            (#[trigger] ids[i])@.key(),
        ) <==> sent[i] is Err) by {
            if i < last {
                assert(rest[i] == ids[i]);
                assert(keys_of(ids)[i] != keys_of(ids)[last]);
            }
        }
    }
}

/// The state after the first `n` clients were sent a packet: those have got it or refused it, and
/// the others are as they were.
proof fn lemma_first_clients_are_sent_to(
    states: Seq<ServerState>,
    ids: Seq<ConnectionId>,
    packet: PacketView,
    sent: Seq<Result<(), NetworkError>>,
    n: int,
)
    requires
        is_sent_to_each(states, ids, packet, sent),
        keys_of(ids).no_duplicates(),
        forall|i: int| 0 <= i < ids.len() ==> states[0].has(#[trigger] ids[i]),
        0 <= n <= ids.len(),
    ensures
        states[n] == (ServerState { connections: states[n].connections, ..states[0] }),
        states[n].connections.dom() == states[0].connections.dom(),
        forall|i: int|
            0 <= i < n ==> states[n].connections[(#[trigger] ids[i])@.key()].is_send_of(
                states[0].connections[ids[i]@.key()],
                packet,
                sent[i] is Ok,
            ),
        forall|i: int|
            n <= i < ids.len() ==> states[n].connections[(#[trigger] ids[i])@.key()]
                == states[0].connections[ids[i]@.key()],
    decreases n,
{
    if n > 0 {
        let last = n - 1;
        lemma_first_clients_are_sent_to(states, ids, packet, sent, last);
        assert(states[last].sends(states[last + 1], ids[last], packet, sent[last]));
        assert(states[0].has(ids[last]));
        assert(states[n].connections.dom() == states[0].connections.dom());
        assert forall|i: int| 0 <= i < ids.len() && i != last implies states[n].connections[(
        #[trigger] ids[i])@.key()] == states[last].connections[ids[i]@.key()] by {
            assert(keys_of(ids)[i] != keys_of(ids)[last]);
        }
    }
}

/// Sending a packet to all connected clients, one after the other and in whatever order, leaves
/// what a broadcast may leave, which misses those that could not be sent to.
pub proof fn law_sending_to_each_is_a_broadcast(
    states: Seq<ServerState>,
    ids: Seq<ConnectionId>,
    packet: PacketView,
    sent: Seq<Result<(), NetworkError>>,
)
    requires
        is_sent_to_each(states, ids, packet, sent),
        keys_of(ids).no_duplicates(),
        keys_of(ids).to_set() == states[0].connections.dom(),
    ensures
        states[0].broadcasts(states.last(), packet, refused(ids, sent)),
{
    let before = states[0];
    let after = states.last();
    let missed = refused(ids, sent);
    assert forall|i: int| 0 <= i < ids.len() implies before.has(#[trigger] ids[i]) by {
        assert(keys_of(ids)[i] == ids[i]@.key());
        assert(keys_of(ids).to_set().contains(ids[i]@.key()));
    }
    lemma_first_clients_are_sent_to(states, ids, packet, sent, ids.len() as int);
    lemma_refused(ids, sent);
    assert forall|key: ConnectionKey| #[trigger]
        before.connections.contains_key(key) implies after.connections[key].is_send_of(
        before.connections[key],
        packet,
        !keys_of(missed).contains(key),
    ) by {
        let keys = keys_of(ids);
        assert(keys.to_set().contains(key));
        let i = choose|i: int| 0 <= i < keys.len() && keys[i] == key;
        assert(ids[i]@.key() == key);
    }
    assert forall|key: ConnectionKey| keys_of(missed).to_set().contains(
        key,
    ) implies before.connections.dom().contains(key) by {
        assert(keys_of(ids).to_set().contains(key));
    }
}

/// The state on the way from `before` to `after`, where the first `n` clients were sent to.
spec fn on_the_way(
    before: ServerState,
    after: ServerState,
    ids: Seq<ConnectionId>,
    n: int,
) -> ServerState {
    ServerState {
        connections: Map::new(
            |key: ConnectionKey| before.connections.contains_key(key),
            |key: ConnectionKey|
                if keys_of(ids).take(n).contains(key) {
                    after.connections[key]
                } else {
                    before.connections[key]
                },
        ),
        ..before
    }
}

/// What sending to a client comes to, where a broadcast misses some clients.
pub open spec fn outcome(missed: Seq<ConnectionId>, id: ConnectionId) -> Result<(), NetworkError> {
    if keys_of(missed).contains(id@.key()) {
        Err(NetworkError::ChannelClosed(id))
    } else {
        Ok(())
    }
}

/// What sending to each of some clients comes to, where a broadcast misses some.
pub open spec fn outcomes(missed: Seq<ConnectionId>, ids: Seq<ConnectionId>) -> Seq<
    Result<(), NetworkError>,
> {
    ids.map_values(|id: ConnectionId| outcome(missed, id))
}

/// One more client is sent to.
proof fn lemma_one_more_client(
    before: ServerState,
    after: ServerState,
    packet: PacketView,
    missed: Seq<ConnectionId>,
    ids: Seq<ConnectionId>,
    i: int,
)
    requires
        before.broadcasts(after, packet, missed),
        keys_of(ids).no_duplicates(),
        keys_of(ids).to_set() == before.connections.dom(),
        0 <= i < ids.len(),
    ensures
        on_the_way(before, after, ids, i).sends(
            on_the_way(before, after, ids, i + 1),
            ids[i],
            packet,
            outcome(missed, ids[i]),
        ),
{
    let keys = keys_of(ids);
    let key = ids[i]@.key();
    let less = keys.take(i);
    let more = keys.take(i + 1);
    let now = on_the_way(before, after, ids, i);
    let next = on_the_way(before, after, ids, i + 1);
    assert(keys[i] == key);
    assert(keys.to_set().contains(key));
    assert(more == less.push(key));
    assert(more[i] == key);
    assert(!less.contains(key)) by {
        if less.contains(key) {
            let j = choose|j: int| 0 <= j < less.len() && less[j] == key;
            assert(keys[j] == keys[i]);
        }
    }
    assert forall|other: ConnectionKey| other != key implies (#[trigger] more.contains(other)
        <==> less.contains(other)) by {
        if less.contains(other) {
            let j = choose|j: int| 0 <= j < less.len() && less[j] == other;
            assert(more[j] == other);
        }
        if more.contains(other) {
            let j = choose|j: int| 0 <= j < more.len() && more[j] == other;
            assert(less[j] == other);
        }
    }
    assert(before.connections.contains_key(key));
    assert(now.connections.contains_key(key));
    assert(next.connections == now.connections.insert(key, next.connections[key]));
}

/// A broadcast leaves what sending the packet to all connected clients leaves, one after the other
/// and in whatever order. It misses those that could not be sent to.
pub proof fn law_broadcast_is_sending_to_each(
    before: ServerState,
    after: ServerState,
    packet: PacketView,
    missed: Seq<ConnectionId>,
    ids: Seq<ConnectionId>,
)
    requires
        before.broadcasts(after, packet, missed),
        keys_of(ids).no_duplicates(),
        keys_of(ids).to_set() == before.connections.dom(),
    ensures
        exists|states: Seq<ServerState>|
            {
                &&& #[trigger] is_sent_to_each(
                    states,
                    ids,
                    packet,
                    outcomes(missed, ids),
                )
                &&& states[0] == before
                &&& states.last() == after
            },
{
    let n = ids.len() as int;
    let sent = outcomes(missed, ids);
    let states = Seq::new((n + 1) as nat, |i: int| on_the_way(before, after, ids, i));
    assert forall|i: int| 0 <= i < n implies states[i].sends(
        states[i + 1],
        #[trigger] ids[i],
        packet,
        sent[i],
    ) by {
        lemma_one_more_client(before, after, packet, missed, ids, i);
    }
    assert(is_sent_to_each(states, ids, packet, sent));
    assert(states[0].connections == before.connections);
    assert(keys_of(ids).take(n) == keys_of(ids));
    assert forall|key: ConnectionKey| before.connections.contains_key(
        key,
    ) implies #[trigger] states.last().connections[key] == after.connections[key] by {
        assert(keys_of(ids).to_set().contains(key));
    }
    assert(states.last().connections == after.connections);
}

} // verus!
