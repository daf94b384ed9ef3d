use bevy_simple_websockets::connection::ClientConnection;
use bevy_simple_websockets::state::Stopped;
use bevy_simple_websockets::tasks::{
    send_step, ListenAction, ListenEvent, ReceiveAction, ReceiveEvent, SendAction, SendEvent,
};
use bevy_simple_websockets::{
    handle_new_incoming_connections, register_server_message, ConnectionId, NetworkError, NetworkPacket, NetworkServer,
    NetworkSettings, Payload, ServerNetworkEvent,
};
use tokio::net::TcpStream;
use tokio::runtime::Runtime;
use tokio::sync::mpsc::{unbounded_channel, UnboundedReceiver, UnboundedSender};
use tokio::task::JoinHandle;
use tokio_tungstenite::WebSocketStream;

/// A runtime with a server.
struct Fixture {
    runtime: Runtime,
    server: NetworkServer,
    settings: NetworkSettings,
}

fn fixture() -> Fixture {
    let runtime = tokio::runtime::Builder::new_multi_thread().worker_threads(1).build().unwrap();
    Fixture { runtime, server: NetworkServer::new(), settings: NetworkSettings::default() }
}

/// A task that never ends by itself.
fn endless(runtime: &Runtime) -> JoinHandle<()> {
    runtime.spawn(std::future::pending::<()>())
}

impl Fixture {
    /// Enters a client, and gives its identity and what its task would write.
    fn establish(&mut self, addr: &str) -> (ConnectionId, UnboundedReceiver<NetworkPacket>) {
        let id = ConnectionId::client(addr);
        let (send_message, packets) = unbounded_channel();
        self.server.establish(ClientConnection {
            id: id.clone(),
            receive_task: endless(&self.runtime),
            send_task: endless(&self.runtime),
            send_message,
            addr: String::from(addr),
        });
        (id, packets)
    }

    /// Handles a frame in which no client has connected.
    fn frame(&mut self) -> Vec<ServerNetworkEvent> {
        let runtime = &self.runtime;
        let spawn = |_id: ConnectionId, _socket: WebSocketStream<TcpStream>| {
            let (sender, _receiver): (UnboundedSender<NetworkPacket>, _) = unbounded_channel();
            (endless(runtime), endless(runtime), sender)
        };
        handle_new_incoming_connections(&mut self.server, spawn)
    }

    fn listen(&mut self) -> Option<Stopped> {
        let runtime = &self.runtime;
        self.server.listen(|| endless(runtime)).unwrap()
    }

    fn receive(&mut self, id: &ConnectionId, event: ReceiveEvent) -> ReceiveAction {
        self.server.receive_step(&self.settings, id, event)
    }

    /// Waits for a task to end, and says whether it was cancelled.
    fn cancelled(&self, task: JoinHandle<()>) -> bool {
        match self.runtime.block_on(task) {
            Ok(()) => false,
            Err(error) => error.is_cancelled(),
        }
    }
}

fn encoded(data: &[u8]) -> Payload {
    Payload::Encoded(data.to_vec())
}

fn packet(kind: &str, data: &[u8]) -> NetworkPacket {
    NetworkPacket { kind: String::from(kind), data: encoded(data) }
}

fn io_error(text: &str) -> std::io::Error {
    std::io::Error::new(std::io::ErrorKind::Other, text)
}

fn disconnected_id(event: &ServerNetworkEvent) -> ConnectionId {
    match event {
        ServerNetworkEvent::Disconnected(id) => id.clone(),
        other => panic!("{:?}", other),
    }
}

#[test]
fn connected_clients_are_counted() {
    let mut f = fixture();
    assert_eq!(f.server.description(), "NetworkServer [0 Connected Clients]");
    for port in 1..=12 {
        f.establish(&format!("10.0.0.1:{}", port));
    }
    assert_eq!(f.server.description(), "NetworkServer [12 Connected Clients]");
}

#[test]
fn messages_reach_one_client_in_order() {
    let mut f = fixture();
    let (first, mut to_first) = f.establish("10.0.0.1:5001");
    let (_second, mut to_second) = f.establish("10.0.0.2:5002");
    assert!(f.server.send_message(first.clone(), "a", encoded(&[1])).is_ok());
    assert!(f.server.send_message(first.clone(), "b", Payload::Unencodable).is_ok());
    assert_eq!(to_first.try_recv().unwrap(), packet("a", &[1]));
    assert_eq!(
        to_first.try_recv().unwrap(),
        NetworkPacket { kind: String::from("b"), data: Payload::Unencodable }
    );
    assert!(to_first.try_recv().is_err());
    assert!(to_second.try_recv().is_err());
}

#[test]
fn a_message_to_an_unknown_client_is_refused() {
    let mut f = fixture();
    f.establish("10.0.0.1:5001");
    let stranger = ConnectionId::client("10.0.0.1:5001");
    match f.server.send_message(stranger.clone(), "a", encoded(&[1])) {
        Err(NetworkError::ConnectionNotFound(id)) => assert_eq!(id, stranger),
        other => panic!("{:?}", other),
    }
}

#[test]
fn a_message_to_a_closed_channel_is_refused() {
    let mut f = fixture();
    let (id, packets) = f.establish("10.0.0.1:5001");
    drop(packets);
    match f.server.send_message(id.clone(), "a", encoded(&[1])) {
        Err(NetworkError::ChannelClosed(closed)) => assert_eq!(closed, id),
        other => panic!("{:?}", other),
    }
    assert_eq!(f.server.description(), "NetworkServer [1 Connected Clients]");
}

#[test]
fn a_closed_channel_stays_closed() {
    let mut f = fixture();
    let (id, packets) = f.establish("10.0.0.1:5001");
    assert!(f.server.send_message(id.clone(), "a", encoded(&[1])).is_ok());
    drop(packets);
    for _ in 0..2 {
        match f.server.send_message(id.clone(), "a", encoded(&[2])) {
            Err(NetworkError::ChannelClosed(closed)) => assert_eq!(closed, id),
            other => panic!("{:?}", other),
        }
    }
    assert_eq!(f.server.broadcast("news", encoded(&[3])), vec![id]);
}

#[test]
fn the_outcome_of_a_send_follows_the_channel() {
    let id = ConnectionId::server(None);
    assert!(bevy_simple_websockets::server::send_outcome(id.clone(), true).is_ok());
    match bevy_simple_websockets::server::send_outcome(id.clone(), false) {
        Err(NetworkError::ChannelClosed(closed)) => assert_eq!(closed, id),
        other => panic!("{:?}", other),
    }
}

#[test]
fn a_broadcast_reaches_every_open_channel() {
    let mut f = fixture();
    let (_first, mut to_first) = f.establish("10.0.0.1:5001");
    let (second, to_second) = f.establish("10.0.0.2:5002");
    let (_third, mut to_third) = f.establish("10.0.0.3:5003");
    drop(to_second);
    let missed = f.server.broadcast("news", encoded(&[7, 8]));
    assert_eq!(missed, vec![second]);
    assert_eq!(to_first.try_recv().unwrap(), packet("news", &[7, 8]));
    assert!(to_first.try_recv().is_err());
    assert_eq!(to_third.try_recv().unwrap(), packet("news", &[7, 8]));
    assert_eq!(f.server.description(), "NetworkServer [3 Connected Clients]");
}

#[test]
fn a_broadcast_to_nobody_misses_nobody() {
    let mut f = fixture();
    assert!(f.server.broadcast("news", encoded(&[1])).is_empty());
}

#[test]
fn disconnecting_stops_both_tasks() {
    let mut f = fixture();
    let (id, mut packets) = f.establish("10.0.0.1:5001");
    let (other, mut other_packets) = f.establish("10.0.0.2:5002");
    let closed = f.server.disconnect(id.clone()).unwrap();
    assert_eq!(closed.id, id);
    assert_eq!(closed.addr, "10.0.0.1:5001");
    assert!(f.cancelled(closed.receive_task));
    assert!(f.cancelled(closed.send_task));
    drop(closed.send_message);
    assert!(packets.try_recv().is_err());
    match f.server.disconnect(id.clone()) {
        Err(NetworkError::ConnectionNotFound(unknown)) => assert_eq!(unknown, id),
        other => panic!("{:?}", other),
    }
    match f.server.send_message(id.clone(), "a", encoded(&[1])) {
        Err(NetworkError::ConnectionNotFound(unknown)) => assert_eq!(unknown, id),
        other => panic!("{:?}", other),
    }
    assert!(f.server.send_message(other, "a", encoded(&[1])).is_ok());
    assert_eq!(other_packets.try_recv().unwrap(), packet("a", &[1]));
    assert!(f.frame().is_empty());
}

#[test]
fn stopping_disconnects_all_clients() {
    let mut f = fixture();
    assert!(f.listen().is_none());
    f.server.listen_for_server_message("a");
    let (first, _to_first) = f.establish("10.0.0.1:5001");
    let (second, _to_second) = f.establish("10.0.0.2:5002");
    f.server.listen_step(ListenEvent::AcceptFailed(io_error("no more")));
    let stopped = f.server.stop().unwrap();
    assert_eq!(stopped.connections.len(), 2);
    assert!(f.cancelled(stopped.listener));
    for connection in stopped.connections {
        assert!(connection.id == first || connection.id == second);
        assert!(f.cancelled(connection.receive_task));
        assert!(f.cancelled(connection.send_task));
    }
    assert_eq!(f.server.description(), "NetworkServer [0 Connected Clients]");
    assert!(!f.server.is_registered("a"));
    let events = f.frame();
    assert_eq!(events.len(), 2);
    let ids = [disconnected_id(&events[0]), disconnected_id(&events[1])];
    assert!(ids.contains(&first));
    assert!(ids.contains(&second));
}

#[test]
fn stopping_twice_is_stopping_once() {
    let mut f = fixture();
    f.listen();
    f.establish("10.0.0.1:5001");
    assert!(f.server.stop().is_some());
    assert!(f.server.stop().is_none());
    assert_eq!(f.frame().len(), 1);
}

#[test]
fn stopping_needs_a_listener() {
    let mut f = fixture();
    f.server.listen_for_server_message("a");
    f.establish("10.0.0.1:5001");
    assert!(f.server.stop().is_none());
    assert_eq!(f.server.description(), "NetworkServer [1 Connected Clients]");
    assert!(f.server.is_registered("a"));
    assert!(f.frame().is_empty());
}

#[test]
fn listening_again_disconnects_first() {
    let mut f = fixture();
    assert!(f.listen().is_none());
    let (id, _packets) = f.establish("10.0.0.1:5001");
    let stopped = f.listen().unwrap();
    assert!(f.cancelled(stopped.listener));
    assert_eq!(stopped.connections[0].id, id);
    assert_eq!(f.server.description(), "NetworkServer [0 Connected Clients]");
    assert!(f.server.stop().is_some());
}

#[test]
fn a_kind_is_listened_for_once_registered() {
    let mut f = fixture();
    assert!(!f.server.is_registered("a"));
    f.server.listen_for_server_message("a");
    assert!(f.server.is_registered("a"));
    assert!(!f.server.is_registered("b"));
}

#[test]
fn messages_are_handed_out_once_in_order() {
    let mut f = fixture();
    let one = ConnectionId::client("10.0.0.1:5001");
    let two = ConnectionId::client("10.0.0.2:5002");
    f.server.listen_for_server_message("a");
    f.server.listen_for_server_message("b");
    for (id, kind, data) in [(&one, "a", 1u8), (&two, "b", 2), (&two, "a", 3), (&one, "a", 4)] {
        match f.receive(id, ReceiveEvent::Decoded { kind: String::from(kind), data: vec![data] }) {
            ReceiveAction::Read { kept } => assert!(kept),
            other => panic!("{:?}", other),
        }
    }
    let taken = f.server.take_messages("a");
    let seen: Vec<(ConnectionId, Vec<u8>)> =
        taken.into_iter().map(|message| (message.source, message.data)).collect();
    assert_eq!(seen, vec![(one.clone(), vec![1]), (two.clone(), vec![3]), (one, vec![4])]);
    assert!(f.server.take_messages("a").is_empty());
    assert_eq!(f.server.take_messages("b").len(), 1);
    assert!(f.server.take_messages("c").is_empty());
}

#[test]
fn messages_become_data_of_their_type() {
    let mut f = fixture();
    let one = ConnectionId::client("10.0.0.1:5001");
    let two = ConnectionId::client("10.0.0.2:5002");
    f.server.listen_for_server_message("a");
    for (id, data) in [(&one, vec![1u8, 0]), (&two, vec![9]), (&two, vec![2, 1])] {
        f.receive(id, ReceiveEvent::Decoded { kind: String::from("a"), data });
    }
    let decode = |data: &Vec<u8>| bincode::deserialize::<u16>(data).ok();
    let events = register_server_message(&mut f.server, "a", decode);
    let seen: Vec<(ConnectionId, u16)> =
        events.into_iter().map(|data| (data.source(), data.into_inner())).collect();
    assert_eq!(seen, vec![(one, 1), (two, 258)]);
    assert!(register_server_message(&mut f.server, "a", decode).is_empty());
    assert!(register_server_message(&mut f.server, "b", decode).is_empty());
}

#[test]
fn a_message_of_another_kind_is_dropped() {
    let mut f = fixture();
    let id = ConnectionId::client("10.0.0.1:5001");
    f.server.listen_for_server_message("a");
    match f.receive(&id, ReceiveEvent::Decoded { kind: String::from("b"), data: vec![1] }) {
        ReceiveAction::Read { kept } => assert!(!kept),
        other => panic!("{:?}", other),
    }
    assert!(f.server.take_messages("a").is_empty());
    assert!(f.server.take_messages("b").is_empty());
    assert!(f.frame().is_empty());
}

#[test]
fn a_frame_with_a_packet_is_decoded() {
    let mut f = fixture();
    let (id, _packets) = f.establish("10.0.0.1:5001");
    let frame = packet("a", &[5, 6]).encode().unwrap();
    match f.receive(&id, ReceiveEvent::Frame(frame)) {
        ReceiveAction::Decode { kind, data } => {
            assert_eq!(kind, "a");
            assert_eq!(data, vec![5, 6]);
        }
        other => panic!("{:?}", other),
    }
    assert!(f.frame().is_empty());
}

#[test]
fn a_packet_of_the_maximum_size_is_accepted_and_a_longer_one_disconnects() {
    let mut f = fixture();
    let (id, _packets) = f.establish("10.0.0.1:5001");
    let frame = packet("a", &[5, 6]).encode().unwrap();
    f.settings.max_packet_length = frame.len();
    assert!(matches!(
        f.receive(&id, ReceiveEvent::Frame(frame.clone())),
        ReceiveAction::Decode { .. }
    ));
    assert!(f.frame().is_empty());
    f.settings.max_packet_length = frame.len() - 1;
    assert!(matches!(f.receive(&id, ReceiveEvent::Frame(frame)), ReceiveAction::Stop));
    let events = f.frame();
    assert_eq!(events.len(), 1);
    assert_eq!(disconnected_id(&events[0]), id);
    assert_eq!(f.server.description(), "NetworkServer [0 Connected Clients]");
}

#[test]
fn whatever_ends_a_connection_is_reported_in_order() {
    let mut f = fixture();
    let (first, _1) = f.establish("10.0.0.1:5001");
    let (second, _2) = f.establish("10.0.0.2:5002");
    let (third, _3) = f.establish("10.0.0.3:5003");
    let (fourth, _4) = f.establish("10.0.0.4:5004");
    assert!(matches!(f.receive(&third, ReceiveEvent::Closed), ReceiveAction::Stop));
    assert!(matches!(f.receive(&first, ReceiveEvent::Failed), ReceiveAction::Stop));
    assert!(matches!(f.receive(&second, ReceiveEvent::Undecodable), ReceiveAction::Stop));
    assert!(matches!(f.receive(&fourth, ReceiveEvent::Frame(vec![1, 2])), ReceiveAction::Stop));
    let ids: Vec<ConnectionId> = f.frame().iter().map(disconnected_id).collect();
    assert_eq!(ids, vec![third, first, second, fourth]);
    assert_eq!(f.server.description(), "NetworkServer [0 Connected Clients]");
    assert!(f.frame().is_empty());
}

#[test]
fn the_listening_task_is_told_what_to_do() {
    let mut f = fixture();
    assert_eq!(f.server.listen_step(ListenEvent::Bound), ListenAction::Accept);
    assert_eq!(f.server.listen_step(ListenEvent::Accepted), ListenAction::Handshake);
    assert_eq!(
        f.server.listen_step(ListenEvent::AcceptFailed(io_error("refused"))),
        ListenAction::Accept
    );
    assert_eq!(
        f.server.listen_step(ListenEvent::HandshakeFailed(tungstenite::Error::ConnectionClosed)),
        ListenAction::Accept
    );
    assert_eq!(
        f.server.listen_step(ListenEvent::BindFailed(io_error("in use"))),
        ListenAction::Stop
    );
}

#[test]
fn failures_to_connect_are_reported_before_ended_connections() {
    let mut f = fixture();
    let (id, _packets) = f.establish("10.0.0.1:5001");
    f.receive(&id, ReceiveEvent::Closed);
    f.server.listen_step(ListenEvent::AcceptFailed(io_error("refused")));
    f.server.listen_step(ListenEvent::HandshakeFailed(tungstenite::Error::ConnectionClosed));
    let events = f.frame();
    assert_eq!(events.len(), 3);
    match &events[0] {
        ServerNetworkEvent::Error(NetworkError::Accept(error)) => {
            assert_eq!(error.to_string(), "refused")
        }
        other => panic!("{:?}", other),
    }
    match &events[1] {
        ServerNetworkEvent::Error(NetworkError::WSAccept(error)) => {
            assert!(matches!(error, tungstenite::Error::ConnectionClosed))
        }
        other => panic!("{:?}", other),
    }
    assert_eq!(disconnected_id(&events[2]), id);
}

#[test]
fn a_failure_to_listen_is_no_event() {
    let mut f = fixture();
    f.server.listen_step(ListenEvent::BindFailed(io_error("in use")));
    assert!(f.frame().is_empty());
}

#[test]
fn a_connection_replaces_one_with_the_same_identity() {
    let mut f = fixture();
    let (id, mut old_packets) = f.establish("10.0.0.1:5001");
    let (send_message, mut packets) = unbounded_channel();
    f.server.establish(ClientConnection {
        id: id.clone(),
        receive_task: endless(&f.runtime),
        send_task: endless(&f.runtime),
        send_message,
        addr: String::from("10.0.0.1:5001"),
    });
    assert_eq!(f.server.description(), "NetworkServer [1 Connected Clients]");
    assert!(f.server.send_message(id, "a", encoded(&[1])).is_ok());
    assert!(old_packets.try_recv().is_err());
    assert_eq!(packets.try_recv().unwrap(), packet("a", &[1]));
}

#[test]
fn a_connection_in_words_is_its_identity_and_its_address() {
    let f = fixture();
    let (send_message, _packets) = unbounded_channel();
    let connection = ClientConnection {
        id: ConnectionId::client_with(0x0011_2233_4455_4677_8899_aabb_ccdd_eeff, "10.0.0.1:5001"),
        receive_task: endless(&f.runtime),
        send_task: endless(&f.runtime),
        send_message,
        addr: String::from("10.0.0.1:5001"),
    };
    assert_eq!(
        connection.description(),
        "ClientConnection { id: ConnectionId { uuid: 00112233-4455-4677-8899-aabbccddeeff, \
         url: Url { scheme: \"ws\", cannot_be_a_base: false, username: \"\", password: None, \
         host: Some(Ipv4(10.0.0.1)), port: Some(5001), path: \"/\", query: None, \
         fragment: None } }, addr: 10.0.0.1:5001 }"
    );
}

#[test]
fn a_broadcast_misses_every_closed_channel_once() {
    let mut f = fixture();
    let (first, to_first) = f.establish("10.0.0.1:5001");
    let (_second, _to_second) = f.establish("10.0.0.2:5002");
    let (third, to_third) = f.establish("10.0.0.3:5003");
    drop(to_first);
    drop(to_third);
    for _ in 0..2 {
        let missed = f.server.broadcast("news", encoded(&[1]));
        assert_eq!(missed.len(), 2);
        assert!(missed.contains(&first));
        assert!(missed.contains(&third));
    }
}

#[test]
fn a_broadcast_leaves_what_sending_to_each_leaves() {
    let mut f = fixture();
    let (first, mut to_first) = f.establish("10.0.0.1:5001");
    let (second, mut to_second) = f.establish("10.0.0.2:5002");
    for id in [&second, &first] {
        assert!(f.server.send_message(id.clone(), "news", encoded(&[1])).is_ok());
    }
    assert!(f.server.broadcast("news", encoded(&[1])).is_empty());
    for packets in [&mut to_first, &mut to_second] {
        assert_eq!(packets.try_recv().unwrap(), packet("news", &[1]));
        assert_eq!(packets.try_recv().unwrap(), packet("news", &[1]));
        assert!(packets.try_recv().is_err());
    }
}

#[test]
fn what_is_sent_is_written_in_order() {
    let mut f = fixture();
    let (id, mut packets) = f.establish("10.0.0.1:5001");
    for data in 1..=3 {
        assert!(f.server.send_message(id.clone(), "a", encoded(&[data])).is_ok());
        assert!(f.server.broadcast("b", encoded(&[data])).is_empty());
    }
    let mut frames: Vec<Vec<u8>> = Vec::new();
    while let Ok(packet) = packets.try_recv() {
        match send_step(SendEvent::Packet(packet)) {
            SendAction::Write(frame) => frames.push(frame),
            other => panic!("{:?}", other),
        }
        assert!(matches!(send_step(SendEvent::Written), SendAction::Next));
    }
    let sent: Vec<Vec<u8>> = [("a", 1), ("b", 1), ("a", 2), ("b", 2), ("a", 3), ("b", 3)]
        .iter()
        .map(|(kind, data)| packet(kind, &[*data]).encode().unwrap())
        .collect();
    assert_eq!(frames, sent);
}

#[test]
fn a_new_client_leaves_the_others_as_they_are() {
    let mut f = fixture();
    let (first, mut to_first) = f.establish("10.0.0.1:5001");
    let (second, mut to_second) = f.establish("10.0.0.1:5001");
    assert!(first != second);
    assert!(!first.is_server() && !second.is_server());
    assert_eq!(f.server.description(), "NetworkServer [2 Connected Clients]");
    assert!(f.server.send_message(first, "a", encoded(&[1])).is_ok());
    assert_eq!(to_first.try_recv().unwrap(), packet("a", &[1]));
    assert!(to_second.try_recv().is_err());
    assert!(f.server.send_message(second, "a", encoded(&[2])).is_ok());
    assert_eq!(to_second.try_recv().unwrap(), packet("a", &[2]));
}

#[test]
fn each_ended_connection_is_reported_in_the_next_frame() {
    let mut f = fixture();
    f.listen();
    let (first, _to_first) = f.establish("10.0.0.1:5001");
    let (second, _to_second) = f.establish("10.0.0.2:5002");
    let (third, _to_third) = f.establish("10.0.0.3:5003");
    assert!(f.frame().is_empty());
    f.receive(&first, ReceiveEvent::Closed);
    assert!(f.server.disconnect(second.clone()).is_ok());
    let ids: Vec<ConnectionId> = f.frame().iter().map(disconnected_id).collect();
    assert_eq!(ids, vec![first]);
    assert!(f.listen().is_some());
    let ids: Vec<ConnectionId> = f.frame().iter().map(disconnected_id).collect();
    assert_eq!(ids, vec![third]);
    assert!(f.server.stop().is_some());
    assert!(f.frame().is_empty());
}

#[test]
fn messages_sent_among_other_work_are_written_in_order() {
    let mut f = fixture();
    let (id, mut packets) = f.establish("10.0.0.1:5001");
    f.server.listen_for_server_message("a");
    assert!(f.server.send_message(id.clone(), "a", encoded(&[1])).is_ok());
    let (other, _to_other) = f.establish("10.0.0.2:5002");
    assert!(f.server.send_message(other.clone(), "a", encoded(&[9])).is_ok());
    f.receive(&other, ReceiveEvent::Closed);
    assert_eq!(f.frame().len(), 1);
    assert!(f.server.send_message(id.clone(), "a", encoded(&[2])).is_ok());
    f.receive(&id, ReceiveEvent::Decoded { kind: String::from("a"), data: vec![3] });
    assert_eq!(f.server.take_messages("a").len(), 1);
    assert!(f.server.broadcast("b", encoded(&[4])).is_empty());
    assert!(f.server.stop().is_none());
    for expected in [packet("a", &[1]), packet("a", &[2]), packet("b", &[4])] {
        assert_eq!(packets.try_recv().unwrap(), expected);
    }
    assert!(packets.try_recv().is_err());
}

#[test]
fn messages_received_among_other_work_are_handed_out_in_order() {
    let mut f = fixture();
    let (id, _packets) = f.establish("10.0.0.1:5001");
    f.server.listen_for_server_message("a");
    let mut seen: Vec<u8> = Vec::new();
    for data in 1..=5 {
        f.receive(&id, ReceiveEvent::Decoded { kind: String::from("a"), data: vec![data] });
        f.receive(&id, ReceiveEvent::Decoded { kind: String::from("b"), data: vec![data] });
        assert!(f.server.send_message(id.clone(), "a", encoded(&[data])).is_ok());
        if data % 2 == 0 {
            seen.extend(f.server.take_messages("a").into_iter().map(|message| message.data[0]));
        }
    }
    assert_eq!(seen, vec![1, 2, 3, 4]);
    assert_eq!(f.server.take_messages("a").len(), 1);
}
