# bevy_simple_websockets

A simple websocket based networking plugin for Bevy, with a server whose state and decisions are
verified with Verus.

- `src/` is the verified library. `state.rs` holds the mathematical state of a server and what each
  operation does to it; `steps.rs` puts the operations together to runs; `laws.rs`, `delivery.rs`,
  `history.rs`, and the ends of `packet.rs` and `peer_url.rs`, hold what follows. `peer_url.rs`,
  `connection_id.rs`, `packet.rs`, `connection.rs`, `channel.rs` and `tables.rs` call `url`, `uuid`
  (through `bevy`), `bincode`, `tokio`, `crossbeam-channel` and `dashmap`; what is believed of each
  call stands above it.
- `app/` is the runtime around it: the plugins, the tasks that read and write sockets, and the types
  of messages. The tasks share one server behind a lock, do what it tells them, and tell it what
  happened.
- `tests/` runs the library on concrete values.

A server keeps the order of what it is given: packets go to a client in the order in which they were
sent, and messages of a kind are handed out in the order in which they were received. A client whose
packet exceeds the maximum packet size, or cannot be decoded, is disconnected. A client is reported
as disconnected only after it was reported as connected, and as connected only once, as long as no
pair of UUID and URL is given twice.
