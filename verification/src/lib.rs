//! Websocket based networking for Bevy: the state of a server, and its decisions.
//!
//! A server keeps its established connections and the messages that wait for each registered kind.
//! Tasks listen for new clients, read from each client and write to it; between two things that
//! happen to a task, the server decides what the task does next. Once in each frame of the
//! application, the server turns what the tasks have reported into events.
//!
//! - [`connection_id`] and [`peer_url`]: who is at the other end of a connection.
//! - [`packet`]: packets and their form on the wire.
//! - [`connection`], [`channel`] and [`tables`]: what a server keeps.
//! - [`state`]: the mathematical state of a server, and what each operation does to it.
//! - [`server`], [`tasks`] and [`frame`]: the operations.
//! - [`event`] and [`error`]: what the application gets to see.
//! - [`steps`]: the operations as steps of a run.
//! - [`promises`] and [`forms`]: what each operation promises, and the forms of what it works on.
//! - [`laws`], [`delivery`] and [`history`]: what holds across the operations.

pub mod channel;
pub mod connection;
pub mod connection_id;
pub mod decimal;
pub mod delivery;
pub mod error;
pub mod event;
pub mod forms;
pub mod frame;
pub mod history;
pub mod laws;
pub mod packet;
pub mod peer_url;
pub mod promises;
pub mod quote;
pub mod server;
pub mod state;
pub mod steps;
pub mod tables;
pub mod tasks;

pub use connection::{ClientConnection, NewIncomingConnection};
pub use connection_id::ConnectionId;
pub use error::NetworkError;
pub use event::{ClientNetworkEvent, NetworkData, NetworkSettings, ServerNetworkEvent};
pub use frame::{enter_client, handle_new_incoming_connections, register_server_message};
pub use packet::{NetworkPacket, Payload};
pub use peer_url::{Address, Host, PeerUrl};
pub use server::NetworkServer;
