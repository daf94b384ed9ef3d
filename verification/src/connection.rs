//! Connections to clients: those that come in, and those that are established.

use vstd::prelude::*;

use crate::connection_id::ConnectionId;
use crate::packet::{NetworkPacket, PacketView};

verus! {

/// A TCP stream, carried and never looked into.
#[verifier::external_type_specification]
#[verifier::external_body]
pub struct ExTcpStream(tokio::net::TcpStream);

/// A websocket over a stream, carried and never looked into.
#[verifier::external_type_specification]
#[verifier::external_body]
#[verifier::reject_recursive_types(S)]
pub struct ExWebSocketStream<S>(tokio_tungstenite::WebSocketStream<S>);

/// A handle to a task of the runtime.
#[verifier::external_type_specification]
#[verifier::external_body]
#[verifier::reject_recursive_types(T)]
pub struct ExJoinHandle<T>(tokio::task::JoinHandle<T>);

/// How a task of the runtime failed, carried and never looked into.
#[verifier::external_type_specification]
#[verifier::external_body]
pub struct ExJoinError(tokio::task::JoinError);

/// The sending half of an unbounded channel.
#[verifier::external_type_specification]
#[verifier::external_body]
#[verifier::reject_recursive_types(T)]
pub struct ExUnboundedSender<T>(tokio::sync::mpsc::UnboundedSender<T>);

/// The number of the task behind a handle.
pub uninterp spec fn task_id(task: tokio::task::JoinHandle<()>) -> nat;

/// Whether the task behind a handle was told, through this handle, to stop.
pub uninterp spec fn abort_requested(task: tokio::task::JoinHandle<()>) -> bool;

/// The number of the channel behind a sender.
pub uninterp spec fn channel_id(
    sender: tokio::sync::mpsc::UnboundedSender<NetworkPacket>,
) -> nat;

/// The packets that a channel took through this sender, the oldest first.
pub uninterp spec fn accepted(sender: tokio::sync::mpsc::UnboundedSender<NetworkPacket>) -> Seq<
    PacketView,
>;

/// Whether a channel has refused a packet through this sender, which it does once it is closed.
pub uninterp spec fn has_refused(
    sender: tokio::sync::mpsc::UnboundedSender<NetworkPacket>,
) -> bool;

/// Calls `JoinHandle::abort`.
///
/// Believed of it: the task behind the handle, which stays the same, was told to stop. When it
/// does so is up to the runtime.
#[verifier::external_body]
pub(crate) fn abort_task(task: &mut tokio::task::JoinHandle<()>)
    ensures
        task_id(*final(task)) == task_id(*old(task)),
        abort_requested(*final(task)),
{
    task.abort()
}

/// Calls `UnboundedSender::send`, and says whether the channel took the packet.
///
/// Believed of it: the channel stays the same; a packet is taken behind those that were taken
/// before, or it is refused, as the channel is closed. A closed channel stays closed, so one that
/// has refused a packet refuses every later one. When the channel closes is up to the task that
/// reads from it.
#[verifier::external_body]
fn send_packet(
    sender: &mut tokio::sync::mpsc::UnboundedSender<NetworkPacket>,
    packet: NetworkPacket,
) -> (taken: bool)
    ensures
        channel_id(*final(sender)) == channel_id(*old(sender)),
        taken ==> accepted(*final(sender)) == accepted(*old(sender)).push(packet@),
        !taken ==> accepted(*final(sender)) == accepted(*old(sender)),
        taken == !has_refused(*final(sender)),
        has_refused(*old(sender)) ==> !taken,
{
    sender.send(packet).is_ok()
}

/// A websocket that a new client has opened.
#[derive(Debug)]
pub struct NewIncomingConnection {
    pub socket: tokio_tungstenite::WebSocketStream<tokio::net::TcpStream>,
    /// The socket address of the client.
    pub addr: String,
}

impl NewIncomingConnection {
    /// The connection in words.
    pub fn description(&self) -> (text: String)
        ensures
            text@ == "Incoming Connection from "@ + self.addr@,
    {
        let mut text = "Incoming Connection from ".to_owned();
        text.append(self.addr.as_str());
        text
    }
}

/// An established connection to a client.
#[derive(Debug)]
pub struct ClientConnection {
    pub id: ConnectionId,
    /// The task that reads from the client.
    pub receive_task: tokio::task::JoinHandle<()>,
    /// The task that writes to the client.
    pub send_task: tokio::task::JoinHandle<()>,
    /// Where the task that writes to the client gets its packets from.
    pub send_message: tokio::sync::mpsc::UnboundedSender<NetworkPacket>,
    /// The socket address of the client.
    pub addr: String,
}

impl ClientConnection {
    /// Whether both tasks of the connection were told to stop.
    pub open spec fn is_stopped(self) -> bool {
        abort_requested(self.receive_task) && abort_requested(self.send_task)
    }

    /// Whether `self` is the connection `before`, except that its tasks were told to stop.
    pub open spec fn is_stop_of(self, before: ClientConnection) -> bool {
        &&& self.is_stopped()
        &&& task_id(self.receive_task) == task_id(before.receive_task)
        &&& task_id(self.send_task) == task_id(before.send_task)
        &&& self.id == before.id
        &&& self.send_message == before.send_message
        &&& self.addr == before.addr
    }

    /// Whether `self` is the connection `before`, after a packet was handed to its channel, which
    /// took it or refused it. A channel that has refused a packet takes no more.
    pub open spec fn is_send_of(
        self,
        before: ClientConnection,
        packet: PacketView,
        taken: bool,
    ) -> bool {
        &&& self.id == before.id
        &&& self.receive_task == before.receive_task
        &&& self.send_task == before.send_task
        &&& self.addr == before.addr
        &&& channel_id(self.send_message) == channel_id(before.send_message)
        &&& taken ==> accepted(self.send_message) == accepted(before.send_message).push(packet)
        &&& !taken ==> accepted(self.send_message) == accepted(before.send_message)
        &&& taken == !has_refused(self.send_message)
        &&& has_refused(before.send_message) ==> !taken
    }

    /// The connection as it is shown to a programmer: its identity and its socket address.
    pub fn description(&self) -> (text: String)
        ensures
            text@ == "ClientConnection { id: "@ + self.id@.shown() + ", addr: "@ + self.addr@
                + " }"@,
    {
        let mut text = "ClientConnection { id: ".to_owned();
        text.append(self.id.shown().as_str());
        text.append(", addr: ");
        text.append(self.addr.as_str());
        text.append(" }");
        text
    }

    /// Stops both tasks of the connection.
    pub fn stop(self) -> (stopped: ClientConnection)
        ensures
            stopped.is_stop_of(self),
    {
        let mut stopped = self;
        abort_task(&mut stopped.receive_task);
        abort_task(&mut stopped.send_task);
        stopped
    }

    /// Hands a packet to the task that writes to the client, and says whether it was taken.
    pub(crate) fn send(&mut self, packet: NetworkPacket) -> (taken: bool)
        ensures
            final(self).is_send_of(*old(self), packet@, taken),
    {
        send_packet(&mut self.send_message, packet)
    }
}

} // verus!
