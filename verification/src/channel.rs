//! The channels on which the tasks of a server leave their news until the next frame.

use vstd::prelude::*;

use crate::connection::NewIncomingConnection;
use crate::connection_id::ConnectionId;
use crate::error::NetworkError;

verus! {

/// The sending half of a channel.
#[verifier::external_type_specification]
#[verifier::external_body]
#[verifier::reject_recursive_types(T)]
pub struct ExSender<T>(crossbeam_channel::Sender<T>);

/// The receiving half of a channel.
#[verifier::external_type_specification]
#[verifier::external_body]
#[verifier::reject_recursive_types(T)]
pub struct ExReceiver<T>(crossbeam_channel::Receiver<T>);

/// News for the next frame.
#[derive(Debug)]
pub enum Notice {
    /// A client has connected, or failed to.
    Incoming(Result<NewIncomingConnection, NetworkError>),
    /// A connection has ended.
    Ended(ConnectionId),
    /// An operation has failed.
    Failed(NetworkError),
}

/// What was sent on a channel and not yet received, the oldest first.
pub uninterp spec fn waiting(receiver: crossbeam_channel::Receiver<Notice>) -> Seq<Notice>;

/// Whether the two halves are those of one channel.
pub uninterp spec fn connected(
    sender: crossbeam_channel::Sender<Notice>,
    receiver: crossbeam_channel::Receiver<Notice>,
) -> bool;

/// Both halves of an unbounded channel.
#[derive(Debug)]
pub struct SyncChannel {
    sender: crossbeam_channel::Sender<Notice>,
    receiver: crossbeam_channel::Receiver<Notice>,
}

impl View for SyncChannel {
    type V = Seq<Notice>;

    closed spec fn view(&self) -> Seq<Notice> {
        waiting(self.receiver)
    }
}

/// Calls `crossbeam_channel::unbounded`.
///
/// Believed of it: the two halves belong to one channel, on which nothing waits.
#[verifier::external_body]
fn unbounded() -> (halves: (
    crossbeam_channel::Sender<Notice>,
    crossbeam_channel::Receiver<Notice>,
))
    ensures
        connected(halves.0, halves.1),
        waiting(halves.1) == Seq::<Notice>::empty(),
{
    crossbeam_channel::unbounded()
}

/// Calls `Sender::send` on a channel of which both halves are at hand, and says whether the
/// notice was sent.
///
/// Believed of it: as the receiving half exists, the notice is sent, and waits behind all others.
#[verifier::external_body]
fn send_notice(channel: &mut SyncChannel, notice: Notice) -> (sent: bool)
    requires
        connected(old(channel).sender, old(channel).receiver),
    ensures
        sent,
        connected(final(channel).sender, final(channel).receiver),
        waiting(final(channel).receiver) == waiting(old(channel).receiver).push(notice),
{
    channel.sender.send(notice).is_ok()
}

/// Calls `Receiver::try_recv`.
///
/// Believed of it: what has waited longest is received; where nothing waits, nothing is.
#[verifier::external_body]
fn receive_notice(channel: &mut SyncChannel) -> (notice: Option<Notice>)
    requires
        connected(old(channel).sender, old(channel).receiver),
    ensures
        connected(final(channel).sender, final(channel).receiver),
        waiting(old(channel).receiver).len() == 0 ==> notice is None && waiting(
            final(channel).receiver,
        ) == waiting(old(channel).receiver),
        waiting(old(channel).receiver).len() > 0 ==> notice == Some(
            waiting(old(channel).receiver)[0],
        ) && waiting(final(channel).receiver) == waiting(old(channel).receiver).drop_first(),
{
    channel.receiver.try_recv().ok()
}

impl SyncChannel {
    /// Whether the two halves belong together.
    pub closed spec fn wf(self) -> bool {
        connected(self.sender, self.receiver)
    }

    /// A channel on which nothing waits.
    pub fn new() -> (channel: SyncChannel)
        ensures
            channel.wf(),
            channel@ == Seq::<Notice>::empty(),
    {
        let (sender, receiver) = unbounded();
        SyncChannel { sender, receiver }
    }

    /// Sends a notice, and says whether the channel took it. It always does: its receiving half is
    /// at hand.
    pub fn send(&mut self, notice: Notice) -> (sent: bool)
        requires
            old(self).wf(),
        ensures
            sent,
            final(self).wf(),
            final(self)@ == old(self)@.push(notice),
    {
        send_notice(self, notice)
    }

    /// Receives the notice that has waited longest, where there is one.
    pub fn try_recv(&mut self) -> (notice: Option<Notice>)
        requires
            old(self).wf(),
        ensures
            final(self).wf(),
            old(self)@.len() == 0 ==> notice is None && final(self)@ == old(self)@,
            old(self)@.len() > 0 ==> notice == Some(old(self)@[0]) && final(self)@ == old(
                self,
            )@.drop_first(),
    {
        receive_notice(self)
    }
}

} // verus!
