//! Events for the application, received data, and the settings of the network.

use vstd::prelude::*;

use crate::connection_id::ConnectionId;
use crate::error::NetworkError;

verus! {

/// A network event originating from a server.
#[derive(Debug)]
pub enum ServerNetworkEvent {
    /// A new client has connected.
    Connected(ConnectionId),
    /// A client has disconnected.
    Disconnected(ConnectionId),
    /// An error occured while trying to do a network operation.
    Error(NetworkError),
}

/// A network event originating from a client.
#[derive(Debug)]
pub enum ClientNetworkEvent {
    /// Connected to a server.
    Connected,
    /// Disconnected from a server.
    Disconnected,
    /// An error occured while trying to do a network operation.
    Error(NetworkError),
}

/// [`NetworkData`] is what is sent over the bevy event system.
#[derive(Debug)]
pub struct NetworkData<T> {
    source: ConnectionId,
    inner: T,
}

/// The mathematical value of a [`NetworkData`].
pub struct NetworkDataView<T> {
    pub source: ConnectionId,
    pub inner: T,
}

impl<T> View for NetworkData<T> {
    type V = NetworkDataView<T>;

    closed spec fn view(&self) -> NetworkDataView<T> {
        NetworkDataView { source: self.source, inner: self.inner }
    }
}

impl<T> NetworkData<T> {
    /// Data that came from `source`.
    pub fn new(source: ConnectionId, inner: T) -> (data: Self)
        ensures
            data@ == (NetworkDataView { source, inner }),
    {
        Self { source, inner }
    }

    /// The source of this network data.
    pub fn source(&self) -> (source: ConnectionId)
        ensures
            source == self@.source,
    {
        self.source.clone()
    }

    /// Get the inner data out of it.
    pub fn into_inner(self) -> (inner: T)
        ensures
            inner == self@.inner,
    {
        self.inner
    }
}

impl<T> core::ops::Deref for NetworkData<T> {
    type Target = T;

    /// The inner data.
    fn deref(&self) -> (inner: &T)
        ensures
            *inner == self@.inner,
    {
        &self.inner
    }
}

/// The mathematical values of some data.
pub open spec fn data_views<T>(data: Seq<NetworkData<T>>) -> Seq<NetworkDataView<T>> {
    data.map_values(|data: NetworkData<T>| data@)
}

/// What becomes of decoded messages: those that decoded to the wanted type, in their order, each
/// with its source. The others are left out.
pub open spec fn decoded_data<T>(messages: Seq<(ConnectionId, Option<T>)>) -> Seq<
    NetworkDataView<T>,
>
    decreases messages.len(),
{
    if messages.len() == 0 {
        Seq::empty()
    } else {
        let (source, message) = messages.last();
        match message {
            Some(inner) => decoded_data(messages.drop_last()).push(NetworkDataView { source, inner }),
            None => decoded_data(messages.drop_last()),
        }
    }
}

/// The data to send over the event system for messages that were decoded to the type `T`, or could
/// not be.
pub fn decoded_events<T>(messages: Vec<(ConnectionId, Option<T>)>) -> (events: Vec<
    NetworkData<T>,
>)
    ensures
        data_views(events@) == decoded_data(messages@),
{
    let mut events: Vec<NetworkData<T>> = Vec::new();
    let ghost all = messages@;
    assert(data_views(events@) == decoded_data(all.take(0)));
    for item in iter: messages
        invariant
            iter.seq() == all,
            data_views(events@) == decoded_data(
                all.take(iter.index() as int),
            ),
    {
        let ghost i = iter.index();
        assert(all.take(i + 1).drop_last() == all.take(i as int));
        assert(all.take(i + 1).last() == item);
        let (source, message) = item;
        if let Some(inner) = message {
            let data = NetworkData::new(source, inner);
            let ghost before = events@;
            events.push(data);
            assert(data_views(events@) == data_views(before).push(data@));
        }
    }
    assert(all.take(all.len() as int) == all);
    events
}

/// Settings to configure the network, both client and server.
#[derive(Debug)]
pub struct NetworkSettings {
    /// Maximum packet size in bytes. If a client ever exceeds this size, they will be disconnected.
    ///
    /// The default is set to 10MiB.
    pub max_packet_length: usize,
}

impl Clone for NetworkSettings {
    fn clone(&self) -> (copy: Self)
        ensures
            copy == *self,
    {
        NetworkSettings { max_packet_length: self.max_packet_length }
    }
}

impl Default for NetworkSettings {
    fn default() -> (settings: Self)
        ensures
            settings.max_packet_length == 10 * 1024 * 1024,
    {
        NetworkSettings { max_packet_length: 10 * 1024 * 1024 }
    }
}

} // verus!
