//! The tables of a server: its connections, and the messages that wait for each kind.

use std::collections::hash_map::RandomState;
use dashmap::DashMap;
use vstd::prelude::*;

use crate::connection::ClientConnection;
use crate::connection_id::{ConnectionId, ConnectionKey};

verus! {

/// A concurrent hash map.
#[verifier::external_type_specification]
#[verifier::external_body]
#[verifier::reject_recursive_types(K)]
#[verifier::reject_recursive_types(V)]
#[verifier::reject_recursive_types(S)]
pub struct ExDashMap<K, V, S>(DashMap<K, V, S>);

/// A message as it was received.
#[derive(Debug)]
pub struct ReceivedMessage {
    /// The connection on which it came.
    pub source: ConnectionId,
    /// The encoded message.
    pub data: Vec<u8>,
}

/// The established connections, each under its key.
pub type ConnectionTable = DashMap<(u128, String), ClientConnection>;

/// The messages that were received and not yet taken, for each registered kind.
pub type MessageTable = DashMap<&'static str, Vec<ReceivedMessage>>;

/// What a table of connections holds.
pub uninterp spec fn connections_in(
    table: DashMap<(u128, String), ClientConnection, RandomState>,
) -> Map<ConnectionKey, ClientConnection>;

/// What a table of messages holds.
pub uninterp spec fn messages_in(
    table: DashMap<&'static str, Vec<ReceivedMessage>, RandomState>,
) -> Map<Seq<char>, Seq<ReceivedMessage>>;

/// The mathematical value of a list of keys.
pub open spec fn key_views(keys: Seq<(u128, String)>) -> Seq<ConnectionKey> {
    keys.map_values(|key: (u128, String)| (key.0, key.1@))
}

/// Calls `DashMap::new`.
///
/// Believed of it: the table is empty.
#[verifier::external_body]
pub(crate) fn new_connections() -> (table: ConnectionTable)
    ensures
        (connections_in(table) == Map::<ConnectionKey, ClientConnection>::empty()),
{
    DashMap::new()
}

/// Calls `DashMap::insert` on a table that nothing else uses meanwhile.
///
/// Believed of it: the connection stands under its key, in place of what stood there before, which
/// is returned.
#[verifier::external_body]
pub(crate) fn insert_connection(
    table: &mut ConnectionTable,
    key: (u128, String),
    connection: ClientConnection,
) -> (replaced: Option<ClientConnection>)
    ensures
        connections_in(*final(table)) == connections_in(*old(table)).insert(
            (key.0, key.1@),
            connection,
        ),
        replaced == connections_in(*old(table)).get((key.0, key.1@)),
{
    table.insert(key, connection)
}

/// Calls `DashMap::remove` on a table that nothing else uses meanwhile.
///
/// Believed of it: nothing stands under the key any more, and what stood there is returned.
#[verifier::external_body]
pub(crate) fn remove_connection(table: &mut ConnectionTable, key: &(u128, String)) -> (removed:
    Option<ClientConnection>)
    ensures
        connections_in(*final(table)) == connections_in(*old(table)).remove((key.0, key.1@)),
        removed == connections_in(*old(table)).get((key.0, key.1@)),
{
    table.remove(key).map(|entry| entry.1)
}

/// Calls `DashMap::iter`, and collects the keys.
///
/// Believed of it: every key of the table comes once, and nothing else does. Their order is left
/// open.
#[verifier::external_body]
pub(crate) fn connection_keys(table: &ConnectionTable) -> (keys: Vec<(u128, String)>)
    ensures
        key_views(keys@).no_duplicates(),
        key_views(keys@).to_set() == connections_in(*table).dom(),
{
    table.iter().map(|entry| entry.key().clone()).collect()
}

/// Calls `DashMap::len`.
///
/// Believed of it: it is the number of connections.
#[verifier::external_body]
pub(crate) fn connection_count(table: &ConnectionTable) -> (count: usize)
    ensures
        count == connections_in(*table).dom().len(),
{
    table.len()
}

/// Calls `DashMap::new`.
///
/// Believed of it: the table is empty.
#[verifier::external_body]
pub(crate) fn new_messages() -> (table: MessageTable)
    ensures
        (messages_in(table) == Map::<Seq<char>, Seq<ReceivedMessage>>::empty()),
{
    DashMap::new()
}

/// Calls `DashMap::insert` on a table that nothing else uses meanwhile.
///
/// Believed of it: the messages stand under the kind, in place of those that stood there before.
#[verifier::external_body]
pub(crate) fn insert_kind(
    table: &mut MessageTable,
    kind: &'static str,
    messages: Vec<ReceivedMessage>,
)
    ensures
        messages_in(*final(table)) == messages_in(*old(table)).insert(kind@, messages@),
{
    table.insert(kind, messages);
}

/// Calls `DashMap::get_mut` on a table that nothing else uses meanwhile, and exchanges the value
/// behind the reference that it gives.
///
/// Believed of it: where the kind stands in the table, its messages are returned, and the given
/// ones stand in their place; otherwise nothing changes.
#[verifier::external_body]
pub(crate) fn exchange_messages(
    table: &mut MessageTable,
    kind: &str,
    messages: Vec<ReceivedMessage>,
) -> (previous: Option<Vec<ReceivedMessage>>)
    ensures
        messages_in(*old(table)).contains_key(kind@) ==> {
            &&& previous matches Some(previous) && previous@ == messages_in(*old(table))[kind@]
            &&& messages_in(*final(table)) == messages_in(*old(table)).insert(kind@, messages@)
        },
        !messages_in(*old(table)).contains_key(kind@) ==> {
            &&& previous is None
            &&& messages_in(*final(table)) == messages_in(*old(table))
        },
{
    table.get_mut(kind).map(|mut entry| std::mem::replace(entry.value_mut(), messages))
}

/// Calls `DashMap::contains_key`.
///
/// Believed of it: it says whether the kind stands in the table.
#[verifier::external_body]
pub(crate) fn contains_kind(table: &MessageTable, kind: &str) -> (yes: bool)
    ensures
        yes == messages_in(*table).contains_key(kind@),
{
    table.contains_key(kind)
}

/// Calls `DashMap::clear` on a table that nothing else uses meanwhile.
///
/// Believed of it: the table is empty.
#[verifier::external_body]
pub(crate) fn clear_messages(table: &mut MessageTable)
    ensures
        (messages_in(*final(table)) == Map::<Seq<char>, Seq<ReceivedMessage>>::empty()),
{
    table.clear()
}

} // verus!
