//! The identity of a connection.

use vstd::prelude::*;

use crate::peer_url::{client_url, v4_socket_text, Address, PeerUrl, UrlView};

verus! {

/// The number of the nil UUID, which marks the connection to a server.
pub const NIL: u128 = 0;

/// The key by which a connection is found: its UUID and the text of its URL.
pub type ConnectionKey = (u128, Seq<char>);

/// Whether a UUID is of version 4 (random), in the variant of RFC 4122.
pub open spec fn is_random_uuid(uuid: u128) -> bool {
    &&& (uuid >> 76) & 0xf == 4
    &&& (uuid >> 62) & 0x3 == 2
}

/// A lower-case hexadecimal digit.
pub open spec fn hex_digit(value: u128) -> char {
    if value < 10 {
        (('0' as u128) + value) as char
    } else {
        (('a' as u128) + value - 10) as char
    }
}

/// The text of a UUID: its 32 hexadecimal digits, with hyphens behind the 8th, 12th, 16th and
/// 20th of them.
pub open spec fn uuid_text(uuid: u128) -> Seq<char> {
    Seq::new(
        36,
        |i: int|
            if i == 8 || i == 13 || i == 18 || i == 23 {
                '-'
            } else {
                let hyphens: int = if i < 8 {
                    0
                } else if i < 13 {
                    1
                } else if i < 18 {
                    2
                } else if i < 23 {
                    3
                } else {
                    4
                };
                hex_digit((uuid >> ((4 * (31 - (i - hyphens))) as u128)) & 0xf)
            },
    )
}

/// Calls `Uuid::new_v4`, which draws a random UUID, and gives its number.
///
/// Believed of it: whatever was drawn, the bits of the version and of the variant are those of a
/// random UUID. Nothing is said of the other bits. It panics where the operating system has no
/// randomness to give.
#[verifier::external_body]
pub(crate) fn random_uuid() -> (uuid: u128)
    ensures
        is_random_uuid(uuid),
{
    bevy::utils::Uuid::new_v4().as_u128()
}

/// Calls `Display` of `Uuid`, on the UUID with the given number.
///
/// Believed of it: the text is the hyphenated lower-case form.
#[verifier::external_body]
fn format_uuid(uuid: u128) -> (text: String)
    ensures
        text@ == uuid_text(uuid),
{
    bevy::utils::Uuid::from_u128(uuid).to_string()
}

/// The mathematical value of a [`ConnectionId`].
pub struct ConnectionIdView {
    pub uuid: u128,
    pub url: UrlView,
}

impl ConnectionIdView {
    /// The key of the connection.
    pub open spec fn key(self) -> ConnectionKey {
        (self.uuid, self.url.text)
    }

    /// Whether this is the connection to a server.
    pub open spec fn is_server(self) -> bool {
        self.uuid == NIL
    }

    /// What the identity of a client that connected from `addr` looks like: a random UUID and
    /// the URL of the address, in which an IPv4 address and its port are found again.
    pub open spec fn is_client_at(self, addr: Seq<char>) -> bool {
        &&& is_random_uuid(self.uuid)
        &&& self.url == client_url(addr)
        &&& forall|a: u8, b: u8, c: u8, d: u8, port: u16|
            addr == #[trigger] v4_socket_text(a, b, c, d, port) ==> self.url == UrlView::v4(
                a,
                b,
                c,
                d,
                port,
            )
    }

    /// `Connection from <url> with ID=<uuid>`.
    pub open spec fn description(self) -> Seq<char> {
        "Connection from "@ + self.url.text + " with ID="@ + uuid_text(self.uuid)
    }

    /// `ConnectionId { uuid: <uuid>, url: <url> }`, where the URL is shown with all its parts.
    pub open spec fn shown(self) -> Seq<char> {
        "ConnectionId { uuid: "@ + uuid_text(self.uuid) + ", url: "@ + self.url.shown + " }"@
    }
}

/// A [`ConnectionId`] denotes a single connection.
///
/// Use [`ConnectionId::is_server`] to check whether it is a connection to a server or another.
/// In most client/server applications this is not required, as there is no ambiguity.
#[derive(Debug, Hash)]
pub struct ConnectionId {
    uuid: u128,
    url: PeerUrl,
}

impl View for ConnectionId {
    type V = ConnectionIdView;

    closed spec fn view(&self) -> ConnectionIdView {
        ConnectionIdView { uuid: self.uuid, url: self.url@ }
    }
}

impl Clone for ConnectionId {
    fn clone(&self) -> (copy: Self)
        ensures
            copy == *self,
    {
        ConnectionId { uuid: self.uuid, url: self.url.clone() }
    }
}

impl PartialEq for ConnectionId {
    fn eq(&self, other: &Self) -> (equal: bool) {
        self.uuid == other.uuid && *self.url.text() == *other.url.text()
    }
}

impl vstd::std_specs::cmp::PartialEqSpecImpl for ConnectionId {
    open spec fn obeys_eq_spec() -> bool {
        true
    }

    open spec fn eq_spec(&self, other: &Self) -> bool {
        self@.key() == other@.key()
    }
}

impl Eq for ConnectionId {

}

impl ConnectionId {
    /// Get the address associated to this connection id.
    ///
    /// This contains the IP/Port information.
    pub fn address(&self) -> (address: Option<Address>)
        ensures
            (match address {
                Some(address) => Some((address.host@, address.port)),
                None => None,
            }) == self@.url.address(),
    {
        self.url.address()
    }

    /// The identity of the connection to a server, at `ws://127.0.0.1:9999` where no URL is given.
    pub fn server(addr: Option<PeerUrl>) -> (id: ConnectionId)
        ensures
            id@.uuid == NIL,
            addr matches Some(url) ==> id@.url == url@,
            addr is None ==> id@.url == UrlView::v4(127, 0, 0, 1, 9999),
    {
        ConnectionId {
            uuid: NIL,
            url: match addr {
                Some(url) => url,
                None => PeerUrl::default_server(),
            },
        }
    }

    /// A new identity for a client that connected from the socket address `addr`.
    pub fn client(addr: &str) -> (id: ConnectionId)
        ensures
            id@.is_client_at(addr@),
            !id@.is_server(),
    {
        let uuid = random_uuid();
        assert(is_random_uuid(uuid) ==> uuid != 0) by (bit_vector);
        ConnectionId::client_with(uuid, addr)
    }

    /// The identity of a client that connected from the socket address `addr`, and for which
    /// `uuid` was drawn.
    pub fn client_with(uuid: u128, addr: &str) -> (id: ConnectionId)
        ensures
            id@.uuid == uuid,
            id@.url == client_url(addr@),
            forall|a: u8, b: u8, c: u8, d: u8, port: u16|
                addr@ == #[trigger] v4_socket_text(a, b, c, d, port) ==> id@.url == UrlView::v4(
                    a,
                    b,
                    c,
                    d,
                    port,
                ),
    {
        ConnectionId { uuid, url: PeerUrl::of_client(addr) }
    }

    /// Check whether this [`ConnectionId`] is a server.
    pub fn is_server(&self) -> (yes: bool)
        ensures
            yes == self@.is_server(),
    {
        self.uuid == NIL
    }

    /// The key by which the connection is found.
    pub(crate) fn key(&self) -> (key: (u128, String))
        ensures
            (key.0, key.1@) == self@.key(),
    {
        (self.uuid, self.url.text().clone())
    }

    /// The connection in words.
    pub fn description(&self) -> (text: String)
        ensures
            text@ == self@.description(),
    {
        let mut text = "Connection from ".to_owned();
        text.append(self.url.text().as_str());
        text.append(" with ID=");
        text.append(format_uuid(self.uuid).as_str());
        text
    }

    /// The identity with all its parts, as it is shown to a programmer.
    pub fn shown(&self) -> (text: String)
        ensures
            text@ == self@.shown(),
    {
        let mut text = "ConnectionId { uuid: ".to_owned();
        text.append(format_uuid(self.uuid).as_str());
        text.append(", url: ");
        text.append(self.url.shown().as_str());
        text.append(" }");
        text
    }
}

} // verus!
