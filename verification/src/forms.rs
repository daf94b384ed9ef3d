//! The forms in which identities, addresses, numbers and packets appear.

use vstd::bytes::{spec_u64_from_le_bytes, spec_u64_to_le_bytes};
use vstd::prelude::*;
use vstd::std_specs::cmp::PartialEqSpec;
use vstd::utf8::{decode_utf8, encode_utf8, valid_utf8};

use crate::connection::ClientConnection;
use crate::connection_id::{hex_digit, uuid_text, ConnectionId, ConnectionIdView};
use crate::decimal::decimal;
use crate::event::{data_views, NetworkData};
use crate::laws::law_client_is_no_server;
use crate::packet::{frame_of, packet_in, packet_text, PacketView};
use crate::peer_url::{
    client_url, first_at, parsed_url, unknown_client, v4_socket_text, v4_text, without_scope, Host,
    HostView, UrlView,
};
use crate::quote::quoted;
use crate::state::{ids_of, keys_of};
use crate::tables::key_views;

verus! {

/// An identity is found by its UUID and the text of its URL, and by nothing else.
pub proof fn law_key_is_uuid_and_url(one: ConnectionIdView, other: ConnectionIdView)
    ensures
        one.key() == other.key() <==> one.uuid == other.uuid && one.url.text == other.url.text,
        one.key() == (one.uuid, one.url.text),
{
}

/// Two identities are equal where their UUIDs and the texts of their URLs are.
pub proof fn law_identities_are_equal_by_uuid_and_url(one: ConnectionId, other: ConnectionId)
    ensures
        one.eq_spec(&other) <==> one@.uuid == other@.uuid && one@.url.text == other@.url.text,
{
}

/// The identity of a server is one with the nil UUID.
pub proof fn law_server_has_the_nil_uuid(id: ConnectionIdView)
    ensures
        id.is_server() <==> id.uuid == 0,
{
}

/// The identity of a client has a random UUID of version 4, in the variant of RFC 4122, and the URL of
/// its address; for an IPv4 address, this is a URL with that address and that port.
pub proof fn law_client_has_a_random_uuid_and_its_address(
    id: ConnectionIdView,
    addr: Seq<char>,
    a: u8,
    b: u8,
    c: u8,
    d: u8,
    port: u16,
)
    requires
        id.is_client_at(addr),
    ensures
        (id.uuid >> 76) & 0xf == 4,
        (id.uuid >> 62) & 0x3 == 2,
        id.uuid != 0,
        id.url == client_url(addr),
        addr == v4_socket_text(a, b, c, d, port) ==> id.url.host == Some(
            HostView::Ipv4(a, b, c, d),
        ) && id.url.port == Some(port) && id.url.address() == Some(
            (HostView::Ipv4(a, b, c, d), Some(port)),
        ),
{
    law_client_is_no_server(id, addr);
}

/// The address of a peer is the host of its URL with the port, where the URL names a host.
pub proof fn law_address_is_host_and_port(url: UrlView)
    ensures
        url.host is Some ==> url.address() == Some((url.host->0, url.port)),
        url.host is None ==> url.address() is None,
{
}

/// Where a character is found first.
proof fn lemma_found(text: Seq<char>, c: char, from: int)
    requires
        0 <= from <= text.len(),
    ensures
        from <= first_at(text, c, from) <= text.len(),
        first_at(text, c, from) < text.len() ==> text[first_at(text, c, from)] == c,
        forall|i: int| from <= i < first_at(text, c, from) ==> text[i] != c,
    decreases text.len() - from,
{
    if from < text.len() && text[from] != c {
        lemma_found(text, c, from + 1);
    }
}

/// A socket address without a scope stays as it is: one that does not begin with a bracket, one
/// without a percent sign, and one in which no closing bracket comes behind a percent sign.
pub proof fn law_address_without_scope_stays(addr: Seq<char>)
    requires
        addr.len() == 0 || addr[0] != '[' || !addr.contains('%') || (forall|i: int, j: int|
            0 <= i < j < addr.len() && #[trigger] addr[i] == '%' ==> #[trigger] addr[j] != ']'),
    ensures
        without_scope(addr) == addr,
{
    let start = first_at(addr, '%', 0);
    lemma_found(addr, '%', 0);
    lemma_found(addr, ']', start);
}

/// The URL of a client whose address has no scope is what the address gives behind `ws://`, or the
/// URL `localhost:9999`, which names no host, where that is no URL.
pub proof fn law_client_url_is_that_of_its_address(addr: Seq<char>)
    requires
        addr.len() == 0 || addr[0] != '[' || !addr.contains('%'),
    ensures
        parsed_url(seq!['w', 's', ':', '/', '/'] + addr) matches Some(url) ==> client_url(addr)
            == url,
        parsed_url(seq!['w', 's', ':', '/', '/'] + addr) is None ==> {
            &&& client_url(addr).text == "localhost:9999"@
            &&& client_url(addr).host is None
            &&& client_url(addr).port is None
            &&& client_url(addr) == unknown_client()
        },
{
    law_address_without_scope_stays(addr);
    law_unknown_client_has_no_host();
}

/// The URL of a client whose address gives none is `localhost:9999`, which names no host.
pub proof fn law_unknown_client_has_no_host()
    ensures
        unknown_client().text == "localhost:9999"@,
        unknown_client().host is None,
        unknown_client().port is None,
        unknown_client().shown == "Url { scheme: "@ + quoted("localhost"@)
            + ", cannot_be_a_base: "@ + "true"@ + ", username: "@ + quoted(""@)
            + ", password: None, host: "@ + "None"@ + ", port: "@ + "None"@ + ", path: "@ + quoted(
            "9999"@,
        ) + ", query: None, fragment: None }"@,
{
    reveal_strlit("localhost:9999");
    reveal_strlit("localhost");
    reveal_strlit("9999");
    assert(unknown_client().text == "localhost:9999"@);
}

/// The URL of a peer at an IPv4 address names the address in dotted decimal and the port, which the
/// text leaves out where it is the one of the scheme, and has the path `/`.
pub proof fn law_v4_url_has_its_address(a: u8, b: u8, c: u8, d: u8, port: u16)
    ensures
        UrlView::v4(a, b, c, d, port).host == Some(HostView::Ipv4(a, b, c, d)),
        UrlView::v4(a, b, c, d, port).port == Some(port),
        v4_text(a, b, c, d) == decimal(a as nat) + seq!['.'] + decimal(b as nat) + seq!['.']
            + decimal(c as nat) + seq!['.'] + decimal(d as nat),
        v4_socket_text(a, b, c, d, port) == v4_text(a, b, c, d) + seq![':'] + decimal(port as nat),
        port != 80 ==> UrlView::v4(a, b, c, d, port).text == seq!['w', 's', ':', '/', '/']
            + v4_socket_text(a, b, c, d, port) + seq!['/'],
        port == 80 ==> UrlView::v4(a, b, c, d, port).text == seq!['w', 's', ':', '/', '/']
            + v4_text(a, b, c, d) + seq!['/'],
        UrlView::v4(a, b, c, d, port).shown == "Url { scheme: "@ + quoted("ws"@)
            + ", cannot_be_a_base: "@ + "false"@ + ", username: "@ + quoted(""@)
            + ", password: None, host: "@ + ("Some(Ipv4("@ + v4_text(a, b, c, d) + "))"@)
            + ", port: "@ + (if port == 80 {
            "None"@
        } else {
            "Some("@ + decimal(port as nat) + ")"@
        }) + ", path: "@ + quoted("/"@) + ", query: None, fragment: None }"@,
{
    assert(v4_text(a, b, c, d) == decimal(a as nat) + seq!['.'] + decimal(b as nat) + seq!['.']
        + decimal(c as nat) + seq!['.'] + decimal(d as nat));
    assert(v4_socket_text(a, b, c, d, port) == v4_text(a, b, c, d) + seq![':'] + decimal(
        port as nat,
    ));
}

/// A host is a domain by its name, or an IP address.
pub proof fn law_host_is_its_name_or_ip(host: Host)
    ensures
        match host {
            Host::Domain(name) => host@ == HostView::Domain(name@),
            Host::Ipv4(a, b, c, d) => host@ == HostView::Ipv4(a, b, c, d),
            Host::Ipv6(ip) => host@ == HostView::Ipv6(ip),
        },
{
}

/// An identity in words names its URL and its UUID.
pub proof fn law_identity_in_words_names_url_and_uuid(id: ConnectionIdView)
    ensures
        id.description() == "Connection from "@ + id.url.text + " with ID="@ + uuid_text(id.uuid),
        id.shown() == "ConnectionId { uuid: "@ + uuid_text(id.uuid) + ", url: "@ + id.url.shown
            + " }"@,
{
}

/// A packet in words names its kind.
pub proof fn law_packet_in_words_names_its_kind(kind: Seq<char>)
    ensures
        packet_text(kind) == "NetworkPacket { kind: "@ + kind + " }"@,
{
}

/// The number that a lower-case hexadecimal digit stands for.
pub open spec fn hex_value(c: char) -> int {
    if '0' <= c <= '9' {
        c as int - '0' as int
    } else {
        c as int - 'a' as int + 10
    }
}

/// The text of a UUID has 36 characters, of which four are hyphens, in the usual places. The others
/// are lower-case hexadecimal digits: the one at `i` stands for the four bits of the number that have
/// `i`, less the hyphens before it, such groups of four above them.
pub proof fn law_uuid_text_spells_the_number(uuid: u128, i: int)
    requires
        0 <= i < 36,
    ensures
        uuid_text(uuid).len() == 36,
        i == 8 || i == 13 || i == 18 || i == 23 ==> uuid_text(uuid)[i] == '-',
        !(i == 8 || i == 13 || i == 18 || i == 23) ==> {
            let hyphens = (if i > 8 {
                1int
            } else {
                0int
            }) + (if i > 13 {
                1int
            } else {
                0int
            }) + (if i > 18 {
                1int
            } else {
                0int
            }) + (if i > 23 {
                1int
            } else {
                0int
            });
            let c = uuid_text(uuid)[i];
            &&& '0' <= c <= '9' || 'a' <= c <= 'f'
            &&& hex_value(c) == (uuid >> ((4 * (31 - (i - hyphens))) as u128)) & 0xf
        },
{
    let hyphens: int = if i < 8 {
        0
    } else if i < 13 {
        1
    } else if i < 18 {
        2
    } else if i < 23 {
        3
    } else {
        4
    };
    let shift = (4 * (31 - (i - hyphens))) as u128;
    let value = (uuid >> shift) & 0xf;
    assert((uuid >> shift) & 0xf <= 15) by (bit_vector);
    if !(i == 8 || i == 13 || i == 18 || i == 23) {
        assert(uuid_text(uuid)[i] == hex_digit(value));
    }
}

/// The number that a text of decimal digits stands for.
pub open spec fn number_of(digits: Seq<char>) -> int
    decreases digits.len(),
{
    if digits.len() == 0 {
        0
    } else {
        10 * number_of(digits.drop_last()) + (digits.last() as int - '0' as int)
    }
}

/// A numeral has decimal digits only, stands for its number, and does not begin with a zero unless it
/// is that of zero.
pub proof fn law_numeral_stands_for_its_number(n: nat)
    ensures
        number_of(decimal(n)) == n,
        decimal(n).len() > 0,
        forall|i: int| 0 <= i < decimal(n).len() ==> '0' <= #[trigger] decimal(n)[i] <= '9',
        n > 0 ==> decimal(n)[0] != '0',
        n == 0 ==> decimal(n) == seq!['0'],
    decreases n,
{
    if n >= 10 {
        law_numeral_stands_for_its_number(n / 10);
        assert(decimal(n).drop_last() == decimal(n / 10));
    } else {
        reveal_with_fuel(number_of, 2);
        assert(decimal(n).drop_last() == Seq::<char>::empty());
    }
}

/// The frame of a packet is the length of its kind in eight little-endian bytes, the kind in UTF-8,
/// and its message. A packet whose message has no encoding has no frame.
pub proof fn law_frame_is_kind_and_message(packet: PacketView)
    ensures
        packet.data is Some ==> frame_of(packet) == Some(
            spec_u64_to_le_bytes(encode_utf8(packet.kind).len() as u64) + encode_utf8(packet.kind)
                + packet.data->0,
        ),
        packet.data is None ==> frame_of(packet) is None,
{
}

/// A frame holds a packet where it begins with the length of a kind in eight little-endian bytes and
/// with that many bytes of UTF-8; these are its kind, and the rest is its message.
pub proof fn law_packet_is_read_off_the_frame(frame: Seq<u8>)
    ensures
        ({
            let end = 8 + spec_u64_from_le_bytes(frame.take(8));
            if 8 <= frame.len() && end <= frame.len() && valid_utf8(frame.subrange(8, end)) {
                &&& packet_in(frame) is Some
                &&& packet_in(frame)->0.kind == decode_utf8(frame.subrange(8, end))
                &&& packet_in(frame)->0.data == Some(frame.skip(end))
            } else {
                packet_in(frame) is None
            }
        }),
{
}

/// Lists are looked at item by item: none is left out, and none changes its place.
pub proof fn law_lists_keep_their_items<T>(
    connections: Seq<ClientConnection>,
    ids: Seq<ConnectionId>,
    keys: Seq<(u128, String)>,
    data: Seq<NetworkData<T>>,
)
    ensures
        ids_of(connections).len() == connections.len(),
        forall|i: int|
            0 <= i < connections.len() ==> #[trigger] ids_of(connections)[i] == connections[i].id,
        keys_of(ids).len() == ids.len(),
        forall|i: int|
            0 <= i < ids.len() ==> #[trigger] keys_of(ids)[i] == (ids[i]@.uuid, ids[i]@.url.text),
        key_views(keys).len() == keys.len(),
        forall|i: int|
            0 <= i < keys.len() ==> #[trigger] key_views(keys)[i] == (keys[i].0, keys[i].1@),
        data_views(data).len() == data.len(),
        forall|i: int| 0 <= i < data.len() ==> #[trigger] data_views(data)[i] == data[i]@,
{
}

} // verus!
