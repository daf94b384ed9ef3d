use bevy_simple_websockets::channel::{Notice, SyncChannel};
use bevy_simple_websockets::decimal::decimal_text;
use bevy_simple_websockets::event::decoded_events;
use bevy_simple_websockets::peer_url::leave_scope_out;
use bevy_simple_websockets::{
    Address, ConnectionId, Host, NetworkData, NetworkSettings, PeerUrl,
};

#[test]
fn the_default_server_is_on_this_machine() {
    let id = ConnectionId::server(None);
    assert!(id.is_server());
    assert_eq!(id.address(), Some(Address { host: Host::Ipv4(127, 0, 0, 1), port: Some(9999) }));
    assert_eq!(
        id.description(),
        "Connection from ws://127.0.0.1:9999/ with ID=00000000-0000-0000-0000-000000000000"
    );
}

#[test]
fn a_server_keeps_its_url() {
    let url = PeerUrl::parse("wss://example.com/game").unwrap();
    let id = ConnectionId::server(Some(url));
    assert!(id.is_server());
    let host = Host::Domain(String::from("example.com"));
    assert_eq!(id.address(), Some(Address { host, port: Some(443) }));
}

#[test]
fn the_address_of_a_client_has_its_ip_and_port() {
    for (addr, host, port) in [
        ("192.168.0.10:50123", Host::Ipv4(192, 168, 0, 10), 50123),
        ("10.0.0.1:80", Host::Ipv4(10, 0, 0, 1), 80),
        ("0.0.0.0:0", Host::Ipv4(0, 0, 0, 0), 0),
        ("255.255.255.255:65535", Host::Ipv4(255, 255, 255, 255), 65535),
        ("[::1]:9000", Host::Ipv6(1), 9000),
    ] {
        let id = ConnectionId::client(addr);
        assert!(!id.is_server());
        assert_eq!(id.address(), Some(Address { host, port: Some(port) }));
    }
}

#[test]
fn the_text_of_a_client_url_is_normalised() {
    assert_eq!(PeerUrl::of_client("10.0.0.1:5001").text(), "ws://10.0.0.1:5001/");
    assert_eq!(PeerUrl::of_client("10.0.0.1:80").text(), "ws://10.0.0.1/");
}

#[test]
fn a_client_without_a_url_has_no_address() {
    let url = PeerUrl::of_client("not an address");
    assert_eq!(url.text(), "localhost:9999");
    assert_eq!(url.address(), None);
    assert_eq!(PeerUrl::or_unknown(None).text(), "localhost:9999");
    let given = PeerUrl::parse("ws://10.0.0.1:5001").unwrap();
    assert_eq!(PeerUrl::or_unknown(Some(given)).text(), "ws://10.0.0.1:5001/");
    assert_eq!(ConnectionId::client("not an address").address(), None);
}

#[test]
fn a_socket_address_alone_is_no_url() {
    assert!(PeerUrl::parse("127.0.0.1:5001").is_none());
    assert!(PeerUrl::parse("").is_none());
}

#[test]
fn every_client_has_an_identity_of_its_own() {
    let first = ConnectionId::client("10.0.0.1:5001");
    let second = ConnectionId::client("10.0.0.1:5001");
    assert!(first != second);
    assert!(first == first.clone());
}

#[test]
fn an_identity_is_the_uuid_and_the_url() {
    let one = ConnectionId::server(PeerUrl::parse("ws://10.0.0.1"));
    let same = ConnectionId::server(PeerUrl::parse("ws://10.0.0.1:80/"));
    let other = ConnectionId::server(PeerUrl::parse("ws://10.0.0.2"));
    assert!(one == same);
    assert!(one != other);
}

#[test]
fn the_identity_of_a_client_is_written_with_its_uuid() {
    let text = ConnectionId::client("10.0.0.1:5001").description();
    let uuid = text.strip_prefix("Connection from ws://10.0.0.1:5001/ with ID=").unwrap();
    assert_eq!(uuid.len(), 36);
    for (i, c) in uuid.chars().enumerate() {
        match i {
            8 | 13 | 18 | 23 => assert_eq!(c, '-'),
            14 => assert_eq!(c, '4'),
            19 => assert!("89ab".contains(c)),
            _ => assert!("0123456789abcdef".contains(c)),
        }
    }
}

#[test]
fn numerals_have_no_leading_zeros() {
    assert_eq!(decimal_text(0), "0");
    assert_eq!(decimal_text(9), "9");
    assert_eq!(decimal_text(10), "10");
    assert_eq!(decimal_text(1230456789), "1230456789");
    assert_eq!(decimal_text(u64::MAX), u64::MAX.to_string());
}

#[test]
fn a_channel_hands_out_what_came_first() {
    let mut channel = SyncChannel::new();
    assert!(channel.try_recv().is_none());
    let first = ConnectionId::client("10.0.0.1:5001");
    let second = ConnectionId::client("10.0.0.2:5002");
    assert!(channel.send(Notice::Ended(first.clone())));
    assert!(channel.send(Notice::Ended(second.clone())));
    for expected in [first, second] {
        match channel.try_recv() {
            Some(Notice::Ended(id)) => assert_eq!(id, expected),
            other => panic!("{:?}", other),
        }
    }
    assert!(channel.try_recv().is_none());
}

#[test]
fn data_comes_with_its_source() {
    let source = ConnectionId::client("10.0.0.1:5001");
    let data = NetworkData::new(source.clone(), String::from("hello"));
    assert_eq!(data.source(), source);
    assert_eq!(data.len(), 5);
    assert_eq!(data.into_inner(), "hello");
}

#[test]
fn messages_that_do_not_decode_are_left_out() {
    let one = ConnectionId::client("10.0.0.1:5001");
    let two = ConnectionId::client("10.0.0.2:5002");
    let messages = vec![(one.clone(), Some(1u8)), (two.clone(), None), (two.clone(), Some(3))];
    let events = decoded_events(messages);
    let seen: Vec<(ConnectionId, u8)> =
        events.into_iter().map(|data| (data.source(), data.into_inner())).collect();
    assert_eq!(seen, vec![(one, 1), (two, 3)]);
}

#[test]
fn packets_have_at_most_ten_mebibytes_by_default() {
    assert_eq!(NetworkSettings::default().max_packet_length, 10485760);
}

#[test]
fn the_identity_of_a_client_is_the_uuid_that_was_drawn_and_its_address() {
    let uuid = 0x0011_2233_4455_4677_8899_aabb_ccdd_eeff;
    let id = ConnectionId::client_with(uuid, "10.0.0.1:5001");
    assert!(!id.is_server());
    assert_eq!(id.address(), Some(Address { host: Host::Ipv4(10, 0, 0, 1), port: Some(5001) }));
    assert_eq!(
        id.description(),
        "Connection from ws://10.0.0.1:5001/ with ID=00112233-4455-4677-8899-aabbccddeeff"
    );
    assert!(id == ConnectionId::client_with(uuid, "10.0.0.1:5001"));
}

#[test]
fn different_uuids_give_different_identities() {
    let uuid = 0x0011_2233_4455_4677_8899_aabb_ccdd_eeff;
    let id = ConnectionId::client_with(uuid, "10.0.0.1:5001");
    assert!(id != ConnectionId::client_with(uuid + 1, "10.0.0.1:5001"));
    assert!(id != ConnectionId::client_with(uuid, "10.0.0.1:5002"));
}

#[test]
fn the_address_of_a_link_local_client_has_its_ip_and_port() {
    let ip = 0xfe80_0000_0000_0000_0000_0000_0000_0001;
    for addr in ["[fe80::1%2]:5000", "[fe80::1]:5000"] {
        let id = ConnectionId::client(addr);
        assert_eq!(id.address(), Some(Address { host: Host::Ipv6(ip), port: Some(5000) }));
        assert_eq!(PeerUrl::of_client(addr).text(), "ws://[fe80::1]:5000/");
    }
}

#[test]
fn only_the_scope_is_left_out_of_an_address() {
    assert_eq!(leave_scope_out("[fe80::1%2]:5000"), "[fe80::1]:5000");
    for addr in ["", "[", "[%", "[::1]:80", "10.0.0.1:5001", "10.0.0.1%2]:80", "[]%"] {
        assert_eq!(leave_scope_out(addr), addr);
    }
}

#[test]
fn an_identity_is_shown_with_all_its_parts() {
    let uuid = 0x0011_2233_4455_4677_8899_aabb_ccdd_eeff;
    assert_eq!(
        ConnectionId::client_with(uuid, "10.0.0.1:80").shown(),
        "ConnectionId { uuid: 00112233-4455-4677-8899-aabbccddeeff, url: Url { scheme: \"ws\", \
         cannot_be_a_base: false, username: \"\", password: None, host: Some(Ipv4(10.0.0.1)), \
         port: None, path: \"/\", query: None, fragment: None } }"
    );
    assert_eq!(
        PeerUrl::or_unknown(None).shown(),
        "Url { scheme: \"localhost\", cannot_be_a_base: true, username: \"\", password: None, \
         host: None, port: None, path: \"9999\", query: None, fragment: None }"
    );
    let url = PeerUrl::parse("wss://me@example.com/game?a#b").unwrap();
    assert_eq!(
        url.clone().shown(),
        "Url { scheme: \"wss\", cannot_be_a_base: false, username: \"me\", password: None, \
         host: Some(Domain(\"example.com\")), port: None, path: \"/game\", query: Some(\"a\"), \
         fragment: Some(\"b\") }"
    );
}
