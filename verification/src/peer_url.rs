//! The URL by which a peer is known, and the address in it.

use vstd::prelude::*;

use crate::decimal::{decimal, lemma_decimal_begins_with_digit};
use crate::quote::quoted;

verus! {

/// The host of a URL.
#[derive(Debug, PartialEq, Eq, Hash)]
pub enum Host {
    /// A domain name.
    Domain(String),
    /// The four octets of an IPv4 address.
    Ipv4(u8, u8, u8, u8),
    /// An IPv6 address as a number.
    Ipv6(u128),
}

/// The mathematical value of a [`Host`].
pub enum HostView {
    Domain(Seq<char>),
    Ipv4(u8, u8, u8, u8),
    Ipv6(u128),
}

impl View for Host {
    type V = HostView;

    open spec fn view(&self) -> HostView {
        match self {
            Host::Domain(name) => HostView::Domain(name@),
            Host::Ipv4(a, b, c, d) => HostView::Ipv4(*a, *b, *c, *d),
            Host::Ipv6(ip) => HostView::Ipv6(*ip),
        }
    }
}

impl Clone for Host {
    fn clone(&self) -> (copy: Self)
        ensures
            copy == *self,
    {
        match self {
            Host::Domain(name) => Host::Domain(name.clone()),
            Host::Ipv4(a, b, c, d) => Host::Ipv4(*a, *b, *c, *d),
            Host::Ipv6(ip) => Host::Ipv6(*ip),
        }
    }
}

/// The IP and port of a peer.
#[derive(Debug, PartialEq, Eq, Hash)]
pub struct Address {
    pub host: Host,
    /// The port, or the default one of the URL's scheme where it has one.
    pub port: Option<u16>,
}

/// The mathematical value of a [`PeerUrl`].
pub struct UrlView {
    /// The normalised text.
    pub text: Seq<char>,
    pub host: Option<HostView>,
    pub port: Option<u16>,
    /// The URL with all its parts, as it is shown to a programmer.
    pub shown: Seq<char>,
}

/// How a URL is shown to a programmer that has no user, query or fragment. The path of an opaque
/// one does not begin with a slash.
pub open spec fn shown_url(
    scheme: Seq<char>,
    opaque: bool,
    host: Seq<char>,
    port: Seq<char>,
    path: Seq<char>,
) -> Seq<char> {
    "Url { scheme: "@ + quoted(scheme) + ", cannot_be_a_base: "@ + (if opaque {
        "true"@
    } else {
        "false"@
    }) + ", username: "@ + quoted(""@) + ", password: None, host: "@ + host + ", port: "@ + port
        + ", path: "@ + quoted(path) + ", query: None, fragment: None }"@
}

impl UrlView {
    /// A URL that names no host, such as `localhost:9999`, whose scheme is `localhost` and whose path
    /// is `9999`.
    pub open spec fn hostless(scheme: Seq<char>, path: Seq<char>) -> UrlView {
        UrlView {
            text: hostless_text(scheme, path),
            host: None,
            port: None,
            shown: shown_url(scheme, true, "None"@, "None"@, path),
        }
    }

    /// The host and port, where the URL names a host.
    pub open spec fn address(self) -> Option<(HostView, Option<u16>)> {
        match self.host {
            Some(host) => Some((host, self.port)),
            None => None,
        }
    }

    /// The URL of a websocket peer at an IPv4 address.
    pub open spec fn v4(a: u8, b: u8, c: u8, d: u8, port: u16) -> UrlView {
        let host = websocket_prefix() + v4_text(a, b, c, d);
        UrlView {
            text: if port == 80 {
                host.push('/')
            } else {
                (host.push(':') + decimal(port as nat)).push('/')
            },
            host: Some(HostView::Ipv4(a, b, c, d)),
            port: Some(port),
            shown: shown_url(
                "ws"@,
                false,
                "Some(Ipv4("@ + v4_text(a, b, c, d) + "))"@,
                if port == 80 {
                    "None"@
                } else {
                    "Some("@ + decimal(port as nat) + ")"@
                },
                "/"@,
            ),
        }
    }
}

/// `ws://`.
pub open spec fn websocket_prefix() -> Seq<char> {
    seq!['w', 's', ':', '/', '/']
}

/// An IPv4 address in dotted decimal.
pub open spec fn v4_text(a: u8, b: u8, c: u8, d: u8) -> Seq<char> {
    (((decimal(a as nat).push('.') + decimal(b as nat)).push('.') + decimal(c as nat)).push('.')
        + decimal(d as nat))
}

/// An IPv4 address and a port, as in `127.0.0.1:9999`.
pub open spec fn v4_socket_text(a: u8, b: u8, c: u8, d: u8, port: u16) -> Seq<char> {
    v4_text(a, b, c, d).push(':') + decimal(port as nat)
}

/// A scheme, a colon, and a path.
pub open spec fn hostless_text(scheme: Seq<char>, path: Seq<char>) -> Seq<char> {
    scheme.push(':') + path
}

/// Whether `scheme` is a lower-case word of at least six letters, which has no special meaning as a
/// scheme, and `path` has only digits, and both together are as short as positions in a URL are.
pub open spec fn is_word_and_number(scheme: Seq<char>, path: Seq<char>) -> bool {
    &&& 6 <= scheme.len()
    &&& forall|i: int| 0 <= i < scheme.len() ==> 'a' <= #[trigger] scheme[i] <= 'z'
    &&& forall|i: int| 0 <= i < path.len() ==> '0' <= #[trigger] path[i] <= '9'
    &&& hostless_text(scheme, path).len() <= u32::MAX
}

/// What `url::Url::parse` makes of a text: the normalised text, the host, the port and the `Debug`
/// form of the URL, or nothing where the text is no absolute URL.
pub uninterp spec fn parsed_url(text: Seq<char>) -> Option<UrlView>;

/// A parsed URL.
#[derive(Debug, Hash)]
pub struct PeerUrl {
    text: String,
    host: Option<Host>,
    port: Option<u16>,
    shown: String,
}

impl View for PeerUrl {
    type V = UrlView;

    closed spec fn view(&self) -> UrlView {
        UrlView {
            text: self.text@,
            host: match self.host {
                Some(host) => Some(host@),
                None => None,
            },
            port: self.port,
            shown: self.shown@,
        }
    }
}

/// Calls `url::Url::parse`, and reads `Url::host`, `Url::port_or_known_default`, the normalised text
/// and what `Debug` gives off the URL.
///
/// Believed of it: the outcome is a function of the text; an IPv4 address in dotted decimal with
/// a port behind `ws://` gives a URL with that address and that port, where the normalised text
/// ends in `/` and leaves the scheme's default port out; a word of six letters or more followed by
/// a colon and digits is a URL without a host, left as it is. Of these two sorts of URLs, `Debug`
/// gives the parts by their names, texts quoted as `Debug` of `str` does.
#[verifier::external_body]
fn parse_url(text: &str) -> (url: Option<PeerUrl>)
    ensures
        (match url {
            Some(url) => Some(url@),
            None => None,
        }) == parsed_url(text@),
        forall|a: u8, b: u8, c: u8, d: u8, port: u16|
            text@ == websocket_prefix() + #[trigger] v4_socket_text(a, b, c, d, port) ==> (url matches Some(
                url,
            ) && url@ == UrlView::v4(a, b, c, d, port)),
        forall|scheme: Seq<char>, path: Seq<char>|
            text@ == #[trigger] hostless_text(scheme, path) && is_word_and_number(scheme, path) ==> (
            url matches Some(url) && url@ == UrlView::hostless(scheme, path)),
{
    match url::Url::parse(text) {
        Ok(url) => Some(PeerUrl {
            host: url.host().map(|host| match host {
                url::Host::Domain(name) => Host::Domain(name.to_owned()),
                url::Host::Ipv4(ip) => { let [a, b, c, d] = ip.octets(); Host::Ipv4(a, b, c, d) },
                url::Host::Ipv6(ip) => Host::Ipv6(ip.into()),
            }),
            port: url.port_or_known_default(),
            shown: format!("{:?}", url),
            text: url.into(),
        }),
        Err(_) => None,
    }
}

impl Clone for PeerUrl {
    fn clone(&self) -> (copy: Self)
        ensures
            copy == *self,
    {
        PeerUrl {
            text: self.text.clone(),
            host: match &self.host {
                Some(host) => Some(host.clone()),
                None => None,
            },
            port: self.port,
            shown: self.shown.clone(),
        }
    }
}

/// The URL of a server of which no other is known.
pub const DEFAULT_SERVER: &'static str = "ws://127.0.0.1:9999";

/// The URL of a client whose address has no URL.
pub const UNKNOWN_CLIENT: &'static str = "localhost:9999";

/// The URL of a client whose address has no URL.
pub open spec fn unknown_client() -> UrlView {
    UrlView::hostless("localhost"@, "9999"@)
}

/// The first place of `c` in `text` that is not before `from`, or the length where there is none.
pub open spec fn first_at(text: Seq<char>, c: char, from: int) -> int
    decreases text.len() - from,
{
    if from >= text.len() {
        text.len() as int
    } else if text[from] == c {
        from
    } else {
        first_at(text, c, from + 1)
    }
}

/// A socket address without the scope of its IPv6 address: `[fe80::1]:5000` for `[fe80::1%2]:5000`.
/// A URL has no place for the scope, which is a number that only this machine knows.
pub open spec fn without_scope(addr: Seq<char>) -> Seq<char> {
    let start = first_at(addr, '%', 0);
    let end = first_at(addr, ']', start);
    if addr.len() > 0 && addr[0] == '[' && end < addr.len() {
        addr.take(start) + addr.skip(end)
    } else {
        addr
    }
}

/// The URL of a client that connected from the socket address `addr`.
pub open spec fn client_url(addr: Seq<char>) -> UrlView {
    match parsed_url(websocket_prefix() + without_scope(addr)) {
        Some(url) => url,
        None => unknown_client(),
    }
}

/// The first place of a character in a text that is not before `from`, or the number of characters
/// where there is none.
fn find(text: &str, c: char, from: usize) -> (place: usize)
    requires
        from <= text@.len(),
    ensures
        place == first_at(text@, c, from as int),
        from <= place <= text@.len(),
{
    let len = text.unicode_len();
    let mut i: usize = from;
    while i < len
        invariant
            len == text@.len(),
            from <= i <= len,
            first_at(text@, c, from as int) == first_at(text@, c, i as int),
        decreases len - i,
    {
        if text.get_char(i) == c {
            return i;
        }
        i = i + 1;
    }
    len
}

/// Leaves the scope out of a socket address.
pub fn leave_scope_out(addr: &str) -> (text: String)
    ensures
        text@ == without_scope(addr@),
{
    let len = addr.unicode_len();
    if len > 0 && addr.get_char(0) == '[' {
        let start = find(addr, '%', 0);
        let end = find(addr, ']', start);
        if end < len {
            let mut text = addr.substring_char(0, start).to_owned();
            text.append(addr.substring_char(end, len));
            assert(text@ == addr@.take(start as int) + addr@.skip(end as int));
            return text;
        }
    }
    addr.to_owned()
}

impl PeerUrl {
    /// Parses an absolute URL.
    pub fn parse(text: &str) -> (url: Option<PeerUrl>)
        ensures
            (match url {
                Some(url) => Some(url@),
                None => None,
            }) == parsed_url(text@),
            forall|a: u8, b: u8, c: u8, d: u8, port: u16|
                text@ == websocket_prefix() + #[trigger] v4_socket_text(a, b, c, d, port) ==> (
                url matches Some(url) && url@ == UrlView::v4(a, b, c, d, port)),
            forall|scheme: Seq<char>, path: Seq<char>|
                text@ == #[trigger] hostless_text(scheme, path) && is_word_and_number(scheme, path)
                    ==> (url matches Some(url) && url@ == UrlView::hostless(scheme, path)),
    {
        parse_url(text)
    }

    /// The URL of a server of which no other is known: `ws://127.0.0.1:9999`.
    pub fn default_server() -> (url: PeerUrl)
        ensures
            url@ == UrlView::v4(127, 0, 0, 1, 9999),
    {
        proof {
            lemma_default_server_text();
        }
        parse_url(DEFAULT_SERVER).unwrap()
    }

    /// The URL of a client that connected from the socket address `addr`.
    pub fn of_client(addr: &str) -> (url: PeerUrl)
        ensures
            url@ == client_url(addr@),
            forall|a: u8, b: u8, c: u8, d: u8, port: u16|
                addr@ == #[trigger] v4_socket_text(a, b, c, d, port) ==> url@ == UrlView::v4(
                    a,
                    b,
                    c,
                    d,
                    port,
                ),
    {
        proof {
            reveal_strlit("ws://");
        }
        let mut text = "ws://".to_owned();
        text.append(leave_scope_out(addr).as_str());
        assert(text@ == websocket_prefix() + without_scope(addr@));
        proof {
            assert forall|a: u8, b: u8, c: u8, d: u8, port: u16|
                addr@ == #[trigger] v4_socket_text(a, b, c, d, port) implies without_scope(addr@)
                == addr@ by {
                lemma_decimal_begins_with_digit(a as nat);
                assert(addr@[0] == decimal(a as nat)[0]);
            }
        }
        PeerUrl::or_unknown(parse_url(text.as_str()))
    }

    /// The URL that a client's address gave, or the one of an unknown client.
    pub fn or_unknown(parsed: Option<PeerUrl>) -> (url: PeerUrl)
        ensures
            parsed matches Some(given) ==> url == given,
            parsed is None ==> url@ == unknown_client(),
    {
        match parsed {
            Some(url) => url,
            None => {
                proof {
                    lemma_unknown_client_text();
                }
                parse_url(UNKNOWN_CLIENT).unwrap()
            },
        }
    }

    /// The IP and port in the URL, where it names a host.
    pub fn address(&self) -> (address: Option<Address>)
        ensures
            (match address {
                Some(address) => Some((address.host@, address.port)),
                None => None,
            }) == self@.address(),
    {
        match &self.host {
            Some(host) => Some(Address { host: host.clone(), port: self.port }),
            None => None,
        }
    }

    /// The normalised text of the URL.
    pub fn text(&self) -> (text: &String)
        ensures
            text@ == self@.text,
    {
        &self.text
    }

    /// The URL with all its parts, as it is shown to a programmer.
    pub fn shown(&self) -> (shown: &String)
        ensures
            shown@ == self@.shown,
    {
        &self.shown
    }
}

/// A client is known by its IP and port, whatever the scope of its address: the URL is the one that
/// it would have without it.
pub proof fn law_scope_is_left_out(ip: Seq<char>, scope: Seq<char>, port: Seq<char>)
    requires
        !ip.contains('%'),
        !ip.contains(']'),
        !scope.contains(']'),
        !port.contains('%'),
    ensures
        without_scope(seq!['['] + ip + seq!['%'] + scope + seq![']', ':'] + port) == seq!['['] + ip
            + seq![']', ':'] + port,
        client_url(seq!['['] + ip + seq!['%'] + scope + seq![']', ':'] + port) == client_url(
            seq!['['] + ip + seq![']', ':'] + port,
        ),
{
    let scoped = seq!['['] + ip + seq!['%'] + scope + seq![']', ':'] + port;
    let plain = seq!['['] + ip + seq![']', ':'] + port;
    let start = 1 + ip.len() as int;
    let end = start + 1 + scope.len();
    assert forall|i: int| 0 <= i < start implies scoped[i] != '%' && plain[i] != '%' by {
        if i > 0 {
            assert(ip[i - 1] != '%');
            assert(scoped[i] == ip[i - 1] && plain[i] == ip[i - 1]);
        }
    }
    assert forall|i: int| start < i < end implies scoped[i] != ']' by {
        assert(scope[i - start - 1] != ']');
        assert(scoped[i] == scope[i - start - 1]);
    }
    assert forall|i: int| start <= i < plain.len() implies plain[i] != '%' by {
        if i >= start + 2 {
            assert(port[i - start - 2] != '%');
            assert(plain[i] == port[i - start - 2]);
        }
    }
    assert(scoped[start] == '%' && scoped[end] == ']');
    lemma_first_at(scoped, '%', 0, start);
    lemma_first_at(scoped, ']', start, end);
    lemma_first_at(plain, '%', 0, plain.len() as int);
    assert(without_scope(scoped) == plain);
    assert(without_scope(plain) == plain);
}

/// Where the first place of a character is.
proof fn lemma_first_at(text: Seq<char>, c: char, from: int, place: int)
    requires
        0 <= from <= place <= text.len(),
        forall|i: int| from <= i < place ==> text[i] != c,
        place < text.len() ==> text[place] == c,
    ensures
        first_at(text, c, from) == place,
    decreases place - from,
{
    if from < place {
        lemma_first_at(text, c, from + 1, place);
    }
}

/// The literal of the default server is the text of its IPv4 address and port.
proof fn lemma_default_server_text()
    ensures
        DEFAULT_SERVER@ == websocket_prefix() + v4_socket_text(127, 0, 0, 1, 9999),
{
    reveal_strlit("ws://127.0.0.1:9999");
    reveal_with_fuel(decimal, 5);
    assert(decimal(127) == seq!['1', '2', '7']);
    assert(decimal(9999) == seq!['9', '9', '9', '9']);
}

/// The literal of an unknown client is a word and a number.
proof fn lemma_unknown_client_text()
    ensures
        UNKNOWN_CLIENT@ == hostless_text("localhost"@, "9999"@),
        is_word_and_number("localhost"@, "9999"@),
{
    reveal_strlit("localhost:9999");
    reveal_strlit("localhost");
    reveal_strlit("9999");
}

} // verus!
