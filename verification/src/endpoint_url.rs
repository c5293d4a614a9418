//! URLs of listeners and peers, and what their schemes stand for.
use vstd::prelude::*;

use crate::addr::{IpAddress, IpScheme, SocketAddress};
use crate::text::same_text;

verus! {

/// The host of a URL. In URLs of most schemes an IPv4 address is a domain as far as the syntax
/// goes.
#[derive(Debug, PartialEq, Eq)]
pub enum UrlHost {
    Missing,
    Domain(String),
    Ipv4(u32),
    Ipv6(u128),
}

pub ghost enum HostParts {
    Missing,
    Domain(Seq<char>),
    Ipv4(u32),
    Ipv6(u128),
}

impl View for UrlHost {
    type V = HostParts;

    open spec fn view(&self) -> HostParts {
        match self {
            UrlHost::Missing => HostParts::Missing,
            UrlHost::Domain(name) => HostParts::Domain(name@),
            UrlHost::Ipv4(ip) => HostParts::Ipv4(*ip),
            UrlHost::Ipv6(ip) => HostParts::Ipv6(*ip),
        }
    }
}

/// The parts of a URL that decisions depend on, and its normalised text. The port is absent where
/// the text leaves it out or where it is the one that the scheme stands for anyway.
#[derive(Debug, PartialEq, Eq)]
pub struct EndpointUrl {
    pub text: String,
    pub scheme: String,
    pub host: UrlHost,
    pub port: Option<u16>,
}

pub ghost struct UrlParts {
    pub text: Seq<char>,
    pub scheme: Seq<char>,
    pub host: HostParts,
    pub port: Option<u16>,
}

impl View for EndpointUrl {
    type V = UrlParts;

    open spec fn view(&self) -> UrlParts {
        UrlParts {
            text: self.text@,
            scheme: self.scheme@,
            host: self.host@,
            port: self.port,
        }
    }
}

/// A text is no URL.
#[derive(Clone, Copy, Debug, PartialEq, Eq, Structural)]
pub struct InvalidUrl;

/// What `url::Url::parse` makes of a text.
pub uninterp spec fn url_from_text(text: Seq<char>) -> Option<UrlParts>;

/// The text of a URL after `url::Url::set_query` has taken its query away.
pub uninterp spec fn url_without_query(text: Seq<char>) -> Option<Seq<char>>;

/// The text of a URL after `url::Url::set_host` has set an address as its host.
pub uninterp spec fn url_with_ip(text: Seq<char>, ip: IpAddress) -> Option<Seq<char>>;

/// The text of a URL after `url::Url::set_port` has set its port.
pub uninterp spec fn url_with_port(text: Seq<char>, port: u16) -> Option<Seq<char>>;

pub open spec fn text_of(text: Option<String>) -> Option<Seq<char>> {
    match text {
        Some(text) => Some(text@),
        None => None,
    }
}

/// Parses a URL with `url::Url::parse` and takes it apart with `as_str`, `scheme`, `host` and
/// `port`. What is claimed of it: the result depends on the text alone.
#[verifier::external_body]
fn parse_url(text: &str) -> (r: Option<EndpointUrl>)
    ensures
        match r {
            Some(url) => url_from_text(text@) == Some(url@),
            None => url_from_text(text@) is None,
        },
{
    let url = url::Url::parse(text).ok()?;
    let host = match url.host() {
        None => UrlHost::Missing,
        Some(url::Host::Domain(name)) => UrlHost::Domain(name.to_owned()),
        Some(url::Host::Ipv4(ip)) => UrlHost::Ipv4(ip.into()),
        Some(url::Host::Ipv6(ip)) => UrlHost::Ipv6(ip.into()),
    };
    let port = url.port();
    Some(EndpointUrl { text: url.as_str().to_owned(), scheme: url.scheme().to_owned(), host, port })
}

/// Takes the query of a URL away with `url::Url::set_query`. What is claimed of it: the result
/// depends on the text alone; there is none where the text is no URL.
#[verifier::external_body]
fn drop_query(text: &str) -> (r: Option<String>)
    ensures
        text_of(r) == url_without_query(text@),
{
    let mut url = url::Url::parse(text).ok()?;
    url.set_query(None);
    Some(url.as_str().to_owned())
}

/// Sets an address as the host of a URL with `url::Url::set_host`. What is claimed of it: the
/// result depends on the text and the address alone; there is none where the text is no URL or
/// the URL cannot have a host.
#[verifier::external_body]
fn set_ip(text: &str, ip: IpAddress) -> (r: Option<String>)
    ensures
        text_of(r) == url_with_ip(text@, ip),
{
    let mut url = url::Url::parse(text).ok()?;
    let host: url::Host<String> = match ip {
        IpAddress::V4(ip) => url::Host::Ipv4(ip.into()),
        IpAddress::V6(ip) => url::Host::Ipv6(ip.into()),
    };
    url.set_host(Some(&host.to_string())).ok()?;
    Some(url.as_str().to_owned())
}

/// Sets the port of a URL with `url::Url::set_port`. What is claimed of it: the result depends on
/// the text and the port alone; there is none where the text is no URL or the URL cannot have a
/// port.
#[verifier::external_body]
fn set_port(text: &str, port: u16) -> (r: Option<String>)
    ensures
        text_of(r) == url_with_port(text@, port),
{
    let mut url = url::Url::parse(text).ok()?;
    url.set_port(Some(port)).ok()?;
    Some(url.as_str().to_owned())
}

impl EndpointUrl {
    /// Reads a URL.
    pub fn parse(text: &str) -> (r: Result<EndpointUrl, InvalidUrl>)
        ensures
            match r {
                Ok(url) => url_from_text(text@) == Some(url@),
                Err(_) => url_from_text(text@) is None,
            },
    {
        match parse_url(text) {
            Some(url) => Ok(url),
            None => Err(InvalidUrl),
        }
    }

    pub fn copy(&self) -> (r: EndpointUrl)
        ensures
            r@ == self@,
    {
        let host = match &self.host {
            UrlHost::Missing => UrlHost::Missing,
            UrlHost::Domain(name) => UrlHost::Domain(name.clone()),
            UrlHost::Ipv4(ip) => UrlHost::Ipv4(*ip),
            UrlHost::Ipv6(ip) => UrlHost::Ipv6(*ip),
        };
        EndpointUrl { text: self.text.clone(), scheme: self.scheme.clone(), host, port: self.port }
    }
}

/// What a URL's scheme stands for.
#[derive(Clone, Copy, Debug, PartialEq, Eq, Structural)]
pub enum TunnelScheme {
    Ip(IpScheme),
    Unix,
    Http,
    Https,
    Ring,
    Txt,
    Srv,
}

/// The scheme that a word stands for.
pub open spec fn scheme_named(word: Seq<char>) -> Option<TunnelScheme> {
    if word == "tcp"@ {
        Some(TunnelScheme::Ip(IpScheme::Tcp))
    } else if word == "udp"@ {
        Some(TunnelScheme::Ip(IpScheme::Udp))
    } else if word == "wg"@ {
        Some(TunnelScheme::Ip(IpScheme::Wg))
    } else if word == "quic"@ {
        Some(TunnelScheme::Ip(IpScheme::Quic))
    } else if word == "quic-brutal"@ {
        Some(TunnelScheme::Ip(IpScheme::QuicBrutal))
    } else if word == "ws"@ {
        Some(TunnelScheme::Ip(IpScheme::Ws))
    } else if word == "wss"@ {
        Some(TunnelScheme::Ip(IpScheme::Wss))
    } else if word == "faketcp"@ {
        Some(TunnelScheme::Ip(IpScheme::FakeTcp))
    } else if word == "unix"@ {
        Some(TunnelScheme::Unix)
    } else if word == "http"@ {
        Some(TunnelScheme::Http)
    } else if word == "https"@ {
        Some(TunnelScheme::Https)
    } else if word == "ring"@ {
        Some(TunnelScheme::Ring)
    } else if word == "txt"@ {
        Some(TunnelScheme::Txt)
    } else if word == "srv"@ {
        Some(TunnelScheme::Srv)
    } else {
        None
    }
}

pub fn scheme_by_name(word: &str) -> (r: Option<TunnelScheme>)
    ensures
        r == scheme_named(word@),
{
    if same_text(word, "tcp") {
        Some(TunnelScheme::Ip(IpScheme::Tcp))
    } else if same_text(word, "udp") {
        Some(TunnelScheme::Ip(IpScheme::Udp))
    } else if same_text(word, "wg") {
        Some(TunnelScheme::Ip(IpScheme::Wg))
    } else if same_text(word, "quic") {
        Some(TunnelScheme::Ip(IpScheme::Quic))
    } else if same_text(word, "quic-brutal") {
        Some(TunnelScheme::Ip(IpScheme::QuicBrutal))
    } else if same_text(word, "ws") {
        Some(TunnelScheme::Ip(IpScheme::Ws))
    } else if same_text(word, "wss") {
        Some(TunnelScheme::Ip(IpScheme::Wss))
    } else if same_text(word, "faketcp") {
        Some(TunnelScheme::Ip(IpScheme::FakeTcp))
    } else if same_text(word, "unix") {
        Some(TunnelScheme::Unix)
    } else if same_text(word, "http") {
        Some(TunnelScheme::Http)
    } else if same_text(word, "https") {
        Some(TunnelScheme::Https)
    } else if same_text(word, "ring") {
        Some(TunnelScheme::Ring)
    } else if same_text(word, "txt") {
        Some(TunnelScheme::Txt)
    } else if same_text(word, "srv") {
        Some(TunnelScheme::Srv)
    } else {
        None
    }
}

/// The ports of the transports on which a deployment agrees; those of the others are fixed.
#[derive(Clone, Copy, Debug, PartialEq, Eq, Structural)]
pub struct AgreedPorts {
    pub wg: u16,
    pub quic: u16,
    pub quic_brutal: u16,
    pub faketcp: u16,
}

impl IpScheme {
    /// The port that a URL without one stands for.
    pub open spec fn usual_port(self, agreed: AgreedPorts) -> u16 {
        match self {
            IpScheme::Tcp => 11010,
            IpScheme::Udp => 11010,
            IpScheme::Wg => agreed.wg,
            IpScheme::Quic => agreed.quic,
            IpScheme::QuicBrutal => agreed.quic_brutal,
            IpScheme::Ws => 80,
            IpScheme::Wss => 443,
            IpScheme::FakeTcp => agreed.faketcp,
        }
    }

    pub fn default_port(self, agreed: &AgreedPorts) -> (r: u16)
        ensures
            r == self.usual_port(*agreed),
    {
        match self {
            IpScheme::Tcp => 11010,
            IpScheme::Udp => 11010,
            IpScheme::Wg => agreed.wg,
            IpScheme::Quic => agreed.quic,
            IpScheme::QuicBrutal => agreed.quic_brutal,
            IpScheme::Ws => 80,
            IpScheme::Wss => 443,
            IpScheme::FakeTcp => agreed.faketcp,
        }
    }

    /// The transport runs over UDP.
    pub open spec fn over_udp(self) -> bool {
        self is Udp || self is Wg || self is Quic || self is QuicBrutal
    }

    pub fn runs_over_udp(self) -> (r: bool)
        ensures
            r == self.over_udp(),
    {
        match self {
            IpScheme::Udp | IpScheme::Wg | IpScheme::Quic | IpScheme::QuicBrutal => true,
            _ => false,
        }
    }
}

impl UrlParts {
    pub open spec fn ip_scheme(self) -> Option<IpScheme> {
        match scheme_named(self.scheme) {
            Some(TunnelScheme::Ip(scheme)) => Some(scheme),
            _ => None,
        }
    }

    /// The port of the URL: its own or the usual one of its scheme.
    pub open spec fn effective_port(self, agreed: AgreedPorts) -> Option<u16> {
        match self.port {
            Some(port) => Some(port),
            None => match self.ip_scheme() {
                Some(scheme) => Some(scheme.usual_port(agreed)),
                None => None,
            },
        }
    }

    pub open spec fn over_udp(self) -> bool {
        self.ip_scheme() is Some && self.ip_scheme()->0.over_udp()
    }
}

impl EndpointUrl {
    pub fn ip_scheme(&self) -> (r: Option<IpScheme>)
        ensures
            r == self@.ip_scheme(),
    {
        match scheme_by_name(self.scheme.as_str()) {
            Some(TunnelScheme::Ip(scheme)) => Some(scheme),
            _ => None,
        }
    }

    pub fn runs_over_udp(&self) -> (r: bool)
        ensures
            r == self@.over_udp(),
    {
        match self.ip_scheme() {
            Some(scheme) => scheme.runs_over_udp(),
            None => false,
        }
    }
}

/// The port that the scheme of a URL stands for.
pub fn connector_default_port(url: &EndpointUrl, agreed: &AgreedPorts) -> (r: Option<u16>)
    ensures
        r == (match url@.ip_scheme() {
            Some(scheme) => Some(scheme.usual_port(*agreed)),
            None => None::<u16>,
        }),
{
    match url.ip_scheme() {
        Some(scheme) => Some(scheme.default_port(agreed)),
        None => None,
    }
}

/// The port of a listener: its own or the one that its scheme stands for.
pub fn mapped_listener_port(url: &EndpointUrl, agreed: &AgreedPorts) -> (r: Option<u16>)
    ensures
        r == url@.effective_port(*agreed),
{
    match url.port {
        Some(port) => Some(port),
        None => connector_default_port(url, agreed),
    }
}

/// The text of the URL under which a listener is reached at an address. The query of a
/// `quic-brutal` listener is dropped: the rate in it is the listener's own.
pub open spec fn listener_text_at(listener: UrlParts, addr: SocketAddress) -> Option<Seq<char>> {
    let text = if listener.scheme == "quic-brutal"@ {
        url_without_query(listener.text)
    } else {
        Some(listener.text)
    };
    match text {
        None => None,
        Some(text) => match url_with_ip(text, addr.spec_ip()) {
            None => None,
            Some(text) => url_with_port(text, addr.spec_port()),
        },
    }
}

/// The URL under which a listener is reached at an address.
pub open spec fn listener_url_at(listener: UrlParts, addr: SocketAddress) -> Option<UrlParts> {
    match listener_text_at(listener, addr) {
        None => None,
        Some(text) => url_from_text(text),
    }
}

pub fn listener_url_for_addr(listener: &EndpointUrl, addr: SocketAddress) -> (r: Option<
    EndpointUrl,
>)
    ensures
        match r {
            Some(url) => listener_url_at(listener@, addr) == Some(url@),
            None => listener_url_at(listener@, addr) is None,
        },
{
    let text = if same_text(listener.scheme.as_str(), "quic-brutal") {
        match drop_query(listener.text.as_str()) {
            Some(text) => text,
            None => {
                return None;
            },
        }
    } else {
        listener.text.clone()
    };
    let text = match set_ip(text.as_str(), addr.ip()) {
        Some(text) => text,
        None => {
            return None;
        },
    };
    match set_port(text.as_str(), addr.port()) {
        Some(text) => parse_url(text.as_str()),
        None => None,
    }
}

proof fn lemma_scheme_words_differ()
    ensures
        "tcp"@ != "udp"@,
        "tcp"@ != "wg"@,
        "tcp"@ != "quic"@,
        "tcp"@ != "quic-brutal"@,
        "tcp"@ != "ws"@,
        "tcp"@ != "wss"@,
        "tcp"@ != "faketcp"@,
        "tcp"@ != "unix"@,
        "tcp"@ != "http"@,
        "tcp"@ != "https"@,
        "tcp"@ != "ring"@,
        "tcp"@ != "txt"@,
        "tcp"@ != "srv"@,
        "udp"@ != "wg"@,
        "udp"@ != "quic"@,
        "udp"@ != "quic-brutal"@,
        "udp"@ != "ws"@,
        "udp"@ != "wss"@,
        "udp"@ != "faketcp"@,
        "udp"@ != "unix"@,
        "udp"@ != "http"@,
        "udp"@ != "https"@,
        "udp"@ != "ring"@,
        "udp"@ != "txt"@,
        "udp"@ != "srv"@,
        "wg"@ != "quic"@,
        "wg"@ != "quic-brutal"@,
        "wg"@ != "ws"@,
        "wg"@ != "wss"@,
        "wg"@ != "faketcp"@,
        "wg"@ != "unix"@,
        "wg"@ != "http"@,
        "wg"@ != "https"@,
        "wg"@ != "ring"@,
        "wg"@ != "txt"@,
        "wg"@ != "srv"@,
        "quic"@ != "quic-brutal"@,
        "quic"@ != "ws"@,
        "quic"@ != "wss"@,
        "quic"@ != "faketcp"@,
        "quic"@ != "unix"@,
        "quic"@ != "http"@,
        "quic"@ != "https"@,
        "quic"@ != "ring"@,
        "quic"@ != "txt"@,
        "quic"@ != "srv"@,
        "quic-brutal"@ != "ws"@,
        "quic-brutal"@ != "wss"@,
        "quic-brutal"@ != "faketcp"@,
        "quic-brutal"@ != "unix"@,
        "quic-brutal"@ != "http"@,
        "quic-brutal"@ != "https"@,
        "quic-brutal"@ != "ring"@,
        "quic-brutal"@ != "txt"@,
        "quic-brutal"@ != "srv"@,
        "ws"@ != "wss"@,
        "ws"@ != "faketcp"@,
        "ws"@ != "unix"@,
        "ws"@ != "http"@,
        "ws"@ != "https"@,
        "ws"@ != "ring"@,
        "ws"@ != "txt"@,
        "ws"@ != "srv"@,
        "wss"@ != "faketcp"@,
        "wss"@ != "unix"@,
        "wss"@ != "http"@,
        "wss"@ != "https"@,
        "wss"@ != "ring"@,
        "wss"@ != "txt"@,
        "wss"@ != "srv"@,
        "faketcp"@ != "unix"@,
        "faketcp"@ != "http"@,
        "faketcp"@ != "https"@,
        "faketcp"@ != "ring"@,
        "faketcp"@ != "txt"@,
        "faketcp"@ != "srv"@,
        "unix"@ != "http"@,
        "unix"@ != "https"@,
        "unix"@ != "ring"@,
        "unix"@ != "txt"@,
        "unix"@ != "srv"@,
        "http"@ != "https"@,
        "http"@ != "ring"@,
        "http"@ != "txt"@,
        "http"@ != "srv"@,
        "https"@ != "ring"@,
        "https"@ != "txt"@,
        "https"@ != "srv"@,
        "ring"@ != "txt"@,
        "ring"@ != "srv"@,
        "txt"@ != "srv"@,
{
    reveal_strlit("tcp");
    reveal_strlit("udp");
    reveal_strlit("wg");
    reveal_strlit("quic");
    reveal_strlit("quic-brutal");
    reveal_strlit("ws");
    reveal_strlit("wss");
    reveal_strlit("faketcp");
    reveal_strlit("unix");
    reveal_strlit("http");
    reveal_strlit("https");
    reveal_strlit("ring");
    reveal_strlit("txt");
    reveal_strlit("srv");
    assert("tcp"@.len() == 3 && "udp"@.len() == 3 && "wg"@.len() == 2 && "quic"@.len() == 4 && "quic-brutal"@.len() == 11 && "ws"@.len() == 2 && "wss"@.len() == 3);
    assert("faketcp"@.len() == 7 && "unix"@.len() == 4 && "http"@.len() == 4 && "https"@.len() == 5 && "ring"@.len() == 4 && "txt"@.len() == 3 && "srv"@.len() == 3);
    assert("tcp"@[0] != "udp"@[0]);
    assert("tcp"@[0] != "wss"@[0]);
    assert("tcp"@[1] != "txt"@[1]);
    assert("tcp"@[0] != "srv"@[0]);
    assert("udp"@[0] != "wss"@[0]);
    assert("udp"@[0] != "txt"@[0]);
    assert("udp"@[0] != "srv"@[0]);
    assert("wg"@[1] != "ws"@[1]);
    assert("quic"@[0] != "unix"@[0]);
    assert("quic"@[0] != "http"@[0]);
    assert("quic"@[0] != "ring"@[0]);
    assert("wss"@[0] != "txt"@[0]);
    assert("wss"@[0] != "srv"@[0]);
    assert("unix"@[0] != "http"@[0]);
    assert("unix"@[0] != "ring"@[0]);
    assert("http"@[0] != "ring"@[0]);
    assert("txt"@[0] != "srv"@[0]);
}

/// Each scheme has one word, and each word means one scheme.
pub proof fn law_words_mean_their_schemes(word: Seq<char>)
    ensures
        scheme_named(word) == Some(TunnelScheme::Ip(IpScheme::Tcp)) <==> word == "tcp"@,
        scheme_named(word) == Some(TunnelScheme::Ip(IpScheme::Udp)) <==> word == "udp"@,
        scheme_named(word) == Some(TunnelScheme::Ip(IpScheme::Wg)) <==> word == "wg"@,
        scheme_named(word) == Some(TunnelScheme::Ip(IpScheme::Quic)) <==> word == "quic"@,
        scheme_named(word) == Some(TunnelScheme::Ip(IpScheme::QuicBrutal)) <==> word == "quic-brutal"@,
        scheme_named(word) == Some(TunnelScheme::Ip(IpScheme::Ws)) <==> word == "ws"@,
        scheme_named(word) == Some(TunnelScheme::Ip(IpScheme::Wss)) <==> word == "wss"@,
        scheme_named(word) == Some(TunnelScheme::Ip(IpScheme::FakeTcp)) <==> word == "faketcp"@,
        scheme_named(word) == Some(TunnelScheme::Unix) <==> word == "unix"@,
        scheme_named(word) == Some(TunnelScheme::Http) <==> word == "http"@,
        scheme_named(word) == Some(TunnelScheme::Https) <==> word == "https"@,
        scheme_named(word) == Some(TunnelScheme::Ring) <==> word == "ring"@,
        scheme_named(word) == Some(TunnelScheme::Txt) <==> word == "txt"@,
        scheme_named(word) == Some(TunnelScheme::Srv) <==> word == "srv"@,
{
    lemma_scheme_words_differ();
}

/// A URL's own port counts; without one the usual port of its transport does, which is 11010 for TCP and
/// UDP, 80 and 443 for WebSocket without and with TLS, and agreed for the others. A URL of no transport
/// has no usual port.
pub proof fn law_ports_of_urls(url: UrlParts, agreed: AgreedPorts)
    ensures
        url.port is Some ==> url.effective_port(agreed) == url.port,
        url.port is None && url.ip_scheme() is None ==> url.effective_port(agreed) is None,
        url.port is None && url.ip_scheme() is Some ==> url.effective_port(agreed) is Some,
        url.port is None && (url.scheme == "tcp"@ || url.scheme == "udp"@) ==> url.effective_port(agreed)
            == Some(11010u16),
        url.port is None && url.scheme == "ws"@ ==> url.effective_port(agreed) == Some(80u16),
        url.port is None && url.scheme == "wss"@ ==> url.effective_port(agreed) == Some(443u16),
        url.port is None && url.scheme == "wg"@ ==> url.effective_port(agreed) == Some(agreed.wg),
        url.port is None && url.scheme == "quic"@ ==> url.effective_port(agreed) == Some(agreed.quic),
        url.port is None && url.scheme == "quic-brutal"@ ==> url.effective_port(agreed) == Some(
            agreed.quic_brutal,
        ),
        url.port is None && url.scheme == "faketcp"@ ==> url.effective_port(agreed) == Some(
            agreed.faketcp,
        ),
{
    lemma_scheme_words_differ();
}

/// UDP, WireGuard and both kinds of QUIC run over UDP, and no other scheme does.
pub proof fn law_schemes_over_udp(url: UrlParts)
    ensures
        url.over_udp() <==> url.scheme == "udp"@ || url.scheme == "wg"@ || url.scheme == "quic"@
            || url.scheme == "quic-brutal"@,
{
    lemma_scheme_words_differ();
}

/// A listener is reached at an address under its own URL with the address as the host and its port; the
/// query is taken away for the one scheme whose query is the listener's own.
pub proof fn law_listeners_are_reached_under_their_url(
    listener: UrlParts,
    addr: SocketAddress,
    hosted: Seq<char>,
    ported: Seq<char>,
)
    requires
        url_with_port(hosted, addr.spec_port()) == Some(ported),
    ensures
        listener.scheme != "quic-brutal"@ && url_with_ip(listener.text, addr.spec_ip()) == Some(hosted)
            ==> listener_url_at(listener, addr) == url_from_text(ported),
        listener.scheme == "quic-brutal"@ && url_without_query(listener.text) is Some && url_with_ip(
            url_without_query(listener.text)->0,
            addr.spec_ip(),
        ) == Some(hosted) ==> listener_url_at(listener, addr) == url_from_text(ported),
{
}

/// A URL has a usual port just where its scheme is known.
pub proof fn law_known_schemes_have_usual_ports(url: &EndpointUrl, agreed: &AgreedPorts, r: Option<u16>)
    requires
        call_ensures(connector_default_port, (url, agreed), r),
    ensures
        r is Some <==> url@.ip_scheme() is Some,
        r is Some && url@.port is None ==> url@.effective_port(*agreed) == r,
{
}

} // verus!
