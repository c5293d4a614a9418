//! A managed SOCKS5 server: how it is started, and how it is found to be ready for TCP and UDP.
use vstd::prelude::*;
use vstd::slice::slice_subrange;

use crate::addr::{IpAddress, SocketAddress};
use crate::text::{number_text, number_to_text};

verus! {

pub const DEFAULT_PORT_CANDIDATES: [u16; 3] = [11080, 11081, 11082];

pub const UDP_BUFFER_SIZE: usize = 65_535;

pub const UDP_READINESS_PAYLOAD_SIZE: usize = 8192;

/// How long one readiness probe may take, in milliseconds.
pub const READINESS_ATTEMPT_TIMEOUT_MS: u64 = 1_000;

/// How long to wait between two readiness probes, in milliseconds.
pub const READINESS_PAUSE_MS: u64 = 40;

/// How the server is started.
#[derive(Debug)]
pub struct GostProcessConfig {
    pub executable: String,
    pub listen_address: IpAddress,
    pub port_candidates: Vec<u16>,
    /// In milliseconds.
    pub setup_timeout_ms: u64,
}

impl GostProcessConfig {
    /// Listens on the IPv4 loopback address, on one of a few ports.
    pub fn new(executable: String) -> (r: Self)
        ensures
            r.executable == executable,
            r.listen_address == IpAddress::V4(0x7f00_0001),
            r.port_candidates@ == seq![11080u16, 11081, 11082],
            r.setup_timeout_ms == 5000,
    {
        let mut port_candidates: Vec<u16> = Vec::new();
        port_candidates.push(DEFAULT_PORT_CANDIDATES[0]);
        port_candidates.push(DEFAULT_PORT_CANDIDATES[1]);
        port_candidates.push(DEFAULT_PORT_CANDIDATES[2]);
        assert(port_candidates@ =~= seq![11080u16, 11081, 11082]);
        GostProcessConfig {
            executable,
            listen_address: IpAddress::V4(0x7f00_0001),
            port_candidates,
            setup_timeout_ms: 5000,
        }
    }
}

/// The server cannot be started as configured.
#[derive(Clone, Copy, Debug, PartialEq, Eq, Structural)]
pub enum GostConfigError {
    NoPortCandidate,
    NotLoopback,
    MissingExecutable,
}

pub open spec fn config_result(config: GostProcessConfig, executable_is_file: bool) -> Result<
    (),
    GostConfigError,
> {
    if config.port_candidates@.len() == 0 {
        Err(GostConfigError::NoPortCandidate)
    } else if !config.listen_address.loopback() {
        Err(GostConfigError::NotLoopback)
    } else if !executable_is_file {
        Err(GostConfigError::MissingExecutable)
    } else {
        Ok(())
    }
}

/// Checks how the server is to be started.
pub fn check_gost_config(config: &GostProcessConfig, executable_is_file: bool) -> (r: Result<
    (),
    GostConfigError,
>)
    ensures
        r == config_result(*config, executable_is_file),
{
    if config.port_candidates.is_empty() {
        return Err(GostConfigError::NoPortCandidate);
    }
    if !config.listen_address.is_loopback() {
        return Err(GostConfigError::NotLoopback);
    }
    if !executable_is_file {
        return Err(GostConfigError::MissingExecutable);
    }
    Ok(())
}

/// The text of an IPv6 address, as the standard library displays it.
pub uninterp spec fn ipv6_text(ip: u128) -> Seq<char>;

/// Formats an IPv6 address with the `Display` of the standard library. What is claimed of it: the
/// text depends on the address alone.
#[verifier::external_body]
fn format_ipv6(ip: u128) -> (r: String)
    ensures
        r@ == ipv6_text(ip),
{
    cidr::Ipv6Inet::new_host(ip.into()).address().to_string()
}

/// The text of an IPv4 address: its four bytes with dots between them.
pub open spec fn ipv4_text(ip: u32) -> Seq<char> {
    number_text(ip as int / 0x100_0000) + "."@ + number_text(ip as int / 0x1_0000 % 0x100) + "."@
        + number_text(ip as int / 0x100 % 0x100) + "."@ + number_text(ip as int % 0x100)
}

fn format_ipv4(ip: u32) -> (r: String)
    ensures
        r@ == ipv4_text(ip),
{
    let mut out = number_to_text(ip / 0x100_0000);
    out.append(".");
    out.append(number_to_text(ip / 0x1_0000 % 0x100).as_str());
    out.append(".");
    out.append(number_to_text(ip / 0x100 % 0x100).as_str());
    out.append(".");
    out.append(number_to_text(ip % 0x100).as_str());
    out
}

/// The scope of an IPv6 address, where it has one.
pub open spec fn scope_text(scope_id: u32) -> Seq<char> {
    if scope_id == 0 {
        Seq::empty()
    } else {
        "%"@ + number_text(scope_id as int)
    }
}

/// The text of an endpoint: its address, an IPv6 one in brackets and with its scope, and its port.
pub open spec fn endpoint_text(endpoint: SocketAddress) -> Seq<char> {
    match endpoint {
        SocketAddress::V4 { ipv4, port } => ipv4_text(ipv4) + ":"@ + number_text(port as int),
        SocketAddress::V6 { ipv6, port, scope_id, .. } => "["@ + ipv6_text(ipv6) + scope_text(
            scope_id,
        ) + "]:"@ + number_text(port as int),
    }
}

fn format_endpoint(endpoint: SocketAddress) -> (r: String)
    ensures
        r@ == endpoint_text(endpoint),
{
    match endpoint {
        SocketAddress::V4 { ipv4, port } => {
            let mut out = format_ipv4(ipv4);
            out.append(":");
            out.append(number_to_text(port as u32).as_str());
            out
        },
        SocketAddress::V6 { ipv6, port, scope_id, .. } => {
            let mut out = "[".to_owned();
            out.append(format_ipv6(ipv6).as_str());
            if scope_id != 0 {
                out.append("%");
                out.append(number_to_text(scope_id).as_str());
            }
            out.append("]:");
            out.append(number_to_text(port as u32).as_str());
            assert(out@ =~= endpoint_text(endpoint));
            out
        },
    }
}

/// The URL that tells the server where to listen: with UDP, with a bounded buffer, and with the
/// sender of the first packet as the only one to be answered.
pub open spec fn listener_text(endpoint: Seq<char>) -> Seq<char> {
    "socks5://"@ + endpoint + "?udp=true&udpBufferSize=65535&udpSourceCheck=first-packet"@
}

/// Builds the URL for an endpoint that is given as text.
pub fn gost_listener_url_at(endpoint: &str) -> (r: String)
    ensures
        r@ == listener_text(endpoint@),
{
    let mut out = "socks5://".to_owned();
    out.append(endpoint);
    out.append("?udp=true&udpBufferSize=65535&udpSourceCheck=first-packet");
    assert(out@ =~= listener_text(endpoint@));
    out
}

pub fn gost_listener_url(endpoint: SocketAddress) -> (r: String)
    ensures
        r@ == listener_text(endpoint_text(endpoint)),
{
    let text = format_endpoint(endpoint);
    gost_listener_url_at(text.as_str())
}

/// What to do next to start the server.
#[derive(Clone, Copy, Debug, PartialEq, Eq, Structural)]
pub enum StartStep {
    Start(SocketAddress),
    /// No candidate is left.
    Exhausted,
}

/// The text of the failures, one after the other.
pub open spec fn joined_failures(failures: Seq<String>) -> Seq<char>
    decreases failures.len(),
{
    if failures.len() == 0 {
        Seq::empty()
    } else if failures.len() == 1 {
        failures[0]@
    } else {
        joined_failures(failures.drop_last()) + "; "@ + failures.last()@
    }
}

/// Starting the server on one port after the other.
#[derive(Debug)]
pub struct GostStart {
    pub listen_address: IpAddress,
    pub port_candidates: Vec<u16>,
    pub next: usize,
    pub failures: Vec<String>,
}

impl GostStart {
    pub open spec fn wf(&self) -> bool {
        self.next <= self.port_candidates@.len()
    }

    /// The place of the first candidate from `from` on that is a port at all.
    pub open spec fn usable_from(ports: Seq<u16>, from: int) -> int
        decreases ports.len() - from,
    {
        if 0 <= from < ports.len() && ports[from] == 0 {
            Self::usable_from(ports, from + 1)
        } else {
            from
        }
    }

    pub fn new(config: &GostProcessConfig) -> (r: Self)
        ensures
            r.wf(),
            r.listen_address == config.listen_address,
            r.port_candidates@ == config.port_candidates@,
            r.next == 0,
            r.failures@.len() == 0,
    {
        let port_candidates = config.port_candidates.clone();
        assert(port_candidates@ =~= config.port_candidates@);
        GostStart {
            listen_address: config.listen_address,
            port_candidates,
            next: 0,
            failures: Vec::new(),
        }
    }

    /// The next candidate. Port 0 is none, and counts as a failure.
    pub fn step(&mut self) -> (r: StartStep)
        requires
            old(self).wf(),
        ensures
            final(self).wf(),
            final(self).listen_address == old(self).listen_address,
            final(self).port_candidates == old(self).port_candidates,
            ({
                let place = Self::usable_from(old(self).port_candidates@, old(self).next as int);
                &&& old(self).next <= place <= old(self).port_candidates@.len()
                &&& r == (if place < old(self).port_candidates@.len() {
                    StartStep::Start(
                        SocketAddress::of(
                            old(self).listen_address,
                            old(self).port_candidates@[place],
                        ),
                    )
                } else {
                    StartStep::Exhausted
                })
                &&& final(self).next == (if r is Start {
                    place + 1
                } else {
                    place
                })
                &&& final(self).failures@.len() == old(self).failures@.len() + (place - old(self).next)
                &&& final(self).failures@.take(old(self).failures@.len() as int) == old(self).failures@
                &&& forall|i: int|
                    old(self).failures@.len() <= i < final(self).failures@.len() ==> (
                    #[trigger] final(self).failures@[i])@
                        == "port 0 is not a valid managed GOST candidate"@
            }),
    {
        let ghost first = self.next as int;
        let ghost had = self.failures@;
        let ghost ports = self.port_candidates@;
        assert(had.take(had.len() as int) =~= had);
        while self.next < self.port_candidates.len() && self.port_candidates[self.next] == 0
            invariant
                self.wf(),
                self.port_candidates@ == ports,
                self.port_candidates == old(self).port_candidates,
                self.listen_address == old(self).listen_address,
                first <= self.next,
                Self::usable_from(ports, first) == Self::usable_from(ports, self.next as int),
                self.failures@.len() == had.len() + (self.next - first),
                self.failures@.take(had.len() as int) == had,
                forall|i: int|
                    had.len() <= i < self.failures@.len() ==> (#[trigger] self.failures@[i])@
                        == "port 0 is not a valid managed GOST candidate"@,
            decreases self.port_candidates@.len() - self.next,
        {
            let ghost before = self.failures@;
            self.failures.push("port 0 is not a valid managed GOST candidate".to_owned());
            self.next = self.next + 1;
            assert(self.failures@.take(had.len() as int) =~= before.take(had.len() as int));
        }
        if self.next >= self.port_candidates.len() {
            return StartStep::Exhausted;
        }
        let port = self.port_candidates[self.next];
        self.next = self.next + 1;
        StartStep::Start(SocketAddress::new(self.listen_address, port))
    }

    /// Takes in that the server did not start on an endpoint.
    pub fn record_failure(&mut self, endpoint: SocketAddress, error: &str)
        requires
            old(self).wf(),
        ensures
            final(self).wf(),
            final(self).listen_address == old(self).listen_address,
            final(self).port_candidates == old(self).port_candidates,
            final(self).next == old(self).next,
            final(self).failures@.len() == old(self).failures@.len() + 1,
            final(self).failures@.drop_last() == old(self).failures@,
            final(self).failures@.last()@ == endpoint_text(endpoint) + ": "@ + error@,
    {
        let mut text = format_endpoint(endpoint);
        text.append(": ");
        text.append(error);
        let ghost before = self.failures@;
        self.failures.push(text);
        assert(self.failures@.drop_last() =~= before);
    }

    /// Why the server did not start.
    pub fn message(&self) -> (r: String)
        ensures
            r@ == "no managed GOST mesh-entry candidate became ready: "@ + joined_failures(
                self.failures@,
            ),
    {
        let mut joined = String::new();
        let mut i: usize = 0;
        assert(self.failures@.take(0) =~= Seq::<String>::empty());
        assert(joined@ =~= Seq::<char>::empty());
        while i < self.failures.len()
            invariant
                i <= self.failures@.len(),
                joined@ == joined_failures(self.failures@.take(i as int)),
            decreases self.failures@.len() - i,
        {
            assert(self.failures@.take(i as int + 1).drop_last() =~= self.failures@.take(i as int));
            if i > 0 {
                joined.append("; ");
            }
            joined.append(self.failures[i].as_str());
            i += 1;
            assert(joined@ =~= joined_failures(self.failures@.take(i as int)));
        }
        assert(self.failures@.take(self.failures@.len() as int) =~= self.failures@);
        let mut out = "no managed GOST mesh-entry candidate became ready: ".to_owned();
        out.append(joined.as_str());
        out
    }
}

/// What waiting for the server has come to.
#[derive(Clone, Copy, Debug, PartialEq, Eq, Structural)]
pub enum ReadinessStep {
    /// The server has ended by itself.
    Exited,
    Probe,
    Ready,
    TimedOut,
    /// Probe again after a pause.
    Pause { ms: u64 },
}

/// Starts a round of waiting for the server.
pub fn begin_readiness_round(exited: bool) -> (r: ReadinessStep)
    ensures
        r == (if exited {
            ReadinessStep::Exited
        } else {
            ReadinessStep::Probe
        }),
{
    if exited {
        ReadinessStep::Exited
    } else {
        ReadinessStep::Probe
    }
}

/// Takes in what came of a probe. A probe that succeeds late succeeds.
pub fn end_readiness_round(probe_succeeded: bool, deadline_reached: bool) -> (r: ReadinessStep)
    ensures
        r == (if probe_succeeded {
            ReadinessStep::Ready
        } else if deadline_reached {
            ReadinessStep::TimedOut
        } else {
            ReadinessStep::Pause { ms: READINESS_PAUSE_MS }
        }),
{
    if probe_succeeded {
        ReadinessStep::Ready
    } else if deadline_reached {
        ReadinessStep::TimedOut
    } else {
        ReadinessStep::Pause { ms: READINESS_PAUSE_MS }
    }
}

/// What is wrong with what the server sent.
#[derive(Clone, Copy, Debug, PartialEq, Eq, Structural)]
pub enum Socks5Error {
    /// The server wants a client to identify itself.
    AuthenticationRequired,
    AssociateFailed,
    /// The server named a host where an address was expected.
    DomainAddress,
    InvalidAddressType(u8),
    TruncatedAddress,
    ZeroPort,
    InvalidHeader,
    Fragmented,
    TruncatedDomain,
}

/// The request to go without authentication.
pub open spec fn greeting_request() -> Seq<u8> {
    seq![5, 1, 0]
}

pub fn encode_greeting() -> (r: Vec<u8>)
    ensures
        r@ == greeting_request(),
{
    let mut out: Vec<u8> = Vec::new();
    out.push(5);
    out.push(1);
    out.push(0);
    assert(out@ =~= greeting_request());
    out
}

/// Checks the answer to the greeting.
pub fn check_greeting(reply: &[u8]) -> (r: Result<(), Socks5Error>)
    ensures
        r == (if reply@ == seq![5u8, 0] {
            Ok::<(), Socks5Error>(())
        } else {
            Err(Socks5Error::AuthenticationRequired)
        }),
{
    if reply.len() == 2 && reply[0] == 5 && reply[1] == 0 {
        assert(reply@ =~= seq![5u8, 0]);
        Ok(())
    } else {
        Err(Socks5Error::AuthenticationRequired)
    }
}

/// The request to relay UDP.
pub open spec fn associate_request() -> Seq<u8> {
    seq![5, 3, 0, 1, 0, 0, 0, 0, 0, 0]
}

pub fn encode_associate() -> (r: Vec<u8>)
    ensures
        r@ == associate_request(),
{
    let mut out: Vec<u8> = Vec::new();
    out.push(5);
    out.push(3);
    out.push(0);
    out.push(1);
    let mut i: usize = 0;
    while i < 6
        invariant
            i <= 6,
            out@ == associate_request().take(4 + i),
        decreases 6 - i,
    {
        out.push(0);
        i += 1;
        assert(out@ =~= associate_request().take(4 + i));
    }
    assert(out@ =~= associate_request());
    out
}

/// The number of bytes of an address of a type.
pub open spec fn address_length(address_type: u8) -> Result<int, Socks5Error> {
    if address_type == 1 {
        Ok(4)
    } else if address_type == 4 {
        Ok(16)
    } else if address_type == 3 {
        Err(Socks5Error::DomainAddress)
    } else {
        Err(Socks5Error::InvalidAddressType(address_type))
    }
}

/// What the head of the answer to the request to relay UDP says: how many bytes of address follow.
pub open spec fn associate_result(header: Seq<u8>) -> Result<int, Socks5Error> {
    if header.len() == 4 && header[0] == 5 && header[1] == 0 && header[2] == 0 {
        address_length(header[3])
    } else {
        Err(Socks5Error::AssociateFailed)
    }
}

/// Checks the head of the answer to the request to relay UDP.
pub fn check_associate_reply(header: &[u8]) -> (r: Result<usize, Socks5Error>)
    ensures
        match r {
            Ok(length) => associate_result(header@) == Ok::<int, Socks5Error>(length as int),
            Err(error) => associate_result(header@) == Err::<int, Socks5Error>(error),
        },
{
    if header.len() != 4 || header[0] != 5 || header[1] != 0 || header[2] != 0 {
        return Err(Socks5Error::AssociateFailed);
    }
    let address_type: u8 = header[3];
    if address_type == 1 {
        Ok(4)
    } else if address_type == 4 {
        Ok(16)
    } else if address_type == 3 {
        Err(Socks5Error::DomainAddress)
    } else {
        Err(Socks5Error::InvalidAddressType(address_type))
    }
}

/// The number that bytes stand for, the most significant one first.
pub open spec fn number_of(bytes: Seq<u8>) -> int
    decreases bytes.len(),
{
    if bytes.len() == 0 {
        0
    } else {
        number_of(bytes.drop_last()) * 256 + bytes.last()
    }
}

/// The last `n` bytes of a number, the most significant one first.
pub open spec fn bytes_of(value: int, n: nat) -> Seq<u8>
    decreases n,
{
    if n == 0 {
        Seq::empty()
    } else {
        bytes_of(value / 256, (n - 1) as nat).push((value % 256) as u8)
    }
}

/// How many numbers `n` bytes can stand for.
pub open spec fn numbers_in(n: nat) -> int
    decreases n,
{
    if n == 0 {
        1
    } else {
        256 * numbers_in((n - 1) as nat)
    }
}

proof fn lemma_number_bound(bytes: Seq<u8>)
    ensures
        0 <= number_of(bytes) < numbers_in(bytes.len()),
    decreases bytes.len(),
{
    if bytes.len() > 0 {
        lemma_number_bound(bytes.drop_last());
    }
}

/// Writing a number out and reading it gives the number back.
pub proof fn law_bytes_round_trip(value: int, n: nat)
    requires
        0 <= value < numbers_in(n),
    ensures
        bytes_of(value, n).len() == n,
        number_of(bytes_of(value, n)) == value,
    decreases n,
{
    if n > 0 {
        law_bytes_round_trip(value / 256, (n - 1) as nat);
        let front = bytes_of(value / 256, (n - 1) as nat);
        assert(bytes_of(value, n).drop_last() =~= front);
    }
}

fn read_number(bytes: &[u8]) -> (r: u128)
    requires
        bytes@.len() <= 16,
    ensures
        r == number_of(bytes@),
{
    let mut value: u128 = 0;
    let mut i: usize = 0;
    assert(bytes@.take(0) =~= Seq::<u8>::empty());
    while i < bytes.len()
        invariant
            bytes@.len() <= 16,
            i <= bytes@.len(),
            value == number_of(bytes@.take(i as int)),
        decreases bytes@.len() - i,
    {
        proof {
            let next = bytes@.take(i as int + 1);
            assert(next.drop_last() =~= bytes@.take(i as int));
            lemma_number_bound(next);
            lemma_numbers_grow(next.len(), 16);
            assert(numbers_in(16) == 0x1_0000_0000_0000_0000_0000_0000_0000_0000int) by {
                reveal_with_fuel(numbers_in, 17);
            }
        }
        value = value * 256 + bytes[i] as u128;
        i += 1;
    }
    assert(bytes@.take(bytes@.len() as int) =~= bytes@);
    value
}

proof fn lemma_numbers_grow(n: nat, m: nat)
    requires
        n <= m,
    ensures
        0 < numbers_in(n) <= numbers_in(m),
    decreases m,
{
    if m > 0 {
        if n < m {
            lemma_numbers_grow(n, (m - 1) as nat);
        } else {
            lemma_numbers_grow((n - 1) as nat, (m - 1) as nat);
        }
    }
}

fn write_number(value: u128, n: usize) -> (r: Vec<u8>)
    ensures
        r@ == bytes_of(value as int, n as nat),
{
    let mut out: Vec<u8> = Vec::new();
    let mut rest: u128 = value;
    let mut left: usize = n;
    assert(bytes_of(value as int, n as nat) =~= bytes_of(rest as int, left as nat) + out@);
    while left > 0
        invariant
            bytes_of(value as int, n as nat) == bytes_of(rest as int, left as nat) + out@,
        decreases left,
    {
        let ghost before = out@;
        let byte: u8 = (rest % 256) as u8;
        out.insert(0, byte);
        proof {
            assert(out@ =~= seq![byte] + before);
            let front = bytes_of(rest as int / 256, (left - 1) as nat);
            assert(front.push(byte) + before =~= front + out@);
        }
        rest = rest / 256;
        left = left - 1;
    }
    assert(out@ =~= bytes_of(value as int, n as nat));
    out
}

/// The endpoint that the server relays UDP at. Where it names no address, it is the one at which it
/// listens.
pub open spec fn relay_of(endpoint: SocketAddress, address: Seq<u8>, port: Seq<u8>) -> Result<
    SocketAddress,
    Socks5Error,
> {
    let ip = if address.len() == 4 {
        IpAddress::V4(number_of(address) as u32)
    } else {
        IpAddress::V6(number_of(address) as u128)
    };
    if (address.len() != 4 && address.len() != 16) || port.len() != 2 {
        Err(Socks5Error::TruncatedAddress)
    } else if number_of(port) == 0 {
        Err(Socks5Error::ZeroPort)
    } else {
        Ok(
            SocketAddress::of(
                if ip.unspecified() {
                    endpoint.spec_ip()
                } else {
                    ip
                },
                number_of(port) as u16,
            ),
        )
    }
}

/// Reads the endpoint that the server relays UDP at from the bytes of its address and port.
pub fn relay_endpoint(endpoint: SocketAddress, address: &[u8], port: &[u8]) -> (r: Result<
    SocketAddress,
    Socks5Error,
>)
    ensures
        r == relay_of(endpoint, address@, port@),
{
    if (address.len() != 4 && address.len() != 16) || port.len() != 2 {
        return Err(Socks5Error::TruncatedAddress);
    }
    proof {
        lemma_number_bound(address@);
        lemma_number_bound(port@);
        reveal_with_fuel(numbers_in, 5);
    }
    let number = read_number(address);
    let ip = if address.len() == 4 {
        IpAddress::V4(number as u32)
    } else {
        IpAddress::V6(number)
    };
    let port = read_number(port) as u16;
    if port == 0 {
        return Err(Socks5Error::ZeroPort);
    }
    if ip.is_unspecified() {
        return Ok(SocketAddress::new(endpoint.ip(), port));
    }
    Ok(SocketAddress::new(ip, port))
}

/// The address on this host that a relay is tried out from.
pub fn loopback_for(relay: SocketAddress) -> (r: IpAddress)
    ensures
        r.loopback(),
        r is V4 <==> relay is V4,
        r == (if relay is V4 {
            IpAddress::V4(0x7f00_0001)
        } else {
            IpAddress::V6(1)
        }),
{
    if relay.is_ipv4() {
        IpAddress::V4(0x7f00_0001)
    } else {
        IpAddress::V6(1)
    }
}

/// What is sent through a relay to try it out.
pub open spec fn readiness_payload() -> Seq<u8> {
    Seq::new(UDP_READINESS_PAYLOAD_SIZE as nat, |i: int| (i % 251) as u8)
}

pub fn build_readiness_payload() -> (r: Vec<u8>)
    ensures
        r@ == readiness_payload(),
{
    let mut out: Vec<u8> = Vec::new();
    let mut i: usize = 0;
    while i < UDP_READINESS_PAYLOAD_SIZE
        invariant
            i <= UDP_READINESS_PAYLOAD_SIZE,
            out@ == readiness_payload().take(i as int),
        decreases UDP_READINESS_PAYLOAD_SIZE - i,
    {
        out.push((i % 251) as u8);
        i += 1;
        assert(out@ =~= readiness_payload().take(i as int));
    }
    assert(out@ =~= readiness_payload());
    out
}

/// The bytes of an address in a packet: its type, and then its own.
pub open spec fn address_bytes(ip: IpAddress) -> Seq<u8> {
    match ip {
        IpAddress::V4(ip) => seq![1u8] + bytes_of(ip as int, 4),
        IpAddress::V6(ip) => seq![4u8] + bytes_of(ip as int, 16),
    }
}

/// The packet that asks a relay to send a payload on.
pub open spec fn udp_request(destination: SocketAddress, payload: Seq<u8>) -> Seq<u8> {
    seq![0u8, 0, 0] + address_bytes(destination.spec_ip()) + bytes_of(
        destination.spec_port() as int,
        2,
    ) + payload
}

pub fn encode_socks5_udp_request(destination: SocketAddress, payload: &[u8]) -> (r: Vec<u8>)
    ensures
        r@ == udp_request(destination, payload@),
{
    let mut packet: Vec<u8> = Vec::new();
    packet.push(0);
    packet.push(0);
    packet.push(0);
    match destination.ip() {
        IpAddress::V4(ip) => {
            packet.push(1);
            let bytes = write_number(ip as u128, 4);
            packet.extend_from_slice(bytes.as_slice());
        },
        IpAddress::V6(ip) => {
            packet.push(4);
            let bytes = write_number(ip, 16);
            packet.extend_from_slice(bytes.as_slice());
        },
    }
    assert(packet@ =~= seq![0u8, 0, 0] + address_bytes(destination.spec_ip()));
    let port = write_number(destination.port() as u128, 2);
    packet.extend_from_slice(port.as_slice());
    packet.extend_from_slice(payload);
    assert(packet@ =~= udp_request(destination, payload@));
    packet
}

/// Where the payload of a packet from a relay starts.
pub open spec fn payload_offset(packet: Seq<u8>) -> Result<int, Socks5Error> {
    if packet.len() < 4 || packet[0] != 0 || packet[1] != 0 {
        Err(Socks5Error::InvalidHeader)
    } else if packet[2] != 0 {
        Err(Socks5Error::Fragmented)
    } else if packet[3] == 1 {
        Ok(10)
    } else if packet[3] == 4 {
        Ok(22)
    } else if packet[3] == 3 {
        if packet.len() < 5 {
            Err(Socks5Error::TruncatedDomain)
        } else {
            Ok(7 + packet[4])
        }
    } else {
        Err(Socks5Error::InvalidAddressType(packet[3]))
    }
}

/// The payload of a packet from a relay.
pub open spec fn payload_of(packet: Seq<u8>) -> Result<Seq<u8>, Socks5Error> {
    match payload_offset(packet) {
        Err(error) => Err(error),
        Ok(offset) => if offset <= packet.len() {
            Ok(packet.skip(offset))
        } else {
            Err(Socks5Error::TruncatedAddress)
        },
    }
}

pub fn socks5_udp_payload<'a>(packet: &'a [u8]) -> (r: Result<&'a [u8], Socks5Error>)
    ensures
        match r {
            Ok(payload) => payload_of(packet@) == Ok::<Seq<u8>, Socks5Error>(payload@),
            Err(error) => payload_of(packet@) == Err::<Seq<u8>, Socks5Error>(error),
        },
{
    if packet.len() < 4 || packet[0] != 0 || packet[1] != 0 {
        return Err(Socks5Error::InvalidHeader);
    }
    if packet[2] != 0 {
        return Err(Socks5Error::Fragmented);
    }
    let address_type: u8 = packet[3];
    let offset: usize = if address_type == 1 {
        10
    } else if address_type == 4 {
        22
    } else if address_type == 3 {
        if packet.len() < 5 {
            return Err(Socks5Error::TruncatedDomain);
        }
        7 + packet[4] as usize
    } else {
        return Err(Socks5Error::InvalidAddressType(address_type));
    };
    if offset > packet.len() {
        return Err(Socks5Error::TruncatedAddress);
    }
    let payload = slice_subrange(packet, offset, packet.len());
    assert(payload@ =~= packet@.skip(offset as int));
    Ok(payload)
}

/// What a relay sends back in the form in which it was sent is what was sent.
pub proof fn law_udp_request_round_trips(destination: SocketAddress, payload: Seq<u8>)
    ensures
        payload_of(udp_request(destination, payload)) == Ok::<Seq<u8>, Socks5Error>(payload),
{
    let packet = udp_request(destination, payload);
    reveal_with_fuel(numbers_in, 17);
    law_bytes_round_trip(destination.spec_port() as int, 2);
    match destination.spec_ip() {
        IpAddress::V4(ip) => {
            law_bytes_round_trip(ip as int, 4);
            assert(packet[3] == 1);
            assert(packet.skip(10) =~= payload);
        },
        IpAddress::V6(ip) => {
            law_bytes_round_trip(ip as int, 16);
            assert(packet[3] == 4);
            assert(packet.skip(22) =~= payload);
        },
    }
}

/// Checks that what came back through a relay is what was sent.
pub fn is_readiness_echo(received: &[u8]) -> (r: bool)
    ensures
        r == (received@ == readiness_payload()),
{
    if received.len() != UDP_READINESS_PAYLOAD_SIZE {
        return false;
    }
    let mut i: usize = 0;
    while i < UDP_READINESS_PAYLOAD_SIZE
        invariant
            i <= UDP_READINESS_PAYLOAD_SIZE,
            received@.len() == UDP_READINESS_PAYLOAD_SIZE,
            forall|k: int| 0 <= k < i ==> received@[k] == readiness_payload()[k],
        decreases UDP_READINESS_PAYLOAD_SIZE - i,
    {
        if received[i] != (i % 251) as u8 {
            assert(received@[i as int] != readiness_payload()[i as int]);
            return false;
        }
        i += 1;
    }
    assert(received@ =~= readiness_payload());
    true
}

/// A configuration is accepted just where it has a port to try, listens at a loopback address, and its
/// program is there; what is told is the first of these that it lacks.
pub proof fn law_configurations_that_are_accepted(config: GostProcessConfig, executable_is_file: bool)
    ensures
        config_result(config, executable_is_file) is Ok <==> config.port_candidates@.len() > 0
            && config.listen_address.loopback() && executable_is_file,
        config.port_candidates@.len() == 0 <==> config_result(config, executable_is_file) == Err::<(), _>(
            GostConfigError::NoPortCandidate,
        ),
        config.port_candidates@.len() > 0 && !config.listen_address.loopback() <==> config_result(
            config,
            executable_is_file,
        ) == Err::<(), _>(GostConfigError::NotLoopback),
        config.port_candidates@.len() > 0 && config.listen_address.loopback() && !executable_is_file
            <==> config_result(config, executable_is_file) == Err::<(), _>(
            GostConfigError::MissingExecutable,
        ),
{
}

proof fn lemma_digits_hold_no(n: int, c: char)
    requires
        0 <= n,
        !('0' <= c <= '9'),
    ensures
        !number_text(n).contains(c),
{
    crate::text::law_digits_stand_for_the_number(n);
    if number_text(n).contains(c) {
        let i = choose|i: int| 0 <= i < number_text(n).len() && number_text(n)[i] == c;
        assert('0' <= number_text(n)[i] <= '9');
    }
}

/// Between the dots of the text of an IPv4 address stand its four bytes, the most significant one first.
pub proof fn law_text_of_an_ipv4_address(ip: u32)
    ensures
        ({
            let pieces = crate::text::parts(ipv4_text(ip), '.');
            &&& pieces.len() == 4
            &&& crate::text::number_of_digits(pieces[0]) * 0x100_0000 + crate::text::number_of_digits(
                pieces[1],
            ) * 0x1_0000 + crate::text::number_of_digits(pieces[2]) * 0x100
                + crate::text::number_of_digits(pieces[3]) == ip
            &&& forall|i: int|
                0 <= i < 4 ==> 0 <= crate::text::number_of_digits(#[trigger] pieces[i]) < 256
        }),
{
    reveal_strlit(".");
    assert("."@ =~= seq!['.']);
    let a = ip as int / 0x100_0000;
    let b = ip as int / 0x1_0000 % 0x100;
    let c = ip as int / 0x100 % 0x100;
    let d = ip as int % 0x100;
    let pieces = seq![number_text(a), number_text(b), number_text(c), number_text(d)];
    crate::text::law_digits_stand_for_the_number(a);
    crate::text::law_digits_stand_for_the_number(b);
    crate::text::law_digits_stand_for_the_number(c);
    crate::text::law_digits_stand_for_the_number(d);
    lemma_digits_hold_no(a, '.');
    lemma_digits_hold_no(b, '.');
    lemma_digits_hold_no(c, '.');
    lemma_digits_hold_no(d, '.');
    let three = pieces.drop_last();
    let two = three.drop_last();
    let one = two.drop_last();
    assert(crate::text::joined(one, '.') == number_text(a));
    assert(crate::text::joined(two, '.') == number_text(a).push('.') + number_text(b));
    assert(crate::text::joined(three, '.') == (number_text(a).push('.') + number_text(b)).push('.')
        + number_text(c));
    assert(crate::text::joined(pieces, '.') == ((number_text(a).push('.') + number_text(b)).push('.')
        + number_text(c)).push('.') + number_text(d));
    assert(crate::text::joined(pieces, '.') =~= ipv4_text(ip));
    crate::text::law_join_and_split(pieces, '.');
}

/// Behind the last colon of the text of an endpoint stands its port.
pub proof fn law_text_of_an_endpoint_ends_with_the_port(endpoint: SocketAddress)
    ensures
        ({
            let text = endpoint_text(endpoint);
            let colon = crate::dns::last_colon(text);
            &&& colon is Some
            &&& crate::dns::port_of_text(text.skip(colon->0 + 1)) == Some(endpoint.spec_port())
            &&& endpoint is V4 ==> text.take(colon->0) == ipv4_text(endpoint->ipv4)
        }),
{
    reveal_strlit(":");
    reveal_strlit("]:");
    reveal_strlit("[");
    let text = endpoint_text(endpoint);
    let digits = number_text(endpoint.spec_port() as int);
    let front = text.len() - digits.len() - 1;
    lemma_digits_hold_no(endpoint.spec_port() as int, ':');
    crate::dns::law_last_colon_is_the_last(text);
    crate::dns::law_ports_are_read_as_they_are_written(endpoint.spec_port() as int);
    assert(text[front] == ':');
    assert(text.skip(front + 1) =~= digits);
    assert forall|j: int| front < j < text.len() implies (#[trigger] text[j]) != ':' by {
        assert(text[j] == digits[j - front - 1]);
        assert(digits.contains(digits[j - front - 1]));
    }
    assert(crate::dns::last_colon(text) == Some(front));
    if let SocketAddress::V4 { ipv4, .. } = endpoint {
        assert(text.take(front) =~= ipv4_text(ipv4));
    }
}

/// The server is told its scheme, where to listen, and how.
pub proof fn law_listener_is_told_where(endpoint: Seq<char>)
    ensures
        listener_text(endpoint).take(9) == "socks5://"@,
        listener_text(endpoint).subrange(9, 9 + endpoint.len() as int) == endpoint,
        listener_text(endpoint).skip(9 + endpoint.len() as int)
            == "?udp=true&udpBufferSize=65535&udpSourceCheck=first-packet"@,
{
    reveal_strlit("socks5://");
    let text = listener_text(endpoint);
    assert(text.take(9) =~= "socks5://"@);
    assert(text.subrange(9, 9 + endpoint.len() as int) =~= endpoint);
    assert(text.skip(9 + endpoint.len() as int)
        =~= "?udp=true&udpBufferSize=65535&udpSourceCheck=first-packet"@);
}

/// Every failure is told.
pub proof fn law_every_failure_is_told(failures: Seq<String>, i: int)
    requires
        0 <= i < failures.len(),
    ensures
        crate::text::has_word(joined_failures(failures), failures[i]@),
    decreases failures.len(),
{
    let all = joined_failures(failures);
    if failures.len() == 1 {
        crate::text::law_words_in_texts(Seq::empty(), failures[0]@, Seq::empty(), all);
        assert(Seq::<char>::empty() + failures[0]@ + Seq::<char>::empty() =~= all);
    } else if i == failures.len() - 1 {
        let front = joined_failures(failures.drop_last()) + "; "@;
        crate::text::law_words_in_texts(front, failures[i]@, Seq::empty(), all);
        assert(front + failures[i]@ + Seq::<char>::empty() =~= all);
    } else {
        let before = joined_failures(failures.drop_last());
        law_every_failure_is_told(failures.drop_last(), i);
        assert(failures.drop_last()[i] == failures[i]);
        crate::text::law_words_in_texts(Seq::empty(), failures[i]@, Seq::empty(), before);
        let word = failures[i]@;
        let k = choose|k: int|
            0 <= k && k + word.len() <= before.len() && before == #[trigger] before.take(k) + word
                + before.skip(k + word.len());
        let back = before.skip(k + word.len()) + "; "@ + failures.last()@;
        crate::text::law_words_in_texts(before.take(k), word, back, all);
        assert(before.take(k) + word + back =~= all);
    }
}

/// Candidates that are no ports are passed over, and no others.
pub proof fn law_ports_that_are_tried(ports: Seq<u16>, from: int)
    requires
        0 <= from <= ports.len(),
    ensures
        from <= GostStart::usable_from(ports, from) <= ports.len(),
        GostStart::usable_from(ports, from) < ports.len() ==> ports[GostStart::usable_from(ports, from)]
            != 0,
        forall|i: int| from <= i < GostStart::usable_from(ports, from) ==> (#[trigger] ports[i]) == 0,
    decreases ports.len() - from,
{
    if from < ports.len() && ports[from] == 0 {
        law_ports_that_are_tried(ports, from + 1);
    }
}

/// An answer is understood only if it is of the fifth version, tells of success and names an address: four
/// bytes of IPv4 or sixteen of IPv6.
pub proof fn law_answers_that_are_understood(header: Seq<u8>)
    ensures
        associate_result(header) is Ok <==> header.len() == 4 && header[0] == 5 && header[1] == 0
            && header[2] == 0 && (header[3] == 1 || header[3] == 4),
        associate_result(header) is Ok ==> associate_result(header)->Ok_0 == (if header[3] == 1 {
            4int
        } else {
            16
        }),
        associate_result(header) == Err::<int, _>(Socks5Error::DomainAddress) <==> header.len() == 4
            && header[0] == 5 && header[1] == 0 && header[2] == 0 && header[3] == 3,
{
}

/// A relay is where the server says; where it names no address, it is at the server's own. Port zero is no
/// answer.
pub proof fn law_relay_is_where_the_server_says(
    endpoint: SocketAddress,
    ipv4: u32,
    ipv6: u128,
    port: u16,
)
    ensures
        ({
            let four = relay_of(endpoint, bytes_of(ipv4 as int, 4), bytes_of(port as int, 2));
            let six = relay_of(endpoint, bytes_of(ipv6 as int, 16), bytes_of(port as int, 2));
            &&& port == 0 ==> four == Err::<SocketAddress, _>(Socks5Error::ZeroPort) && six == Err::<
                SocketAddress,
                _,
            >(Socks5Error::ZeroPort)
            &&& port != 0 && ipv4 != 0 ==> four == Ok::<_, Socks5Error>(
                SocketAddress::V4 { ipv4, port },
            )
            &&& port != 0 && ipv6 != 0 ==> six == Ok::<_, Socks5Error>(
                SocketAddress::V6 { ipv6, port, flowinfo: 0, scope_id: 0 },
            )
            &&& port != 0 && ipv4 == 0 ==> four == Ok::<_, Socks5Error>(
                SocketAddress::of(endpoint.spec_ip(), port),
            )
            &&& port != 0 && ipv6 == 0 ==> six == Ok::<_, Socks5Error>(
                SocketAddress::of(endpoint.spec_ip(), port),
            )
        }),
{
    reveal_with_fuel(numbers_in, 17);
    law_bytes_round_trip(port as int, 2);
    law_bytes_round_trip(ipv4 as int, 4);
    law_bytes_round_trip(ipv6 as int, 16);
}

/// An answer of any other length is none.
pub proof fn law_cut_answers_are_refused(endpoint: SocketAddress, address: Seq<u8>, port: Seq<u8>)
    ensures
        port.len() != 2 ==> relay_of(endpoint, address, port) is Err,
        address.len() != 4 && address.len() != 16 ==> relay_of(endpoint, address, port) is Err,
{
}

/// A relay is told the destination: the type of its address, the address and the port can be read back from
/// the packet.
pub proof fn law_request_names_the_destination(destination: SocketAddress, payload: Seq<u8>)
    ensures
        ({
            let packet = udp_request(destination, payload);
            &&& packet[0] == 0 && packet[1] == 0 && packet[2] == 0
            &&& destination is V4 ==> packet[3] == 1 && number_of(packet.subrange(4, 8))
                == destination->ipv4 && number_of(packet.subrange(8, 10)) == destination->V4_port
            &&& destination is V6 ==> packet[3] == 4 && number_of(packet.subrange(4, 20))
                == destination->ipv6 && number_of(packet.subrange(20, 22)) == destination->V6_port
        }),
{
    let packet = udp_request(destination, payload);
    reveal_with_fuel(numbers_in, 17);
    let port = destination.spec_port();
    law_bytes_round_trip(port as int, 2);
    match destination {
        SocketAddress::V4 { ipv4, .. } => {
            law_bytes_round_trip(ipv4 as int, 4);
            assert(packet.subrange(4, 8) =~= bytes_of(ipv4 as int, 4));
            assert(packet.subrange(8, 10) =~= bytes_of(port as int, 2));
        },
        SocketAddress::V6 { ipv6, .. } => {
            law_bytes_round_trip(ipv6 as int, 16);
            assert(packet.subrange(4, 20) =~= bytes_of(ipv6 as int, 16));
            assert(packet.subrange(20, 22) =~= bytes_of(port as int, 2));
        },
    }
}

/// The payload of a packet from a relay starts behind the address and the port; a packet that is a fragment,
/// is cut short or has another header has none.
pub proof fn law_where_the_payload_starts(packet: Seq<u8>)
    ensures
        packet.len() < 4 || packet[0] != 0 || packet[1] != 0 ==> payload_of(packet) == Err::<Seq<u8>, _>(
            Socks5Error::InvalidHeader,
        ),
        packet.len() >= 4 && packet[0] == 0 && packet[1] == 0 && packet[2] != 0 ==> payload_of(packet)
            == Err::<Seq<u8>, _>(Socks5Error::Fragmented),
        packet.len() >= 4 && packet[0] == 0 && packet[1] == 0 && packet[2] == 0 ==> ({
            &&& packet[3] == 1 && packet.len() >= 10 ==> payload_of(packet) == Ok::<_, Socks5Error>(
                packet.skip(10),
            )
            &&& packet[3] == 4 && packet.len() >= 22 ==> payload_of(packet) == Ok::<_, Socks5Error>(
                packet.skip(22),
            )
            &&& packet[3] == 3 && packet.len() >= 5 && packet.len() >= 7 + packet[4] ==> payload_of(packet)
                == Ok::<_, Socks5Error>(packet.skip(7 + packet[4]))
            &&& packet[3] == 1 && packet.len() < 10 || packet[3] == 4 && packet.len() < 22 ==> payload_of(
                packet,
            ) is Err
            &&& packet[3] != 1 && packet[3] != 3 && packet[3] != 4 ==> payload_of(packet) is Err
        }),
{
}

/// The requests are of the fifth version: the greeting offers one way to go on, which is without
/// authentication, and what is asked for is to relay UDP.
pub proof fn law_requests_to_the_server()
    ensures
        greeting_request().len() == 3 && greeting_request()[0] == 5 && greeting_request()[1] == 1
            && greeting_request()[2] == 0,
        associate_request().len() == 10 && associate_request()[0] == 5 && associate_request()[1] == 3
            && associate_request()[3] == 1,
        forall|i: int| 4 <= i < 10 ==> (#[trigger] associate_request()[i]) == 0,
        readiness_payload().len() == 8192,
{
}

/// Waiting for the proxy ends at once if its process exited, with success as soon as a probe succeeds, and
/// for want of time only after a probe that failed; in between there is a pause of forty milliseconds.
pub proof fn law_readiness_is_waited_for(
    exited: bool,
    probe_succeeded: bool,
    deadline_reached: bool,
    begun: ReadinessStep,
    ended: ReadinessStep,
)
    requires
        call_ensures(begin_readiness_round, (exited,), begun),
        call_ensures(end_readiness_round, (probe_succeeded, deadline_reached), ended),
    ensures
        begun is Exited <==> exited,
        begun is Probe <==> !exited,
        ended is Ready <==> probe_succeeded,
        ended is TimedOut <==> !probe_succeeded && deadline_reached,
        ended is Pause <==> !probe_succeeded && !deadline_reached,
        ended is Pause ==> ended->ms == 40,
{
}

/// The proxy must answer with version five of the protocol and ask for no authentication.
pub proof fn law_greetings_ask_for_nothing(reply: &[u8], r: Result<(), Socks5Error>)
    requires
        call_ensures(check_greeting, (reply,), r),
    ensures
        r is Ok <==> reply@.len() == 2 && reply@[0] == 5 && reply@[1] == 0,
        r is Err ==> r->Err_0 is AuthenticationRequired,
{
    if reply@.len() == 2 && reply@[0] == 5 && reply@[1] == 0 {
        assert(reply@ =~= seq![5u8, 0]);
    }
}

/// The loopback address of the relay's own version.
pub proof fn law_loopback_of_the_same_version(relay: SocketAddress, r: IpAddress)
    requires
        call_ensures(loopback_for, (relay,), r),
    ensures
        relay is V4 ==> r == IpAddress::V4(0x7f00_0001u32),
        relay is V6 ==> r == IpAddress::V6(1u128),
{
}

/// A start is tried at the next candidate that is a port, each candidate once; ports that are zero are
/// passed over, each with a failure of its own.
pub proof fn law_candidates_are_started_in_turn(start: &mut GostStart, r: StartStep)
    requires
        old(start).wf(),
        call_ensures(GostStart::step, (start,), r),
    ensures
        r is Start ==> old(start).next < final(start).next <= old(start).port_candidates@.len()
            && r->Start_0.spec_ip() == old(start).listen_address && r->Start_0.spec_port()
            == old(start).port_candidates@[final(start).next - 1] && r->Start_0.spec_port() != 0,
        r is Exhausted ==> final(start).next == old(start).port_candidates@.len(),
        r is Start ==> forall|i: int|
            old(start).next <= i < final(start).next - 1 ==> #[trigger] old(start).port_candidates@[i] == 0,
        r is Exhausted ==> forall|i: int|
            old(start).next <= i < old(start).port_candidates@.len()
                ==> #[trigger] old(start).port_candidates@[i] == 0,
        final(start).port_candidates == old(start).port_candidates,
{
    law_ports_that_are_tried(old(start).port_candidates@, old(start).next as int);
}

} // verus!
