//! Internet addresses as plain numbers.
use vstd::prelude::*;

use crate::indexed_table::IndexKey;
use crate::keyed_table::TableKey;

verus! {

/// Identifies a peer of the overlay network.
pub type PeerId = u32;

/// An IP address: its bits in network order, read as one number.
#[derive(Clone, Copy, Debug, PartialEq, Eq, Hash, Structural)]
pub enum IpAddress {
    V4(u32),
    V6(u128),
}

/// A transport endpoint.
#[derive(Clone, Copy, Debug, PartialEq, Eq, Hash, Structural)]
pub enum SocketAddress {
    V4 { ipv4: u32, port: u16 },
    V6 { ipv6: u128, port: u16, flowinfo: u32, scope_id: u32 },
}

/// The IP protocol versions that a connection attempt may use.
#[derive(Clone, Copy, Debug, PartialEq, Eq, Structural)]
pub enum IpVersion {
    V4,
    V6,
    Both,
}

/// The transports that run over IP.
#[derive(Clone, Copy, Debug, PartialEq, Eq, Hash, Structural)]
pub enum IpScheme {
    Tcp,
    Udp,
    Wg,
    Quic,
    QuicBrutal,
    Ws,
    Wss,
    FakeTcp,
}

impl IpScheme {
    /// The place of the transport in the list of transports.
    pub open spec fn rank(self) -> int {
        match self {
            IpScheme::Tcp => 0,
            IpScheme::Udp => 1,
            IpScheme::Wg => 2,
            IpScheme::Quic => 3,
            IpScheme::QuicBrutal => 4,
            IpScheme::Ws => 5,
            IpScheme::Wss => 6,
            IpScheme::FakeTcp => 7,
        }
    }

    pub fn index(self) -> (r: usize)
        ensures
            r == self.rank(),
            r < 8,
    {
        match self {
            IpScheme::Tcp => 0,
            IpScheme::Udp => 1,
            IpScheme::Wg => 2,
            IpScheme::Quic => 3,
            IpScheme::QuicBrutal => 4,
            IpScheme::Ws => 5,
            IpScheme::Wss => 6,
            IpScheme::FakeTcp => 7,
        }
    }
}

/// The number of values of an IPv6 address that share its first 16 bits.
pub const V6_GROUP_0: u128 = 0x1_0000_0000_0000_0000_0000_0000_0000;

impl IpAddress {
    pub open spec fn spec_is_ipv4(self) -> bool {
        self is V4
    }

    pub fn is_ipv4(&self) -> (r: bool)
        ensures
            r == self.spec_is_ipv4(),
    {
        match self {
            IpAddress::V4(_) => true,
            IpAddress::V6(_) => false,
        }
    }

    /// `0.0.0.0` or `::`.
    pub open spec fn unspecified(self) -> bool {
        match self {
            IpAddress::V4(ip) => ip == 0,
            IpAddress::V6(ip) => ip == 0,
        }
    }

    pub fn is_unspecified(&self) -> (r: bool)
        ensures
            r == self.unspecified(),
    {
        match self {
            IpAddress::V4(ip) => *ip == 0,
            IpAddress::V6(ip) => *ip == 0,
        }
    }

    /// `127.0.0.0/8` or `::1`.
    pub open spec fn loopback(self) -> bool {
        match self {
            IpAddress::V4(ip) => ip / 0x100_0000 == 127,
            IpAddress::V6(ip) => ip == 1,
        }
    }

    pub fn is_loopback(&self) -> (r: bool)
        ensures
            r == self.loopback(),
    {
        match self {
            IpAddress::V4(ip) => *ip / 0x100_0000 == 127,
            IpAddress::V6(ip) => *ip == 1,
        }
    }

    /// `224.0.0.0/4` or `ff00::/8`.
    pub open spec fn multicast(self) -> bool {
        match self {
            IpAddress::V4(ip) => ip / 0x1000_0000 == 14,
            IpAddress::V6(ip) => ip / V6_GROUP_0 >= 0xff00,
        }
    }

    pub fn is_multicast(&self) -> (r: bool)
        ensures
            r == self.multicast(),
    {
        match self {
            IpAddress::V4(ip) => *ip / 0x1000_0000 == 14,
            IpAddress::V6(ip) => *ip / V6_GROUP_0 >= 0xff00,
        }
    }

    /// `169.254.0.0/16` or `fe80::/10`.
    pub open spec fn link_local(self) -> bool {
        match self {
            IpAddress::V4(ip) => ip / 0x1_0000 == 0xa9fe,
            IpAddress::V6(ip) => 0xfe80 <= ip / V6_GROUP_0 < 0xfec0,
        }
    }

    pub fn is_link_local(&self) -> (r: bool)
        ensures
            r == self.link_local(),
    {
        match self {
            IpAddress::V4(ip) => *ip / 0x1_0000 == 0xa9fe,
            IpAddress::V6(ip) => {
                let group: u128 = *ip / V6_GROUP_0;
                0xfe80 <= group && group < 0xfec0
            },
        }
    }

    /// The addresses set aside for private networks: `10.0.0.0/8`, `172.16.0.0/12` and
    /// `192.168.0.0/16`, or `fc00::/7`.
    pub open spec fn private_use(self) -> bool {
        match self {
            IpAddress::V4(ip) => ip / 0x100_0000 == 10 || ip / 0x10_0000 == 0xac1 || ip / 0x1_0000
                == 0xc0a8,
            IpAddress::V6(ip) => 0xfc00 <= ip / V6_GROUP_0 < 0xfe00,
        }
    }

    pub fn is_private_use(&self) -> (r: bool)
        ensures
            r == self.private_use(),
    {
        match self {
            IpAddress::V4(ip) => *ip / 0x100_0000 == 10 || *ip / 0x10_0000 == 0xac1 || *ip
                / 0x1_0000 == 0xc0a8,
            IpAddress::V6(ip) => {
                let group: u128 = *ip / V6_GROUP_0;
                0xfc00 <= group && group < 0xfe00
            },
        }
    }
}

impl TableKey for SocketAddress {
    fn same(&self, other: &Self) -> (r: bool) {
        *self == *other
    }
}

/// Two to the power of sixty-four.
pub const WORD: u128 = 0x1_0000_0000_0000_0000;

impl IndexKey for SocketAddress {
    open spec fn words(self) -> Seq<u64> {
        match self {
            SocketAddress::V4 { ipv4, port } => seq![4, ipv4 as u64, 0, port as u64, 0, 0],
            SocketAddress::V6 { ipv6, port, flowinfo, scope_id } => seq![
                6,
                (ipv6 / WORD) as u64,
                (ipv6 % WORD) as u64,
                port as u64,
                flowinfo as u64,
                scope_id as u64,
            ],
        }
    }

    fn to_words(&self) -> (r: Vec<u64>) {
        let mut r: Vec<u64> = Vec::new();
        match self {
            SocketAddress::V4 { ipv4, port } => {
                r.push(4);
                r.push(*ipv4 as u64);
                r.push(0);
                r.push(*port as u64);
                r.push(0);
                r.push(0);
            },
            SocketAddress::V6 { ipv6, port, flowinfo, scope_id } => {
                r.push(6);
                r.push((*ipv6 / WORD) as u64);
                r.push((*ipv6 % WORD) as u64);
                r.push(*port as u64);
                r.push(*flowinfo as u64);
                r.push(*scope_id as u64);
            },
        }
        assert(r@ =~= self.words());
        r
    }

    proof fn lemma_words(a: Self, b: Self) {
        if a.words() == b.words() {
            let s = a.words();
            let t = b.words();
            assert(s[0] == t[0] && s[1] == t[1] && s[2] == t[2]);
            assert(s[3] == t[3] && s[4] == t[4] && s[5] == t[5]);
        }
    }
}

impl SocketAddress {
    /// The endpoint of `ip` and `port`, with no flow label and no scope.
    pub open spec fn of(ip: IpAddress, port: u16) -> SocketAddress {
        match ip {
            IpAddress::V4(ip) => SocketAddress::V4 { ipv4: ip, port },
            IpAddress::V6(ip) => SocketAddress::V6 { ipv6: ip, port, flowinfo: 0, scope_id: 0 },
        }
    }

    pub fn new(ip: IpAddress, port: u16) -> (r: SocketAddress)
        ensures
            r == SocketAddress::of(ip, port),
    {
        match ip {
            IpAddress::V4(ip) => SocketAddress::V4 { ipv4: ip, port },
            IpAddress::V6(ip) => SocketAddress::V6 { ipv6: ip, port, flowinfo: 0, scope_id: 0 },
        }
    }

    pub open spec fn spec_ip(self) -> IpAddress {
        match self {
            SocketAddress::V4 { ipv4, .. } => IpAddress::V4(ipv4),
            SocketAddress::V6 { ipv6, .. } => IpAddress::V6(ipv6),
        }
    }

    pub fn ip(&self) -> (r: IpAddress)
        ensures
            r == self.spec_ip(),
    {
        match self {
            SocketAddress::V4 { ipv4, .. } => IpAddress::V4(*ipv4),
            SocketAddress::V6 { ipv6, .. } => IpAddress::V6(*ipv6),
        }
    }

    pub open spec fn spec_port(self) -> u16 {
        match self {
            SocketAddress::V4 { port, .. } => port,
            SocketAddress::V6 { port, .. } => port,
        }
    }

    pub fn port(&self) -> (r: u16)
        ensures
            r == self.spec_port(),
    {
        match self {
            SocketAddress::V4 { port, .. } => *port,
            SocketAddress::V6 { port, .. } => *port,
        }
    }

    pub fn is_ipv4(&self) -> (r: bool)
        ensures
            r == (self is V4),
    {
        match self {
            SocketAddress::V4 { .. } => true,
            SocketAddress::V6 { .. } => false,
        }
    }

    /// The same port at another address. Within IPv6 the flow label and the scope stay.
    pub open spec fn with_ip(self, new_ip: IpAddress) -> SocketAddress {
        match (self, new_ip) {
            (SocketAddress::V6 { port, flowinfo, scope_id, .. }, IpAddress::V6(ip)) => {
                SocketAddress::V6 { ipv6: ip, port, flowinfo, scope_id }
            },
            _ => SocketAddress::of(new_ip, self.spec_port()),
        }
    }

    pub fn set_ip(&mut self, new_ip: IpAddress)
        ensures
            *final(self) == old(self).with_ip(new_ip),
    {
        let next = match (*self, new_ip) {
            (SocketAddress::V6 { port, flowinfo, scope_id, .. }, IpAddress::V6(ip)) => {
                SocketAddress::V6 { ipv6: ip, port, flowinfo, scope_id }
            },
            (current, _) => SocketAddress::new(new_ip, current.port()),
        };
        *self = next;
    }
}

/// The special addresses of IPv4, by their bounds: 127.0.0.0 to 127.255.255.255 is loopback, 169.254.0.0
/// to 169.254.255.255 is for one link, 224.0.0.0 to 239.255.255.255 is for groups, and 10.0.0.0 to
/// 10.255.255.255, 172.16.0.0 to 172.31.255.255 and 192.168.0.0 to 192.168.255.255 are private.
pub proof fn law_special_ipv4_addresses(ip: u32)
    ensures
        IpAddress::V4(ip).unspecified() <==> ip == 0,
        IpAddress::V4(ip).loopback() <==> 0x7f00_0000 <= ip <= 0x7fff_ffff,
        IpAddress::V4(ip).link_local() <==> 0xa9fe_0000 <= ip <= 0xa9fe_ffff,
        IpAddress::V4(ip).multicast() <==> 0xe000_0000 <= ip <= 0xefff_ffff,
        IpAddress::V4(ip).private_use() <==> 0x0a00_0000 <= ip <= 0x0aff_ffff || 0xac10_0000 <= ip
            <= 0xac1f_ffff || 0xc0a8_0000 <= ip <= 0xc0a8_ffff,
{
}

/// The special addresses of IPv6, by their bounds: `::1` is loopback, those from `fe80::` on below
/// `fec0::` are for one link, those from `ff00::` on are for groups, and those from `fc00::` on below
/// `fe00::` are private.
pub proof fn law_special_ipv6_addresses(ip: u128)
    ensures
        IpAddress::V6(ip).unspecified() <==> ip == 0,
        IpAddress::V6(ip).loopback() <==> ip == 1,
        IpAddress::V6(ip).link_local() <==> 0xfe80_0000_0000_0000_0000_0000_0000_0000 <= ip
            < 0xfec0_0000_0000_0000_0000_0000_0000_0000,
        IpAddress::V6(ip).multicast() <==> ip >= 0xff00_0000_0000_0000_0000_0000_0000_0000,
        IpAddress::V6(ip).private_use() <==> 0xfc00_0000_0000_0000_0000_0000_0000_0000 <= ip
            < 0xfe00_0000_0000_0000_0000_0000_0000_0000,
{
}

/// An endpoint has the address and the port that it was made of; another address leaves its port, and
/// within IPv6 its flow label and its scope.
pub proof fn law_endpoints_have_their_parts(ip: IpAddress, port: u16, endpoint: SocketAddress)
    ensures
        SocketAddress::of(ip, port).spec_ip() == ip,
        SocketAddress::of(ip, port).spec_port() == port,
        endpoint.with_ip(ip).spec_ip() == ip,
        endpoint.with_ip(ip).spec_port() == endpoint.spec_port(),
        endpoint.with_ip(endpoint.spec_ip()) == endpoint,
        endpoint is V6 && ip is V6 ==> endpoint.with_ip(ip)->V6_flowinfo == endpoint->V6_flowinfo
            && endpoint.with_ip(ip)->V6_scope_id == endpoint->V6_scope_id,
{
}

/// No two transports have the same place in the list of transports.
pub proof fn law_transports_have_their_places(a: IpScheme, b: IpScheme)
    ensures
        a.rank() == b.rank() <==> a == b,
        0 <= a.rank() < 8,
{
}

} // verus!
