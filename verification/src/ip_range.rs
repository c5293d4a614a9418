//! Blocks of addresses, and addresses within their network.
use vstd::arithmetic::power2::*;
use vstd::prelude::*;

use crate::addr::IpAddress;

verus! {

/// A block of addresses that share their first `length` bits.
#[derive(Clone, Copy, Debug, PartialEq, Eq, Structural)]
pub enum IpCidr {
    V4 { first4: u32, last4: u32, length: u8 },
    V6 { first6: u128, last6: u128, length: u8 },
}

impl IpCidr {
    /// The block holds as many addresses as its length says.
    pub open spec fn wf(self) -> bool {
        match self {
            IpCidr::V4 { first4, last4, length } => length <= 32 && last4 - first4 + 1 == pow2(
                (32 - length) as nat,
            ),
            IpCidr::V6 { first6, last6, length } => length <= 128 && last6 - first6 + 1 == pow2(
                (128 - length) as nat,
            ),
        }
    }

    pub open spec fn holds(self, ip: IpAddress) -> bool {
        match (self, ip) {
            (IpCidr::V4 { first4, last4, .. }, IpAddress::V4(v4)) => first4 <= v4 <= last4,
            (IpCidr::V6 { first6, last6, .. }, IpAddress::V6(v6)) => first6 <= v6 <= last6,
            _ => false,
        }
    }

    pub fn contains(&self, ip: &IpAddress) -> (r: bool)
        ensures
            r == self.holds(*ip),
    {
        match (*self, *ip) {
            (IpCidr::V4 { first4, last4, .. }, IpAddress::V4(v4)) => first4 <= v4 && v4 <= last4,
            (IpCidr::V6 { first6, last6, .. }, IpAddress::V6(v6)) => first6 <= v6 && v6 <= last6,
            _ => false,
        }
    }
}

/// Some block of the list holds the address.
pub open spec fn any_holds(blocks: Seq<IpCidr>, ip: IpAddress) -> bool {
    exists|i: int| 0 <= i < blocks.len() && (#[trigger] blocks[i]).holds(ip)
}

pub fn any_contains(blocks: &Vec<IpCidr>, ip: &IpAddress) -> (r: bool)
    ensures
        r == any_holds(blocks@, *ip),
{
    let mut i: usize = 0;
    while i < blocks.len()
        invariant
            i <= blocks@.len(),
            forall|j: int| 0 <= j < i ==> !(#[trigger] blocks@[j]).holds(*ip),
        decreases blocks@.len() - i,
    {
        if blocks[i].contains(ip) {
            assert(blocks@[i as int].holds(*ip));
            return true;
        }
        i += 1;
    }
    false
}

/// What `str::parse` makes of a text that is to be a `cidr::IpCidr`.
pub uninterp spec fn cidr_from_text(text: Seq<char>) -> Option<IpCidr>;

/// The network of what `str::parse` makes of a text that is to be a `cidr::IpInet`.
pub uninterp spec fn inet_network_from_text(text: Seq<char>) -> Option<IpCidr>;

/// What `str::parse` makes of a text that is to be an IP address.
pub uninterp spec fn ip_from_text(text: Seq<char>) -> Option<IpAddress>;

/// Parses a block with the `FromStr` of `cidr::IpCidr`. What is claimed of it: the result depends
/// on the text alone, and a block has the size that its prefix length says.
#[verifier::external_body]
pub(crate) fn parse_ip_cidr(text: &str) -> (r: Option<IpCidr>)
    ensures
        r == cidr_from_text(text@),
        r is Some ==> r->0.wf(),
{
    match text.parse::<cidr::IpCidr>() {
        Ok(cidr::IpCidr::V4(block)) => Some(IpCidr::V4 {
            first4: block.first_address().into(),
            last4: block.last_address().into(),
            length: block.network_length(),
        }),
        Ok(cidr::IpCidr::V6(block)) => Some(IpCidr::V6 {
            first6: block.first_address().into(),
            last6: block.last_address().into(),
            length: block.network_length(),
        }),
        Err(_) => None,
    }
}

/// Parses an address with prefix length with the `FromStr` of `cidr::IpInet` and takes its
/// network. What is claimed of it: the result depends on the text alone, and the network has the
/// size that its prefix length says.
#[verifier::external_body]
pub(crate) fn parse_ip_inet_network(text: &str) -> (r: Option<IpCidr>)
    ensures
        r == inet_network_from_text(text@),
        r is Some ==> r->0.wf(),
{
    match text.parse::<cidr::IpInet>() {
        Ok(cidr::IpInet::V4(inet)) => Some(IpCidr::V4 {
            first4: inet.first_address().into(),
            last4: inet.last_address().into(),
            length: inet.network_length(),
        }),
        Ok(cidr::IpInet::V6(inet)) => Some(IpCidr::V6 {
            first6: inet.first_address().into(),
            last6: inet.last_address().into(),
            length: inet.network_length(),
        }),
        Err(_) => None,
    }
}

/// Parses an address with `str::parse`, into the address type that `cidr::IpInet::new_host`
/// takes. What is claimed of it: the result depends on the text alone.
#[verifier::external_body]
pub(crate) fn parse_ip_address(text: &str) -> (r: Option<IpAddress>)
    ensures
        r == ip_from_text(text@),
{
    match text.parse() {
        Ok(ip) => match cidr::IpInet::new_host(ip) {
            cidr::IpInet::V4(inet) => Some(IpAddress::V4(inet.address().into())),
            cidr::IpInet::V6(inet) => Some(IpAddress::V6(inet.address().into())),
        },
        Err(_) => None,
    }
}

/// An IPv4 address and the bounds of its network.
#[derive(Clone, Copy, Debug, PartialEq, Eq, Structural)]
pub struct Ipv4Inet {
    pub address: u32,
    pub first: u32,
    pub last: u32,
}

impl Ipv4Inet {
    /// The address lies in its network, whose size is a power of two.
    pub open spec fn wf(self) -> bool {
        &&& self.first <= self.address <= self.last
        &&& exists|bits: nat| bits <= 32 && #[trigger] pow2(bits) == self.last - self.first + 1
    }

    /// The address with the network of its first `length` bits, for a length that an IPv4
    /// address can have.
    pub open spec fn of(address: u32, length: u8) -> Option<Ipv4Inet> {
        if length > 32 {
            None
        } else {
            let size = pow2((32 - length) as nat) as int;
            let first = address - address as int % size;
            Some(Ipv4Inet { address, first: first as u32, last: (first + size - 1) as u32 })
        }
    }

    /// Makes the value with `cidr::Ipv4Inet::new`. What is claimed of it: it fails exactly for a
    /// length above 32, and else the network holds the addresses that share the first `length`
    /// bits with the given one.
    #[verifier::external_body]
    pub(crate) fn new(address: u32, length: u8) -> (r: Option<Ipv4Inet>)
        ensures
            r == Ipv4Inet::of(address, length),
            r is Some ==> r->0.wf(),
    {
        match cidr::Ipv4Inet::new(address.into(), length) {
            Ok(inet) => Some(
                Ipv4Inet {
                    address: inet.address().into(),
                    first: inet.first_address().into(),
                    last: inet.last_address().into(),
                },
            ),
            Err(_) => None,
        }
    }

    pub open spec fn holds(self, ip: u32) -> bool {
        self.first <= ip <= self.last
    }
}

/// An IPv6 address and the bounds of its network.
#[derive(Clone, Copy, Debug, PartialEq, Eq, Structural)]
pub struct Ipv6Inet {
    pub address: u128,
    pub first: u128,
    pub last: u128,
}

impl Ipv6Inet {
    pub open spec fn wf(self) -> bool {
        self.first <= self.address <= self.last
    }

    pub open spec fn holds(self, ip: u128) -> bool {
        self.first <= ip <= self.last
    }
}

/// A block holds addresses of its own version alone: those between its bounds.
pub proof fn law_blocks_hold_their_version(block: IpCidr, ip: IpAddress)
    ensures
        block.holds(ip) ==> (block is V4 <==> ip is V4),
        block is V4 && ip is V4 ==> (block.holds(ip) <==> block->first4 <= ip->V4_0 <= block->last4),
        block is V6 && ip is V6 ==> (block.holds(ip) <==> block->first6 <= ip->V6_0 <= block->last6),
{
}

/// One more block only adds addresses, and adds those that it holds.
pub proof fn law_blocks_only_add(blocks: Seq<IpCidr>, more: IpCidr, ip: IpAddress)
    ensures
        any_holds(blocks.push(more), ip) <==> any_holds(blocks, ip) || more.holds(ip),
        !any_holds(Seq::empty(), ip),
{
    let all = blocks.push(more);
    if any_holds(blocks, ip) {
        let i = choose|i: int| 0 <= i < blocks.len() && (#[trigger] blocks[i]).holds(ip);
        assert(all[i].holds(ip));
    }
    if more.holds(ip) {
        assert(all[blocks.len() as int].holds(ip));
    }
    if any_holds(all, ip) {
        let i = choose|i: int| 0 <= i < all.len() && (#[trigger] all[i]).holds(ip);
        if i < blocks.len() {
            assert(blocks[i].holds(ip));
        }
    }
}

} // verus!
