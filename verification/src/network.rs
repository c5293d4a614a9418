//! What is known of the host's network interfaces: the addresses that a connection may start
//! from, which interface owns them, and how long that knowledge is good for.
use vstd::arithmetic::power2::pow2;
use vstd::prelude::*;

use crate::addr::IpAddress;
use crate::ip_range::{ip_from_text, parse_ip_address};
use crate::text::{contains_text, has_word};

verus! {

/// The netmask of a network whose addresses share their first `length` of `bits` bits.
pub open spec fn netmask(bits: nat, length: u8) -> int {
    pow2(bits) - pow2((bits - length) as nat)
}

/// The length that a netmask says, if it says any: it is the netmask of that length.
pub open spec fn length_of_mask(bits: nat, mask: int, length: Option<u8>) -> bool {
    match length {
        Some(length) => length <= bits && mask == netmask(bits, length),
        None => forall|length: u8| length <= bits ==> mask != #[trigger] netmask(bits, length),
    }
}

/// Reads an IPv4 netmask with `with_netmask` of `pnet::ipnetwork::Ipv4Network`. What is claimed of
/// it: the length is that of the netmask, and there is none for a mask that no length has.
#[verifier::external_body]
fn network_length4(ip: u32, mask: u32) -> (r: Option<u8>)
    ensures
        length_of_mask(32, mask as int, r),
{
    let network = pnet::ipnetwork::Ipv4Network::with_netmask(ip.into(), mask.into()).ok()?;
    Some(network.prefix())
}

/// Reads an IPv6 netmask with `with_netmask` of `pnet::ipnetwork::Ipv6Network`. What is claimed of
/// it: the length is that of the netmask, and there is none for a mask that no length has.
#[verifier::external_body]
fn network_length6(ip: u128, mask: u128) -> (r: Option<u8>)
    ensures
        length_of_mask(128, mask as int, r),
{
    let network = pnet::ipnetwork::Ipv6Network::with_netmask(ip.into(), mask.into()).ok()?;
    Some(network.prefix())
}

/// An address of an interface, as Windows tells of it.
#[derive(Clone, Copy, Debug, PartialEq, Eq, Structural)]
pub enum WindowsInterfaceAddr {
    V4 { ip: u32, netmask: Option<u32> },
    V6 { ip6: u128, netmask6: Option<u128> },
}

/// An address with the length of its network's prefix.
#[derive(Clone, Copy, Debug, PartialEq, Eq, Structural)]
pub struct InterfaceAddr {
    pub ip: IpAddress,
    pub length: u8,
}

/// The length of a result, if there is one.
pub open spec fn length_in(addr: Option<InterfaceAddr>) -> Option<u8> {
    match addr {
        Some(addr) => Some(addr.length),
        None => None,
    }
}

/// Takes over an address of an interface. Without a netmask the address is alone in its network;
/// one whose netmask is none is left out.
pub fn convert_windows_interface_addr(addr: WindowsInterfaceAddr) -> (r: Option<InterfaceAddr>)
    ensures
        match addr {
            WindowsInterfaceAddr::V4 { ip, netmask } => length_of_mask(
                32,
                match netmask {
                    Some(mask) => mask as int,
                    None => u32::MAX as int,
                },
                length_in(r),
            ) && (r is Some ==> r->0.ip == IpAddress::V4(ip)),
            WindowsInterfaceAddr::V6 { ip6, netmask6 } => length_of_mask(
                128,
                match netmask6 {
                    Some(mask) => mask as int,
                    None => u128::MAX as int,
                },
                length_in(r),
            ) && (r is Some ==> r->0.ip == IpAddress::V6(ip6)),
        },
{
    match addr {
        WindowsInterfaceAddr::V4 { ip, netmask } => {
            let mask: u32 = match netmask {
                Some(mask) => mask,
                None => u32::MAX,
            };
            match network_length4(ip, mask) {
                Some(length) => Some(InterfaceAddr { ip: IpAddress::V4(ip), length }),
                None => None,
            }
        },
        WindowsInterfaceAddr::V6 { ip6, netmask6 } => {
            let mask: u128 = match netmask6 {
                Some(mask) => mask,
                None => u128::MAX,
            };
            match network_length6(ip6, mask) {
                Some(length) => Some(InterfaceAddr { ip: IpAddress::V6(ip6), length }),
                None => None,
            }
        },
    }
}

pub const CACHED_IP_LIST_TIMEOUT_SEC: u64 = 60;

/// In nanoseconds.
pub const UNDERLAY_SNAPSHOT_TTL: u64 = 5_000_000_000;

pub const UNDERLAY_SNAPSHOT_REFRESH_ATTEMPTS: u8 = 2;

/// A network interface of the host.
#[derive(Debug)]
pub struct HostInterface {
    pub name: String,
    pub index: u32,
    pub is_point_to_point: bool,
    pub is_loopback: bool,
    pub is_up: bool,
    pub is_lower_up: bool,
    pub has_nonzero_mac: bool,
    pub ips: Vec<IpAddress>,
}

/// The interface that owns an address.
#[derive(Debug, PartialEq, Eq)]
pub struct UnderlayInterfaceIdentity {
    pub name: String,
    pub index: u32,
    pub is_point_to_point: bool,
}

impl UnderlayInterfaceIdentity {
    /// The identity is that of the interface.
    pub open spec fn identifies(self, iface: HostInterface) -> bool {
        &&& self.name@ == iface.name@
        &&& self.index == iface.index
        &&& self.is_point_to_point == iface.is_point_to_point
    }
}

/// The addresses of the host.
#[derive(Debug)]
pub struct IpList {
    pub public_ipv4: Option<u32>,
    pub interface_ipv4s: Vec<u32>,
    pub public_ipv6: Option<u128>,
    pub interface_ipv6s: Vec<u128>,
}

/// The addresses of the interfaces in order, each with the place of its interface.
pub open spec fn listed(ifaces: Seq<HostInterface>) -> Seq<(IpAddress, int)>
    decreases ifaces.len(),
{
    if ifaces.len() == 0 {
        Seq::empty()
    } else {
        let last = ifaces.last();
        listed(ifaces.drop_last()) + Seq::new(
            last.ips@.len(),
            |j: int| (last.ips@[j], ifaces.len() - 1),
        )
    }
}

/// The place of the first interface that lists the address.
pub open spec fn first_owner(list: Seq<(IpAddress, int)>, ip: IpAddress) -> Option<int>
    decreases list.len(),
{
    if list.len() == 0 {
        None
    } else {
        match first_owner(list.drop_last(), ip) {
            Some(owner) => Some(owner),
            None => if list.last().0 == ip {
                Some(list.last().1)
            } else {
                None
            },
        }
    }
}

/// The IPv4 addresses of a list that a connection can start from.
pub open spec fn ipv4_sources(list: Seq<(IpAddress, int)>) -> Seq<u32>
    decreases list.len(),
{
    if list.len() == 0 {
        Seq::empty()
    } else {
        let before = ipv4_sources(list.drop_last());
        let ip = list.last().0;
        match ip {
            IpAddress::V4(v4) => if !ip.loopback() && !ip.multicast() {
                before.push(v4)
            } else {
                before
            },
            IpAddress::V6(_) => before,
        }
    }
}

/// The IPv6 addresses of a list that a connection can start from.
pub open spec fn ipv6_sources(list: Seq<(IpAddress, int)>) -> Seq<u128>
    decreases list.len(),
{
    if list.len() == 0 {
        Seq::empty()
    } else {
        let before = ipv6_sources(list.drop_last());
        let ip = list.last().0;
        match ip {
            IpAddress::V6(v6) => if !ip.multicast() && !ip.loopback() && !ip.link_local() {
                before.push(v6)
            } else {
                before
            },
            IpAddress::V4(_) => before,
        }
    }
}

/// The sources and the address that the routing table would choose, if it is not among them.
pub open spec fn with_fallback<A>(sources: Seq<A>, fallback: Option<A>) -> Seq<A> {
    match fallback {
        Some(ip) => if sources.contains(ip) {
            sources
        } else {
            sources.push(ip)
        },
        None => sources,
    }
}

/// The fallback address, if no interface owns it.
pub open spec fn unmapped(list: Seq<(IpAddress, int)>, fallback: Option<IpAddress>) -> Seq<IpAddress> {
    match fallback {
        Some(ip) => if first_owner(list, ip) is None {
            seq![ip]
        } else {
            Seq::empty()
        },
        None => Seq::empty(),
    }
}

pub open spec fn v4_of(fallback: Option<u32>) -> Option<IpAddress> {
    match fallback {
        Some(ip) => Some(IpAddress::V4(ip)),
        None => None,
    }
}

pub open spec fn v6_of(fallback: Option<u128>) -> Option<IpAddress> {
    match fallback {
        Some(ip) => Some(IpAddress::V6(ip)),
        None => None,
    }
}

fn list_addresses(ifaces: &[HostInterface]) -> (r: Vec<(IpAddress, usize)>)
    ensures
        r@.len() == listed(ifaces@).len(),
        forall|i: int|
            0 <= i < r@.len() ==> (#[trigger] r@[i]).0 == listed(ifaces@)[i].0 && r@[i].1 == listed(
                ifaces@,
            )[i].1,
        forall|i: int| 0 <= i < r@.len() ==> (#[trigger] r@[i]).1 < ifaces@.len(),
{
    let mut out: Vec<(IpAddress, usize)> = Vec::new();
    let mut i: usize = 0;
    assert(ifaces@.take(0) =~= Seq::<HostInterface>::empty());
    while i < ifaces.len()
        invariant
            i <= ifaces@.len(),
            out@.len() == listed(ifaces@.take(i as int)).len(),
            forall|k: int|
                0 <= k < out@.len() ==> (#[trigger] out@[k]).0 == listed(ifaces@.take(i as int))[k].0
                    && out@[k].1 == listed(ifaces@.take(i as int))[k].1 && out@[k].1 < ifaces@.len(),
        decreases ifaces@.len() - i,
    {
        let ghost before = listed(ifaces@.take(i as int));
        let ghost next = listed(ifaces@.take(i as int + 1));
        proof {
            assert(ifaces@.take(i as int + 1).drop_last() =~= ifaces@.take(i as int));
            assert(ifaces@.take(i as int + 1).last() == ifaces@[i as int]);
        }
        let mut j: usize = 0;
        while j < ifaces[i].ips.len()
            invariant
                i < ifaces@.len(),
                j <= ifaces@[i as int].ips@.len(),
                out@.len() == before.len() + j,
                next.len() == before.len() + ifaces@[i as int].ips@.len(),
                forall|k: int| 0 <= k < before.len() ==> #[trigger] next[k] == before[k],
                forall|k: int|
                    0 <= k < ifaces@[i as int].ips@.len() ==> #[trigger] next[before.len() + k] == (
                        ifaces@[i as int].ips@[k],
                        i as int,
                    ),
                forall|k: int|
                    0 <= k < out@.len() ==> (#[trigger] out@[k]).0 == next[k].0 && out@[k].1
                        == next[k].1 && out@[k].1 < ifaces@.len(),
            decreases ifaces@[i as int].ips@.len() - j,
        {
            assert(next[before.len() + j] == (ifaces@[i as int].ips@[j as int], i as int));
            out.push((ifaces[i].ips[j], i));
            j += 1;
        }
        i += 1;
    }
    assert(ifaces@.take(ifaces@.len() as int) =~= ifaces@);
    out
}

/// The pairs with the places as mathematical integers.
spec fn as_listed(list: Seq<(IpAddress, usize)>) -> Seq<(IpAddress, int)> {
    list.map_values(|pair: (IpAddress, usize)| (pair.0, pair.1 as int))
}

/// The addresses that connections can start from.
fn collect_sources(
    all: &Vec<(IpAddress, usize)>,
    filtered: &Vec<(IpAddress, usize)>,
    fallback_ipv4: Option<u32>,
    fallback_ipv6: Option<u128>,
) -> (r: IpList)
    ensures
        r.public_ipv4 is None,
        r.public_ipv6 is None,
        r.interface_ipv4s@ == with_fallback(ipv4_sources(as_listed(filtered@)), fallback_ipv4),
        r.interface_ipv6s@ == with_fallback(ipv6_sources(as_listed(all@)), fallback_ipv6),
{
    let mut v4s: Vec<u32> = Vec::new();
    let mut i: usize = 0;
    let ghost list = as_listed(filtered@);
    assert(list.take(0) =~= Seq::<(IpAddress, int)>::empty());
    while i < filtered.len()
        invariant
            i <= filtered@.len(),
            list == as_listed(filtered@),
            v4s@ == ipv4_sources(list.take(i as int)),
        decreases filtered@.len() - i,
    {
        proof {
            assert(list.take(i as int + 1).drop_last() =~= list.take(i as int));
            assert(list.take(i as int + 1).last() == list[i as int]);
        }
        let ip = filtered[i].0;
        if let IpAddress::V4(v4) = ip {
            if !ip.is_loopback() && !ip.is_multicast() {
                v4s.push(v4);
            }
        }
        i += 1;
    }
    assert(list.take(list.len() as int) =~= list);
    let mut v6s: Vec<u128> = Vec::new();
    let mut k: usize = 0;
    let ghost every = as_listed(all@);
    assert(every.take(0) =~= Seq::<(IpAddress, int)>::empty());
    while k < all.len()
        invariant
            k <= all@.len(),
            every == as_listed(all@),
            v6s@ == ipv6_sources(every.take(k as int)),
        decreases all@.len() - k,
    {
        proof {
            assert(every.take(k as int + 1).drop_last() =~= every.take(k as int));
            assert(every.take(k as int + 1).last() == every[k as int]);
        }
        let ip = all[k].0;
        if let IpAddress::V6(v6) = ip {
            if !ip.is_multicast() && !ip.is_loopback() && !ip.is_link_local() {
                v6s.push(v6);
            }
        }
        k += 1;
    }
    assert(every.take(every.len() as int) =~= every);
    if let Some(ip) = fallback_ipv4 {
        let mut found = false;
        let mut j: usize = 0;
        while j < v4s.len()
            invariant
                j <= v4s@.len(),
                found == v4s@.take(j as int).contains(ip),
            decreases v4s@.len() - j,
        {
            proof {
                let now = v4s@.take(j as int + 1);
                let was = v4s@.take(j as int);
                assert(now[j as int] == v4s@[j as int]);
                if was.contains(ip) {
                    let a = choose|a: int| 0 <= a < was.len() && was[a] == ip;
                    assert(now[a] == ip);
                }
                if now.contains(ip) {
                    let a = choose|a: int| 0 <= a < now.len() && now[a] == ip;
                    if a < j {
                        assert(was[a] == ip);
                    }
                }
            }
            if v4s[j] == ip {
                found = true;
            }
            j += 1;
        }
        assert(v4s@.take(j as int) =~= v4s@);
        if !found {
            v4s.push(ip);
        }
    }
    if let Some(ip) = fallback_ipv6 {
        let mut found = false;
        let mut j: usize = 0;
        while j < v6s.len()
            invariant
                j <= v6s@.len(),
                found == v6s@.take(j as int).contains(ip),
            decreases v6s@.len() - j,
        {
            proof {
                let now = v6s@.take(j as int + 1);
                let was = v6s@.take(j as int);
                assert(now[j as int] == v6s@[j as int]);
                if was.contains(ip) {
                    let a = choose|a: int| 0 <= a < was.len() && was[a] == ip;
                    assert(now[a] == ip);
                }
                if now.contains(ip) {
                    let a = choose|a: int| 0 <= a < now.len() && now[a] == ip;
                    if a < j {
                        assert(was[a] == ip);
                    }
                }
            }
            if v6s[j] == ip {
                found = true;
            }
            j += 1;
        }
        assert(v6s@.take(j as int) =~= v6s@);
        if !found {
            v6s.push(ip);
        }
    }
    IpList { public_ipv4: None, interface_ipv4s: v4s, public_ipv6: None, interface_ipv6s: v6s }
}

/// The addresses that the node tells its peers: the IPv4 addresses of the usable interfaces, the
/// IPv6 addresses of all of them, and the ones that the routing table would choose.
pub fn collect_local_ip_addrs(
    ifaces: &[HostInterface],
    filtered_ifaces: &[HostInterface],
    fallback_ipv4: Option<u32>,
    fallback_ipv6: Option<u128>,
) -> (r: IpList)
    ensures
        r.public_ipv4 is None,
        r.public_ipv6 is None,
        r.interface_ipv4s@ == with_fallback(ipv4_sources(listed(filtered_ifaces@)), fallback_ipv4),
        r.interface_ipv6s@ == with_fallback(ipv6_sources(listed(ifaces@)), fallback_ipv6),
{
    let all = list_addresses(ifaces);
    let filtered = list_addresses(filtered_ifaces);
    assert(as_listed(all@) =~= listed(ifaces@));
    assert(as_listed(filtered@) =~= listed(filtered_ifaces@));
    collect_sources(&all, &filtered, fallback_ipv4, fallback_ipv6)
}

/// The last address of the texts that is an IPv4 address, else `current`.
pub open spec fn last_public_ipv4(current: Option<u32>, texts: Seq<String>) -> Option<u32>
    decreases texts.len(),
{
    if texts.len() == 0 {
        current
    } else {
        match ip_from_text(texts.last()@) {
            Some(IpAddress::V4(v4)) => Some(v4),
            _ => last_public_ipv4(current, texts.drop_last()),
        }
    }
}

/// The last address of the texts that is an IPv6 address, else `current`.
pub open spec fn last_public_ipv6(current: Option<u128>, texts: Seq<String>) -> Option<u128>
    decreases texts.len(),
{
    if texts.len() == 0 {
        current
    } else {
        match ip_from_text(texts.last()@) {
            Some(IpAddress::V6(v6)) => Some(v6),
            _ => last_public_ipv6(current, texts.drop_last()),
        }
    }
}

impl IpList {
    /// Takes over the public addresses that a probe reported; texts that are no address are
    /// passed over.
    pub fn apply_public_ips(&mut self, public_ips: &Vec<String>)
        ensures
            final(self).public_ipv4 == last_public_ipv4(old(self).public_ipv4, public_ips@),
            final(self).public_ipv6 == last_public_ipv6(old(self).public_ipv6, public_ips@),
            final(self).interface_ipv4s == old(self).interface_ipv4s,
            final(self).interface_ipv6s == old(self).interface_ipv6s,
    {
        let mut i: usize = 0;
        while i < public_ips.len()
            invariant
                i <= public_ips@.len(),
                self.public_ipv4 == last_public_ipv4(
                    old(self).public_ipv4,
                    public_ips@.take(i as int),
                ),
                self.public_ipv6 == last_public_ipv6(
                    old(self).public_ipv6,
                    public_ips@.take(i as int),
                ),
                self.interface_ipv4s == old(self).interface_ipv4s,
                self.interface_ipv6s == old(self).interface_ipv6s,
            decreases public_ips@.len() - i,
        {
            proof {
                assert(public_ips@.take(i as int + 1).drop_last() =~= public_ips@.take(i as int));
                assert(public_ips@.take(i as int + 1).last() == public_ips@[i as int]);
            }
            match parse_ip_address(public_ips[i].as_str()) {
                Some(IpAddress::V4(v4)) => {
                    self.public_ipv4 = Some(v4);
                },
                Some(IpAddress::V6(v6)) => {
                    self.public_ipv6 = Some(v6);
                },
                None => {},
            }
            i += 1;
        }
        assert(public_ips@.take(public_ips@.len() as int) =~= public_ips@);
    }

    /// Seconds until the public addresses are looked at again: soon while none is known.
    pub fn next_poll_secs(&self) -> (r: u64)
        ensures
            r == (if self.public_ipv4 is Some {
                CACHED_IP_LIST_TIMEOUT_SEC
            } else {
                3
            }),
    {
        if self.public_ipv4.is_some() {
            CACHED_IP_LIST_TIMEOUT_SEC
        } else {
            3
        }
    }

    /// Tells whether the interface addresses have been kept for too long.
    pub fn interfaces_are_stale(elapsed_secs: u64) -> (r: bool)
        ensures
            r == (elapsed_secs > CACHED_IP_LIST_TIMEOUT_SEC),
    {
        elapsed_secs > CACHED_IP_LIST_TIMEOUT_SEC
    }
}

/// What the host's interfaces looked like at one moment.
#[derive(Debug)]
pub struct UnderlayInterfaceSnapshot {
    pub ip_list: IpList,
    pub generation: u64,
    pub owners: Vec<(IpAddress, UnderlayInterfaceIdentity)>,
    pub unmapped_fallbacks: Vec<IpAddress>,
}

impl UnderlayInterfaceSnapshot {
    /// The identity of the interface that owns the address.
    pub open spec fn owner(&self, ip: IpAddress) -> Option<UnderlayInterfaceIdentity> {
        if exists|i: int| 0 <= i < self.owners@.len() && (#[trigger] self.owners@[i]).0 == ip {
            Some(
                self.owners@[choose|i: int|
                    0 <= i < self.owners@.len() && (#[trigger] self.owners@[i]).0 == ip].1,
            )
        } else {
            None
        }
    }

    /// The fallback addresses that no interface owns.
    pub open spec fn unmapped(&self) -> Seq<IpAddress> {
        self.unmapped_fallbacks@
    }

    /// No address has two owners.
    pub open spec fn wf(&self) -> bool {
        forall|i: int, j: int|
            0 <= i < j < self.owners@.len() ==> (#[trigger] self.owners@[i]).0 != (
            #[trigger] self.owners@[j]).0
    }

    pub fn interface_for(&self, ip: &IpAddress) -> (r: Option<&UnderlayInterfaceIdentity>)
        requires
            self.wf(),
        ensures
            match r {
                Some(identity) => self.owner(*ip) == Some(*identity),
                None => self.owner(*ip) is None,
            },
    {
        let mut i: usize = 0;
        while i < self.owners.len()
            invariant
                i <= self.owners@.len(),
                self.wf(),
                forall|j: int| 0 <= j < i ==> (#[trigger] self.owners@[j]).0 != *ip,
            decreases self.owners@.len() - i,
        {
            if self.owners[i].0 == *ip {
                assert(self.owners@[i as int].0 == *ip);
                return Some(&self.owners[i].1);
            }
            i += 1;
        }
        None
    }

    pub fn unmapped_fallbacks(&self) -> (r: &Vec<IpAddress>)
        ensures
            r@ == self.unmapped(),
    {
        &self.unmapped_fallbacks
    }

    /// Some fallback of the family has no interface.
    pub open spec fn lacks_interface(&self, is_ipv4: bool) -> bool {
        exists|i: int|
            0 <= i < self.unmapped().len() && (#[trigger] self.unmapped()[i]).spec_is_ipv4() == is_ipv4
    }

    pub fn has_unmapped_fallback_for(&self, is_ipv4: bool) -> (r: bool)
        ensures
            r == self.lacks_interface(is_ipv4),
    {
        let mut i: usize = 0;
        while i < self.unmapped_fallbacks.len()
            invariant
                i <= self.unmapped_fallbacks@.len(),
                forall|j: int|
                    0 <= j < i ==> (#[trigger] self.unmapped()[j]).spec_is_ipv4() != is_ipv4,
            decreases self.unmapped_fallbacks@.len() - i,
        {
            if self.unmapped_fallbacks[i].is_ipv4() == is_ipv4 {
                assert(self.unmapped()[i as int].spec_is_ipv4() == is_ipv4);
                return true;
            }
            i += 1;
        }
        false
    }

    /// The snapshot tells what the interfaces and the fallbacks say.
    pub open spec fn describes(
        &self,
        ifaces: Seq<HostInterface>,
        filtered_ifaces: Seq<HostInterface>,
        fallback_ipv4: Option<u32>,
        fallback_ipv6: Option<u128>,
    ) -> bool {
        &&& self.ip_list.interface_ipv4s@ == with_fallback(
            ipv4_sources(listed(filtered_ifaces)),
            fallback_ipv4,
        )
        &&& self.ip_list.interface_ipv6s@ == with_fallback(
            ipv6_sources(listed(ifaces)),
            fallback_ipv6,
        )
        &&& self.unmapped() == unmapped(listed(ifaces), v4_of(fallback_ipv4)) + unmapped(
            listed(ifaces),
            v6_of(fallback_ipv6),
        )
        &&& forall|ip: IpAddress|
            match first_owner(listed(ifaces), ip) {
                Some(place) => (#[trigger] self.owner(ip)) is Some && self.owner(ip)->0.identifies(
                    ifaces[place],
                ),
                None => self.owner(ip) is None,
            }
    }
}

/// A place that lists the address makes it owned, and the owner lists it.
proof fn lemma_first_owner(list: Seq<(IpAddress, int)>, ip: IpAddress)
    ensures
        first_owner(list, ip) is Some <==> exists|i: int|
            0 <= i < list.len() && (#[trigger] list[i]).0 == ip,
        first_owner(list, ip) is Some ==> exists|i: int|
            0 <= i < list.len() && #[trigger] list[i] == (ip, first_owner(list, ip)->0),
    decreases list.len(),
{
    if list.len() > 0 {
        let front = list.drop_last();
        lemma_first_owner(front, ip);
        if first_owner(front, ip) is Some {
            let i = choose|i: int|
                0 <= i < front.len() && #[trigger] front[i] == (ip, first_owner(front, ip)->0);
            assert(list[i] == front[i]);
        } else if list.last().0 == ip {
            assert(list[list.len() - 1] == (ip, list.last().1));
        }
        if exists|i: int| 0 <= i < list.len() && (#[trigger] list[i]).0 == ip {
            let i = choose|i: int| 0 <= i < list.len() && (#[trigger] list[i]).0 == ip;
            if i < front.len() {
                assert(front[i].0 == ip);
            }
        }
    }
}

/// Records the owner of each listed address; the first interface that lists it wins.
fn collect_owners(ifaces: &[HostInterface], all: &Vec<(IpAddress, usize)>) -> (r: Vec<
    (IpAddress, UnderlayInterfaceIdentity),
>)
    requires
        forall|i: int| 0 <= i < all@.len() ==> (#[trigger] all@[i]).1 < ifaces@.len(),
    ensures
        forall|i: int, j: int|
            0 <= i < j < r@.len() ==> (#[trigger] r@[i]).0 != (#[trigger] r@[j]).0,
        forall|i: int|
            0 <= i < r@.len() ==> first_owner(as_listed(all@), (#[trigger] r@[i]).0) is Some
                && r@[i].1.identifies(ifaces@[first_owner(as_listed(all@), r@[i].0)->0]),
        forall|ip: IpAddress|
            (#[trigger] first_owner(as_listed(all@), ip)) is Some ==> exists|i: int|
                0 <= i < r@.len() && (#[trigger] r@[i]).0 == ip,
{
    let ghost list = as_listed(all@);
    let mut out: Vec<(IpAddress, UnderlayInterfaceIdentity)> = Vec::new();
    let mut i: usize = 0;
    assert(list.take(0) =~= Seq::<(IpAddress, int)>::empty());
    while i < all.len()
        invariant
            i <= all@.len(),
            list == as_listed(all@),
            forall|k: int| 0 <= k < all@.len() ==> (#[trigger] all@[k]).1 < ifaces@.len(),
            forall|a: int, b: int|
                0 <= a < b < out@.len() ==> (#[trigger] out@[a]).0 != (#[trigger] out@[b]).0,
            forall|k: int|
                0 <= k < out@.len() ==> first_owner(list.take(i as int), (#[trigger] out@[k]).0)
                    is Some && out@[k].1.identifies(
                    ifaces@[first_owner(list.take(i as int), out@[k].0)->0],
                ),
            forall|ip: IpAddress|
                (#[trigger] first_owner(list.take(i as int), ip)) is Some ==> exists|k: int|
                    0 <= k < out@.len() && (#[trigger] out@[k]).0 == ip,
        decreases all@.len() - i,
    {
        let ip = all[i].0;
        let place: usize = all[i].1;
        let ghost before = list.take(i as int);
        let ghost after = list.take(i as int + 1);
        proof {
            assert(after.drop_last() =~= before);
            assert(after.last() == (ip, place as int));
            assert forall|other: IpAddress| (#[trigger] first_owner(after, other)) == (
            if first_owner(before, other) is Some {
                first_owner(before, other)
            } else if other == ip {
                Some(place as int)
            } else {
                None
            }) by {}
        }
        let mut known = false;
        let mut j: usize = 0;
        while j < out.len()
            invariant
                j <= out@.len(),
                known == exists|k: int| 0 <= k < j && (#[trigger] out@[k]).0 == ip,
            decreases out@.len() - j,
        {
            if out[j].0 == ip {
                known = true;
                assert(out@[j as int].0 == ip);
            }
            j += 1;
        }
        if !known {
            let identity = UnderlayInterfaceIdentity {
                name: ifaces[place].name.clone(),
                index: ifaces[place].index,
                is_point_to_point: ifaces[place].is_point_to_point,
            };
            let ghost shorter = out@;
            out.push((ip, identity));
            proof {
                assert(first_owner(before, ip) is None);
                assert forall|other: IpAddress| (#[trigger] first_owner(after, other)) is Some implies exists|
                    k: int,
                | 0 <= k < out@.len() && (#[trigger] out@[k]).0 == other by {
                    if first_owner(before, other) is Some {
                        let k = choose|k: int| 0 <= k < shorter.len() && (#[trigger] shorter[k]).0 == other;
                        assert(out@[k].0 == other);
                    } else {
                        assert(out@[shorter.len() as int].0 == other);
                    }
                }
                assert forall|k: int| 0 <= k < out@.len() implies first_owner(
                    after,
                    (#[trigger] out@[k]).0,
                ) is Some && out@[k].1.identifies(ifaces@[first_owner(after, out@[k].0)->0]) by {
                    if k < shorter.len() {
                        assert(out@[k] == shorter[k]);
                    }
                }
            }
        } else {
            proof {
                assert(first_owner(before, ip) is Some) by {
                    let k = choose|k: int| 0 <= k < out@.len() && (#[trigger] out@[k]).0 == ip;
                    assert(first_owner(before, out@[k].0) is Some);
                }
                assert forall|other: IpAddress| (#[trigger] first_owner(after, other)) is Some implies exists|
                    k: int,
                | 0 <= k < out@.len() && (#[trigger] out@[k]).0 == other by {
                    assert(first_owner(before, other) is Some);
                }
            }
        }
        i += 1;
    }
    assert(list.take(list.len() as int) =~= list);
    out
}

fn is_listed(all: &Vec<(IpAddress, usize)>, ip: IpAddress) -> (r: bool)
    ensures
        r == (first_owner(as_listed(all@), ip) is Some),
{
    let mut i: usize = 0;
    while i < all.len()
        invariant
            i <= all@.len(),
            forall|j: int| 0 <= j < i ==> (#[trigger] as_listed(all@)[j]).0 != ip,
        decreases all@.len() - i,
    {
        if all[i].0 == ip {
            proof {
                lemma_first_owner(as_listed(all@), ip);
                assert(as_listed(all@)[i as int].0 == ip);
            }
            return true;
        }
        i += 1;
    }
    proof {
        lemma_first_owner(as_listed(all@), ip);
    }
    false
}

/// Takes a snapshot of the interfaces. `filtered_ifaces` are those that carry ordinary traffic;
/// the fallbacks are the addresses that the routing table would choose.
pub fn build_underlay_snapshot(
    ifaces: &[HostInterface],
    filtered_ifaces: &[HostInterface],
    fallback_ipv4: Option<u32>,
    fallback_ipv6: Option<u128>,
) -> (r: UnderlayInterfaceSnapshot)
    ensures
        r.wf(),
        r.generation == 0,
        r.describes(ifaces@, filtered_ifaces@, fallback_ipv4, fallback_ipv6),
{
    let all = list_addresses(ifaces);
    let filtered = list_addresses(filtered_ifaces);
    assert(as_listed(all@) =~= listed(ifaces@));
    assert(as_listed(filtered@) =~= listed(filtered_ifaces@));
    let ip_list = collect_sources(&all, &filtered, fallback_ipv4, fallback_ipv6);
    let owners = collect_owners(ifaces, &all);
    let mut unmapped_fallbacks: Vec<IpAddress> = Vec::new();
    if let Some(ipv4) = fallback_ipv4 {
        if !is_listed(&all, IpAddress::V4(ipv4)) {
            unmapped_fallbacks.push(IpAddress::V4(ipv4));
        }
    }
    assert(unmapped_fallbacks@ =~= unmapped(listed(ifaces@), v4_of(fallback_ipv4)));
    if let Some(ipv6) = fallback_ipv6 {
        if !is_listed(&all, IpAddress::V6(ipv6)) {
            unmapped_fallbacks.push(IpAddress::V6(ipv6));
        }
    }
    assert(unmapped_fallbacks@ =~= unmapped(listed(ifaces@), v4_of(fallback_ipv4)) + unmapped(
        listed(ifaces@),
        v6_of(fallback_ipv6),
    ));
    let r = UnderlayInterfaceSnapshot { ip_list, generation: 0, owners, unmapped_fallbacks };
    proof {
        assert forall|ip: IpAddress|
            match first_owner(listed(ifaces@), ip) {
                Some(place) => (#[trigger] r.owner(ip)) is Some && r.owner(ip)->0.identifies(
                    ifaces@[place],
                ),
                None => r.owner(ip) is None,
            } by {
            if first_owner(listed(ifaces@), ip) is Some {
                let k = choose|k: int| 0 <= k < r.owners@.len() && (#[trigger] r.owners@[k]).0 == ip;
                assert(r.owners@[k].0 == ip);
            } else if r.owner(ip) is Some {
                let k = choose|k: int| 0 <= k < r.owners@.len() && (#[trigger] r.owners@[k]).0 == ip;
                assert(first_owner(as_listed(all@), r.owners@[k].0) is Some);
            }
        }
    }
    r
}

/// A fallback without an interface is held against its own address family only.
pub proof fn law_unmapped_fallback_is_per_family(
    snapshot: UnderlayInterfaceSnapshot,
    ifaces: Seq<HostInterface>,
    filtered_ifaces: Seq<HostInterface>,
    fallback_ipv4: Option<u32>,
    fallback_ipv6: Option<u128>,
)
    requires
        snapshot.describes(ifaces, filtered_ifaces, fallback_ipv4, fallback_ipv6),
    ensures
        snapshot.lacks_interface(true) <==> fallback_ipv4 is Some && snapshot.owner(
            IpAddress::V4(fallback_ipv4->0),
        ) is None,
        snapshot.lacks_interface(false) <==> fallback_ipv6 is Some && snapshot.owner(
            IpAddress::V6(fallback_ipv6->0),
        ) is None,
{
    let list = listed(ifaces);
    let v4 = unmapped(list, v4_of(fallback_ipv4));
    let v6 = unmapped(list, v6_of(fallback_ipv6));
    let both = v4 + v6;
    assert(snapshot.unmapped() == both);
    if fallback_ipv4 is Some {
        let ip = IpAddress::V4(fallback_ipv4->0);
        assert(snapshot.owner(ip) is None <==> first_owner(list, ip) is None);
        if first_owner(list, ip) is None {
            assert(both[0] == ip);
            assert(snapshot.unmapped()[0].spec_is_ipv4());
        }
    }
    if fallback_ipv6 is Some {
        let ip = IpAddress::V6(fallback_ipv6->0);
        assert(snapshot.owner(ip) is None <==> first_owner(list, ip) is None);
        if first_owner(list, ip) is None {
            assert(both[v4.len() as int] == ip);
            assert(!snapshot.unmapped()[v4.len() as int].spec_is_ipv4());
        }
    }
}

/// Some address of the list is one that a peer could use.
pub open spec fn has_usable_ip(ips: Seq<IpAddress>) -> bool {
    exists|i: int|
        0 <= i < ips.len() && !(#[trigger] ips[i]).loopback() && !ips[i].unspecified()
            && !ips[i].multicast()
}

pub fn has_valid_ip(ips: &Vec<IpAddress>) -> (r: bool)
    ensures
        r == has_usable_ip(ips@),
{
    let mut i: usize = 0;
    while i < ips.len()
        invariant
            i <= ips@.len(),
            forall|j: int|
                0 <= j < i ==> (#[trigger] ips@[j]).loopback() || ips@[j].unspecified()
                    || ips@[j].multicast(),
        decreases ips@.len() - i,
    {
        if !ips[i].is_loopback() && !ips[i].is_unspecified() && !ips[i].is_multicast() {
            assert(!ips@[i as int].loopback());
            return true;
        }
        i += 1;
    }
    false
}

/// Tells whether an interface of a Linux host carries ordinary traffic.
pub fn filter_iface_linux(iface: &HostInterface, is_tun_tap_device: bool) -> (r: bool)
    ensures
        r == (!iface.is_point_to_point && !iface.is_loopback && iface.is_up && iface.is_lower_up
            && !is_tun_tap_device && has_usable_ip(iface.ips@)),
{
    !iface.is_point_to_point && !iface.is_loopback && iface.is_up && iface.is_lower_up
        && !is_tun_tap_device && has_valid_ip(&iface.ips)
}

/// Tells whether an interface of a Windows host carries ordinary traffic.
pub fn filter_iface_windows(iface: &HostInterface) -> (r: bool)
    ensures
        r == (!iface.is_point_to_point && !iface.is_loopback && has_usable_ip(iface.ips@)
            && iface.has_nonzero_mac),
{
    !iface.is_point_to_point && !iface.is_loopback && has_valid_ip(&iface.ips)
        && iface.has_nonzero_mac
}

/// Tells whether an interface of a macOS or FreeBSD host carries ordinary traffic.
pub fn filter_iface_bsd(iface: &HostInterface, is_physical: bool) -> (r: bool)
    ensures
        r == (!iface.is_point_to_point && !iface.is_loopback && iface.is_up && is_physical),
{
    !iface.is_point_to_point && !iface.is_loopback && iface.is_up && is_physical
}

/// The line of a port listing names the device.
pub open spec fn names_device(line: Seq<char>, device: Seq<char>) -> bool {
    has_word(line, "Device:"@) && has_word(line, device)
}

/// Tells whether a listing of hardware ports shows the device as physical: the line after the one
/// that names it does not call it virtual. A device that is not listed is not physical.
pub fn is_interface_physical(lines: &Vec<String>, device: &str) -> (r: bool)
    requires
        lines@.len() > 0 ==> !names_device(lines@.last()@, device@),
    ensures
        r == exists|i: int|
            0 <= i < lines@.len() - 1 && names_device((#[trigger] lines@[i])@, device@)
                && !has_word(lines@[i + 1]@, "Virtual Interface"@) && forall|j: int|
                0 <= j < i ==> !names_device((#[trigger] lines@[j])@, device@),
{
    let mut i: usize = 0;
    while i < lines.len()
        invariant
            i <= lines@.len(),
            lines@.len() > 0 ==> !names_device(lines@.last()@, device@),
            forall|j: int| 0 <= j < i ==> !names_device((#[trigger] lines@[j])@, device@),
        decreases lines@.len() - i,
    {
        if contains_text(lines[i].as_str(), "Device:") && contains_text(lines[i].as_str(), device) {
            assert(names_device(lines@[i as int]@, device@));
            assert(i != lines@.len() - 1);
            return !contains_text(lines[i + 1].as_str(), "Virtual Interface");
        }
        i += 1;
    }
    false
}

/// A snapshot with the moment and the epoch in which it was taken.
#[derive(Debug)]
pub struct CachedUnderlaySnapshot {
    pub snapshot: UnderlayInterfaceSnapshot,
    pub epoch: u64,
    pub collected_at: u64,
}

/// The latest snapshot and what has been invalidated since. A network change starts a new epoch;
/// a stale bind invalidates its generation and the ones before.
#[derive(Debug)]
pub struct UnderlaySnapshotCache {
    pub state: Option<CachedUnderlaySnapshot>,
    pub epoch: u64,
    pub next_generation: u64,
    pub invalidated_through_generation: u64,
}

/// What to do next to get a snapshot.
#[derive(Clone, Copy, Debug, PartialEq, Eq, Structural)]
pub enum SnapshotStep {
    /// The cached snapshot is good.
    UseCached,
    /// Collect the interfaces and publish them with this epoch.
    Collect { epoch: u64 },
    /// The interfaces changed during every attempt.
    GiveUp,
}

impl UnderlaySnapshotCache {
    /// The cached snapshot is good at time `now`: it belongs to the current epoch, its generation
    /// is not invalidated, and it is not too old.
    pub open spec fn fresh(&self, now: u64) -> bool {
        match self.state {
            None => false,
            Some(cached) => cached.epoch == self.epoch && cached.snapshot.generation
                > self.invalidated_through_generation && now - cached.collected_at
                < UNDERLAY_SNAPSHOT_TTL,
        }
    }

    pub fn new() -> (r: Self)
        ensures
            r.state is None,
            r.epoch == 0,
            r.next_generation == 0,
            r.invalidated_through_generation == 0,
    {
        UnderlaySnapshotCache {
            state: None,
            epoch: 0,
            next_generation: 0,
            invalidated_through_generation: 0,
        }
    }

    /// Starts a new epoch.
    pub fn invalidate(&mut self)
        ensures
            final(self).epoch == (if old(self).epoch == u64::MAX {
                0
            } else {
                (old(self).epoch + 1) as u64
            }),
            final(self).state == old(self).state,
            final(self).next_generation == old(self).next_generation,
            final(self).invalidated_through_generation == old(self).invalidated_through_generation,
    {
        self.epoch = self.epoch.wrapping_add(1);
    }

    /// Invalidates a generation and all before it.
    pub fn invalidate_generation(&mut self, generation: u64)
        ensures
            final(self).invalidated_through_generation == (if generation > old(
                self,
            ).invalidated_through_generation {
                generation
            } else {
                old(self).invalidated_through_generation
            }),
            final(self).state == old(self).state,
            final(self).epoch == old(self).epoch,
            final(self).next_generation == old(self).next_generation,
    {
        if generation > self.invalidated_through_generation {
            self.invalidated_through_generation = generation;
        }
    }

    pub fn is_generation_invalidated(&self, generation: u64) -> (r: bool)
        ensures
            r == (self.invalidated_through_generation >= generation),
    {
        self.invalidated_through_generation >= generation
    }

    pub fn is_fresh(&self, now: u64) -> (r: bool)
        ensures
            r == self.fresh(now),
    {
        match &self.state {
            None => false,
            Some(cached) => cached.epoch == self.epoch && cached.snapshot.generation
                > self.invalidated_through_generation && now.saturating_sub(cached.collected_at)
                < UNDERLAY_SNAPSHOT_TTL,
        }
    }

    /// Decides how to get a snapshot after `attempts` collections were thrown away.
    pub fn next_step(&self, attempts: u8, now: u64) -> (r: SnapshotStep)
        ensures
            r == (if attempts >= UNDERLAY_SNAPSHOT_REFRESH_ATTEMPTS {
                SnapshotStep::GiveUp
            } else if self.fresh(now) {
                SnapshotStep::UseCached
            } else {
                SnapshotStep::Collect { epoch: self.epoch }
            }),
    {
        if attempts >= UNDERLAY_SNAPSHOT_REFRESH_ATTEMPTS {
            SnapshotStep::GiveUp
        } else if self.is_fresh(now) {
            SnapshotStep::UseCached
        } else {
            SnapshotStep::Collect { epoch: self.epoch }
        }
    }

    /// Publishes a collection that was started in `epoch`. If a network change came in between it
    /// is thrown away; else it gets the next generation, which is returned.
    pub fn publish(&mut self, collected: UnderlayInterfaceSnapshot, epoch: u64, now: u64) -> (r: Option<
        u64,
    >)
        ensures
            old(self).epoch != epoch ==> r is None && *final(self) == *old(self),
            old(self).epoch == epoch ==> ({
                let generation = if old(self).next_generation == u64::MAX {
                    0
                } else {
                    (old(self).next_generation + 1) as u64
                };
                &&& r == Some(generation)
                &&& final(self).next_generation == generation
                &&& final(self).epoch == epoch
                &&& final(self).invalidated_through_generation == old(
                    self,
                ).invalidated_through_generation
                &&& final(self).state == Some(
                    CachedUnderlaySnapshot {
                        snapshot: UnderlayInterfaceSnapshot { generation, ..collected },
                        epoch,
                        collected_at: now,
                    },
                )
            }),
    {
        if self.epoch != epoch {
            return None;
        }
        let generation: u64 = self.next_generation.wrapping_add(1);
        self.next_generation = generation;
        let mut snapshot = collected;
        snapshot.generation = generation;
        self.state = Some(CachedUnderlaySnapshot { snapshot, epoch, collected_at: now });
        Some(generation)
    }
}

/// A published snapshot is used again until its time is up, and no longer once a network change
/// has been reported or its generation has been invalidated.
pub proof fn law_snapshot_is_shared_until_it_ends(
    published: UnderlaySnapshotCache,
    changed: UnderlaySnapshotCache,
    later: u64,
)
    requires
        published.state is Some,
        published.state->0.epoch == published.epoch,
        published.state->0.snapshot.generation > published.invalidated_through_generation,
        changed.state == published.state,
        changed.epoch != published.epoch || changed.invalidated_through_generation
            >= published.state->0.snapshot.generation,
    ensures
        published.fresh(later) <==> later - published.state->0.collected_at < UNDERLAY_SNAPSHOT_TTL,
        !changed.fresh(later),
{
}

/// A netmask says one length at most, and the mask of a length says that length.
pub proof fn law_masks_say_one_length(bits: nat, mask: int, a: Option<u8>, b: Option<u8>, length: u8)
    requires
        length_of_mask(bits, mask, a),
        length_of_mask(bits, mask, b),
        length <= bits,
    ensures
        a == b,
        mask == netmask(bits, length) ==> a == Some(length),
        netmask(bits, 0) == 0,
        netmask(bits, length) + pow2((bits - length) as nat) == pow2(bits),
{
    if a is Some && b is Some && a->0 != b->0 {
        lemma_masks_differ(bits, a->0, b->0);
    }
    if mask == netmask(bits, length) && a is Some && a->0 != length {
        lemma_masks_differ(bits, a->0, length);
    }
    if a is Some && b is None {
        assert(mask != netmask(bits, a->0));
    }
    if b is Some && a is None {
        assert(mask != netmask(bits, b->0));
    }
}

proof fn lemma_masks_differ(bits: nat, a: u8, b: u8)
    requires
        a <= bits,
        b <= bits,
        a != b,
    ensures
        netmask(bits, a) != netmask(bits, b),
{
    if a < b {
        vstd::arithmetic::power2::lemma_pow2_strictly_increases((bits - b) as nat, (bits - a) as nat);
    } else {
        vstd::arithmetic::power2::lemma_pow2_strictly_increases((bits - a) as nat, (bits - b) as nat);
    }
}

/// The list holds each address of each interface, with the place of that interface, and nothing else.
pub proof fn law_every_address_is_listed(ifaces: Seq<HostInterface>, ip: IpAddress, place: int)
    ensures
        listed(ifaces).contains((ip, place)) <==> 0 <= place < ifaces.len() && ifaces[place].ips@.contains(
            ip,
        ),
    decreases ifaces.len(),
{
    if ifaces.len() > 0 {
        let front = ifaces.drop_last();
        law_every_address_is_listed(front, ip, place);
        let before = listed(front);
        let all = listed(ifaces);
        let own = ifaces.last().ips@;
        if before.contains((ip, place)) {
            let k = choose|k: int| 0 <= k < before.len() && before[k] == (ip, place);
            assert(all[k] == (ip, place));
        }
        if place == ifaces.len() - 1 && own.contains(ip) {
            let j = choose|j: int| 0 <= j < own.len() && own[j] == ip;
            assert(all[before.len() + j] == (ip, place));
        }
        if all.contains((ip, place)) && !before.contains((ip, place)) {
            let k = choose|k: int| 0 <= k < all.len() && all[k] == (ip, place);
            if k < before.len() {
                assert(before[k] == (ip, place));
            } else {
                assert(own[k - before.len()] == ip);
            }
        }
    }
}

/// The owner of an address is the interface that lists it first; an address that none lists has no owner.
pub proof fn law_owner_is_the_first(list: Seq<(IpAddress, int)>, ip: IpAddress)
    ensures
        first_owner(list, ip) is None <==> forall|i: int|
            0 <= i < list.len() ==> (#[trigger] list[i]).0 != ip,
        first_owner(list, ip) matches Some(owner) ==> exists|i: int|
            0 <= i < list.len() && (#[trigger] list[i]) == (ip, owner) && forall|j: int|
                0 <= j < i ==> (#[trigger] list[j]).0 != ip,
    decreases list.len(),
{
    if list.len() > 0 {
        let front = list.drop_last();
        law_owner_is_the_first(front, ip);
        let last = list.len() - 1;
        assert(list[last] == list.last());
        assert forall|i: int| 0 <= i < front.len() implies front[i] == #[trigger] list[i] by {}
        if first_owner(front, ip) is Some {
            let owner = first_owner(front, ip)->0;
            let i = choose|i: int|
                0 <= i < front.len() && (#[trigger] front[i]) == (ip, owner) && forall|j: int|
                    0 <= j < i ==> (#[trigger] front[j]).0 != ip;
            assert(list[i] == (ip, owner));
            assert forall|j: int| 0 <= j < i implies (#[trigger] list[j]).0 != ip by {
                assert(front[j].0 != ip);
            }
        } else {
            assert forall|j: int| 0 <= j < last implies (#[trigger] list[j]).0 != ip by {
                assert(front[j].0 != ip);
            }
        }
    }
}

/// A connection can start from every IPv4 address of the list that is neither loopback nor for groups.
pub proof fn law_ipv4_sources_are_usable(list: Seq<(IpAddress, int)>, ip: u32)
    ensures
        ipv4_sources(list).contains(ip) <==> (exists|i: int|
            0 <= i < list.len() && (#[trigger] list[i]).0 == IpAddress::V4(ip)) && !(0x7f00_0000 <= ip
            <= 0x7fff_ffff) && !(0xe000_0000 <= ip <= 0xefff_ffff),
    decreases list.len(),
{
    if list.len() > 0 {
        let front = list.drop_last();
        law_ipv4_sources_are_usable(front, ip);
        let before = ipv4_sources(front);
        let all = ipv4_sources(list);
        let last = list.len() - 1;
        assert(list[last] == list.last());
        assert forall|i: int| 0 <= i < front.len() implies front[i] == #[trigger] list[i] by {}
        if before.contains(ip) {
            let k = choose|k: int| 0 <= k < before.len() && before[k] == ip;
            assert(all[k] == ip);
            let i = choose|i: int| 0 <= i < front.len() && (#[trigger] front[i]).0 == IpAddress::V4(ip);
            assert(list[i].0 == IpAddress::V4(ip));
        }
        if list[last].0 == IpAddress::V4(ip) && !(0x7f00_0000 <= ip <= 0x7fff_ffff) && !(0xe000_0000 <= ip
            <= 0xefff_ffff) {
            assert(all[all.len() - 1] == ip);
        }
        if all.contains(ip) && !before.contains(ip) {
            let k = choose|k: int| 0 <= k < all.len() && all[k] == ip;
            if k < before.len() {
                assert(before[k] == ip);
            }
            assert(list[last].0 == IpAddress::V4(ip));
        }
        if exists|i: int| 0 <= i < list.len() && (#[trigger] list[i]).0 == IpAddress::V4(ip) {
            let i = choose|i: int| 0 <= i < list.len() && (#[trigger] list[i]).0 == IpAddress::V4(ip);
            if i < last {
                assert(front[i].0 == IpAddress::V4(ip));
            }
        }
    }
}

/// A connection can start from every IPv6 address of the list that is neither loopback, nor for groups, nor
/// for one link.
pub proof fn law_ipv6_sources_are_usable(list: Seq<(IpAddress, int)>, ip: u128)
    ensures
        ipv6_sources(list).contains(ip) <==> (exists|i: int|
            0 <= i < list.len() && (#[trigger] list[i]).0 == IpAddress::V6(ip)) && ip != 1 && !(
        0xfe80_0000_0000_0000_0000_0000_0000_0000 <= ip < 0xfec0_0000_0000_0000_0000_0000_0000_0000) && ip
            < 0xff00_0000_0000_0000_0000_0000_0000_0000,
    decreases list.len(),
{
    if list.len() > 0 {
        let front = list.drop_last();
        law_ipv6_sources_are_usable(front, ip);
        crate::addr::law_special_ipv6_addresses(ip);
        let before = ipv6_sources(front);
        let all = ipv6_sources(list);
        let last = list.len() - 1;
        assert(list[last] == list.last());
        assert forall|i: int| 0 <= i < front.len() implies front[i] == #[trigger] list[i] by {}
        let addr = IpAddress::V6(ip);
        let usable = !addr.multicast() && !addr.loopback() && !addr.link_local();
        if before.contains(ip) {
            let k = choose|k: int| 0 <= k < before.len() && before[k] == ip;
            assert(all[k] == ip);
            let i = choose|i: int| 0 <= i < front.len() && (#[trigger] front[i]).0 == addr;
            assert(list[i].0 == addr);
        }
        if list[last].0 == addr && usable {
            assert(all[all.len() - 1] == ip);
        }
        if all.contains(ip) && !before.contains(ip) {
            let k = choose|k: int| 0 <= k < all.len() && all[k] == ip;
            if k < before.len() {
                assert(before[k] == ip);
            }
            assert(list[last].0 == addr);
        }
        if exists|i: int| 0 <= i < list.len() && (#[trigger] list[i]).0 == addr {
            let i = choose|i: int| 0 <= i < list.len() && (#[trigger] list[i]).0 == addr;
            if i < last {
                assert(front[i].0 == addr);
            }
        }
    }
}

/// The address that the routing table would choose is among the sources, once, and the others keep their
/// places.
pub proof fn law_fallback_is_a_source<A>(sources: Seq<A>, fallback: Option<A>)
    ensures
        sources.is_prefix_of(with_fallback(sources, fallback)),
        fallback is None ==> with_fallback(sources, fallback) == sources,
        fallback matches Some(ip) ==> with_fallback(sources, fallback).contains(ip),
        fallback matches Some(ip) ==> with_fallback(sources, fallback).len() == sources.len() + (if sources.contains(
        ip) {
            0int
        } else {
            1
        }),
{
    if let Some(ip) = fallback {
        let all = with_fallback(sources, fallback);
        if !sources.contains(ip) {
            assert(all[all.len() - 1] == ip);
        }
    }
}

/// The public address is that of the last text that is one, else the one that there is.
pub proof fn law_last_public_address_counts(
    current4: Option<u32>,
    current6: Option<u128>,
    texts: Seq<String>,
    i: int,
)
    ensures
        (forall|k: int|
            0 <= k < texts.len() ==> !(ip_from_text((#[trigger] texts[k])@) matches Some(
                IpAddress::V4(_),
            ))) ==> last_public_ipv4(current4, texts) == current4,
        (forall|k: int|
            0 <= k < texts.len() ==> !(ip_from_text((#[trigger] texts[k])@) matches Some(
                IpAddress::V6(_),
            ))) ==> last_public_ipv6(current6, texts) == current6,
        0 <= i < texts.len() && (ip_from_text(texts[i]@) matches Some(IpAddress::V4(_))) && (forall|k: int|
            i < k < texts.len() ==> !(ip_from_text((#[trigger] texts[k])@) matches Some(
                IpAddress::V4(_),
            ))) ==> last_public_ipv4(current4, texts) is Some && ip_from_text(texts[i]@) == Some(
            IpAddress::V4(last_public_ipv4(current4, texts)->0),
        ),
        0 <= i < texts.len() && (ip_from_text(texts[i]@) matches Some(IpAddress::V6(_))) && (forall|k: int|
            i < k < texts.len() ==> !(ip_from_text((#[trigger] texts[k])@) matches Some(
                IpAddress::V6(_),
            ))) ==> last_public_ipv6(current6, texts) is Some && ip_from_text(texts[i]@) == Some(
            IpAddress::V6(last_public_ipv6(current6, texts)->0),
        ),
    decreases texts.len(),
{
    if texts.len() > 0 {
        let front = texts.drop_last();
        law_last_public_address_counts(current4, current6, front, i);
        let last = texts.len() - 1;
        assert(texts[last] == texts.last());
        assert forall|k: int| 0 <= k < front.len() implies front[k] == #[trigger] texts[k] by {}
    }
}

/// A snapshot is good for five seconds, within its epoch, and only if it is newer than what was
/// invalidated.
pub proof fn law_when_a_snapshot_is_good(cache: UnderlaySnapshotCache, now: u64)
    ensures
        cache.state is None ==> !cache.fresh(now),
        cache.state matches Some(cached) ==> (cache.fresh(now) <==> cached.epoch == cache.epoch
            && cached.snapshot.generation > cache.invalidated_through_generation && now
            < cached.collected_at + 5_000_000_000),
{
}

/// An interface has an address that a peer could use just where one of its addresses is neither loopback,
/// nor unspecified, nor for groups.
pub proof fn law_usable_addresses(ips: Seq<IpAddress>, i: int)
    ensures
        0 <= i < ips.len() && !ips[i].loopback() && !ips[i].unspecified() && !ips[i].multicast()
            ==> has_usable_ip(ips),
        (forall|k: int|
            0 <= k < ips.len() ==> (#[trigger] ips[k]).loopback() || ips[k].unspecified()
                || ips[k].multicast()) ==> !has_usable_ip(ips),
{
}

/// A line names a device where the word for devices and the name stand in it.
pub proof fn law_lines_that_name_a_device(
    front: Seq<char>,
    middle: Seq<char>,
    device: Seq<char>,
    back: Seq<char>,
    line: Seq<char>,
)
    ensures
        names_device(front + "Device:"@ + (middle + device + back), device),
        names_device(line, device) ==> has_word(line, device) && has_word(line, "Device:"@),
{
    let line = front + "Device:"@ + (middle + device + back);
    crate::text::law_words_in_texts(front, "Device:"@, middle + device + back, line);
    crate::text::law_words_in_texts(front + "Device:"@ + middle, device, back, line);
    assert(line =~= front + "Device:"@ + middle + device + back);
}

/// A snapshot lists as IPv4 sources the usable addresses of the interfaces that were not filtered out, as
/// IPv6 sources those of all interfaces, and the fallbacks; and names the interface of each address.
pub proof fn law_snapshots_tell_of_the_interfaces(
    snapshot: UnderlayInterfaceSnapshot,
    ifaces: Seq<HostInterface>,
    filtered_ifaces: Seq<HostInterface>,
    fallback_ipv4: Option<u32>,
    fallback_ipv6: Option<u128>,
    place: int,
    ip: IpAddress,
)
    requires
        snapshot.describes(ifaces, filtered_ifaces, fallback_ipv4, fallback_ipv6),
    ensures
        fallback_ipv4 is Some ==> snapshot.ip_list.interface_ipv4s@.contains(fallback_ipv4->0),
        fallback_ipv6 is Some ==> snapshot.ip_list.interface_ipv6s@.contains(fallback_ipv6->0),
        0 <= place < filtered_ifaces.len() && filtered_ifaces[place].ips@.contains(ip) && ip is V4
            && !ip.loopback() && !ip.multicast() ==> snapshot.ip_list.interface_ipv4s@.contains(ip->V4_0),
        0 <= place < ifaces.len() && ifaces[place].ips@.contains(ip) && ip is V6 && !ip.loopback()
            && !ip.multicast() && !ip.link_local() ==> snapshot.ip_list.interface_ipv6s@.contains(
            ip->V6_0,
        ),
        0 <= place < ifaces.len() && ifaces[place].ips@.contains(ip) ==> snapshot.owner(ip) is Some,
{
    law_fallback_is_a_source(ipv4_sources(listed(filtered_ifaces)), fallback_ipv4);
    law_fallback_is_a_source(ipv6_sources(listed(ifaces)), fallback_ipv6);
    law_every_address_is_listed(filtered_ifaces, ip, place);
    law_every_address_is_listed(ifaces, ip, place);
    law_owner_is_the_first(listed(ifaces), ip);
    if 0 <= place < filtered_ifaces.len() && filtered_ifaces[place].ips@.contains(ip) && ip is V4
        && !ip.loopback() && !ip.multicast() {
        let list = listed(filtered_ifaces);
        let i = choose|i: int| 0 <= i < list.len() && list[i] == (ip, place);
        assert(list[i].0 == IpAddress::V4(ip->V4_0));
        law_ipv4_sources_are_usable(list, ip->V4_0);
        crate::addr::law_special_ipv4_addresses(ip->V4_0);
        let sources = ipv4_sources(list);
        let k = choose|k: int| 0 <= k < sources.len() && sources[k] == ip->V4_0;
        assert(snapshot.ip_list.interface_ipv4s@[k] == ip->V4_0);
    }
    if 0 <= place < ifaces.len() && ifaces[place].ips@.contains(ip) {
        let list = listed(ifaces);
        let i = choose|i: int| 0 <= i < list.len() && list[i] == (ip, place);
        assert(list[i].0 == ip);
        assert(first_owner(list, ip) is Some);
        assert(snapshot.owner(ip) is Some);
        if ip is V6 && !ip.loopback() && !ip.multicast() && !ip.link_local() {
            assert(list[i].0 == IpAddress::V6(ip->V6_0));
            law_ipv6_sources_are_usable(list, ip->V6_0);
            crate::addr::law_special_ipv6_addresses(ip->V6_0);
            let sources = ipv6_sources(list);
            let k = choose|k: int| 0 <= k < sources.len() && sources[k] == ip->V6_0;
            assert(snapshot.ip_list.interface_ipv6s@[k] == ip->V6_0);
        }
    }
}

/// Addresses are asked for again after a minute where a public one is known, and after three seconds where
/// none is.
pub proof fn law_unknown_addresses_are_asked_for_soon(list: &IpList, r: u64)
    requires
        call_ensures(IpList::next_poll_secs, (list,), r),
    ensures
        list.public_ipv4 is None ==> r == 3,
        list.public_ipv4 is Some ==> r == 60,
{
}

/// A snapshot is collected only in the first two attempts and while no fresh one is at hand, and for the
/// epoch that is current.
pub proof fn law_snapshots_are_collected_when_needed(
    cache: &UnderlaySnapshotCache,
    attempts: u8,
    now: u64,
    r: SnapshotStep,
)
    requires
        call_ensures(UnderlaySnapshotCache::next_step, (cache, attempts, now), r),
    ensures
        r is Collect ==> r->epoch == cache.epoch && !cache.fresh(now),
        r is UseCached ==> cache.fresh(now),
        r is GiveUp <==> attempts >= 2,
{
}

/// A snapshot that was collected in another epoch is dropped. One that is kept gets a new number, and is
/// what the cache then holds.
pub proof fn law_outdated_collections_are_dropped(
    cache: &mut UnderlaySnapshotCache,
    collected: UnderlayInterfaceSnapshot,
    epoch: u64,
    now: u64,
    r: Option<u64>,
)
    requires
        call_ensures(UnderlaySnapshotCache::publish, (cache, collected, epoch, now), r),
    ensures
        r is Some <==> old(cache).epoch == epoch,
        r is None ==> *final(cache) == *old(cache),
        r is Some && old(cache).next_generation < u64::MAX ==> r->0 == old(cache).next_generation + 1,
        r is Some ==> final(cache).next_generation == r->0 && final(cache).state is Some
            && final(cache).state->0.snapshot.generation == r->0 && final(cache).state->0.collected_at == now
            && final(cache).state->0.epoch == epoch && final(cache).epoch == old(cache).epoch,
{
}

} // verus!
