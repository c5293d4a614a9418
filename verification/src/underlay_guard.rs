//! Keeps connection attempts off addresses that lead back into an overlay: the node's own virtual
//! addresses, the ranges that local proxies use for fake addresses, and configured ranges. It
//! looks at the destination and at the source that the host would use for it.
use vstd::prelude::*;

use crate::addr::{IpAddress, IpScheme, PeerId, SocketAddress};
use crate::build_features::NATIVE_INTERFACE_INSPECTION;
use crate::config::Flags;
use crate::global_ctx::GlobalCtx;
use crate::ip_range::{
    any_contains, any_holds, cidr_from_text, inet_network_from_text, parse_ip_cidr,
    parse_ip_inet_network, IpCidr,
};
use crate::network::UnderlayInterfaceSnapshot;
use crate::text::{
    begins_with, chars_of, contains_chars, has_word, lowered, lowered_chars, parts, split,
    stands_at, trim, trimmed,
};
use crate::underlay_breaker::{
    UnderlayBreakerGateError, UnderlayBreakerKey, UnderlayBreakerScope, UnderlayBreakerStrikeKind,
    UnderlayPreflightGuard,
};

verus! {

/// Address ranges that stand for fake addresses of local proxies.
pub const DEFAULT_UNDERLAY_EXCLUDE_CIDRS: &'static str =
    "198.18.0.0/15,fc00::/18,fdfe:dcba:9876::/48,fd65:6173:7974::/48,192.19.0.0/24";

/// Address ranges that are guarded whatever is configured.
pub const BUILTIN_UNDERLAY_GUARD_CIDRS: &'static str = DEFAULT_UNDERLAY_EXCLUDE_CIDRS;

/// Why a candidate address is not used.
#[derive(Clone, Copy, Debug, PartialEq, Eq, Structural)]
pub enum Refusal {
    /// The candidate is an IPv6 address of the overlay.
    ManagedIpv6,
    /// The candidate is a guarded address.
    GuardedRemote,
    /// The host would use a guarded address as the source.
    GuardedSource,
    /// Nothing is known of the host's interfaces.
    SnapshotUnavailable,
    /// Connections are to be bound to a device, but nothing is known of the interfaces.
    BindDeviceWithoutSnapshot,
    /// No interface owns the address that the routing table would choose.
    UnmappedFallback { is_ipv4: bool },
    /// No interface owns the source address.
    NoInterfaceIdentity,
    /// The interface of the source address has no index.
    ZeroInterfaceIndex,
    /// No address of the family may be used as the source.
    NoUsableSource { is_ipv4: bool },
    /// The source could not be tried out, perhaps because its interface is gone.
    ProbeFailed { stale_interface: bool },
}

impl Refusal {
    pub open spec fn text(self) -> Seq<char> {
        match self {
            Refusal::ManagedIpv6 => "underlay candidate is EasyTier-managed IPv6"@,
            Refusal::GuardedRemote => "underlay candidate resolves to guarded address"@,
            Refusal::GuardedSource => "underlay candidate would use guarded local source"@,
            Refusal::SnapshotUnavailable => "underlay interface snapshot is unavailable"@,
            Refusal::BindDeviceWithoutSnapshot =>
                "bind-device connector has no underlay interface snapshot"@,
            Refusal::UnmappedFallback { is_ipv4 } => if is_ipv4 {
                "underlay IPv4 fallback has no interface identity"@
            } else {
                "underlay IPv6 fallback has no interface identity"@
            },
            Refusal::NoInterfaceIdentity => "underlay source has no interface identity"@,
            Refusal::ZeroInterfaceIndex => "underlay source has invalid interface index 0"@,
            Refusal::NoUsableSource { is_ipv4 } => if is_ipv4 {
                "no usable IPv4 bind-device source"@
            } else {
                "no usable IPv6 bind-device source"@
            },
            Refusal::ProbeFailed { .. } => "underlay source could not be probed"@,
        }
    }

    pub fn message(&self) -> (r: &'static str)
        ensures
            r@ == self.text(),
    {
        match self {
            Refusal::ManagedIpv6 => "underlay candidate is EasyTier-managed IPv6",
            Refusal::GuardedRemote => "underlay candidate resolves to guarded address",
            Refusal::GuardedSource => "underlay candidate would use guarded local source",
            Refusal::SnapshotUnavailable => "underlay interface snapshot is unavailable",
            Refusal::BindDeviceWithoutSnapshot =>
                "bind-device connector has no underlay interface snapshot",
            Refusal::UnmappedFallback { is_ipv4 } => if *is_ipv4 {
                "underlay IPv4 fallback has no interface identity"
            } else {
                "underlay IPv6 fallback has no interface identity"
            },
            Refusal::NoInterfaceIdentity => "underlay source has no interface identity",
            Refusal::ZeroInterfaceIndex => "underlay source has invalid interface index 0",
            Refusal::NoUsableSource { is_ipv4 } => if *is_ipv4 {
                "no usable IPv4 bind-device source"
            } else {
                "no usable IPv6 bind-device source"
            },
            Refusal::ProbeFailed { .. } => "underlay source could not be probed",
        }
    }
}

/// A configured range is no range of addresses.
#[derive(Clone, Copy, Debug, PartialEq, Eq, Structural)]
pub struct InvalidExcludeCidr;

/// The range that a text stands for; a host address with a prefix length stands for its network.
pub open spec fn one_cidr(item: Seq<char>) -> Option<IpCidr> {
    match cidr_from_text(item) {
        Some(block) => Some(block),
        None => inet_network_from_text(item),
    }
}

/// The ranges that the items stand for; blank items are passed over. Nothing if one is bad.
pub open spec fn excludes_of_items(items: Seq<Seq<char>>) -> Option<Seq<IpCidr>>
    decreases items.len(),
{
    if items.len() == 0 {
        Some(Seq::empty())
    } else {
        match excludes_of_items(items.drop_last()) {
            None => None,
            Some(before) => {
                let item = trimmed(items.last());
                if item.len() == 0 {
                    Some(before)
                } else {
                    match one_cidr(item) {
                        None => None,
                        Some(block) => Some(before.push(block)),
                    }
                }
            },
        }
    }
}

/// The ranges that a comma-separated list stands for.
pub open spec fn excludes_of_text(input: Seq<char>) -> Option<Seq<IpCidr>> {
    excludes_of_items(parts(input, ','))
}

proof fn lemma_bad_item_spoils(items: Seq<Seq<char>>, n: int)
    requires
        0 <= n <= items.len(),
        excludes_of_items(items.take(n)) is None,
    ensures
        excludes_of_items(items) is None,
    decreases items.len() - n,
{
    if n < items.len() {
        assert(items.take(n + 1).drop_last() =~= items.take(n));
        lemma_bad_item_spoils(items, n + 1);
    } else {
        assert(items.take(n) =~= items);
    }
}

fn parse_one_cidr(item: &str) -> (r: Option<IpCidr>)
    ensures
        r == one_cidr(item@),
        r is Some ==> r->0.wf(),
{
    match parse_ip_cidr(item) {
        Some(block) => Some(block),
        None => parse_ip_inet_network(item),
    }
}

/// Reads a comma-separated list of address ranges.
pub fn parse_exclude_cidrs(input: &str) -> (r: Result<Vec<IpCidr>, InvalidExcludeCidr>)
    ensures
        match r {
            Ok(blocks) => excludes_of_text(input@) == Some(blocks@),
            Err(_) => excludes_of_text(input@) is None,
        },
{
    let items = split(input, ',');
    let ghost texts = parts(input@, ',');
    let mut blocks: Vec<IpCidr> = Vec::new();
    let mut i: usize = 0;
    assert(texts.take(0) =~= Seq::<Seq<char>>::empty());
    while i < items.len()
        invariant
            i <= items@.len(),
            items@.len() == texts.len(),
            texts == parts(input@, ','),
            forall|k: int| 0 <= k < items@.len() ==> (#[trigger] items@[k])@ == texts[k],
            excludes_of_items(texts.take(i as int)) == Some(blocks@),
        decreases items@.len() - i,
    {
        proof {
            assert(texts.take(i as int + 1).drop_last() =~= texts.take(i as int));
            assert(texts.take(i as int + 1).last() == items@[i as int]@);
        }
        let item = trim(items[i]);
        if !item.is_empty() {
            match parse_one_cidr(item) {
                Some(block) => {
                    blocks.push(block);
                },
                None => {
                    proof {
                        lemma_bad_item_spoils(texts, i as int + 1);
                    }
                    return Err(InvalidExcludeCidr);
                },
            }
        }
        i += 1;
    }
    assert(texts.take(texts.len() as int) =~= texts);
    Ok(blocks)
}

/// Tells whether a list of address ranges is valid.
pub fn validate_exclude_cidrs(input: &str) -> (r: Result<(), InvalidExcludeCidr>)
    ensures
        r is Ok <==> excludes_of_text(input@) is Some,
{
    match parse_exclude_cidrs(input) {
        Ok(_) => Ok(()),
        Err(error) => Err(error),
    }
}

/// A configured range holds the address. A list that is not valid holds none.
pub open spec fn configured_hold(flags: Flags, ip: IpAddress) -> bool {
    excludes_of_text(flags.underlay_exclude_cidrs@) is Some && any_holds(
        excludes_of_text(flags.underlay_exclude_cidrs@)->0,
        ip,
    )
}

fn configured_excludes_match(flags: &Flags, ip: &IpAddress) -> (r: bool)
    ensures
        r == configured_hold(*flags, *ip),
{
    match parse_exclude_cidrs(flags.underlay_exclude_cidrs.as_str()) {
        Ok(blocks) => any_contains(&blocks, ip),
        Err(_) => false,
    }
}

/// The address lies in a range that is always guarded: `198.18.0.0/15`, `192.19.0.0/24`,
/// `fc00::/18`, `fdfe:dcba:9876::/48` or `fd65:6173:7974::/48`.
pub open spec fn builtin_hold(ip: IpAddress) -> bool {
    match ip {
        IpAddress::V4(v4) => 0xc612_0000 <= v4 <= 0xc613_ffff || 0xc013_0000 <= v4 <= 0xc013_00ff,
        IpAddress::V6(v6) => {
            ||| 0xfc00_0000_0000_0000_0000_0000_0000_0000 <= v6
                <= 0xfc00_3fff_ffff_ffff_ffff_ffff_ffff_ffff
            ||| 0xfdfe_dcba_9876_0000_0000_0000_0000_0000 <= v6
                <= 0xfdfe_dcba_9876_ffff_ffff_ffff_ffff_ffff
            ||| 0xfd65_6173_7974_0000_0000_0000_0000_0000 <= v6
                <= 0xfd65_6173_7974_ffff_ffff_ffff_ffff_ffff
        },
    }
}

pub fn builtin_excludes_match(ip: &IpAddress) -> (r: bool)
    ensures
        r == builtin_hold(*ip),
{
    match *ip {
        IpAddress::V4(v4) => (0xc612_0000 <= v4 && v4 <= 0xc613_ffff) || (0xc013_0000 <= v4 && v4
            <= 0xc013_00ff),
        IpAddress::V6(v6) => (0xfc00_0000_0000_0000_0000_0000_0000_0000 <= v6 && v6
            <= 0xfc00_3fff_ffff_ffff_ffff_ffff_ffff_ffff) || (
        0xfdfe_dcba_9876_0000_0000_0000_0000_0000 <= v6 && v6
            <= 0xfdfe_dcba_9876_ffff_ffff_ffff_ffff_ffff) || (
        0xfd65_6173_7974_0000_0000_0000_0000_0000 <= v6 && v6
            <= 0xfd65_6173_7974_ffff_ffff_ffff_ffff_ffff),
    }
}

/// The address is one of the overlay's: the node's own IPv4 address or a managed IPv6 address.
pub open spec fn runtime_guarded(ctx: &GlobalCtx, ip: IpAddress) -> bool {
    match ip {
        IpAddress::V4(v4) => ctx.ipv4 is Some && ctx.ipv4->0.address == v4,
        IpAddress::V6(v6) => ctx.managed_ipv6(v6),
    }
}

pub fn is_runtime_guarded_ip(ctx: &GlobalCtx, ip: IpAddress) -> (r: bool)
    ensures
        r == runtime_guarded(ctx, ip),
{
    match ip {
        IpAddress::V4(v4) => match ctx.ipv4 {
            Some(inet) => inet.address == v4,
            None => false,
        },
        IpAddress::V6(v6) => ctx.is_ip_easytier_managed_ipv6(v6),
    }
}

/// The guard is on and keeps connections off the address.
pub open spec fn blocks(ctx: &GlobalCtx, ip: IpAddress) -> bool {
    ctx.flags.underlay_candidate_guard && (runtime_guarded(ctx, ip) || builtin_hold(ip)
        || configured_hold(ctx.flags, ip))
}

pub fn should_block_underlay_ip(ctx: &GlobalCtx, ip: IpAddress) -> (r: bool)
    ensures
        r == blocks(ctx, ip),
{
    ctx.flags.underlay_candidate_guard && (is_runtime_guarded_ip(ctx, ip) || builtin_excludes_match(
        &ip,
    ) || configured_excludes_match(&ctx.flags, &ip))
}

/// The address is a managed IPv6 address; connections stay off it even while the guard is off.
pub open spec fn always_guarded(ctx: &GlobalCtx, ip: IpAddress) -> bool {
    ip matches IpAddress::V6(v6) && ctx.managed_ipv6(v6)
}

pub fn historical_guarded_ip(ctx: &GlobalCtx, ip: IpAddress) -> (r: bool)
    ensures
        r == always_guarded(ctx, ip),
{
    match ip {
        IpAddress::V4(_) => false,
        IpAddress::V6(v6) => ctx.is_ip_easytier_managed_ipv6(v6),
    }
}

/// The built-in ranges and the node's own addresses are guarded whatever is configured; what is
/// configured only adds to them; and without the guard nothing is blocked by a range.
pub proof fn law_configured_ranges_only_add(ctx: &GlobalCtx, ip: IpAddress)
    ensures
        ctx.flags.underlay_candidate_guard && (builtin_hold(ip) || runtime_guarded(ctx, ip))
            ==> blocks(ctx, ip),
        ctx.flags.underlay_candidate_guard && configured_hold(ctx.flags, ip) ==> blocks(ctx, ip),
        !ctx.flags.underlay_candidate_guard ==> !blocks(ctx, ip),
{
}

/// Any address of the family of `remote_addr`, any port.
pub open spec fn wildcard_for(remote_addr: SocketAddress) -> SocketAddress {
    match remote_addr {
        SocketAddress::V4 { .. } => SocketAddress::V4 { ipv4: 0, port: 0 },
        SocketAddress::V6 { .. } => SocketAddress::V6 {
            ipv6: 0,
            port: 0,
            flowinfo: 0,
            scope_id: 0,
        },
    }
}

pub fn wildcard_udp_bind_addr(remote_addr: SocketAddress) -> (r: SocketAddress)
    ensures
        r == wildcard_for(remote_addr),
{
    if remote_addr.is_ipv4() {
        SocketAddress::V4 { ipv4: 0, port: 0 }
    } else {
        SocketAddress::V6 { ipv6: 0, port: 0, flowinfo: 0, scope_id: 0 }
    }
}

/// Where a source is tried out: anywhere, or on the interface that owns it.
#[derive(Debug, PartialEq, Eq)]
pub enum PreflightUdpBindTarget {
    Wildcard,
    Resolved { interface_name: String, interface_index: u32 },
}

pub open spec fn owner_in(
    snapshot: Option<&UnderlayInterfaceSnapshot>,
    ip: IpAddress,
) -> Option<crate::network::UnderlayInterfaceIdentity> {
    match snapshot {
        Some(snapshot) => snapshot.owner(ip),
        None => None,
    }
}

/// Decides where a source is tried out.
pub fn select_preflight_udp_bind_target(
    bind_addr: SocketAddress,
    snapshot: Option<&UnderlayInterfaceSnapshot>,
) -> (r: Result<PreflightUdpBindTarget, Refusal>)
    requires
        snapshot is Some ==> snapshot->0.wf(),
    ensures
        bind_addr.spec_ip().unspecified() ==> r is Ok && r->Ok_0 is Wildcard,
        !bind_addr.spec_ip().unspecified() ==> ({
            let owner = owner_in(snapshot, bind_addr.spec_ip());
            match r {
                Ok(target) => target matches PreflightUdpBindTarget::Resolved {
                    interface_name,
                    interface_index,
                } && owner is Some && interface_name@ == owner->0.name@ && interface_index
                    == owner->0.index && interface_index != 0,
                Err(refusal) => (owner is None && refusal == Refusal::NoInterfaceIdentity) || (owner
                    is Some && owner->0.index == 0 && refusal == Refusal::ZeroInterfaceIndex),
            }
        }),
{
    if bind_addr.ip().is_unspecified() {
        return Ok(PreflightUdpBindTarget::Wildcard);
    }
    let found = match snapshot {
        Some(snapshot) => snapshot.interface_for(&bind_addr.ip()),
        None => None,
    };
    match found {
        None => Err(Refusal::NoInterfaceIdentity),
        Some(interface) => {
            if interface.index == 0 {
                return Err(Refusal::ZeroInterfaceIndex);
            }
            Ok(
                PreflightUdpBindTarget::Resolved {
                    interface_name: interface.name.clone(),
                    interface_index: interface.index,
                },
            )
        },
    }
}

/// The name is one that tunnel devices have.
pub open spec fn tunnel_like(name: Seq<char>) -> bool {
    let small = lowered(name);
    stands_at(small, "utun"@, 0) || stands_at(small, "tun"@, 0) || stands_at(small, "tap"@, 0)
        || has_word(small, "wintun"@)
}

pub fn suspicious_interface_name(name: &str) -> (r: bool)
    ensures
        r == tunnel_like(name@),
{
    let small = lowered_chars(name);
    begins_with(&small, "utun") || begins_with(&small, "tun") || begins_with(&small, "tap")
        || contains_chars(&small, &chars_of("wintun"))
}

/// Tells whether this program inspects network interfaces itself. On mobile platforms the host
/// application owns them.
pub fn native_interface_inspection_active() -> (r: bool)
    ensures
        r == NATIVE_INTERFACE_INSPECTION,
{
    NATIVE_INTERFACE_INSPECTION
}

/// The interface of a source and whether it looks like a tunnel, if the interface is known.
pub fn source_interface_signal(snapshot: Option<&UnderlayInterfaceSnapshot>, ip: IpAddress) -> (r:
    Option<(String, bool)>)
    requires
        snapshot is Some ==> snapshot->0.wf(),
    ensures
        ({
            let owner = owner_in(snapshot, ip);
            match r {
                Some((name, suspicious)) => owner is Some && name@ == owner->0.name@ && suspicious
                    == (owner->0.is_point_to_point || tunnel_like(owner->0.name@)),
                None => owner is None,
            }
        }),
{
    let found = match snapshot {
        Some(snapshot) => snapshot.interface_for(&ip),
        None => None,
    };
    match found {
        None => None,
        Some(interface) => {
            let suspicious = interface.is_point_to_point || suspicious_interface_name(
                interface.name.as_str(),
            );
            Some((interface.name.clone(), suspicious))
        },
    }
}

/// The IPv4 sources that the guard leaves.
pub open spec fn open_ipv4_sources(ctx: &GlobalCtx, ips: Seq<u32>) -> Seq<SocketAddress>
    decreases ips.len(),
{
    if ips.len() == 0 {
        Seq::empty()
    } else {
        let before = open_ipv4_sources(ctx, ips.drop_last());
        let ip = IpAddress::V4(ips.last());
        if blocks(ctx, ip) {
            before
        } else {
            before.push(SocketAddress::of(ip, 0))
        }
    }
}

/// The IPv6 sources that the guard leaves.
pub open spec fn open_ipv6_sources(ctx: &GlobalCtx, ips: Seq<u128>) -> Seq<SocketAddress>
    decreases ips.len(),
{
    if ips.len() == 0 {
        Seq::empty()
    } else {
        let before = open_ipv6_sources(ctx, ips.drop_last());
        let ip = IpAddress::V6(ips.last());
        if always_guarded(ctx, ip) || blocks(ctx, ip) {
            before
        } else {
            before.push(SocketAddress::of(ip, 0))
        }
    }
}

/// The sources for connections that are bound to a device; none where they are not.
pub open spec fn device_sources(
    ctx: &GlobalCtx,
    remote_addr: SocketAddress,
    snapshot: Option<&UnderlayInterfaceSnapshot>,
) -> Result<Seq<SocketAddress>, Refusal> {
    if !ctx.flags.bind_device || !NATIVE_INTERFACE_INSPECTION {
        Ok(Seq::empty())
    } else {
        match snapshot {
            None => Err(Refusal::SnapshotUnavailable),
            Some(snapshot) => if snapshot.lacks_interface(remote_addr is V4) {
                Err(Refusal::UnmappedFallback { is_ipv4: remote_addr is V4 })
            } else if remote_addr is V4 {
                Ok(open_ipv4_sources(ctx, snapshot.ip_list.interface_ipv4s@))
            } else {
                Ok(open_ipv6_sources(ctx, snapshot.ip_list.interface_ipv6s@))
            },
        }
    }
}

pub fn bind_device_sources(
    ctx: &GlobalCtx,
    remote_addr: SocketAddress,
    snapshot: Option<&UnderlayInterfaceSnapshot>,
) -> (r: Result<Vec<SocketAddress>, Refusal>)
    ensures
        match r {
            Ok(sources) => device_sources(ctx, remote_addr, snapshot) == Ok::<
                Seq<SocketAddress>,
                Refusal,
            >(sources@),
            Err(refusal) => device_sources(ctx, remote_addr, snapshot) == Err::<
                Seq<SocketAddress>,
                Refusal,
            >(refusal),
        },
{
    let mut sources: Vec<SocketAddress> = Vec::new();
    if !ctx.flags.bind_device || !native_interface_inspection_active() {
        return Ok(sources);
    }
    let snapshot = match snapshot {
        Some(snapshot) => snapshot,
        None => {
            return Err(Refusal::SnapshotUnavailable);
        },
    };
    let is_ipv4 = remote_addr.is_ipv4();
    if snapshot.has_unmapped_fallback_for(is_ipv4) {
        return Err(Refusal::UnmappedFallback { is_ipv4 });
    }
    let mut i: usize = 0;
    if is_ipv4 {
        let ips = &snapshot.ip_list.interface_ipv4s;
        assert(ips@.take(0) =~= Seq::<u32>::empty());
        while i < ips.len()
            invariant
                i <= ips@.len(),
                sources@ == open_ipv4_sources(ctx, ips@.take(i as int)),
            decreases ips@.len() - i,
        {
            proof {
                assert(ips@.take(i as int + 1).drop_last() =~= ips@.take(i as int));
                assert(ips@.take(i as int + 1).last() == ips@[i as int]);
            }
            let ip = IpAddress::V4(ips[i]);
            if !should_block_underlay_ip(ctx, ip) {
                sources.push(SocketAddress::new(ip, 0));
            }
            i += 1;
        }
        assert(ips@.take(ips@.len() as int) =~= ips@);
    } else {
        let ips = &snapshot.ip_list.interface_ipv6s;
        assert(ips@.take(0) =~= Seq::<u128>::empty());
        while i < ips.len()
            invariant
                i <= ips@.len(),
                sources@ == open_ipv6_sources(ctx, ips@.take(i as int)),
            decreases ips@.len() - i,
        {
            proof {
                assert(ips@.take(i as int + 1).drop_last() =~= ips@.take(i as int));
                assert(ips@.take(i as int + 1).last() == ips@[i as int]);
            }
            let ip = IpAddress::V6(ips[i]);
            if !historical_guarded_ip(ctx, ip) && !should_block_underlay_ip(ctx, ip) {
                sources.push(SocketAddress::new(ip, 0));
            }
            i += 1;
        }
        assert(ips@.take(ips@.len() as int) =~= ips@);
    }
    Ok(sources)
}

/// What is left to do for a candidate whose destination is not refused.
#[derive(Debug)]
pub enum CandidateCheck {
    /// Nothing: the candidate is accepted.
    Accepted,
    /// Try these sources in order; the candidate is accepted with the first that passes.
    Probe { sources: Vec<SocketAddress> },
}

/// The breaker key of a candidate.
pub open spec fn candidate_key(
    remote_addr: SocketAddress,
    scheme: IpScheme,
    scope: UnderlayBreakerScope,
) -> UnderlayBreakerKey {
    UnderlayBreakerKey::Endpoint { remote_addr, scheme, scope }
}

/// Looks at the destination of a candidate and decides which sources have to be tried out. A
/// guarded destination counts as a hard strike.
pub fn check_underlay_candidate(
    ctx: &mut GlobalCtx,
    remote_addr: SocketAddress,
    scheme: IpScheme,
    scope: UnderlayBreakerScope,
    snapshot: Option<&UnderlayInterfaceSnapshot>,
    now_secs: u64,
) -> (r: Result<CandidateCheck, Refusal>)
    requires
        old(ctx).wf(),
    ensures
        final(ctx).wf(),
        *final(ctx) == (GlobalCtx { breaker: final(ctx).breaker, ..*old(ctx) }),
        ({
            let ip = remote_addr.spec_ip();
            let sources = device_sources(old(ctx), remote_addr, snapshot);
            let strikes = old(ctx).flags.underlay_candidate_guard && !always_guarded(old(ctx), ip)
                && blocks(old(ctx), ip);
            &&& !strikes ==> *final(ctx) == *old(ctx)
            &&& strikes ==> exists|blocked: bool| #[trigger]
                old(ctx).breaker.strikes(
                    candidate_key(remote_addr, scheme, scope),
                    UnderlayBreakerStrikeKind::Hard,
                    now_secs,
                    blocked,
                    final(ctx).breaker,
                )
            &&& if always_guarded(old(ctx), ip) {
                r == Err::<CandidateCheck, Refusal>(Refusal::ManagedIpv6)
            } else if !old(ctx).flags.underlay_candidate_guard {
                r == Ok::<CandidateCheck, Refusal>(CandidateCheck::Accepted)
            } else if blocks(old(ctx), ip) {
                r == Err::<CandidateCheck, Refusal>(Refusal::GuardedRemote)
            } else {
                match sources {
                    Err(refusal) => r == Err::<CandidateCheck, Refusal>(refusal),
                    Ok(list) => if list.len() > 0 {
                        r matches Ok(CandidateCheck::Probe { sources }) && sources@ == list
                    } else if old(ctx).flags.bind_device && NATIVE_INTERFACE_INSPECTION {
                        r == Err::<CandidateCheck, Refusal>(
                            Refusal::NoUsableSource { is_ipv4: remote_addr is V4 },
                        )
                    } else {
                        r matches Ok(CandidateCheck::Probe { sources }) && sources@ == seq![
                            wildcard_for(remote_addr),
                        ]
                    },
                }
            }
        }),
{
    let ip = remote_addr.ip();
    if historical_guarded_ip(ctx, ip) {
        return Err(Refusal::ManagedIpv6);
    }
    if !ctx.flags.underlay_candidate_guard {
        return Ok(CandidateCheck::Accepted);
    }
    if should_block_underlay_ip(ctx, ip) {
        let key = UnderlayBreakerKey::endpoint(remote_addr, scheme, scope);
        let blocked = ctx.record_underlay_breaker_strike_at(
            key,
            UnderlayBreakerStrikeKind::Hard,
            now_secs,
        );
        return Err(Refusal::GuardedRemote);
    }
    match bind_device_sources(ctx, remote_addr, snapshot) {
        Err(refusal) => Err(refusal),
        Ok(sources) => {
            if !sources.is_empty() {
                return Ok(CandidateCheck::Probe { sources });
            }
            if ctx.flags.bind_device && native_interface_inspection_active() {
                return Err(Refusal::NoUsableSource { is_ipv4: remote_addr.is_ipv4() });
            }
            let mut wildcard: Vec<SocketAddress> = Vec::new();
            wildcard.push(wildcard_udp_bind_addr(remote_addr));
            assert(wildcard@ =~= seq![wildcard_for(remote_addr)]);
            Ok(CandidateCheck::Probe { sources: wildcard })
        },
    }
}

/// The strike that using `local_ip` as the source brings: a hard one for a guarded address, a soft
/// one for an address of an interface that looks like a tunnel.
pub open spec fn source_strike(
    ctx: &GlobalCtx,
    local_ip: IpAddress,
    snapshot: Option<&UnderlayInterfaceSnapshot>,
) -> Option<UnderlayBreakerStrikeKind> {
    let owner = owner_in(snapshot, local_ip);
    if always_guarded(ctx, local_ip) || blocks(ctx, local_ip) {
        Some(UnderlayBreakerStrikeKind::Hard)
    } else if owner is Some && (owner->0.is_point_to_point || tunnel_like(owner->0.name@)) {
        Some(UnderlayBreakerStrikeKind::Soft)
    } else {
        None
    }
}

/// Judges the source that the host chose when a source was tried out. A guarded one refuses the
/// source; a suspicious one is only remembered.
pub fn validate_connected_udp_source(
    ctx: &mut GlobalCtx,
    key: UnderlayBreakerKey,
    local_ip: IpAddress,
    snapshot: Option<&UnderlayInterfaceSnapshot>,
    now_secs: u64,
) -> (r: Result<(), Refusal>)
    requires
        old(ctx).wf(),
        snapshot is Some ==> snapshot->0.wf(),
    ensures
        final(ctx).wf(),
        *final(ctx) == (GlobalCtx { breaker: final(ctx).breaker, ..*old(ctx) }),
        r == (if always_guarded(old(ctx), local_ip) || blocks(old(ctx), local_ip) {
            Err::<(), Refusal>(Refusal::GuardedSource)
        } else {
            Ok(())
        }),
        source_strike(old(ctx), local_ip, snapshot) is None || !old(
            ctx,
        ).flags.underlay_candidate_guard ==> *final(ctx) == *old(ctx),
        source_strike(old(ctx), local_ip, snapshot) is Some && old(
            ctx,
        ).flags.underlay_candidate_guard ==> exists|blocked: bool| #[trigger]
            old(ctx).breaker.strikes(
                key,
                source_strike(old(ctx), local_ip, snapshot)->0,
                now_secs,
                blocked,
                final(ctx).breaker,
            ),
{
    if historical_guarded_ip(ctx, local_ip) || should_block_underlay_ip(ctx, local_ip) {
        let blocked = ctx.record_underlay_breaker_strike_at(
            key,
            UnderlayBreakerStrikeKind::Hard,
            now_secs,
        );
        proof {
            if old(ctx).flags.underlay_candidate_guard {
                assert(old(ctx).breaker.strikes(
                    key,
                    source_strike(old(ctx), local_ip, snapshot)->0,
                    now_secs,
                    blocked,
                    ctx.breaker,
                ));
            }
        }
        return Err(Refusal::GuardedSource);
    }
    if let Some((_, suspicious)) = source_interface_signal(snapshot, local_ip) {
        if suspicious {
            let blocked = ctx.record_underlay_breaker_strike_at(
                key,
                UnderlayBreakerStrikeKind::Soft,
                now_secs,
            );
            proof {
                if old(ctx).flags.underlay_candidate_guard {
                    assert(old(ctx).breaker.strikes(
                        key,
                        source_strike(old(ctx), local_ip, snapshot)->0,
                        now_secs,
                        blocked,
                        ctx.breaker,
                    ));
                }
            }
        }
    }
    Ok(())
}

/// What the outcomes of the tried sources mean: accepted once one passed, else refused for the
/// reason of the last one.
pub open spec fn verdict_of_probes(outcomes: Seq<Result<(), Refusal>>) -> Result<(), Refusal>
    decreases outcomes.len(),
{
    if outcomes.len() == 0 {
        Err(Refusal::ProbeFailed { stale_interface: false })
    } else if exists|i: int| 0 <= i < outcomes.len() && (#[trigger] outcomes[i]) is Ok {
        Ok(())
    } else {
        outcomes.last()
    }
}

/// Decides on a candidate by the outcomes of its sources, in the order in which they were tried.
pub fn judge_probes(outcomes: &Vec<Result<(), Refusal>>) -> (r: Result<(), Refusal>)
    ensures
        r == verdict_of_probes(outcomes@),
{
    let mut last_error: Refusal = Refusal::ProbeFailed { stale_interface: false };
    let mut i: usize = 0;
    while i < outcomes.len()
        invariant
            i <= outcomes@.len(),
            forall|j: int| 0 <= j < i ==> (#[trigger] outcomes@[j]) is Err,
            i > 0 ==> outcomes@[i - 1] == Err::<(), Refusal>(last_error),
            i == 0 ==> last_error == (Refusal::ProbeFailed { stale_interface: false }),
        decreases outcomes@.len() - i,
    {
        match &outcomes[i] {
            Ok(()) => {
                assert(outcomes@[i as int] is Ok);
                return Ok(());
            },
            Err(refusal) => {
                last_error = *refusal;
            },
        }
        i += 1;
    }
    Err(last_error)
}

/// What to do after a candidate was validated.
#[derive(Clone, Copy, Debug, PartialEq, Eq, Structural)]
pub enum RecoveryStep {
    Accept,
    /// Take a new snapshot of the interfaces and validate again.
    Refresh,
    Fail,
}

/// What follows a validation. A failure that a stale snapshot explains is followed by one more
/// validation with a new snapshot, and only one.
pub open spec fn recovery_step(
    retries_done: nat,
    outcome: Result<(), Refusal>,
    has_snapshot: bool,
) -> RecoveryStep {
    if outcome is Ok {
        RecoveryStep::Accept
    } else if retries_done == 0 && outcome == Err::<(), Refusal>(
        Refusal::ProbeFailed { stale_interface: true },
    ) && has_snapshot {
        RecoveryStep::Refresh
    } else {
        RecoveryStep::Fail
    }
}

/// Decides what follows a validation.
pub fn next_recovery_step(
    retries_done: u8,
    outcome: &Result<(), Refusal>,
    has_snapshot: bool,
) -> (r: RecoveryStep)
    ensures
        r == recovery_step(retries_done as nat, *outcome, has_snapshot),
{
    match outcome {
        Ok(()) => RecoveryStep::Accept,
        Err(Refusal::ProbeFailed { stale_interface }) => if retries_done == 0 && *stale_interface
            && has_snapshot {
            RecoveryStep::Refresh
        } else {
            RecoveryStep::Fail
        },
        Err(_) => RecoveryStep::Fail,
    }
}

/// A candidate is validated at most twice: after the second validation it is accepted or refused.
/// A refusal that no stale interface explains ends the matter at once.
pub proof fn law_recovery_is_bounded(
    retries_done: nat,
    outcome: Result<(), Refusal>,
    has_snapshot: bool,
)
    ensures
        retries_done > 0 ==> recovery_step(retries_done, outcome, has_snapshot)
            != RecoveryStep::Refresh,
        outcome == Err::<(), Refusal>(Refusal::GuardedSource) || outcome == Err::<(), Refusal>(
            Refusal::GuardedRemote,
        ) ==> recovery_step(retries_done, outcome, has_snapshot) == RecoveryStep::Fail,
{
}

/// Tells whether an attempt needs a snapshot of the interfaces.
pub fn attempt_needs_snapshot(ctx: &GlobalCtx) -> (r: bool)
    ensures
        r == (NATIVE_INTERFACE_INSPECTION && (ctx.flags.bind_device
            || ctx.flags.underlay_candidate_guard)),
{
    native_interface_inspection_active() && (ctx.flags.bind_device
        || ctx.flags.underlay_candidate_guard)
}

/// Tells whether a snapshot has to be taken anew: connections are bound to a device, and the
/// family's fallback address has no interface.
pub fn snapshot_needs_recollection(
    ctx: &GlobalCtx,
    remote_addr: SocketAddress,
    snapshot: &UnderlayInterfaceSnapshot,
) -> (r: bool)
    ensures
        r == (ctx.flags.bind_device && snapshot.lacks_interface(remote_addr is V4)),
{
    ctx.flags.bind_device && snapshot.has_unmapped_fallback_for(remote_addr.is_ipv4())
}

/// The breaker keys of an attempt: the expected peer, if it is known, and the endpoint.
pub open spec fn attempt_keys(
    remote_addr: SocketAddress,
    scheme: IpScheme,
    scope: UnderlayBreakerScope,
    expected_peer_id: Option<PeerId>,
) -> Seq<UnderlayBreakerKey> {
    match expected_peer_id {
        Some(peer_id) => seq![
            UnderlayBreakerKey::Peer { peer_id, scheme, scope },
            candidate_key(remote_addr, scheme, scope),
        ],
        None => seq![candidate_key(remote_addr, scheme, scope)],
    }
}

/// Asks the breaker to make an attempt.
pub fn prepare_underlay_attempt(
    ctx: &mut GlobalCtx,
    remote_addr: SocketAddress,
    scheme: IpScheme,
    scope: UnderlayBreakerScope,
    expected_peer_id: Option<PeerId>,
    now_secs: u64,
) -> (r: Result<UnderlayPreflightGuard, UnderlayBreakerGateError>)
    requires
        old(ctx).wf(),
    ensures
        final(ctx).wf(),
        *final(ctx) == (GlobalCtx { breaker: final(ctx).breaker, ..*old(ctx) }),
        !old(ctx).flags.underlay_candidate_guard ==> *final(ctx) == *old(ctx) && r is Ok
            && r->Ok_0.lease_id == 0 && r->Ok_0.acquired_half_open_keys@.len() == 0
            && !r->Ok_0.committed,
        old(ctx).flags.underlay_candidate_guard ==> old(ctx).breaker.begins(
            attempt_keys(remote_addr, scheme, scope, expected_peer_id),
            now_secs,
            r,
            final(ctx).breaker,
        ),
{
    let mut keys: Vec<UnderlayBreakerKey> = Vec::new();
    if let Some(peer_id) = expected_peer_id {
        keys.push(UnderlayBreakerKey::peer(peer_id, scheme, scope));
    }
    keys.push(UnderlayBreakerKey::endpoint(remote_addr, scheme, scope));
    assert(keys@ =~= attempt_keys(remote_addr, scheme, scope, expected_peer_id));
    ctx.try_begin_underlay_attempt_at(keys.as_slice(), now_secs)
}

/// A guarded destination is refused before any source is tried out, and a source that the
/// interfaces do not account for refuses the candidate rather than being passed over.
pub proof fn law_guard_fails_closed(
    ctx: &GlobalCtx,
    remote_addr: SocketAddress,
    snapshot: Option<&UnderlayInterfaceSnapshot>,
)
    requires
        ctx.flags.bind_device,
        NATIVE_INTERFACE_INSPECTION,
        snapshot is None || snapshot->0.lacks_interface(remote_addr is V4),
    ensures
        device_sources(ctx, remote_addr, snapshot) is Err,
{
}

/// The ranges of a list are those that its items name, in their order; blank items name none, and one item
/// that names none although it is not blank makes the list invalid.
pub proof fn law_ranges_are_those_that_are_named(items: Seq<Seq<char>>, block: IpCidr)
    ensures
        excludes_of_items(items) is Some <==> forall|i: int|
            0 <= i < items.len() && trimmed(#[trigger] items[i]).len() > 0 ==> one_cidr(trimmed(items[i]))
                is Some,
        excludes_of_items(items) matches Some(blocks) ==> (blocks.contains(block) <==> exists|i: int|
            0 <= i < items.len() && trimmed(#[trigger] items[i]).len() > 0 && one_cidr(trimmed(items[i]))
                == Some(block)),
    decreases items.len(),
{
    if items.len() > 0 {
        let front = items.drop_last();
        law_ranges_are_those_that_are_named(front, block);
        let last = items.len() - 1;
        let item = trimmed(items.last());
        assert(items[last] == items.last());
        assert forall|i: int| 0 <= i < front.len() implies front[i] == #[trigger] items[i] by {}
        if excludes_of_items(front) is None {
            let i = choose|i: int|
                0 <= i < front.len() && trimmed(#[trigger] front[i]).len() > 0 && one_cidr(
                    trimmed(front[i]),
                ) is None;
            assert(trimmed(items[i]).len() > 0 && one_cidr(trimmed(items[i])) is None);
        } else {
            assert forall|i: int| 0 <= i < front.len() && trimmed(#[trigger] items[i]).len() > 0 implies one_cidr(
            trimmed(items[i])) is Some by {
                assert(trimmed(front[i]).len() > 0);
            }
        }
        if excludes_of_items(items) is Some {
            let before = excludes_of_items(front)->0;
            let all = excludes_of_items(items)->0;
            if before.contains(block) {
                let k = choose|k: int| 0 <= k < before.len() && before[k] == block;
                assert(all[k] == block);
                let i = choose|i: int|
                    0 <= i < front.len() && trimmed(#[trigger] front[i]).len() > 0 && one_cidr(
                        trimmed(front[i]),
                    ) == Some(block);
                assert(one_cidr(trimmed(items[i])) == Some(block));
            }
            if item.len() > 0 && one_cidr(item) == Some(block) {
                assert(all[all.len() - 1] == block);
            }
            if all.contains(block) && !before.contains(block) {
                let k = choose|k: int| 0 <= k < all.len() && all[k] == block;
                if k < before.len() {
                    assert(before[k] == block);
                }
                assert(one_cidr(trimmed(items[last])) == Some(block));
            }
            if exists|i: int|
                0 <= i < items.len() && trimmed(#[trigger] items[i]).len() > 0 && one_cidr(
                    trimmed(items[i]),
                ) == Some(block) {
                let i = choose|i: int|
                    0 <= i < items.len() && trimmed(#[trigger] items[i]).len() > 0 && one_cidr(
                        trimmed(items[i]),
                    ) == Some(block);
                if i < last {
                    assert(one_cidr(trimmed(front[i])) == Some(block));
                }
            }
        }
    }
}

/// A text that is a range stands for it; one that is none may be a host address with a prefix length, which
/// stands for its network.
pub proof fn law_texts_that_are_ranges(item: Seq<char>)
    ensures
        cidr_from_text(item) is Some ==> one_cidr(item) == cidr_from_text(item),
        cidr_from_text(item) is None ==> one_cidr(item) == inet_network_from_text(item),
{
}

/// The ranges that are always guarded, by their leading numbers: 198.18 and 198.19, 192.19.0, the IPv6
/// addresses whose first sixteen bits are fc00 and next two are zero, and two private prefixes.
pub proof fn law_builtin_ranges(ipv4: u32, ipv6: u128)
    ensures
        builtin_hold(IpAddress::V4(ipv4)) <==> ipv4 / 0x1_0000 == 0xc612 || ipv4 / 0x1_0000 == 0xc613
            || ipv4 / 0x100 == 0xc0_1300,
        builtin_hold(IpAddress::V6(ipv6)) <==> ipv6 / 0x4000_0000_0000_0000_0000_0000_0000 == 0x3_f000
            || ipv6 / 0x1_0000_0000_0000_0000_0000 == 0xfdfe_dcba_9876 || ipv6
            / 0x1_0000_0000_0000_0000_0000 == 0xfd65_6173_7974,
{
}

/// While the guard is on it keeps connections off the overlay's own addresses, the ranges that are always
/// guarded and the configured ones, and off no others. The overlay's own IPv6 addresses are guarded even
/// while it is off.
pub proof fn law_what_the_guard_holds(ctx: &GlobalCtx, ip: IpAddress)
    ensures
        blocks(ctx, ip) ==> ctx.flags.underlay_candidate_guard,
        ctx.flags.underlay_candidate_guard ==> (blocks(ctx, ip) <==> ctx.local_virtual_ip(ip) || (ip is V6
            && ctx.managed_ipv6(ip->V6_0)) || builtin_hold(ip) || configured_hold(ctx.flags, ip)),
        always_guarded(ctx, ip) <==> ip is V6 && ctx.managed_ipv6(ip->V6_0),
        ip is V4 ==> !always_guarded(ctx, ip),
        configured_hold(ctx.flags, ip) ==> excludes_of_text(ctx.flags.underlay_exclude_cidrs@) is Some,
{
}

/// A wildcard is of the family of the destination, unspecified and at no port.
pub proof fn law_wildcards_have_the_family(remote_addr: SocketAddress)
    ensures
        wildcard_for(remote_addr) is V4 <==> remote_addr is V4,
        wildcard_for(remote_addr).spec_ip().unspecified(),
        wildcard_for(remote_addr).spec_port() == 0,
{
}

/// A device looks like a tunnel where its name, whatever the case of its letters, begins with `tun`, `tap`
/// or `utun`; a name without the letter t never does.
pub proof fn law_names_of_tunnels(name: Seq<char>)
    ensures
        lowered(name).len() >= 3 && lowered(name).take(3) == seq!['t', 'u', 'n'] ==> tunnel_like(name),
        lowered(name).len() >= 3 && lowered(name).take(3) == seq!['t', 'a', 'p'] ==> tunnel_like(name),
        lowered(name).len() >= 4 && lowered(name).take(4) == seq!['u', 't', 'u', 'n'] ==> tunnel_like(
            name,
        ),
        has_word(lowered(name), seq!['w', 'i', 'n', 't', 'u', 'n']) ==> tunnel_like(name),
        !lowered(name).contains('t') ==> !tunnel_like(name),
{
    reveal_strlit("utun");
    reveal_strlit("tun");
    reveal_strlit("tap");
    reveal_strlit("wintun");
    let small = lowered(name);
    assert("utun"@ =~= seq!['u', 't', 'u', 'n']);
    assert("tun"@ =~= seq!['t', 'u', 'n']);
    assert("tap"@ =~= seq!['t', 'a', 'p']);
    assert("wintun"@ =~= seq!['w', 'i', 'n', 't', 'u', 'n']);
    if small.len() >= 3 {
        assert(small.subrange(0, 3) =~= small.take(3));
    }
    if small.len() >= 4 {
        assert(small.subrange(0, 4) =~= small.take(4));
    }
    if tunnel_like(name) {
        if stands_at(small, "utun"@, 0) {
            assert(small.subrange(0, 4)[1] == 't');
            assert(small[1] == 't');
        } else if stands_at(small, "tun"@, 0) {
            assert(small.subrange(0, 3)[0] == 't');
            assert(small[0] == 't');
        } else if stands_at(small, "tap"@, 0) {
            assert(small.subrange(0, 3)[0] == 't');
            assert(small[0] == 't');
        } else {
            let i = choose|i: int| #[trigger] stands_at(small, "wintun"@, i);
            assert(small.subrange(i, i + 6)[3] == 't');
            assert(small[i + 3] == 't');
        }
    }
}

/// The IPv4 sources that are left are those that the guard does not hold, at no port.
pub proof fn law_open_ipv4_sources(ctx: &GlobalCtx, ips: Seq<u32>, ip: u32)
    ensures
        open_ipv4_sources(ctx, ips).contains(SocketAddress::V4 { ipv4: ip, port: 0 }) <==> ips.contains(ip)
            && !blocks(ctx, IpAddress::V4(ip)),
    decreases ips.len(),
{
    let wanted = SocketAddress::V4 { ipv4: ip, port: 0 };
    if ips.len() > 0 {
        let front = ips.drop_last();
        law_open_ipv4_sources(ctx, front, ip);
        let before = open_ipv4_sources(ctx, front);
        let all = open_ipv4_sources(ctx, ips);
        if before.contains(wanted) {
            let k = choose|k: int| 0 <= k < before.len() && before[k] == wanted;
            assert(all[k] == wanted);
        }
        if front.contains(ip) {
            let k = choose|k: int| 0 <= k < front.len() && front[k] == ip;
            assert(ips[k] == ip);
        }
        if ips.last() == ip {
            assert(ips[ips.len() - 1] == ip);
            if !blocks(ctx, IpAddress::V4(ip)) {
                assert(all[all.len() - 1] == wanted);
            }
        } else if ips.contains(ip) {
            let k = choose|k: int| 0 <= k < ips.len() && ips[k] == ip;
            assert(front[k] == ip);
        }
        if all.contains(wanted) && !before.contains(wanted) {
            let k = choose|k: int| 0 <= k < all.len() && all[k] == wanted;
            if k < before.len() {
                assert(before[k] == wanted);
            }
        }
    }
}

/// The IPv6 sources that are left are those that the guard does not hold and the overlay does not manage,
/// at no port.
pub proof fn law_open_ipv6_sources(ctx: &GlobalCtx, ips: Seq<u128>, ip: u128)
    ensures
        open_ipv6_sources(ctx, ips).contains(
            SocketAddress::V6 { ipv6: ip, port: 0, flowinfo: 0, scope_id: 0 },
        ) <==> ips.contains(ip) && !blocks(ctx, IpAddress::V6(ip)) && !ctx.managed_ipv6(ip),
    decreases ips.len(),
{
    let wanted = SocketAddress::V6 { ipv6: ip, port: 0, flowinfo: 0, scope_id: 0 };
    if ips.len() > 0 {
        let front = ips.drop_last();
        law_open_ipv6_sources(ctx, front, ip);
        let before = open_ipv6_sources(ctx, front);
        let all = open_ipv6_sources(ctx, ips);
        if before.contains(wanted) {
            let k = choose|k: int| 0 <= k < before.len() && before[k] == wanted;
            assert(all[k] == wanted);
        }
        if front.contains(ip) {
            let k = choose|k: int| 0 <= k < front.len() && front[k] == ip;
            assert(ips[k] == ip);
        }
        if ips.last() == ip {
            assert(ips[ips.len() - 1] == ip);
            if !blocks(ctx, IpAddress::V6(ip)) && !ctx.managed_ipv6(ip) {
                assert(all[all.len() - 1] == wanted);
            }
        } else if ips.contains(ip) {
            let k = choose|k: int| 0 <= k < ips.len() && ips[k] == ip;
            assert(front[k] == ip);
        }
        if all.contains(wanted) && !before.contains(wanted) {
            let k = choose|k: int| 0 <= k < all.len() && all[k] == wanted;
            if k < before.len() {
                assert(before[k] == wanted);
            }
        }
    }
}

/// Connections that are not bound to a device need no source; the others need one of the destination's
/// family, from interfaces that are known.
pub proof fn law_sources_for_devices(
    ctx: &GlobalCtx,
    remote_addr: SocketAddress,
    snapshot: Option<&UnderlayInterfaceSnapshot>,
)
    ensures
        ({
            let sources = device_sources(ctx, remote_addr, snapshot);
            let bound = ctx.flags.bind_device && NATIVE_INTERFACE_INSPECTION;
            &&& !bound ==> sources is Ok && sources->Ok_0.len() == 0
            &&& bound && snapshot is None ==> sources == Err::<Seq<SocketAddress>, _>(
                Refusal::SnapshotUnavailable,
            )
            &&& bound && snapshot is Some && !snapshot->0.lacks_interface(remote_addr is V4)
                && remote_addr is V4 ==> sources == Ok::<_, Refusal>(
                open_ipv4_sources(ctx, snapshot->0.ip_list.interface_ipv4s@),
            )
            &&& bound && snapshot is Some && !snapshot->0.lacks_interface(remote_addr is V4)
                && remote_addr is V6 ==> sources == Ok::<_, Refusal>(
                open_ipv6_sources(ctx, snapshot->0.ip_list.interface_ipv6s@),
            )
        }),
{
}

/// A guarded source brings a hard strike, a source on an interface that looks like a tunnel a soft one, and
/// any other none.
pub proof fn law_strikes_of_sources(
    ctx: &GlobalCtx,
    local_ip: IpAddress,
    snapshot: Option<&UnderlayInterfaceSnapshot>,
)
    ensures
        ({
            let strike = source_strike(ctx, local_ip, snapshot);
            let guarded = blocks(ctx, local_ip) || (local_ip is V6 && ctx.managed_ipv6(
                local_ip->V6_0,
            ));
            let owner = if snapshot is Some {
                snapshot->0.owner(local_ip)
            } else {
                None
            };
            &&& strike == Some(UnderlayBreakerStrikeKind::Hard) <==> guarded
            &&& strike == Some(UnderlayBreakerStrikeKind::Soft) <==> !guarded && owner is Some && (
            owner->0.is_point_to_point || tunnel_like(owner->0.name@))
        }),
{
}

/// A candidate is accepted if and only if one of its sources passes; else the reason is that of the last
/// source.
pub proof fn law_one_source_is_enough(outcomes: Seq<Result<(), Refusal>>, i: int)
    requires
        0 <= i < outcomes.len(),
    ensures
        outcomes[i] is Ok ==> verdict_of_probes(outcomes) is Ok,
        verdict_of_probes(outcomes) is Err ==> verdict_of_probes(outcomes) == outcomes.last()
            && outcomes[i] is Err,
        (forall|k: int| 0 <= k < outcomes.len() ==> (#[trigger] outcomes[k]) is Err)
            ==> verdict_of_probes(outcomes) is Err,
        verdict_of_probes(Seq::empty()) is Err,
{
}

/// A validation that succeeds is final. One that fails is repeated just where it was the first, an
/// interface was gone, and there was a snapshot to be renewed.
pub proof fn law_when_validation_is_repeated(
    retries_done: nat,
    outcome: Result<(), Refusal>,
    has_snapshot: bool,
)
    ensures
        recovery_step(retries_done, outcome, has_snapshot) is Accept <==> outcome is Ok,
        recovery_step(retries_done, outcome, has_snapshot) is Refresh <==> retries_done == 0
            && has_snapshot && outcome == Err::<(), Refusal>(
            Refusal::ProbeFailed { stale_interface: true },
        ),
{
}

/// An attempt is judged by its endpoint and, where the peer is known, by the peer, in the same scope and
/// for the same transport.
pub proof fn law_keys_of_an_attempt(
    remote_addr: SocketAddress,
    scheme: IpScheme,
    scope: UnderlayBreakerScope,
    expected_peer_id: Option<PeerId>,
)
    ensures
        ({
            let keys = attempt_keys(remote_addr, scheme, scope, expected_peer_id);
            &&& keys.contains(UnderlayBreakerKey::Endpoint { remote_addr, scheme, scope })
            &&& expected_peer_id matches Some(peer_id) ==> keys.len() == 2 && keys.contains(
                UnderlayBreakerKey::Peer { peer_id, scheme, scope },
            )
            &&& expected_peer_id is None ==> keys.len() == 1
            &&& forall|i: int|
                0 <= i < keys.len() ==> (#[trigger] keys[i]).spec_scheme() == scheme
                    && keys[i].spec_scope() == scope
        }),
{
    let keys = attempt_keys(remote_addr, scheme, scope, expected_peer_id);
    let endpoint = UnderlayBreakerKey::Endpoint { remote_addr, scheme, scope };
    assert(keys[keys.len() - 1] == endpoint);
    if let Some(peer_id) = expected_peer_id {
        assert(keys[0] == (UnderlayBreakerKey::Peer { peer_id, scheme, scope }));
    }
}

/// What is said of a refusal that concerns a family names that family.
pub proof fn law_refusals_name_their_family(is_ipv4: bool)
    ensures
        ({
            let unmapped = (Refusal::UnmappedFallback { is_ipv4 }).text();
            let unusable = (Refusal::NoUsableSource { is_ipv4 }).text();
            let family = if is_ipv4 {
                seq!['I', 'P', 'v', '4']
            } else {
                seq!['I', 'P', 'v', '6']
            };
            &&& unmapped.subrange(9, 13) == family
            &&& unusable.subrange(10, 14) == family
        }),
{
    reveal_strlit("underlay IPv4 fallback has no interface identity");
    reveal_strlit("underlay IPv6 fallback has no interface identity");
    reveal_strlit("no usable IPv4 bind-device source");
    reveal_strlit("no usable IPv6 bind-device source");
    let unmapped = (Refusal::UnmappedFallback { is_ipv4 }).text();
    let unusable = (Refusal::NoUsableSource { is_ipv4 }).text();
    let family = if is_ipv4 {
        seq!['I', 'P', 'v', '4']
    } else {
        seq!['I', 'P', 'v', '6']
    };
    assert(unmapped.subrange(9, 13) =~= family);
    assert(unusable.subrange(10, 14) =~= family);
}

/// A candidate at a managed address is refused whether or not the guard is in force, and one that the guard
/// holds only while it is. Without the guard every other candidate is accepted and nothing is remembered.
pub proof fn law_candidates_that_are_refused(
    ctx: &mut GlobalCtx,
    remote_addr: SocketAddress,
    scheme: IpScheme,
    scope: UnderlayBreakerScope,
    snapshot: Option<&UnderlayInterfaceSnapshot>,
    now_secs: u64,
    r: Result<CandidateCheck, Refusal>,
)
    requires
        old(ctx).wf(),
        call_ensures(
            check_underlay_candidate,
            (ctx, remote_addr, scheme, scope, snapshot, now_secs),
            r,
        ),
    ensures
        ({
            let managed = match remote_addr {
                SocketAddress::V4 { .. } => false,
                SocketAddress::V6 { ipv6, .. } => old(ctx).managed_ipv6(ipv6),
            };
            let guard = old(ctx).flags.underlay_candidate_guard;
            &&& managed ==> r is Err && r->Err_0 is ManagedIpv6 && *final(ctx) == *old(ctx)
            &&& !managed && !guard ==> r is Ok && r->Ok_0 is Accepted && *final(ctx) == *old(ctx)
            &&& !managed && guard && blocks(old(ctx), remote_addr.spec_ip()) ==> r is Err
                && r->Err_0 is GuardedRemote
            &&& r is Ok && r->Ok_0 is Accepted ==> !guard
            &&& r is Ok && r->Ok_0 is Probe ==> guard && !blocks(old(ctx), remote_addr.spec_ip())
                && r->Ok_0->sources@.len() > 0
            &&& r is Err && r->Err_0 is NoUsableSource ==> (r->Err_0->NoUsableSource_is_ipv4 <==> remote_addr is V4)
        }),
        final(ctx).flags == old(ctx).flags,
{
}

/// A connection may not start from an address that is managed or that the guard holds, and from any other
/// it may. Without the guard nothing is remembered of it.
pub proof fn law_sources_that_are_refused(
    ctx: &mut GlobalCtx,
    key: UnderlayBreakerKey,
    local_ip: IpAddress,
    snapshot: Option<&UnderlayInterfaceSnapshot>,
    now_secs: u64,
    r: Result<(), Refusal>,
)
    requires
        old(ctx).wf(),
        call_ensures(validate_connected_udp_source, (ctx, key, local_ip, snapshot, now_secs), r),
    ensures
        r is Err <==> (local_ip is V6 && old(ctx).managed_ipv6(local_ip->V6_0)) || blocks(
            old(ctx),
            local_ip,
        ),
        r is Err ==> r->Err_0 is GuardedSource,
        !old(ctx).flags.underlay_candidate_guard ==> *final(ctx) == *old(ctx),
{
}

/// A socket that is bound to no address is bound to no interface either; any other is bound to the
/// interface that has its address, which must be known and have a number.
pub proof fn law_sockets_are_bound_to_interfaces(
    bind_addr: SocketAddress,
    snapshot: Option<&UnderlayInterfaceSnapshot>,
    r: Result<PreflightUdpBindTarget, Refusal>,
)
    requires
        call_ensures(select_preflight_udp_bind_target, (bind_addr, snapshot), r),
    ensures
        ({
            let unspecified = match bind_addr {
                SocketAddress::V4 { ipv4, .. } => ipv4 == 0,
                SocketAddress::V6 { ipv6, .. } => ipv6 == 0,
            };
            &&& r is Ok && r->Ok_0 is Wildcard <==> unspecified
            &&& !unspecified && snapshot is None ==> r is Err && r->Err_0 is NoInterfaceIdentity
            &&& r is Ok && r->Ok_0 is Resolved ==> r->Ok_0->interface_index != 0
            &&& r is Err ==> r->Err_0 is NoInterfaceIdentity || r->Err_0 is ZeroInterfaceIndex
        }),
{
}

} // verus!
