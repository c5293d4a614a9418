//! How a connection to a peer is made: whether to try at all, from which source, to which of the
//! addresses of a URL, and with which transport.
use vstd::multiset::Multiset;
use vstd::prelude::*;
use rand::seq::SliceRandom as _;

use crate::addr::{IpAddress, IpScheme, IpVersion, SocketAddress};
use crate::build_features::NATIVE_INTERFACE_INSPECTION;
use crate::config::{Flags, PeerFeatureFlag};
use crate::endpoint_url::{
    scheme_by_name, scheme_named, url_from_text, EndpointUrl, TunnelScheme, UrlHost,
};
use crate::error::{stale_interface_tunnel_error, TunnelError};
use crate::global_ctx::{stealth_in_effect, GlobalCtx};
use crate::network::{UnderlayInterfaceSnapshot, UnderlaySnapshotCache};
use crate::stealth_registry::{enabled_by, protocol_enabled, StealthProtocol};
use crate::underlay_breaker::{UnderlayBreakerGateError, UnderlayPreflightGuard};
use crate::underlay_guard::{
    always_guarded, blocks, historical_guarded_ip, native_interface_inspection_active,
    should_block_underlay_ip, Refusal,
};

verus! {

/// A direct connection to the peer may be tried. Nothing being known of the peer, only this node's
/// own wish counts; else each side's wish to have no direct connections gives way to the other
/// side's need of them.
pub open spec fn p2p_allowed(
    feature: Option<PeerFeatureFlag>,
    allow_public_server: bool,
    local_disable_p2p: bool,
    local_need_p2p: bool,
) -> bool {
    match feature {
        Some(flag) => (allow_public_server || !flag.is_public_server) && (!local_disable_p2p
            || flag.need_p2p) && (!flag.disable_p2p || local_need_p2p),
        None => !local_disable_p2p,
    }
}

pub open spec fn known(feature: Option<&PeerFeatureFlag>) -> Option<PeerFeatureFlag> {
    match feature {
        Some(flag) => Some(*flag),
        None => None,
    }
}

pub fn should_try_p2p_with_peer(
    feature_flag: Option<&PeerFeatureFlag>,
    allow_public_server: bool,
    local_disable_p2p: bool,
    local_need_p2p: bool,
) -> (r: bool)
    ensures
        r == p2p_allowed(
            known(feature_flag),
            allow_public_server,
            local_disable_p2p,
            local_need_p2p,
        ),
{
    match feature_flag {
        Some(flag) => (allow_public_server || !flag.is_public_server) && (!local_disable_p2p
            || flag.need_p2p) && (!flag.disable_p2p || local_need_p2p),
        None => !local_disable_p2p,
    }
}

/// A direct connection to the peer may be tried without any traffic that asks for it.
pub open spec fn background_p2p_allowed(
    feature: Option<PeerFeatureFlag>,
    allow_public_server: bool,
    lazy_p2p: bool,
    local_disable_p2p: bool,
    local_need_p2p: bool,
) -> bool {
    p2p_allowed(feature, allow_public_server, local_disable_p2p, local_need_p2p) && (!lazy_p2p || (
    feature is Some && feature->0.need_p2p))
}

pub fn should_background_p2p_with_peer(
    feature_flag: Option<&PeerFeatureFlag>,
    allow_public_server: bool,
    lazy_p2p: bool,
    local_disable_p2p: bool,
    local_need_p2p: bool,
) -> (r: bool)
    ensures
        r == background_p2p_allowed(
            known(feature_flag),
            allow_public_server,
            lazy_p2p,
            local_disable_p2p,
            local_need_p2p,
        ),
{
    should_try_p2p_with_peer(feature_flag, allow_public_server, local_disable_p2p, local_need_p2p)
        && (!lazy_p2p || match feature_flag {
        Some(flag) => flag.need_p2p,
        None => false,
    })
}

/// What is tried in the background is allowed at all; being lazy only ever leaves peers out, and
/// none that needs direct connections.
pub proof fn law_laziness_only_leaves_peers_out(
    feature: Option<PeerFeatureFlag>,
    allow_public_server: bool,
    lazy_p2p: bool,
    local_disable_p2p: bool,
    local_need_p2p: bool,
)
    ensures
        background_p2p_allowed(
            feature,
            allow_public_server,
            lazy_p2p,
            local_disable_p2p,
            local_need_p2p,
        ) ==> p2p_allowed(feature, allow_public_server, local_disable_p2p, local_need_p2p),
        feature is Some && feature->0.need_p2p ==> background_p2p_allowed(
            feature,
            allow_public_server,
            lazy_p2p,
            local_disable_p2p,
            local_need_p2p,
        ) == p2p_allowed(feature, allow_public_server, local_disable_p2p, local_need_p2p),
        !lazy_p2p ==> background_p2p_allowed(
            feature,
            allow_public_server,
            lazy_p2p,
            local_disable_p2p,
            local_need_p2p,
        ) == p2p_allowed(feature, allow_public_server, local_disable_p2p, local_need_p2p),
{
}

/// A direct connection to the peer is wanted: in the background, because of traffic, or to get a
/// better transport than the peer is connected by.
pub open spec fn p2p_wanted(
    feature: Option<PeerFeatureFlag>,
    allow_public_server: bool,
    flags: Flags,
    has_recent_traffic: bool,
    priority_enabled: bool,
    has_peer: bool,
) -> bool {
    background_p2p_allowed(
        feature,
        allow_public_server,
        flags.lazy_p2p,
        flags.disable_p2p,
        flags.need_p2p,
    ) || (p2p_allowed(feature, allow_public_server, flags.disable_p2p, flags.need_p2p) && (
    has_recent_traffic || (priority_enabled && has_peer)))
}

pub fn is_p2p_wanted(
    feature_flag: Option<&PeerFeatureFlag>,
    allow_public_server: bool,
    flags: &Flags,
    has_recent_traffic: bool,
    priority_enabled: bool,
    has_peer: bool,
) -> (r: bool)
    ensures
        r == p2p_wanted(
            known(feature_flag),
            allow_public_server,
            *flags,
            has_recent_traffic,
            priority_enabled,
            has_peer,
        ),
{
    let static_allowed = should_background_p2p_with_peer(
        feature_flag,
        allow_public_server,
        flags.lazy_p2p,
        flags.disable_p2p,
        flags.need_p2p,
    );
    let allowed = should_try_p2p_with_peer(
        feature_flag,
        allow_public_server,
        flags.disable_p2p,
        flags.need_p2p,
    );
    static_allowed || (allowed && has_recent_traffic) || (priority_enabled && has_peer && allowed)
}

/// UDP goes without stealth: this node would use it, and the peer is known not to have it.
pub open spec fn downgrades_udp_stealth(
    local_stealth_mode: bool,
    feature: Option<PeerFeatureFlag>,
) -> bool {
    local_stealth_mode && feature is Some && !feature->0.stealth_supported
}

pub fn should_downgrade_udp_stealth(
    local_stealth_mode: bool,
    remote_feature_flag: Option<&PeerFeatureFlag>,
) -> (r: bool)
    ensures
        r == downgrades_udp_stealth(local_stealth_mode, known(remote_feature_flag)),
{
    local_stealth_mode && match remote_feature_flag {
        Some(flag) => !flag.stealth_supported,
        None => false,
    }
}

/// Holes are punched for a transport: to a peer that is not connected always, else only for a
/// better transport than those in use.
pub open spec fn ranked_hole_punch(
    has_peer: bool,
    priority_enabled: bool,
    has_same_transport: bool,
    candidate_improves: bool,
) -> bool {
    !has_peer || (priority_enabled && !has_same_transport && candidate_improves)
}

pub fn should_attempt_ranked_hole_punch(
    has_peer: bool,
    priority_enabled: bool,
    has_same_transport: bool,
    candidate_improves: bool,
) -> (r: bool)
    ensures
        r == ranked_hole_punch(has_peer, priority_enabled, has_same_transport, candidate_improves),
{
    !has_peer || (priority_enabled && !has_same_transport && candidate_improves)
}

/// A source address and the interface that it belongs to.
#[derive(Debug, PartialEq, Eq)]
pub struct ResolvedBindAddr {
    pub addr: SocketAddress,
    pub interface_name: Option<String>,
    pub interface_index: Option<u32>,
}

impl ResolvedBindAddr {
    /// The source is `ip` on the interface that owns it in the snapshot.
    pub open spec fn stands_for(self, snapshot: &UnderlayInterfaceSnapshot, ip: IpAddress) -> bool {
        let owner = snapshot.owner(ip);
        &&& owner is Some
        &&& self.addr == SocketAddress::of(ip, 0)
        &&& self.interface_name is Some
        &&& self.interface_name->0@ == owner->0.name@
        &&& self.interface_index == if owner->0.index == 0 {
            None
        } else {
            Some(owner->0.index)
        }
    }
}

/// The source addresses of a family that a snapshot holds.
pub open spec fn family_sources(snapshot: &UnderlayInterfaceSnapshot, is_ipv4: bool) -> Seq<
    IpAddress,
> {
    if is_ipv4 {
        snapshot.ip_list.interface_ipv4s@.map_values(|ip: u32| IpAddress::V4(ip))
    } else {
        snapshot.ip_list.interface_ipv6s@.map_values(|ip: u128| IpAddress::V6(ip))
    }
}

fn list_family_sources(snapshot: &UnderlayInterfaceSnapshot, is_ipv4: bool) -> (r: Vec<IpAddress>)
    ensures
        r@ == family_sources(snapshot, is_ipv4),
{
    let mut out: Vec<IpAddress> = Vec::new();
    let mut i: usize = 0;
    if is_ipv4 {
        while i < snapshot.ip_list.interface_ipv4s.len()
            invariant
                i <= snapshot.ip_list.interface_ipv4s@.len(),
                out@.len() == i,
                forall|j: int|
                    0 <= j < i ==> (#[trigger] out@[j]) == IpAddress::V4(
                        snapshot.ip_list.interface_ipv4s@[j],
                    ),
            decreases snapshot.ip_list.interface_ipv4s@.len() - i,
        {
            out.push(IpAddress::V4(snapshot.ip_list.interface_ipv4s[i]));
            i += 1;
        }
    } else {
        while i < snapshot.ip_list.interface_ipv6s.len()
            invariant
                i <= snapshot.ip_list.interface_ipv6s@.len(),
                out@.len() == i,
                forall|j: int|
                    0 <= j < i ==> (#[trigger] out@[j]) == IpAddress::V6(
                        snapshot.ip_list.interface_ipv6s@[j],
                    ),
            decreases snapshot.ip_list.interface_ipv6s@.len() - i,
        {
            out.push(IpAddress::V6(snapshot.ip_list.interface_ipv6s[i]));
            i += 1;
        }
    }
    assert(out@ =~= family_sources(snapshot, is_ipv4));
    out
}

/// The bind addresses stand for exactly these sources, in order.
pub open spec fn binds_stand_for(
    binds: Seq<ResolvedBindAddr>,
    snapshot: &UnderlayInterfaceSnapshot,
    sources: Seq<IpAddress>,
) -> bool {
    binds.len() == sources.len() && forall|i: int|
        0 <= i < binds.len() ==> (#[trigger] binds[i]).stands_for(snapshot, sources[i])
}

/// What comes of binding to these sources of a family: no source may be without an interface, and
/// none of the family's fallbacks.
pub open spec fn binds_result(
    r: Result<Seq<ResolvedBindAddr>, Refusal>,
    snapshot: &UnderlayInterfaceSnapshot,
    is_ipv4: bool,
    sources: Seq<IpAddress>,
) -> bool {
    if snapshot.lacks_interface(is_ipv4) {
        r == Err::<Seq<ResolvedBindAddr>, Refusal>(Refusal::UnmappedFallback { is_ipv4 })
    } else if exists|i: int|
        0 <= i < sources.len() && snapshot.owner(#[trigger] sources[i]) is None {
        r == Err::<Seq<ResolvedBindAddr>, Refusal>(Refusal::NoInterfaceIdentity)
    } else {
        r is Ok && binds_stand_for(r->Ok_0, snapshot, sources)
    }
}

pub open spec fn seq_result(r: Result<Vec<ResolvedBindAddr>, Refusal>) -> Result<
    Seq<ResolvedBindAddr>,
    Refusal,
> {
    match r {
        Ok(binds) => Ok(binds@),
        Err(refusal) => Err(refusal),
    }
}

fn resolve_sources(
    snapshot: &UnderlayInterfaceSnapshot,
    is_ipv4: bool,
    sources: &Vec<IpAddress>,
) -> (r: Result<Vec<ResolvedBindAddr>, Refusal>)
    requires
        snapshot.wf(),
    ensures
        binds_result(seq_result(r), snapshot, is_ipv4, sources@),
{
    if snapshot.has_unmapped_fallback_for(is_ipv4) {
        return Err(Refusal::UnmappedFallback { is_ipv4 });
    }
    let mut binds: Vec<ResolvedBindAddr> = Vec::new();
    let mut i: usize = 0;
    while i < sources.len()
        invariant
            snapshot.wf(),
            !snapshot.lacks_interface(is_ipv4),
            i <= sources@.len(),
            binds@.len() == i,
            forall|j: int| 0 <= j < i ==> snapshot.owner(#[trigger] sources@[j]) is Some,
            forall|j: int|
                0 <= j < i ==> (#[trigger] binds@[j]).stands_for(snapshot, sources@[j]),
        decreases sources@.len() - i,
    {
        let ip = sources[i];
        match snapshot.interface_for(&ip) {
            None => {
                assert(snapshot.owner(sources@[i as int]) is None);
                return Err(Refusal::NoInterfaceIdentity);
            },
            Some(interface) => {
                let interface_index: Option<u32> = if interface.index == 0 {
                    None
                } else {
                    Some(interface.index)
                };
                binds.push(
                    ResolvedBindAddr {
                        addr: SocketAddress::new(ip, 0),
                        interface_name: Some(interface.name.clone()),
                        interface_index,
                    },
                );
            },
        }
        i += 1;
    }
    Ok(binds)
}

fn is_listed(list: &Vec<IpAddress>, ip: IpAddress) -> (r: bool)
    ensures
        r == list@.contains(ip),
{
    let mut i: usize = 0;
    while i < list.len()
        invariant
            i <= list@.len(),
            forall|j: int| 0 <= j < i ==> (#[trigger] list@[j]) != ip,
        decreases list@.len() - i,
    {
        if list[i] == ip {
            assert(list@[i as int] == ip);
            return true;
        }
        i += 1;
    }
    false
}

/// The bind addresses of a family, without the addresses that are to be left out.
pub fn build_resolved_bind_addrs(
    snapshot: &UnderlayInterfaceSnapshot,
    is_ipv4: bool,
    left_out: &Vec<IpAddress>,
) -> (r: Result<Vec<ResolvedBindAddr>, Refusal>)
    requires
        snapshot.wf(),
    ensures
        binds_result(
            seq_result(r),
            snapshot,
            is_ipv4,
            family_sources(snapshot, is_ipv4).filter(|ip: IpAddress| !left_out@.contains(ip)),
        ),
{
    let all = list_family_sources(snapshot, is_ipv4);
    let ghost keep = |ip: IpAddress| !left_out@.contains(ip);
    let mut sources: Vec<IpAddress> = Vec::new();
    let mut i: usize = 0;
    proof {
        reveal(Seq::filter);
        assert(all@.take(0) =~= Seq::<IpAddress>::empty());
    }
    while i < all.len()
        invariant
            i <= all@.len(),
            keep == (|ip: IpAddress| !left_out@.contains(ip)),
            sources@ == all@.take(i as int).filter(keep),
        decreases all@.len() - i,
    {
        proof {
            reveal(Seq::filter);
            assert(all@.take(i as int + 1).drop_last() =~= all@.take(i as int));
        }
        if !is_listed(left_out, all[i]) {
            sources.push(all[i]);
        }
        i += 1;
    }
    assert(all@.take(all@.len() as int) =~= all@);
    resolve_sources(snapshot, is_ipv4, &sources)
}

/// The snapshot from which bind addresses are made. A platform whose interfaces are not inspected
/// has none; on others there has to be one.
pub fn resolved_bind_snapshot_for_platform<'a>(
    native_interface_inspection_active: bool,
    snapshot: Option<&'a UnderlayInterfaceSnapshot>,
) -> (r: Result<Option<&'a UnderlayInterfaceSnapshot>, Refusal>)
    ensures
        r == (if !native_interface_inspection_active {
            Ok::<Option<&UnderlayInterfaceSnapshot>, Refusal>(None)
        } else if snapshot is Some {
            Ok(snapshot)
        } else {
            Err(Refusal::BindDeviceWithoutSnapshot)
        }),
{
    if !native_interface_inspection_active {
        return Ok(None);
    }
    match snapshot {
        Some(snapshot) => Ok(Some(snapshot)),
        None => Err(Refusal::BindDeviceWithoutSnapshot),
    }
}

/// The sources of a family that the guard leaves.
pub open spec fn unguarded_sources(
    ctx: &GlobalCtx,
    snapshot: &UnderlayInterfaceSnapshot,
    is_ipv4: bool,
) -> Seq<IpAddress> {
    family_sources(snapshot, is_ipv4).filter(
        |ip: IpAddress| !blocks(ctx, ip) && !always_guarded(ctx, ip),
    )
}

/// The bind addresses for a connection to a peer; nothing where the platform has none.
pub fn bind_addrs_for_peer_connector(
    ctx: &GlobalCtx,
    is_ipv4: bool,
    snapshot: Option<&UnderlayInterfaceSnapshot>,
) -> (r: Result<Option<Vec<ResolvedBindAddr>>, Refusal>)
    requires
        snapshot is Some ==> snapshot->0.wf(),
    ensures
        !NATIVE_INTERFACE_INSPECTION ==> r == Ok::<Option<Vec<ResolvedBindAddr>>, Refusal>(None),
        NATIVE_INTERFACE_INSPECTION && snapshot is None ==> r == Err::<
            Option<Vec<ResolvedBindAddr>>,
            Refusal,
        >(Refusal::BindDeviceWithoutSnapshot),
        NATIVE_INTERFACE_INSPECTION && snapshot is Some ==> (r is Ok ==> r->Ok_0 is Some)
            && binds_result(
            match r {
                Ok(binds) => Ok(binds->0@),
                Err(refusal) => Err(refusal),
            },
            snapshot->0,
            is_ipv4,
            unguarded_sources(ctx, snapshot->0, is_ipv4),
        ),
{
    let snapshot = match resolved_bind_snapshot_for_platform(
        native_interface_inspection_active(),
        snapshot,
    ) {
        Err(refusal) => {
            return Err(refusal);
        },
        Ok(None) => {
            return Ok(None);
        },
        Ok(Some(snapshot)) => snapshot,
    };
    let all = list_family_sources(snapshot, is_ipv4);
    let ghost keep = |ip: IpAddress| !blocks(ctx, ip) && !always_guarded(ctx, ip);
    let mut sources: Vec<IpAddress> = Vec::new();
    let mut i: usize = 0;
    proof {
        reveal(Seq::filter);
        assert(all@.take(0) =~= Seq::<IpAddress>::empty());
    }
    while i < all.len()
        invariant
            i <= all@.len(),
            keep == (|ip: IpAddress| !blocks(ctx, ip) && !always_guarded(ctx, ip)),
            sources@ == all@.take(i as int).filter(keep),
        decreases all@.len() - i,
    {
        proof {
            reveal(Seq::filter);
            assert(all@.take(i as int + 1).drop_last() =~= all@.take(i as int));
        }
        if !should_block_underlay_ip(ctx, all[i]) && !historical_guarded_ip(ctx, all[i]) {
            sources.push(all[i]);
        }
        i += 1;
    }
    assert(all@.take(all@.len() as int) =~= all@);
    match resolve_sources(snapshot, is_ipv4, &sources) {
        Ok(binds) => Ok(Some(binds)),
        Err(refusal) => Err(refusal),
    }
}

pub open spec fn matches_version(addr: SocketAddress, ip_version: IpVersion) -> bool {
    match ip_version {
        IpVersion::V4 => addr is V4,
        IpVersion::V6 => addr is V6,
        IpVersion::Both => true,
    }
}

pub fn addr_matches_ip_version(addr: &SocketAddress, ip_version: IpVersion) -> (r: bool)
    ensures
        r == matches_version(*addr, ip_version),
{
    match ip_version {
        IpVersion::V4 => addr.is_ipv4(),
        IpVersion::V6 => !addr.is_ipv4(),
        IpVersion::Both => true,
    }
}

/// The version that the addresses leave of a request for both.
pub open spec fn effective_version(addrs: Seq<SocketAddress>, requested: IpVersion) -> IpVersion {
    if requested != IpVersion::Both {
        requested
    } else if forall|i: int| 0 <= i < addrs.len() ==> (#[trigger] addrs[i]) is V4 {
        IpVersion::V4
    } else if forall|i: int| 0 <= i < addrs.len() ==> (#[trigger] addrs[i]) is V6 {
        IpVersion::V6
    } else {
        requested
    }
}

pub fn infer_effective_ip_version(
    addrs: &Vec<SocketAddress>,
    requested_ip_version: IpVersion,
) -> (r: IpVersion)
    ensures
        r == effective_version(addrs@, requested_ip_version),
{
    let mut all_ipv4 = true;
    let mut all_ipv6 = true;
    let mut i: usize = 0;
    while i < addrs.len()
        invariant
            i <= addrs@.len(),
            all_ipv4 == forall|j: int| 0 <= j < i ==> (#[trigger] addrs@[j]) is V4,
            all_ipv6 == forall|j: int| 0 <= j < i ==> (#[trigger] addrs@[j]) is V6,
        decreases addrs@.len() - i,
    {
        if addrs[i].is_ipv4() {
            all_ipv6 = false;
            assert(!(addrs@[i as int] is V6));
        } else {
            all_ipv4 = false;
            assert(!(addrs@[i as int] is V4));
        }
        i += 1;
    }
    match requested_ip_version {
        IpVersion::Both => if all_ipv4 {
            IpVersion::V4
        } else if all_ipv6 {
            IpVersion::V6
        } else {
            IpVersion::Both
        },
        _ => requested_ip_version,
    }
}

/// Puts the addresses in a random order with `shuffle` of `rand::seq::SliceRandom`. What is
/// claimed of it: the same addresses are there, each as often as before.
#[verifier::external_body]
fn shuffled(addrs: Vec<SocketAddress>) -> (r: Vec<SocketAddress>)
    ensures
        r@.to_multiset() == addrs@.to_multiset(),
{
    let mut addrs = addrs;
    addrs.shuffle(&mut rand::thread_rng());
    addrs
}

/// Why an address is not connected to: the breaker stands in the way, or the guard refuses it.
#[derive(Clone, Copy, Debug, PartialEq, Eq, Structural)]
pub enum AttemptError {
    Gated(UnderlayBreakerGateError),
    Refused(Refusal),
}

/// Why no address of a URL is connected to.
#[derive(Clone, Copy, Debug, PartialEq, Eq, Structural)]
pub enum ResolveError {
    /// The attempt on an address was turned down, and no other is to be tried.
    Attempt(AttemptError),
    /// All addresses were turned down, the last one for this reason.
    AllRefused(AttemptError),
    /// There is no address of the version.
    NoDnsRecordFound(IpVersion),
}

/// What to do next.
#[derive(Clone, Copy, Debug, PartialEq, Eq, Structural)]
pub enum ResolveStep {
    /// Prepare an attempt on this address, and report what came of it.
    Attempt(SocketAddress),
    /// Connect to this address.
    Chosen { addr: SocketAddress, ip_version: IpVersion },
    Failed(ResolveError),
}

/// The addresses of a URL that are tried one after the other.
#[derive(Debug)]
pub struct AddressRun {
    pub addrs: Vec<SocketAddress>,
    pub next: usize,
    pub requested: IpVersion,
    pub effective: IpVersion,
    pub rejected: Option<AttemptError>,
}

impl AddressRun {
    pub open spec fn wf(&self) -> bool {
        self.next <= self.addrs@.len()
    }

    /// The step while no outcome is outstanding.
    pub open spec fn pending_step(&self) -> ResolveStep {
        if self.next < self.addrs@.len() {
            ResolveStep::Attempt(self.addrs@[self.next as int])
        } else {
            match self.rejected {
                Some(error) => ResolveStep::Failed(ResolveError::AllRefused(error)),
                None => ResolveStep::Failed(ResolveError::NoDnsRecordFound(self.requested)),
            }
        }
    }

    /// The run after an attempt on the next address was turned down.
    pub open spec fn after_rejection(&self, error: AttemptError) -> AddressRun {
        AddressRun { next: (self.next + 1) as usize, rejected: Some(error), ..*self }
    }

    /// Starts on the addresses that a URL resolved to: those of the wanted version, in random
    /// order.
    pub fn start(resolved: &Vec<SocketAddress>, requested: IpVersion) -> (r: Self)
        ensures
            r.wf(),
            r.next == 0,
            r.requested == requested,
            r.rejected is None,
            ({
                let kept = resolved@.filter(|addr: SocketAddress| matches_version(addr, requested));
                &&& r.addrs@.to_multiset() == kept.to_multiset()
                &&& r.effective == effective_version(kept, requested)
            }),
    {
        let ghost keep = |addr: SocketAddress| matches_version(addr, requested);
        let mut kept: Vec<SocketAddress> = Vec::new();
        let mut i: usize = 0;
        proof {
            reveal(Seq::filter);
            assert(resolved@.take(0) =~= Seq::<SocketAddress>::empty());
        }
        while i < resolved.len()
            invariant
                i <= resolved@.len(),
                keep == (|addr: SocketAddress| matches_version(addr, requested)),
                kept@ == resolved@.take(i as int).filter(keep),
            decreases resolved@.len() - i,
        {
            proof {
                reveal(Seq::filter);
                assert(resolved@.take(i as int + 1).drop_last() =~= resolved@.take(i as int));
            }
            if addr_matches_ip_version(&resolved[i], requested) {
                kept.push(resolved[i]);
            }
            i += 1;
        }
        assert(resolved@.take(resolved@.len() as int) =~= resolved@);
        let effective = infer_effective_ip_version(&kept, requested);
        AddressRun { addrs: shuffled(kept), next: 0, requested, effective, rejected: None }
    }

    pub fn step(&self) -> (r: ResolveStep)
        requires
            self.wf(),
        ensures
            r == self.pending_step(),
    {
        if self.next < self.addrs.len() {
            ResolveStep::Attempt(self.addrs[self.next])
        } else {
            match self.rejected {
                Some(error) => ResolveStep::Failed(ResolveError::AllRefused(error)),
                None => ResolveStep::Failed(ResolveError::NoDnsRecordFound(self.requested)),
            }
        }
    }

    /// Takes in what came of preparing an attempt on the next address. Only where both versions
    /// are wanted is another address tried after one was turned down.
    pub fn record(&mut self, outcome: Result<(), AttemptError>) -> (r: ResolveStep)
        requires
            old(self).wf(),
            old(self).next < old(self).addrs@.len(),
        ensures
            final(self).wf(),
            match outcome {
                Ok(()) => *final(self) == *old(self) && r == (ResolveStep::Chosen {
                    addr: old(self).addrs@[old(self).next as int],
                    ip_version: old(self).effective,
                }),
                Err(error) => if old(self).requested == IpVersion::Both {
                    *final(self) == old(self).after_rejection(error) && r
                        == final(self).pending_step()
                } else {
                    *final(self) == *old(self) && r == ResolveStep::Failed(
                        ResolveError::Attempt(error),
                    )
                },
            },
            forall|outcomes: Seq<Result<(), AttemptError>>|
                outcomes[old(self).next as int] == outcome ==> #[trigger] resolution(
                    *old(self),
                    old(self).next as int,
                    outcomes,
                ) == if r is Attempt {
                    resolution(*final(self), final(self).next as int, outcomes)
                } else {
                    r
                },
    {
        match outcome {
            Ok(()) => ResolveStep::Chosen {
                addr: self.addrs[self.next],
                ip_version: self.effective,
            },
            Err(error) => match self.requested {
                IpVersion::Both => {
                    let count: usize = self.addrs.len();
                    assert(self.next < count);
                    self.next = self.next + 1;
                    self.rejected = Some(error);
                    self.step()
                },
                _ => ResolveStep::Failed(ResolveError::Attempt(error)),
            },
        }
    }
}

/// How a run over `addrs` that stands at `from` goes on, given what comes of the attempts.
pub open spec fn resolution(
    run: AddressRun,
    from: int,
    outcomes: Seq<Result<(), AttemptError>>,
) -> ResolveStep
    decreases run.addrs@.len() - from,
{
    if 0 <= from < run.addrs@.len() {
        match outcomes[from] {
            Ok(()) => ResolveStep::Chosen { addr: run.addrs@[from], ip_version: run.effective },
            Err(error) => if run.requested == IpVersion::Both {
                resolution(run.after_rejection(error), from + 1, outcomes)
            } else {
                ResolveStep::Failed(ResolveError::Attempt(error))
            },
        }
    } else {
        match run.rejected {
            Some(error) => ResolveStep::Failed(ResolveError::AllRefused(error)),
            None => ResolveStep::Failed(ResolveError::NoDnsRecordFound(run.requested)),
        }
    }
}

/// Where both versions are wanted, a run ends with an address if and only if the attempt on one of
/// the addresses that are left is let through, and then with the first of those.
pub proof fn law_both_versions_try_every_address(
    run: AddressRun,
    from: int,
    outcomes: Seq<Result<(), AttemptError>>,
)
    requires
        0 <= from <= run.addrs@.len(),
        run.requested == IpVersion::Both,
        outcomes.len() == run.addrs@.len(),
    ensures
        (exists|i: int| from <= i < outcomes.len() && (#[trigger] outcomes[i]) is Ok)
            <==> resolution(run, from, outcomes) is Chosen,
        forall|i: int|
            from <= i < outcomes.len() && (#[trigger] outcomes[i]) is Ok && (forall|j: int|
                from <= j < i ==> (#[trigger] outcomes[j]) is Err) ==> resolution(
                run,
                from,
                outcomes,
            ) == (ResolveStep::Chosen { addr: run.addrs@[i], ip_version: run.effective }),
    decreases run.addrs@.len() - from,
{
    if from < run.addrs@.len() {
        match outcomes[from] {
            Ok(()) => {
                assert(outcomes[from] is Ok);
            },
            Err(error) => {
                law_both_versions_try_every_address(
                    run.after_rejection(error),
                    from + 1,
                    outcomes,
                );
            },
        }
    }
}

/// Whether and how a connection hides what it is.
#[derive(Clone, Copy, Debug, PartialEq, Eq, Structural)]
pub struct ConnectorStealth {
    pub protocol: StealthProtocol,
    pub enabled: bool,
    /// The connector starts stealthily and falls back by itself.
    pub prefer_with_legacy_fallback: bool,
}

/// The kind of connector that a URL asks for.
#[derive(Clone, Copy, Debug, PartialEq, Eq, Structural)]
pub enum ConnectorPlan {
    Ip { scheme: IpScheme, stealth: ConnectorStealth, bind_device: bool },
    Unix,
    Http,
    Ring,
    Dns,
}

#[derive(Clone, Copy, Debug, PartialEq, Eq, Structural)]
pub enum ConnectorPlanError {
    InvalidUrl,
    InvalidProtocol,
    /// A DNS record has to have a name.
    EmptyHost,
}

/// The name under which a transport's stealth is configured.
pub open spec fn stealth_protocol_of(scheme: IpScheme) -> StealthProtocol {
    match scheme {
        IpScheme::Tcp => StealthProtocol::Tcp,
        IpScheme::Udp => StealthProtocol::Udp,
        IpScheme::Wg => StealthProtocol::Wg,
        IpScheme::Quic => StealthProtocol::Quic,
        IpScheme::QuicBrutal => StealthProtocol::Quic,
        IpScheme::Ws => StealthProtocol::Ws,
        IpScheme::Wss => StealthProtocol::Wss,
        IpScheme::FakeTcp => StealthProtocol::FakeTcp,
    }
}

pub fn stealth_protocol_for(scheme: IpScheme) -> (r: StealthProtocol)
    ensures
        r == stealth_protocol_of(scheme),
{
    match scheme {
        IpScheme::Tcp => StealthProtocol::Tcp,
        IpScheme::Udp => StealthProtocol::Udp,
        IpScheme::Wg => StealthProtocol::Wg,
        IpScheme::Quic => StealthProtocol::Quic,
        IpScheme::QuicBrutal => StealthProtocol::Quic,
        IpScheme::Ws => StealthProtocol::Ws,
        IpScheme::Wss => StealthProtocol::Wss,
        IpScheme::FakeTcp => StealthProtocol::FakeTcp,
    }
}

/// A connection over `protocol` hides what it is.
pub open spec fn outer_session_enabled(ctx: &GlobalCtx, protocol: StealthProtocol) -> bool {
    stealth_in_effect(ctx.secret(), enabled_by(ctx.flags, protocol), ctx.secure())
}

pub fn is_outer_session_enabled(ctx: &GlobalCtx, protocol: StealthProtocol) -> (r: bool)
    requires
        ctx.wf(),
    ensures
        r == outer_session_enabled(ctx, protocol),
{
    protocol_enabled(&ctx.flags, protocol) && ctx.is_secure_mode_enabled() && !ctx.has_blank_secret()
}

/// What a URL that has been parsed asks for.
pub open spec fn plan_of_url(
    ctx: &GlobalCtx,
    url: crate::endpoint_url::UrlParts,
) -> Result<ConnectorPlan, ConnectorPlanError> {
    match scheme_named(url.scheme) {
        None => Err(ConnectorPlanError::InvalidProtocol),
        Some(TunnelScheme::Ip(scheme)) => Ok(
            ConnectorPlan::Ip {
                scheme,
                stealth: ConnectorStealth {
                    protocol: stealth_protocol_of(scheme),
                    enabled: outer_session_enabled(ctx, stealth_protocol_of(scheme)),
                    prefer_with_legacy_fallback: scheme is Udp,
                },
                bind_device: ctx.flags.bind_device,
            },
        ),
        Some(TunnelScheme::Unix) => Ok(ConnectorPlan::Unix),
        Some(TunnelScheme::Http) | Some(TunnelScheme::Https) => Ok(ConnectorPlan::Http),
        Some(TunnelScheme::Ring) => Ok(ConnectorPlan::Ring),
        Some(TunnelScheme::Txt) | Some(TunnelScheme::Srv) => if url.host is Missing {
            Err(ConnectorPlanError::EmptyHost)
        } else {
            Ok(ConnectorPlan::Dns)
        },
    }
}

/// Decides what kind of connector a URL that has been parsed asks for.
pub fn plan_parsed_connector(ctx: &GlobalCtx, url: &EndpointUrl) -> (r: Result<
    ConnectorPlan,
    ConnectorPlanError,
>)
    requires
        ctx.wf(),
    ensures
        r == plan_of_url(ctx, url@),
{
    match scheme_by_name(url.scheme.as_str()) {
        None => Err(ConnectorPlanError::InvalidProtocol),
        Some(TunnelScheme::Ip(scheme)) => {
            let protocol = stealth_protocol_for(scheme);
            let enabled = is_outer_session_enabled(ctx, protocol);
            let prefer_with_legacy_fallback = match scheme {
                IpScheme::Udp => true,
                _ => false,
            };
            Ok(
                ConnectorPlan::Ip {
                    scheme,
                    stealth: ConnectorStealth { protocol, enabled, prefer_with_legacy_fallback },
                    bind_device: ctx.flags.bind_device,
                },
            )
        },
        Some(TunnelScheme::Unix) => Ok(ConnectorPlan::Unix),
        Some(TunnelScheme::Http) => Ok(ConnectorPlan::Http),
        Some(TunnelScheme::Https) => Ok(ConnectorPlan::Http),
        Some(TunnelScheme::Ring) => Ok(ConnectorPlan::Ring),
        Some(TunnelScheme::Txt) | Some(TunnelScheme::Srv) => match &url.host {
            UrlHost::Missing => Err(ConnectorPlanError::EmptyHost),
            _ => Ok(ConnectorPlan::Dns),
        },
    }
}

/// Decides what kind of connector a URL asks for.
pub fn plan_connector(ctx: &GlobalCtx, url: &str) -> (r: Result<ConnectorPlan, ConnectorPlanError>)
    requires
        ctx.wf(),
    ensures
        r == (match url_from_text(url@) {
            None => Err::<ConnectorPlan, ConnectorPlanError>(ConnectorPlanError::InvalidUrl),
            Some(parts) => plan_of_url(ctx, parts),
        }),
{
    match EndpointUrl::parse(url) {
        Err(_) => Err(ConnectorPlanError::InvalidUrl),
        Ok(url) => plan_parsed_connector(ctx, &url),
    }
}

/// A connector that is ready to connect, and what it still holds of its preparation.
#[derive(Debug)]
pub struct PreparedUnderlayConnector {
    pub preflight: Option<UnderlayPreflightGuard>,
    pub resolved_addr: Option<SocketAddress>,
    /// The generation of the snapshot that the bind addresses come from.
    pub snapshot_generation: Option<u64>,
}

impl PreparedUnderlayConnector {
    /// Gives up the hold on the breaker because the attempt is being made. What has been committed
    /// is not called off any more.
    pub fn commit_preflight(&mut self) -> (r: Option<UnderlayPreflightGuard>)
        requires
            old(self).preflight is Some ==> !old(self).preflight->0.committed,
        ensures
            final(self).preflight is None,
            final(self).resolved_addr == old(self).resolved_addr,
            final(self).snapshot_generation == old(self).snapshot_generation,
            match old(self).preflight {
                None => r is None,
                Some(guard) => r == Some(UnderlayPreflightGuard { committed: true, ..guard }),
            },
    {
        let mut preflight: Option<UnderlayPreflightGuard> = None;
        std::mem::swap(&mut preflight, &mut self.preflight);
        match preflight {
            None => None,
            Some(guard) => {
                let mut guard = guard;
                guard.commit();
                Some(guard)
            },
        }
    }

    /// The address that was resolved and validated. A transport that is built by other means uses
    /// this address and does not resolve the URL anew.
    pub fn resolved_addr(&self) -> (r: Option<SocketAddress>)
        ensures
            r == self.resolved_addr,
    {
        self.resolved_addr
    }

    /// Takes in how connecting failed. Only where a stale interface was bound does the snapshot
    /// that named it end.
    pub fn after_failure(&self, error: &TunnelError, snapshots: &mut UnderlaySnapshotCache)
        ensures
            ({
                let stale = *error matches TunnelError::LocalBind { stale_interface }
                    && stale_interface;
                &&& !(stale && self.snapshot_generation is Some) ==> *final(snapshots) == *old(
                    snapshots,
                )
                &&& stale && self.snapshot_generation is Some ==> *final(snapshots) == (
                UnderlaySnapshotCache {
                    invalidated_through_generation: if self.snapshot_generation->0 > old(
                        snapshots,
                    ).invalidated_through_generation {
                        self.snapshot_generation->0
                    } else {
                        old(snapshots).invalidated_through_generation
                    },
                    ..*old(snapshots)
                })
            }),
    {
        if stale_interface_tunnel_error(error) {
            if let Some(generation) = self.snapshot_generation {
                snapshots.invalidate_generation(generation);
            }
        }
    }
}

/// A public server is left alone unless it may be tried; a side that has no direct connections is tried
/// only where the other side needs them; every other peer may be tried. Nothing being known of the
/// peer, only this node's own wish counts.
pub proof fn law_either_side_can_refuse(
    feature: Option<PeerFeatureFlag>,
    allow_public_server: bool,
    local_disable_p2p: bool,
    local_need_p2p: bool,
)
    ensures
        ({
            let allowed = p2p_allowed(
                feature,
                allow_public_server,
                local_disable_p2p,
                local_need_p2p,
            );
            &&& feature is None ==> allowed == !local_disable_p2p
            &&& feature matches Some(flag) ==> {
                let server = flag.is_public_server && !allow_public_server;
                let refused_here = local_disable_p2p && !flag.need_p2p;
                let refused_there = flag.disable_p2p && !local_need_p2p;
                allowed == !(server || refused_here || refused_there)
            }
        }),
{
}

/// What is wanted is allowed; and what is allowed is wanted at once unless this node is lazy, and
/// otherwise only because the peer needs it, there is traffic, or a better transport is sought to a
/// connected peer.
pub proof fn law_wanted_connections_have_a_reason(
    feature: Option<PeerFeatureFlag>,
    allow_public_server: bool,
    flags: Flags,
    has_recent_traffic: bool,
    priority_enabled: bool,
    has_peer: bool,
)
    ensures
        ({
            let allowed = p2p_allowed(
                feature,
                allow_public_server,
                flags.disable_p2p,
                flags.need_p2p,
            );
            let wanted = p2p_wanted(
                feature,
                allow_public_server,
                flags,
                has_recent_traffic,
                priority_enabled,
                has_peer,
            );
            let needed = feature is Some && feature->0.need_p2p;
            &&& wanted ==> allowed
            &&& allowed && !flags.lazy_p2p ==> wanted
            &&& allowed && needed ==> wanted
            &&& allowed && has_recent_traffic ==> wanted
            &&& allowed && priority_enabled && has_peer ==> wanted
            &&& flags.lazy_p2p && !needed && !has_recent_traffic && !priority_enabled ==> !wanted
            &&& flags.lazy_p2p && !needed && !has_recent_traffic && !has_peer ==> !wanted
        }),
{
}

/// A peer that is not connected is always reached for; a connected one only where transports are ranked
/// and the candidate is a better transport that is not in use yet.
pub proof fn law_connected_peers_are_only_bettered(
    has_peer: bool,
    priority_enabled: bool,
    has_same_transport: bool,
    candidate_improves: bool,
)
    ensures
        ({
            let tried = ranked_hole_punch(
                has_peer,
                priority_enabled,
                has_same_transport,
                candidate_improves,
            );
            &&& !has_peer ==> tried
            &&& has_peer && (!priority_enabled || has_same_transport || !candidate_improves)
                ==> !tried
            &&& priority_enabled && !has_same_transport && candidate_improves ==> tried
        }),
{
}

/// Stealth is given up only where this node would use it and the peer is known not to have it: a peer
/// of which nothing is known is not treated as one without it.
pub proof fn law_stealth_is_given_up_only_for_peers_without_it(
    local_stealth_mode: bool,
    feature: Option<PeerFeatureFlag>,
)
    ensures
        ({
            let gives_up = downgrades_udp_stealth(local_stealth_mode, feature);
            &&& !local_stealth_mode ==> !gives_up
            &&& feature is None ==> !gives_up
            &&& feature matches Some(flag) ==> gives_up == (local_stealth_mode
                && !flag.stealth_supported)
        }),
{
}

/// The name under which a transport's stealth is configured is the scheme of its URLs; the brutal kind of
/// QUIC has that of QUIC.
pub proof fn law_stealth_goes_by_the_scheme(scheme: IpScheme)
    ensures
        !(scheme is QuicBrutal) ==> scheme_named(stealth_protocol_of(scheme).name()) == Some(
            TunnelScheme::Ip(scheme),
        ),
        scheme is QuicBrutal ==> stealth_protocol_of(scheme) == stealth_protocol_of(IpScheme::Quic),
{
    crate::endpoint_url::law_words_mean_their_schemes(stealth_protocol_of(scheme).name());
}

/// A URL of a transport is connected to by that transport; it hides itself where stealth is in effect for
/// the transport, and only UDP falls back by itself. DNS records need a name. A URL whose scheme is not
/// known is refused.
pub proof fn law_urls_are_connected_to_by_their_scheme(
    ctx: &GlobalCtx,
    url: crate::endpoint_url::UrlParts,
)
    ensures
        ({
            let plan = plan_of_url(ctx, url);
            &&& scheme_named(url.scheme) is None <==> plan == Err::<ConnectorPlan, _>(
                ConnectorPlanError::InvalidProtocol,
            )
            &&& scheme_named(url.scheme) matches Some(TunnelScheme::Ip(scheme)) ==> {
                &&& plan is Ok && plan->Ok_0 is Ip
                &&& plan->Ok_0->scheme == scheme
                &&& plan->Ok_0->stealth.protocol == stealth_protocol_of(scheme)
                &&& plan->Ok_0->stealth.enabled == outer_session_enabled(
                    ctx,
                    stealth_protocol_of(scheme),
                )
                &&& plan->Ok_0->stealth.prefer_with_legacy_fallback <==> scheme == IpScheme::Udp
                &&& plan->Ok_0->bind_device == ctx.flags.bind_device
            }
            &&& url.scheme == "unix"@ <==> plan == Ok::<_, ConnectorPlanError>(ConnectorPlan::Unix)
            &&& url.scheme == "ring"@ <==> plan == Ok::<_, ConnectorPlanError>(ConnectorPlan::Ring)
            &&& url.scheme == "http"@ || url.scheme == "https"@ <==> plan == Ok::<
                _,
                ConnectorPlanError,
            >(ConnectorPlan::Http)
            &&& (url.scheme == "txt"@ || url.scheme == "srv"@) && !(url.host is Missing) <==> plan
                == Ok::<_, ConnectorPlanError>(ConnectorPlan::Dns)
            &&& (url.scheme == "txt"@ || url.scheme == "srv"@) && url.host is Missing <==> plan
                == Err::<ConnectorPlan, _>(ConnectorPlanError::EmptyHost)
        }),
{
    crate::endpoint_url::law_words_mean_their_schemes(url.scheme);
}

/// A connection hides what it is just where the flags make its transport stealthy, connections are
/// secured, and there is a secret.
pub proof fn law_hiding_needs_a_secret(ctx: &GlobalCtx, protocol: StealthProtocol)
    ensures
        outer_session_enabled(ctx, protocol) ==> enabled_by(ctx.flags, protocol) && ctx.secure(),
        ctx.secret() is None ==> !outer_session_enabled(ctx, protocol),
{
}

/// An address is of a version, or any address is where both are wanted.
pub proof fn law_versions_of_addresses(addr: SocketAddress)
    ensures
        matches_version(addr, IpVersion::Both),
        matches_version(addr, IpVersion::V4) <==> addr is V4,
        matches_version(addr, IpVersion::V6) <==> addr is V6,
        matches_version(addr, IpVersion::V4) != matches_version(addr, IpVersion::V6),
{
}

/// A wish for one version stays. A wish for both becomes a wish for one just where all addresses are of
/// that one; with addresses of both it stays.
pub proof fn law_effective_version(addrs: Seq<SocketAddress>, requested: IpVersion, i: int, j: int)
    requires
        0 <= i < addrs.len(),
        0 <= j < addrs.len(),
    ensures
        requested != IpVersion::Both ==> effective_version(addrs, requested) == requested,
        requested == IpVersion::Both && addrs[i] is V4 && addrs[j] is V6 ==> effective_version(
            addrs,
            requested,
        ) == IpVersion::Both,
        requested == IpVersion::Both && effective_version(addrs, requested) == IpVersion::V4
            ==> addrs[i] is V4,
        requested == IpVersion::Both && effective_version(addrs, requested) == IpVersion::V6
            ==> addrs[i] is V6,
        (forall|k: int| 0 <= k < addrs.len() ==> (#[trigger] addrs[k]) is V4) && requested
            == IpVersion::Both ==> effective_version(addrs, requested) == IpVersion::V4,
        (forall|k: int| 0 <= k < addrs.len() ==> (#[trigger] addrs[k]) is V6) && requested
            == IpVersion::Both ==> effective_version(addrs, requested) == IpVersion::V6,
{
}

/// Where one version is wanted, the first address decides: it is connected to, or its attempt's error is
/// the result, and no other address is tried.
pub proof fn law_one_version_tries_one_address(
    run: AddressRun,
    outcomes: Seq<Result<(), AttemptError>>,
)
    requires
        run.addrs@.len() > 0,
        run.requested != IpVersion::Both,
    ensures
        outcomes[0] is Ok ==> resolution(run, 0, outcomes) == (ResolveStep::Chosen {
            addr: run.addrs@[0],
            ip_version: run.effective,
        }),
        outcomes[0] matches Err(error) ==> resolution(run, 0, outcomes) == ResolveStep::Failed(
            ResolveError::Attempt(error),
        ),
{
}

/// While addresses are left, the next one is tried; after the last one the last error is the result, or
/// that there is no address where none was tried.
pub proof fn law_addresses_are_tried_in_turn(run: AddressRun, error: AttemptError)
    requires
        run.wf(),
        run.next < usize::MAX,
    ensures
        run.next < run.addrs@.len() ==> run.pending_step() == ResolveStep::Attempt(
            run.addrs@[run.next as int],
        ),
        run.next == run.addrs@.len() && run.rejected is None ==> run.pending_step()
            == ResolveStep::Failed(ResolveError::NoDnsRecordFound(run.requested)),
        run.next == run.addrs@.len() && run.rejected is Some ==> run.pending_step()
            == ResolveStep::Failed(ResolveError::AllRefused(run.rejected->0)),
        run.after_rejection(error).next == run.next + 1,
        run.after_rejection(error).addrs == run.addrs,
        run.next + 1 == run.addrs@.len() ==> run.after_rejection(error).pending_step()
            == ResolveStep::Failed(ResolveError::AllRefused(error)),
{
}

/// The sources of a family are its addresses in the snapshot, and the guard leaves those that it does not
/// hold and that the overlay does not manage.
pub proof fn law_sources_of_a_family(
    ctx: &GlobalCtx,
    snapshot: &UnderlayInterfaceSnapshot,
    is_ipv4: bool,
    ip: IpAddress,
)
    ensures
        family_sources(snapshot, is_ipv4).contains(ip) ==> (ip is V4 <==> is_ipv4),
        ip is V4 ==> (family_sources(snapshot, true).contains(ip)
            <==> snapshot.ip_list.interface_ipv4s@.contains(ip->V4_0)),
        ip is V6 ==> (family_sources(snapshot, false).contains(ip)
            <==> snapshot.ip_list.interface_ipv6s@.contains(ip->V6_0)),
        unguarded_sources(ctx, snapshot, is_ipv4).contains(ip) <==> family_sources(
            snapshot,
            is_ipv4,
        ).contains(ip) && !blocks(ctx, ip) && !(ip is V6 && ctx.managed_ipv6(ip->V6_0)),
{
    let v4 = snapshot.ip_list.interface_ipv4s@;
    let v6 = snapshot.ip_list.interface_ipv6s@;
    let all4 = family_sources(snapshot, true);
    let all6 = family_sources(snapshot, false);
    if all4.contains(ip) {
        let k = choose|k: int| 0 <= k < all4.len() && all4[k] == ip;
        assert(v4[k] == ip->V4_0 && all4[k] is V4);
    }
    if all6.contains(ip) {
        let k = choose|k: int| 0 <= k < all6.len() && all6[k] == ip;
        assert(v6[k] == ip->V6_0 && all6[k] is V6);
    }
    if ip is V4 && v4.contains(ip->V4_0) {
        let k = choose|k: int| 0 <= k < v4.len() && v4[k] == ip->V4_0;
        assert(all4[k] == ip);
    }
    if ip is V6 && v6.contains(ip->V6_0) {
        let k = choose|k: int| 0 <= k < v6.len() && v6[k] == ip->V6_0;
        assert(all6[k] == ip);
    }
    crate::stealth_registry::lemma_filter_holds(
        family_sources(snapshot, is_ipv4),
        |ip: IpAddress| !blocks(ctx, ip) && !always_guarded(ctx, ip),
        ip,
    );
}

/// Sources are bound to only where the interface of every one is known and no fallback of the family is
/// without an interface; then each is bound to its own interface.
pub proof fn law_sources_are_bound_to_their_interfaces(
    r: Result<Seq<ResolvedBindAddr>, Refusal>,
    snapshot: &UnderlayInterfaceSnapshot,
    is_ipv4: bool,
    sources: Seq<IpAddress>,
    i: int,
)
    requires
        binds_result(r, snapshot, is_ipv4, sources),
        0 <= i < sources.len(),
    ensures
        r is Ok ==> {
            &&& !snapshot.lacks_interface(is_ipv4)
            &&& r->Ok_0.len() == sources.len()
            &&& snapshot.owner(sources[i]) is Some
            &&& r->Ok_0[i].addr.spec_ip() == sources[i] && r->Ok_0[i].addr.spec_port() == 0
            &&& r->Ok_0[i].interface_name is Some
            &&& r->Ok_0[i].interface_name->0@ == snapshot.owner(sources[i])->0.name@
        },
        snapshot.lacks_interface(is_ipv4) ==> r is Err,
        snapshot.owner(sources[i]) is None ==> r is Err,
{
    if r is Ok {
        assert(r->Ok_0[i].stands_for(snapshot, sources[i]));
    }
}

/// Where interfaces can be inspected, sources are bound only by a snapshot of them; elsewhere none is used.
pub proof fn law_binding_needs_a_snapshot<'a>(
    inspects: bool,
    snapshot: Option<&'a UnderlayInterfaceSnapshot>,
    r: Result<Option<&'a UnderlayInterfaceSnapshot>, Refusal>,
)
    requires
        call_ensures(resolved_bind_snapshot_for_platform, (inspects, snapshot), r),
    ensures
        r is Err <==> inspects && snapshot is None,
        r is Err ==> r->Err_0 is BindDeviceWithoutSnapshot,
        r is Ok && inspects ==> r->Ok_0 == snapshot,
        r is Ok && !inspects ==> r->Ok_0 is None,
{
}

/// The reservation of an attempt is handed out once, as one that is kept.
pub proof fn law_reservations_are_handed_out_once(
    connector: &mut PreparedUnderlayConnector,
    r: Option<UnderlayPreflightGuard>,
)
    requires
        call_ensures(PreparedUnderlayConnector::commit_preflight, (connector,), r),
    ensures
        final(connector).preflight is None,
        r is Some <==> old(connector).preflight is Some,
        r is Some ==> r->0.committed && r->0.lease_id == old(connector).preflight->0.lease_id
            && r->0.acquired_half_open_keys == old(connector).preflight->0.acquired_half_open_keys,
        final(connector).resolved_addr == old(connector).resolved_addr,
{
}

/// A snapshot is given up only for an interface that is gone, and never taken back by it: afterwards the
/// snapshot that the attempt went by counts as outdated, and those that were outdated still are.
pub proof fn law_lost_interfaces_outdate_the_snapshot(
    connector: &PreparedUnderlayConnector,
    error: &TunnelError,
    snapshots: &mut UnderlaySnapshotCache,
)
    requires
        call_ensures(PreparedUnderlayConnector::after_failure, (connector, error, snapshots), ()),
    ensures
        final(snapshots).invalidated_through_generation >= old(snapshots).invalidated_through_generation,
        *error == (TunnelError::LocalBind { stale_interface: true }) && connector.snapshot_generation is Some
            ==> final(snapshots).invalidated_through_generation >= connector.snapshot_generation->0,
        *error != (TunnelError::LocalBind { stale_interface: true }) || connector.snapshot_generation is None
            ==> *final(snapshots) == *old(snapshots),
        final(snapshots).invalidated_through_generation != old(snapshots).invalidated_through_generation
            ==> Some(final(snapshots).invalidated_through_generation) == connector.snapshot_generation,
        final(snapshots).epoch == old(snapshots).epoch,
        final(snapshots).state == old(snapshots).state,
{
}

/// An address that could be connected to is chosen. After one that could not, the next is tried where both
/// versions were asked for, and otherwise the attempt fails as it did.
pub proof fn law_first_good_address_is_chosen(
    run: &mut AddressRun,
    outcome: Result<(), AttemptError>,
    r: ResolveStep,
)
    requires
        old(run).wf(),
        old(run).next < old(run).addrs@.len(),
        call_ensures(AddressRun::record, (run, outcome), r),
    ensures
        r is Chosen <==> outcome is Ok,
        r is Chosen ==> r->addr == old(run).addrs@[old(run).next as int] && r->ip_version
            == old(run).effective,
        outcome is Err && old(run).requested != IpVersion::Both ==> r == ResolveStep::Failed(
            ResolveError::Attempt(outcome->Err_0),
        ),
        r is Attempt <==> outcome is Err && old(run).requested == IpVersion::Both && old(run).next + 1
            < old(run).addrs@.len(),
        r is Attempt ==> final(run).next == old(run).next + 1,
        final(run).addrs == old(run).addrs,
{
    assert(old(run).next < usize::MAX) by {
        assert(old(run).addrs@.len() == old(run).addrs.len());
    }
}

/// Just the resolved addresses of the wanted version are tried.
pub proof fn law_addresses_of_the_version_are_tried(
    resolved: &Vec<SocketAddress>,
    requested: IpVersion,
    r: AddressRun,
    addr: SocketAddress,
)
    requires
        call_ensures(AddressRun::start, (resolved, requested), r),
    ensures
        r.addrs@.contains(addr) <==> resolved@.contains(addr) && (requested == IpVersion::Both || (requested
            == IpVersion::V4 && addr is V4) || (requested == IpVersion::V6 && addr is V6)),
        r.next == 0,
        r.requested == requested,
{
    broadcast use vstd::seq_lib::group_to_multiset_ensures;

    let fits = |a: SocketAddress| matches_version(a, requested);
    let kept = resolved@.filter(fits);
    crate::stealth_registry::lemma_filter_holds(resolved@, fits, addr);
    assert(r.addrs@.to_multiset().count(addr) == kept.to_multiset().count(addr));
}

} // verus!
