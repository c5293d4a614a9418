//! Connects to peers directly, at a public or at a local address.
use vstd::prelude::*;

use crate::addr::{IpAddress, IpScheme, PeerId, SocketAddress};
use crate::blacklist::{PeerBlacklist, UrlBlacklist};
use crate::config::Flags;
use crate::connector::{
    is_outer_session_enabled, is_p2p_wanted, known, outer_session_enabled, p2p_wanted,
};
use crate::direct_candidates::{ipv6s_of, DirectCandidate};
use crate::direct_plan::{
    direct_order, is_target_reached, modes_of, reached, rule_address, schedule_direct_connect,
    DirectAttemptOutcome, DirectPeerFacts, DirectSchedule, DirectStealthMode,
};
use crate::endpoint_url::{mapped_listener_port, AgreedPorts, EndpointUrl, UrlHost, UrlParts};
use crate::error::Error;
use crate::expiring_table::{key_view, EntryKey, EntryValue, ExpiringTable, KeyView};
use crate::global_ctx::GlobalCtx;
use crate::hole_punch::{BackOff, RouteFacts};
use crate::ip_range::{ip_from_text, parse_ip_address};
use crate::network::IpList;
use crate::retry_backoff::{is_half_jittered, next_position};
use crate::stealth_registry::{effective, StealthProtocol, StealthProtocolSet};
use crate::transport_priority::{PreferenceKey, TransportPathClass, TransportPriority};
use crate::underlay_breaker::{
    UnderlayBreakerKey, UnderlayBreakerScope, UnderlayBreakerStrikeKind,
};
use crate::underlay_guard::{blocks, should_block_underlay_ip};

verus! {

pub const DIRECT_CONNECTOR_SERVICE_ID: u32 = 1;

/// How long a URL that leads back to this node is left alone, in seconds.
pub const DIRECT_CONNECTOR_BLACKLIST_TIMEOUT_SEC: u64 = 300;

/// How long a URL that could not be connected to is left alone, in seconds.
pub const DIRECT_CONNECTOR_FAILURE_COOLDOWN_SEC: u64 = 30;

pub const MAX_IPV6_HOLE_PUNCH_CONNECTOR_ADDRS: usize = 16;

/// Why an attempt failed.
#[derive(Debug)]
pub enum DirectConnectAttemptError {
    /// The guard stands in the way.
    Guarded(Error),
    Failed(Error),
}

impl DirectConnectAttemptError {
    pub open spec fn error(self) -> Error {
        match self {
            DirectConnectAttemptError::Guarded(error) => error,
            DirectConnectAttemptError::Failed(error) => error,
        }
    }

    pub open spec fn self_loop(self) -> bool {
        self is Failed && self.error().self_loop()
    }

    pub fn into_error(self) -> (r: Error)
        ensures
            r == self.error(),
    {
        match self {
            DirectConnectAttemptError::Guarded(error) => error,
            DirectConnectAttemptError::Failed(error) => error,
        }
    }

    /// Tells whether the attempt led back to this node. A guarded attempt led nowhere.
    pub fn is_self_loop_signal(&self) -> (r: bool)
        ensures
            r == self.self_loop(),
    {
        match self {
            DirectConnectAttemptError::Guarded(_) => false,
            DirectConnectAttemptError::Failed(error) => error.is_self_loop_signal(),
        }
    }
}

/// What follows an attempt to punch a hole to a public IPv4 address.
#[derive(Debug)]
pub enum PublicIpv4Result<T> {
    Settled(Result<T, DirectConnectAttemptError>),
    /// Connect without punching.
    Fallback,
}

pub open spec fn public_ipv4_result<T>(attempt: Result<T, DirectConnectAttemptError>) -> PublicIpv4Result<
    T,
> {
    match attempt {
        Err(DirectConnectAttemptError::Failed(_)) => PublicIpv4Result::Fallback,
        _ => PublicIpv4Result::Settled(attempt),
    }
}

/// Decides what follows an attempt to punch a hole to a public IPv4 address.
pub fn resolve_public_ipv4_connect_result<T>(attempt: Result<T, DirectConnectAttemptError>) -> (r:
    PublicIpv4Result<T>)
    ensures
        r == public_ipv4_result(attempt),
{
    match attempt {
        Ok(value) => PublicIpv4Result::Settled(Ok(value)),
        Err(DirectConnectAttemptError::Guarded(error)) => PublicIpv4Result::Settled(
            Err(DirectConnectAttemptError::Guarded(error)),
        ),
        Err(DirectConnectAttemptError::Failed(_)) => PublicIpv4Result::Fallback,
    }
}

/// What the guard refuses is not tried by other means, and is not taken for a loop.
pub proof fn law_guarded_attempt_fails_closed<T>(error: Error)
    ensures
        public_ipv4_result::<T>(Err(DirectConnectAttemptError::Guarded(error)))
            == PublicIpv4Result::<T>::Settled(Err(DirectConnectAttemptError::Guarded(error))),
        !DirectConnectAttemptError::Guarded(error).self_loop(),
{
}

/// The address is one that all of the internet can reach.
pub open spec fn public_ipv4(ip: u32) -> bool {
    let addr = IpAddress::V4(ip);
    !addr.private_use() && !addr.loopback() && !addr.link_local() && !addr.unspecified() && ip
        != 0xffff_ffff
}

pub fn is_public_ipv4(ip: u32) -> (r: bool)
    ensures
        r == public_ipv4(ip),
{
    let addr = IpAddress::V4(ip);
    !addr.is_private_use() && !addr.is_loopback() && !addr.is_link_local() && ip != 0xffff_ffff
        && !addr.is_unspecified()
}

/// By which means a URL is connected to.
#[derive(Clone, Copy, Debug, PartialEq, Eq, Structural)]
pub enum DirectPath {
    /// Punch a hole to a public IPv6 address.
    PublicIpv6,
    /// Punch a hole to a public IPv4 address; failing that, connect plainly.
    PublicIpv4,
    Plain,
}

pub open spec fn path_of(url: UrlParts) -> DirectPath {
    if url.ip_scheme() != Some(IpScheme::Udp) {
        DirectPath::Plain
    } else if url.host is Ipv6 {
        DirectPath::PublicIpv6
    } else if url.host is Ipv4 && public_ipv4(url.host->Ipv4_0) {
        DirectPath::PublicIpv4
    } else {
        DirectPath::Plain
    }
}

/// Decides by which means a URL is connected to.
pub fn direct_path(url: &EndpointUrl) -> (r: DirectPath)
    ensures
        r == path_of(url@),
{
    match url.ip_scheme() {
        Some(IpScheme::Udp) => {},
        _ => {
            return DirectPath::Plain;
        },
    }
    match &url.host {
        UrlHost::Ipv6(_) => DirectPath::PublicIpv6,
        UrlHost::Ipv4(ip) => if is_public_ipv4(*ip) {
            DirectPath::PublicIpv4
        } else {
            DirectPath::Plain
        },
        _ => DirectPath::Plain,
    }
}

/// A request to a peer to send packets that punch a hole.
#[derive(Debug)]
pub struct HolePunchPacketRequest {
    pub connector_addr: Option<SocketAddress>,
    pub listener_port: u32,
    pub preferred_src_ipv6: Option<u128>,
    pub connector_addrs: Vec<SocketAddress>,
}

/// Why there is no such request.
#[derive(Clone, Copy, Debug, PartialEq, Eq, Structural)]
pub enum HolePunchPacketError {
    /// Only UDP listeners can send such packets.
    NotUdp,
    NoPort,
}

/// Builds a request to send packets to `connector_addrs` from the listener at a URL.
pub fn build_hole_punch_packet_request(
    connector_addrs: Vec<SocketAddress>,
    preferred_src_ipv6: Option<u128>,
    remote_url: &EndpointUrl,
    agreed: &AgreedPorts,
) -> (r: Result<HolePunchPacketRequest, HolePunchPacketError>)
    ensures
        remote_url@.ip_scheme() != Some(IpScheme::Udp) ==> r is Err && r->Err_0
            == HolePunchPacketError::NotUdp,
        remote_url@.ip_scheme() == Some(IpScheme::Udp) ==> {
            &&& r is Ok
            &&& remote_url@.effective_port(*agreed) == Some(r->Ok_0.listener_port as u16)
            &&& r->Ok_0.listener_port <= u16::MAX
            &&& r->Ok_0.preferred_src_ipv6 == preferred_src_ipv6
            &&& r->Ok_0.connector_addrs == connector_addrs
            &&& r->Ok_0.connector_addr == (if connector_addrs@.len() > 0 {
                Some(connector_addrs@[0])
            } else {
                None
            })
        },
{
    match remote_url.ip_scheme() {
        Some(IpScheme::Udp) => {},
        _ => {
            return Err(HolePunchPacketError::NotUdp);
        },
    }
    let port = match mapped_listener_port(remote_url, agreed) {
        None => {
            return Err(HolePunchPacketError::NoPort);
        },
        Some(port) => port,
    };
    let connector_addr = if connector_addrs.len() > 0 {
        Some(connector_addrs[0])
    } else {
        None
    };
    Ok(
        HolePunchPacketRequest {
            connector_addr,
            listener_port: port as u32,
            preferred_src_ipv6,
            connector_addrs,
        },
    )
}

/// The endpoints of some addresses.
pub open spec fn endpoints_at(ips: Seq<u128>, port: u16) -> Seq<SocketAddress> {
    ips.map_values(|ip: u128| SocketAddress::of(IpAddress::V6(ip), port))
}

/// Gives the addresses that a peer is asked to send packets to, and the address that it should send
/// them from. There is nothing to ask where this node has no address to offer.
pub fn ipv6_hole_punch_targets(ips: &Vec<u128>, local_port: u16, remote_url: &EndpointUrl) -> (r:
    Option<(Vec<SocketAddress>, Option<u128>)>)
    ensures
        r is None <==> ips@.len() == 0,
        r is Some ==> (r->0).0@ == endpoints_at(ips@, local_port) && (r->0).1 == (
        match remote_url.host@ {
            crate::endpoint_url::HostParts::Ipv6(ip) => Some(ip),
            _ => None,
        }),
{
    if ips.is_empty() {
        return None;
    }
    let mut addrs: Vec<SocketAddress> = Vec::new();
    let mut i: usize = 0;
    while i < ips.len()
        invariant
            i <= ips@.len(),
            addrs@ == endpoints_at(ips@, local_port).take(i as int),
        decreases ips@.len() - i,
    {
        addrs.push(SocketAddress::new(IpAddress::V6(ips[i]), local_port));
        i += 1;
        assert(addrs@ =~= endpoints_at(ips@, local_port).take(i as int));
    }
    assert(addrs@ =~= endpoints_at(ips@, local_port));
    let preferred = match &remote_url.host {
        UrlHost::Ipv6(ip) => Some(*ip),
        _ => None,
    };
    Some((addrs, preferred))
}

/// The address can be offered to a peer. One that the overlay manages never can.
pub open spec fn usable_ipv6(ctx: &GlobalCtx, ip: u128, testing: bool) -> bool {
    let addr = IpAddress::V6(ip);
    !ctx.managed_ipv6(ip) && (testing || (!addr.loopback() && !addr.unspecified()
        && !addr.private_use() && !addr.link_local() && !addr.multicast()))
}

pub fn is_usable_public_ipv6_candidate_with_mode(ip: u128, ctx: &GlobalCtx, testing: bool) -> (r:
    bool)
    ensures
        r == usable_ipv6(ctx, ip, testing),
{
    let addr = IpAddress::V6(ip);
    !ctx.is_ip_easytier_managed_ipv6(ip) && (testing || (!addr.is_loopback()
        && !addr.is_unspecified() && !addr.is_private_use() && !addr.is_link_local()
        && !addr.is_multicast()))
}

/// The addresses, with one more if there is room for it, it can be offered and it is new.
pub open spec fn with_ipv6(
    ctx: &GlobalCtx,
    testing: bool,
    limit: int,
    before: Seq<u128>,
    ip: u128,
) -> Seq<u128> {
    if before.len() >= limit || !usable_ipv6(ctx, ip, testing) || blocks(ctx, IpAddress::V6(ip))
        || before.contains(ip) {
        before
    } else {
        before.push(ip)
    }
}

pub open spec fn with_ipv6s(
    ctx: &GlobalCtx,
    testing: bool,
    limit: int,
    before: Seq<u128>,
    ips: Seq<u128>,
) -> Seq<u128>
    decreases ips.len(),
{
    if ips.len() == 0 {
        before
    } else {
        with_ipv6(
            ctx,
            testing,
            limit,
            with_ipv6s(ctx, testing, limit, before, ips.drop_last()),
            ips.last(),
        )
    }
}

pub fn push_ipv6_hole_punch_candidate(
    candidates: &mut Vec<u128>,
    ip: u128,
    ctx: &GlobalCtx,
    limit: usize,
    testing: bool,
)
    ensures
        final(candidates)@ == with_ipv6(ctx, testing, limit as int, old(candidates)@, ip),
{
    if candidates.len() >= limit || !is_usable_public_ipv6_candidate_with_mode(ip, ctx, testing)
        || should_block_underlay_ip(ctx, IpAddress::V6(ip)) {
        return;
    }
    let mut i: usize = 0;
    while i < candidates.len()
        invariant
            i <= candidates@.len(),
            forall|j: int| 0 <= j < i ==> candidates@[j] != ip,
            candidates@ == old(candidates)@,
        decreases candidates@.len() - i,
    {
        if candidates[i] == ip {
            return;
        }
        i += 1;
    }
    candidates.push(ip);
}

/// The IPv6 addresses among some texts.
pub open spec fn ipv6s_in(texts: Seq<String>) -> Seq<u128>
    decreases texts.len(),
{
    if texts.len() == 0 {
        Seq::empty()
    } else {
        let before = ipv6s_in(texts.drop_last());
        match ip_from_text(texts.last()@) {
            Some(IpAddress::V6(ip)) => before.push(ip),
            _ => before,
        }
    }
}

/// The addresses that are offered to a peer: those that others see, then those of the interfaces,
/// then the public one.
pub open spec fn ipv6_candidates(
    ctx: &GlobalCtx,
    testing: bool,
    stun_ips: Seq<u128>,
    list: IpList,
) -> Seq<u128> {
    let limit = MAX_IPV6_HOLE_PUNCH_CONNECTOR_ADDRS as int;
    with_ipv6s(
        ctx,
        testing,
        limit,
        with_ipv6s(ctx, testing, limit, Seq::empty(), stun_ips),
        ipv6s_of(list),
    )
}

/// Lists the addresses that are offered to a peer, given those that others see.
pub fn collect_ipv6_candidates_from(
    ctx: &GlobalCtx,
    testing: bool,
    stun_ips: &Vec<u128>,
    list: &IpList,
) -> (r: Vec<u128>)
    ensures
        r@ == ipv6_candidates(ctx, testing, stun_ips@, *list),
{
    let limit = MAX_IPV6_HOLE_PUNCH_CONNECTOR_ADDRS;
    let mut out: Vec<u128> = Vec::new();
    let mut i: usize = 0;
    assert(stun_ips@.take(0) =~= Seq::<u128>::empty());
    assert(out@ =~= Seq::<u128>::empty());
    while i < stun_ips.len()
        invariant
            i <= stun_ips@.len(),
            out@ == with_ipv6s(
                ctx,
                testing,
                limit as int,
                Seq::empty(),
                stun_ips@.take(i as int),
            ),
        decreases stun_ips@.len() - i,
    {
        push_ipv6_hole_punch_candidate(&mut out, stun_ips[i], ctx, limit, testing);
        assert(stun_ips@.take(i as int + 1).drop_last() =~= stun_ips@.take(i as int));
        i += 1;
    }
    assert(stun_ips@.take(stun_ips@.len() as int) =~= stun_ips@);
    let ghost seen = out@;
    let ghost own = ipv6s_of(*list);
    let mut i: usize = 0;
    assert(own.take(0) =~= Seq::<u128>::empty());
    while i < list.interface_ipv6s.len()
        invariant
            i <= list.interface_ipv6s@.len(),
            own == ipv6s_of(*list),
            out@ == with_ipv6s(ctx, testing, limit as int, seen, own.take(i as int)),
        decreases list.interface_ipv6s@.len() - i,
    {
        push_ipv6_hole_punch_candidate(&mut out, list.interface_ipv6s[i], ctx, limit, testing);
        assert(own.take(i as int + 1).drop_last() =~= own.take(i as int));
        i += 1;
    }
    if let Some(ip) = list.public_ipv6 {
        assert(own.drop_last() =~= own.take(i as int));
        push_ipv6_hole_punch_candidate(&mut out, ip, ctx, limit, testing);
    } else {
        assert(own.take(i as int) =~= own);
    }
    out
}

/// Lists the addresses that are offered to a peer, given the texts of those that others see.
pub fn collect_ipv6_hole_punch_candidates(
    ctx: &GlobalCtx,
    testing: bool,
    stun_texts: &Vec<String>,
    list: &IpList,
) -> (r: Vec<u128>)
    ensures
        r@ == ipv6_candidates(ctx, testing, ipv6s_in(stun_texts@), *list),
{
    let mut stun_ips: Vec<u128> = Vec::new();
    let mut i: usize = 0;
    assert(stun_texts@.take(0) =~= Seq::<String>::empty());
    assert(stun_ips@ =~= Seq::<u128>::empty());
    while i < stun_texts.len()
        invariant
            i <= stun_texts@.len(),
            stun_ips@ == ipv6s_in(stun_texts@.take(i as int)),
        decreases stun_texts@.len() - i,
    {
        assert(stun_texts@.take(i as int + 1).drop_last() =~= stun_texts@.take(i as int));
        match parse_ip_address(stun_texts[i].as_str()) {
            Some(IpAddress::V6(ip)) => {
                stun_ips.push(ip);
            },
            _ => {},
        }
        i += 1;
    }
    assert(stun_texts@.take(stun_texts@.len() as int) =~= stun_texts@);
    collect_ipv6_candidates_from(ctx, testing, &stun_ips, list)
}

/// The addresses are few, different from one another, and all can be offered.
pub open spec fn offerable(ctx: &GlobalCtx, testing: bool, limit: int, ips: Seq<u128>) -> bool {
    &&& ips.len() <= limit
    &&& ips.no_duplicates()
    &&& forall|i: int|
        0 <= i < ips.len() ==> usable_ipv6(ctx, #[trigger] ips[i], testing) && !blocks(
            ctx,
            IpAddress::V6(ips[i]),
        )
}

proof fn lemma_stays_offerable(
    ctx: &GlobalCtx,
    testing: bool,
    limit: int,
    before: Seq<u128>,
    ips: Seq<u128>,
)
    requires
        offerable(ctx, testing, limit, before),
    ensures
        offerable(ctx, testing, limit, with_ipv6s(ctx, testing, limit, before, ips)),
    decreases ips.len(),
{
    if ips.len() > 0 {
        lemma_stays_offerable(ctx, testing, limit, before, ips.drop_last());
        let so_far = with_ipv6s(ctx, testing, limit, before, ips.drop_last());
        let after = with_ipv6(ctx, testing, limit, so_far, ips.last());
        assert forall|i: int| 0 <= i < after.len() implies usable_ipv6(
            ctx,
            #[trigger] after[i],
            testing,
        ) && !blocks(ctx, IpAddress::V6(after[i])) by {
            if i < so_far.len() {
                assert(after[i] == so_far[i]);
            }
        }
    }
}

/// No more than a fixed number of addresses is offered to a peer, none twice, and none that is
/// guarded or managed by the overlay.
pub proof fn law_offered_addresses_are_few_and_open(
    ctx: &GlobalCtx,
    testing: bool,
    stun_ips: Seq<u128>,
    list: IpList,
)
    ensures
        offerable(
            ctx,
            testing,
            MAX_IPV6_HOLE_PUNCH_CONNECTOR_ADDRS as int,
            ipv6_candidates(ctx, testing, stun_ips, list),
        ),
{
    let limit = MAX_IPV6_HOLE_PUNCH_CONNECTOR_ADDRS as int;
    lemma_stays_offerable(ctx, testing, limit, Seq::empty(), stun_ips);
    lemma_stays_offerable(
        ctx,
        testing,
        limit,
        with_ipv6s(ctx, testing, limit, Seq::empty(), stun_ips),
        ipv6s_of(list),
    );
}

/// A UDP connection in the mode hides what it is.
pub open spec fn udp_stealth_in_mode(ctx: &GlobalCtx, mode: DirectStealthMode) -> bool {
    !(mode is Disabled) && outer_session_enabled(ctx, StealthProtocol::Udp)
}

/// Decides whether a UDP connection to a peer hides what it is.
pub fn build_udp_stealth_for_peer(ctx: &GlobalCtx, mode: DirectStealthMode) -> (r: bool)
    requires
        ctx.wf(),
    ensures
        r == udp_stealth_in_mode(ctx, mode),
{
    match mode {
        DirectStealthMode::Disabled => false,
        _ => is_outer_session_enabled(ctx, StealthProtocol::Udp),
    }
}

/// What to do with a connection to a peer.
#[derive(Clone, Copy, Debug, PartialEq, Eq, Structural)]
pub enum ConnectedPeerVerdict {
    Keep,
    /// Close it: the peer is another one than expected. The default connection to the expected peer
    /// may have to be given up, too.
    Close { invalidate_default_conn: bool },
}

/// Takes in which peer a connection led to. Another peer than expected counts against the expected
/// one.
pub fn judge_connected_peer(
    ctx: &mut GlobalCtx,
    dst_peer_id: PeerId,
    peer_id: PeerId,
    remote_url: &EndpointUrl,
    testing: bool,
    now_secs: u64,
) -> (r: ConnectedPeerVerdict)
    requires
        old(ctx).wf(),
    ensures
        final(ctx).wf(),
        *final(ctx) == (GlobalCtx { breaker: final(ctx).breaker, ..*old(ctx) }),
        peer_id == dst_peer_id || testing ==> r is Keep && *final(ctx) == *old(ctx),
        peer_id != dst_peer_id && !testing ==> r is Close,
        peer_id != dst_peer_id && !testing && (remote_url@.ip_scheme() is None || !old(ctx).flags.underlay_candidate_guard) ==> !r->invalidate_default_conn && *final(ctx) == *old(ctx),
        peer_id != dst_peer_id && !testing && remote_url@.ip_scheme() is Some && old(ctx).flags.underlay_candidate_guard ==> old(ctx).breaker.strikes(
            UnderlayBreakerKey::Peer {
                peer_id: dst_peer_id,
                scheme: remote_url@.ip_scheme()->0,
                scope: UnderlayBreakerScope::Direct,
            },
            UnderlayBreakerStrikeKind::Hard,
            now_secs,
            r->invalidate_default_conn,
            final(ctx).breaker,
        ),
{
    if peer_id == dst_peer_id || testing {
        return ConnectedPeerVerdict::Keep;
    }
    let blocked = match remote_url.ip_scheme() {
        Some(scheme) => ctx.record_underlay_breaker_strike_at(
            UnderlayBreakerKey::peer(dst_peer_id, scheme, UnderlayBreakerScope::Direct),
            UnderlayBreakerStrikeKind::Hard,
            now_secs,
        ),
        None => false,
    };
    ConnectedPeerVerdict::Close { invalidate_default_conn: blocked }
}

spec fn target_key(peer_id: PeerId) -> KeyView {
    (peer_id, 0, 0, 0, Seq::empty())
}

fn key_of_target(peer_id: PeerId) -> (r: EntryKey)
    ensures
        key_view(r) == target_key(peer_id),
{
    let text = String::new();
    assert(text@ =~= Seq::<char>::empty());
    (peer_id, 0, 0, 0, text)
}

spec fn preference_in(value: EntryValue) -> PreferenceKey {
    PreferenceKey {
        path: if value.0 == 0 {
            TransportPathClass::Lan
        } else {
            TransportPathClass::Wan
        },
        rank: value.1 as usize,
    }
}

/// What is aimed at for a peer, and for how many seconds that is remembered.
#[derive(Clone, Copy, Debug, PartialEq, Eq, Structural)]
pub struct PreferredTarget {
    pub target: PreferenceKey,
    pub secs: u64,
}

spec fn target_in(value: EntryValue) -> PreferredTarget {
    PreferredTarget { target: preference_in(value), secs: value.2 }
}

/// What is aimed at for each peer. It is forgotten after a while.
pub struct PreferredTargets {
    table: ExpiringTable,
}

impl View for PreferredTargets {
    type V = Map<u32, PreferredTarget>;

    /// The targets that may be remembered.
    closed spec fn view(&self) -> Map<u32, PreferredTarget> {
        Map::new(
            |peer_id: u32| self.table@.contains_key(target_key(peer_id)),
            |peer_id: u32| target_in(self.table@[target_key(peer_id)]),
        )
    }
}

impl PreferredTargets {
    pub fn new() -> (r: Self)
        ensures
            r@ == Map::<u32, PreferredTarget>::empty(),
    {
        let targets = PreferredTargets { table: ExpiringTable::new() };
        assert(targets@ =~= Map::<u32, PreferredTarget>::empty());
        targets
    }

    /// Remembers what is aimed at for a peer, for five minutes.
    pub fn insert(&mut self, peer_id: PeerId, target: PreferenceKey)
        ensures
            final(self)@ == old(self)@.insert(
                peer_id,
                PreferredTarget { target, secs: DIRECT_CONNECTOR_BLACKLIST_TIMEOUT_SEC },
            ),
    {
        let path: u8 = match target.path {
            TransportPathClass::Lan => 0,
            TransportPathClass::Wan => 1,
        };
        self.table.insert(
            key_of_target(peer_id),
            (path, target.rank as u64, DIRECT_CONNECTOR_BLACKLIST_TIMEOUT_SEC),
        );
        assert(self@ =~= old(self)@.insert(
            peer_id,
            PreferredTarget { target, secs: DIRECT_CONNECTOR_BLACKLIST_TIMEOUT_SEC },
        ));
    }

    /// The target for a peer. There is none for a peer for which none was set.
    pub fn get(&mut self, peer_id: PeerId) -> (r: Option<PreferenceKey>)
        ensures
            r is Some ==> old(self)@.contains_key(peer_id) && r->0 == old(self)@[peer_id].target,
            final(self)@ == (if r is Some {
                old(self)@
            } else {
                old(self)@.remove(peer_id)
            }),
    {
        let found = self.table.get(&key_of_target(peer_id));
        assert(self@ =~= (if found is Some {
            old(self)@
        } else {
            old(self)@.remove(peer_id)
        }));
        match found {
            None => None,
            Some((path, rank, _)) => {
                let path = if path == 0 {
                    TransportPathClass::Lan
                } else {
                    TransportPathClass::Wan
                };
                Some(PreferenceKey { path, rank: rank as usize })
            },
        }
    }

    pub fn remove(&mut self, peer_id: PeerId)
        ensures
            final(self)@ == old(self)@.remove(peer_id),
    {
        self.table.remove(&key_of_target(peer_id));
        assert(self@ =~= old(self)@.remove(peer_id));
    }

    /// Gives up the room of the targets that are forgotten. No answer changes by that.
    pub fn cleanup(&mut self)
        ensures
            final(self)@ == old(self)@,
    {
        self.table.cleanup();
        assert(self@ =~= old(self)@);
    }

    pub fn clear(&mut self)
        ensures
            final(self)@ == Map::<u32, PreferredTarget>::empty(),
    {
        self.table = ExpiringTable::new();
        assert(self@ =~= Map::<u32, PreferredTarget>::empty());
    }
}

/// A peer that may be connected to directly.
#[derive(Clone, Copy, Debug, PartialEq, Eq, Structural)]
pub struct DirectPeer {
    pub peer_id: PeerId,
    /// How much the best way by which the peer is connected is preferred.
    pub current: Option<PreferenceKey>,
    pub directly_connected: bool,
}

/// The peers that may be connected to directly.
pub open spec fn peers_wanted(
    flags: Flags,
    priority_enabled: bool,
    allow_public_server: bool,
    routes: Seq<RouteFacts>,
) -> Seq<u32>
    decreases routes.len(),
{
    if routes.len() == 0 {
        Seq::empty()
    } else {
        let before = peers_wanted(flags, priority_enabled, allow_public_server, routes.drop_last());
        let route = routes.last();
        if p2p_wanted(
            route.feature_flag,
            allow_public_server,
            flags,
            route.has_recent_traffic,
            priority_enabled,
            route.has_peer,
        ) {
            before.push(route.peer_id)
        } else {
            before
        }
    }
}

/// Lists the peers that may be connected to directly.
pub fn list_peers(
    flags: &Flags,
    priority: &TransportPriority,
    allow_public_server: bool,
    routes: &Vec<RouteFacts>,
) -> (r: Vec<PeerId>)
    ensures
        r@ == peers_wanted(*flags, priority@.len() > 0, allow_public_server, routes@),
{
    let priority_enabled = !priority.is_empty();
    let mut out: Vec<PeerId> = Vec::new();
    let mut i: usize = 0;
    assert(routes@.take(0) =~= Seq::<RouteFacts>::empty());
    while i < routes.len()
        invariant
            i <= routes@.len(),
            out@ == peers_wanted(
                *flags,
                priority_enabled,
                allow_public_server,
                routes@.take(i as int),
            ),
        decreases routes@.len() - i,
    {
        let route = &routes[i];
        assert(routes@.take(i as int + 1).drop_last() =~= routes@.take(i as int));
        let feature = match &route.feature_flag {
            Some(feature) => Some(feature),
            None => None,
        };
        if is_p2p_wanted(
            feature,
            allow_public_server,
            flags,
            route.has_recent_traffic,
            priority_enabled,
            route.has_peer,
        ) {
            out.push(route.peer_id);
        }
        i += 1;
    }
    assert(routes@.take(routes@.len() as int) =~= routes@);
    out
}

/// What happened to the configuration and the peers.
#[derive(Clone, Copy, Debug, PartialEq, Eq, Structural)]
pub enum DirectEvent {
    ConfigPatched,
    PeerRemoved(PeerId),
    Other,
    /// Events have been lost.
    Lagged,
    Closed,
}

/// What follows an event.
#[derive(Clone, Copy, Debug, PartialEq, Eq, Structural)]
pub struct EventStep {
    /// Look for peers to connect to.
    pub notify: bool,
    pub resubscribe: bool,
    pub stop: bool,
}

/// The peers that are left, some being skipped.
pub open spec fn not_skipped(peers: Seq<DirectPeer>, skips: Seq<bool>) -> Seq<u32>
    decreases peers.len(),
{
    if peers.len() == 0 {
        Seq::empty()
    } else {
        let before = not_skipped(peers.drop_last(), skips.drop_last());
        if skips.last() {
            before
        } else {
            before.push(peers.last().peer_id)
        }
    }
}

/// Lists the peers that are left, given which are skipped.
pub fn peers_left(peers: &Vec<DirectPeer>, skips: &Vec<bool>) -> (r: Vec<PeerId>)
    requires
        skips@.len() == peers@.len(),
    ensures
        r@ == not_skipped(peers@, skips@),
{
    let mut out: Vec<PeerId> = Vec::new();
    let mut i: usize = 0;
    assert(peers@.take(0) =~= Seq::<DirectPeer>::empty());
    while i < peers.len()
        invariant
            i <= peers@.len(),
            skips@.len() == peers@.len(),
            out@ == not_skipped(peers@.take(i as int), skips@.take(i as int)),
        decreases peers@.len() - i,
    {
        proof {
            assert(peers@.take(i as int + 1).drop_last() =~= peers@.take(i as int));
            assert(skips@.take(i as int + 1).drop_last() =~= skips@.take(i as int));
        }
        if !skips[i] {
            out.push(peers[i].peer_id);
        }
        i += 1;
    }
    assert(peers@.take(peers@.len() as int) =~= peers@);
    assert(skips@.take(peers@.len() as int) =~= skips@);
    out
}

/// Nothing but what is known of the given peers has gone.
pub open spec fn only_these_leave<V>(
    before: Map<u32, V>,
    after: Map<u32, V>,
    peers: Seq<DirectPeer>,
) -> bool {
    after.submap_of(before) && forall|peer_id: u32|
        before.contains_key(peer_id) && !#[trigger] after.contains_key(peer_id) ==> exists|i: int|
            0 <= i < peers.len() && (#[trigger] peers[i]).peer_id == peer_id
}

/// What is known of one more of the peers may go.
proof fn lemma_one_more_leaves<V>(
    before: Map<u32, V>,
    middle: Map<u32, V>,
    after: Map<u32, V>,
    peers: Seq<DirectPeer>,
    i: int,
)
    requires
        only_these_leave(before, middle, peers),
        0 <= i < peers.len(),
        after == middle || after == middle.remove(peers[i].peer_id),
    ensures
        only_these_leave(before, after, peers),
        middle.contains_key(peers[i].peer_id) ==> before.contains_key(peers[i].peer_id)
            && middle[peers[i].peer_id] == before[peers[i].peer_id],
{
    let peer_id = peers[i].peer_id;
    if middle.contains_key(peer_id) {
        assert(middle.dom().contains(peer_id));
        assert(before.dom().contains(peer_id));
    }
    assert forall|id: u32|
        before.contains_key(id) && !#[trigger] after.contains_key(id) implies exists|k: int|
        0 <= k < peers.len() && (#[trigger] peers[k]).peer_id == id by {
        if id == peer_id {
            assert(peers[i].peer_id == id);
        } else {
            assert(!middle.contains_key(id));
        }
    }
}

/// What is remembered of peers and their URLs.
pub struct DirectConnectorManager {
    /// URLs of peers that are left alone.
    pub dst_listener_blacklist: UrlBlacklist,
    /// Peers that do not know the service.
    pub peer_black_list: PeerBlacklist,
    pub preferred_direct_targets: PreferredTargets,
}

impl DirectConnectorManager {
    pub fn new() -> (r: Self)
        ensures
            r.dst_listener_blacklist@ == Map::<(u32, Seq<char>), u64>::empty(),
            r.peer_black_list@ == Map::<u32, u64>::empty(),
            r.preferred_direct_targets@ == Map::<u32, PreferredTarget>::empty(),
    {
        DirectConnectorManager {
            dst_listener_blacklist: UrlBlacklist::new(),
            peer_black_list: PeerBlacklist::new(),
            preferred_direct_targets: PreferredTargets::new(),
        }
    }

    /// The target for the peer may be remembered, and is reached.
    pub open spec fn may_be_satisfied(&self, peer: DirectPeer) -> bool {
        self.preferred_direct_targets@.contains_key(peer.peer_id) && reached(
            Some(self.preferred_direct_targets@[peer.peer_id].target),
            peer.current,
            peer.directly_connected,
        )
    }

    /// Tells whether what was aimed at for a peer is reached.
    pub fn direct_target_satisfied(&mut self, peer: DirectPeer) -> (r: bool)
        ensures
            r ==> old(self).may_be_satisfied(peer),
            r ==> final(self).preferred_direct_targets@ == old(self).preferred_direct_targets@,
            !r && old(self).may_be_satisfied(peer)
                ==> !final(self).preferred_direct_targets@.contains_key(peer.peer_id),
            final(self).preferred_direct_targets@ == old(self).preferred_direct_targets@
                || final(self).preferred_direct_targets@ == old(self).preferred_direct_targets@.remove(peer.peer_id),
            final(self).dst_listener_blacklist == old(self).dst_listener_blacklist,
            final(self).peer_black_list == old(self).peer_black_list,
    {
        match self.preferred_direct_targets.get(peer.peer_id) {
            None => false,
            Some(target) => is_target_reached(Some(target), peer.current, peer.directly_connected),
        }
    }

    /// The peer has to be skipped.
    pub open spec fn must_skip(my_peer_id: PeerId, priority_enabled: bool, peer: DirectPeer) -> bool {
        peer.peer_id == my_peer_id || (!priority_enabled && peer.directly_connected)
    }

    /// The peer may be skipped.
    pub open spec fn may_skip(&self, my_peer_id: PeerId, priority_enabled: bool, peer: DirectPeer) -> bool {
        Self::must_skip(my_peer_id, priority_enabled, peer) || self.peer_black_list@.contains_key(
            peer.peer_id,
        ) || (priority_enabled && self.may_be_satisfied(peer))
    }

    /// The peers are skipped for a reason.
    pub open spec fn skips_for_a_reason(
        &self,
        my_peer_id: PeerId,
        priority_enabled: bool,
        peers: Seq<DirectPeer>,
        skips: Seq<bool>,
    ) -> bool {
        skips.len() == peers.len() && forall|i: int|
            0 <= i < peers.len() ==> (Self::must_skip(my_peer_id, priority_enabled, peers[i])
                ==> #[trigger] skips[i]) && (skips[i] ==> self.may_skip(
                my_peer_id,
                priority_enabled,
                peers[i],
            ))
    }

    /// What is remembered is obeyed: of the peers that are not skipped none is on the list, and with
    /// a priority none has a target that is reached.
    pub open spec fn obeyed(
        &self,
        before: &DirectConnectorManager,
        priority_enabled: bool,
        peers: Seq<DirectPeer>,
        skips: Seq<bool>,
    ) -> bool {
        forall|i: int|
            0 <= i < peers.len() && !(#[trigger] skips[i]) ==> !self.peer_black_list@.contains_key(
                peers[i].peer_id,
            ) && (priority_enabled && before.may_be_satisfied(peers[i])
                ==> !self.preferred_direct_targets@.contains_key(peers[i].peer_id))
    }

    /// Lists the peers that are to be connected to: not this node itself, none for which what is
    /// aimed at is reached, and none that is left alone.
    pub fn collect_peers_need_task(
        &mut self,
        my_peer_id: PeerId,
        priority_enabled: bool,
        peers: &Vec<DirectPeer>,
    ) -> (r: Vec<PeerId>)
        ensures
            exists|skips: Seq<bool>|
                #[trigger] old(self).skips_for_a_reason(
                    my_peer_id,
                    priority_enabled,
                    peers@,
                    skips,
                ) && final(self).obeyed(old(self), priority_enabled, peers@, skips) && r@
                    == not_skipped(peers@, skips),
            final(self).dst_listener_blacklist == old(self).dst_listener_blacklist,
            only_these_leave(old(self).peer_black_list@, final(self).peer_black_list@, peers@),
            only_these_leave(
                old(self).preferred_direct_targets@,
                final(self).preferred_direct_targets@,
                peers@,
            ),
            !priority_enabled ==> final(self).preferred_direct_targets@ == old(self).preferred_direct_targets@,
    {
        self.peer_black_list.cleanup();
        self.preferred_direct_targets.cleanup();
        let mut skips: Vec<bool> = Vec::new();
        let mut i: usize = 0;
        while i < peers.len()
            invariant
                i <= peers@.len(),
                skips@.len() == i,
                self.dst_listener_blacklist == old(self).dst_listener_blacklist,
                only_these_leave(old(self).peer_black_list@, self.peer_black_list@, peers@),
                only_these_leave(
                    old(self).preferred_direct_targets@,
                    self.preferred_direct_targets@,
                    peers@,
                ),
                !priority_enabled ==> self.preferred_direct_targets@ == old(self).preferred_direct_targets@,
                forall|k: int|
                    0 <= k < i ==> (Self::must_skip(my_peer_id, priority_enabled, peers@[k])
                        ==> #[trigger] skips@[k]) && (skips@[k] ==> old(self).may_skip(
                        my_peer_id,
                        priority_enabled,
                        peers@[k],
                    )),
                forall|k: int|
                    0 <= k < i && !(#[trigger] skips@[k]) ==> !self.peer_black_list@.contains_key(
                        peers@[k].peer_id,
                    ) && (priority_enabled && old(self).may_be_satisfied(peers@[k])
                        ==> !self.preferred_direct_targets@.contains_key(peers@[k].peer_id)),
            decreases peers@.len() - i,
        {
            let peer = peers[i];
            let ghost targets = self.preferred_direct_targets@;
            let ghost listed = self.peer_black_list@;
            let satisfied = if priority_enabled {
                self.direct_target_satisfied(peer)
            } else {
                peer.directly_connected
            };
            let skip = peer.peer_id == my_peer_id || satisfied || self.peer_black_list.contains(
                peer.peer_id,
            );
            proof {
                lemma_one_more_leaves(
                    old(self).preferred_direct_targets@,
                    targets,
                    self.preferred_direct_targets@,
                    peers@,
                    i as int,
                );
                lemma_one_more_leaves(
                    old(self).peer_black_list@,
                    listed,
                    self.peer_black_list@,
                    peers@,
                    i as int,
                );
            }
            skips.push(skip);
            i += 1;
        }
        assert(old(self).skips_for_a_reason(my_peer_id, priority_enabled, peers@, skips@));
        peers_left(peers, &skips)
    }

    /// Remembers what is aimed at for a peer, if there is anything.
    pub fn aim_at(&mut self, peer_id: PeerId, target: Option<PreferenceKey>)
        ensures
            final(self).preferred_direct_targets@ == (match target {
                Some(target) => old(self).preferred_direct_targets@.insert(
                    peer_id,
                    PreferredTarget { target, secs: DIRECT_CONNECTOR_BLACKLIST_TIMEOUT_SEC },
                ),
                None => old(self).preferred_direct_targets@,
            }),
            final(self).dst_listener_blacklist == old(self).dst_listener_blacklist,
            final(self).peer_black_list == old(self).peer_black_list,
    {
        if let Some(target) = target {
            self.preferred_direct_targets.insert(peer_id, target);
        }
    }

    /// Starts to connect to a peer: schedules the attempts at some candidates, and remembers what is
    /// aimed at where a priority is configured.
    pub fn begin_direct_connect(
        &mut self,
        peer_id: PeerId,
        flags: &Flags,
        priority: &TransportPriority,
        stealth: &StealthProtocolSet,
        peer: &DirectPeerFacts,
        candidates: Vec<DirectCandidate>,
    ) -> (r: DirectSchedule)
        requires
            priority.wf(),
        ensures
            r.fits(
                candidates@,
                direct_order(*flags, priority@, true, rule_address(priority@, peer.ipv4, peer.ipv6)),
                direct_order(*flags, priority@, false, rule_address(priority@, peer.ipv4, peer.ipv6)),
                modes_of(effective(stealth@, flags.stealth_mode), known(peer.feature)),
                priority@.len() > 0,
                peer.existing,
            ),
            final(self).preferred_direct_targets@ == (match r.plan.target {
                Some(target) => old(self).preferred_direct_targets@.insert(
                    peer_id,
                    PreferredTarget { target, secs: DIRECT_CONNECTOR_BLACKLIST_TIMEOUT_SEC },
                ),
                None => old(self).preferred_direct_targets@,
            }),
            final(self).dst_listener_blacklist == old(self).dst_listener_blacklist,
            final(self).peer_black_list == old(self).peer_black_list,
    {
        let schedule = schedule_direct_connect(flags, priority, stealth, peer, candidates);
        self.aim_at(peer_id, schedule.plan.target);
        schedule
    }

    pub open spec fn step_after(event: DirectEvent) -> EventStep {
        EventStep {
            notify: event is ConfigPatched || event is Lagged,
            resubscribe: event is Lagged,
            stop: event is Closed,
        }
    }

    /// Takes in what happened. What is aimed at depends on the configuration and on the peers.
    pub fn handle_event(&mut self, event: DirectEvent) -> (r: EventStep)
        ensures
            r == Self::step_after(event),
            match event {
                DirectEvent::ConfigPatched | DirectEvent::Lagged =>
                    final(self).preferred_direct_targets@ == Map::<u32, PreferredTarget>::empty(),
                DirectEvent::PeerRemoved(peer_id) => final(self).preferred_direct_targets@ == old(self).preferred_direct_targets@.remove(peer_id),
                _ => final(self).preferred_direct_targets == old(self).preferred_direct_targets,
            },
            final(self).dst_listener_blacklist == old(self).dst_listener_blacklist,
            final(self).peer_black_list == old(self).peer_black_list,
    {
        match event {
            DirectEvent::ConfigPatched => {
                self.preferred_direct_targets.clear();
                EventStep { notify: true, resubscribe: false, stop: false }
            },
            DirectEvent::PeerRemoved(peer_id) => {
                self.preferred_direct_targets.remove(peer_id);
                EventStep { notify: false, resubscribe: false, stop: false }
            },
            DirectEvent::Other => EventStep { notify: false, resubscribe: false, stop: false },
            DirectEvent::Lagged => {
                self.preferred_direct_targets.clear();
                EventStep { notify: true, resubscribe: true, stop: false }
            },
            DirectEvent::Closed => EventStep { notify: false, resubscribe: false, stop: true },
        }
    }
}

/// A peer that is on the list afterwards is not collected, nor, with a priority, one whose target
/// was reached and is still remembered.
pub proof fn law_remembered_peers_are_left_out(
    before: DirectConnectorManager,
    after: DirectConnectorManager,
    priority_enabled: bool,
    peers: Seq<DirectPeer>,
    skips: Seq<bool>,
    peer_id: PeerId,
)
    requires
        skips.len() == peers.len(),
        after.obeyed(&before, priority_enabled, peers, skips),
        after.peer_black_list@.contains_key(peer_id) || (priority_enabled
            && after.preferred_direct_targets@.contains_key(peer_id) && forall|i: int|
            0 <= i < peers.len() && (#[trigger] peers[i]).peer_id == peer_id
                ==> before.may_be_satisfied(peers[i])),
    ensures
        !not_skipped(peers, skips).contains(peer_id),
    decreases peers.len(),
{
    if peers.len() > 0 {
        let rest = peers.drop_last();
        let flagged = skips.drop_last();
        let last = peers.len() - 1;
        assert(after.obeyed(&before, priority_enabled, rest, flagged)) by {
            assert forall|i: int| 0 <= i < rest.len() && !(#[trigger] flagged[i]) implies !after.peer_black_list@.contains_key(
                rest[i].peer_id,
            ) && (priority_enabled && before.may_be_satisfied(rest[i])
                ==> !after.preferred_direct_targets@.contains_key(rest[i].peer_id)) by {
                assert(!skips[i]);
                assert(rest[i] == peers[i]);
            }
        }
        assert forall|i: int| 0 <= i < rest.len() && (#[trigger] rest[i]).peer_id == peer_id implies (
        peers[i]).peer_id == peer_id by {}
        law_remembered_peers_are_left_out(before, after, priority_enabled, rest, flagged, peer_id);
        let kept = not_skipped(rest, flagged);
        let all = not_skipped(peers, skips);
        if all.contains(peer_id) {
            let k = choose|k: int| 0 <= k < all.len() && all[k] == peer_id;
            if k < kept.len() {
                assert(kept[k] == peer_id);
            } else {
                assert(!skips[last]);
                assert(peers[last].peer_id == peer_id);
            }
            assert(false);
        }
    }
}

/// What came of trying to connect to a URL once.
#[derive(Clone, Copy, Debug, PartialEq, Eq, Structural)]
pub enum UrlAttemptEnd {
    Connected,
    Guarded,
    Failed { self_loop: bool },
}

/// What to do next.
#[derive(Clone, Copy, Debug, PartialEq, Eq, Structural)]
pub enum UrlStep {
    Connect,
    Wait { ms: u64 },
    Finished(DirectAttemptOutcome),
    UrlInBlacklist,
    /// The attempt's error is final.
    Fail,
}

/// The waiting times between the attempts at a URL, in milliseconds.
pub open spec fn url_schedule() -> Seq<u64> {
    seq![1000, 2000, 4000]
}

/// Connecting to a URL of a peer, a few times until it succeeds.
#[derive(Debug)]
pub struct UrlRun {
    pub dst_peer_id: PeerId,
    pub url: String,
    pub preference_key: Option<PreferenceKey>,
    pub backoff_idx: usize,
}

impl UrlRun {
    pub open spec fn wf(&self) -> bool {
        self.backoff_idx <= 3
    }

    pub open spec fn may_be_listed(&self, lists: &DirectConnectorManager) -> bool {
        lists.dst_listener_blacklist@.contains_key((self.dst_peer_id, self.url@))
    }

    /// The list after it was asked for the URL.
    pub open spec fn asked(&self, before: &DirectConnectorManager, after: &DirectConnectorManager) -> bool {
        &&& after.dst_listener_blacklist@ == before.dst_listener_blacklist@
            || after.dst_listener_blacklist@ == before.dst_listener_blacklist@.remove(
            (self.dst_peer_id, self.url@),
        )
        &&& after.peer_black_list == before.peer_black_list
        &&& after.preferred_direct_targets == before.preferred_direct_targets
    }

    /// Starts, unless the URL is left alone.
    pub fn start(
        dst_peer_id: PeerId,
        url: String,
        preference_key: Option<PreferenceKey>,
        lists: &mut DirectConnectorManager,
    ) -> (r: Option<UrlRun>)
        ensures
            r is None ==> old(lists).dst_listener_blacklist@.contains_key((dst_peer_id, url@)),
            r is Some ==> r->0 == (UrlRun { dst_peer_id, url, preference_key, backoff_idx: 0 }),
            r is Some ==> !final(lists).dst_listener_blacklist@.contains_key((dst_peer_id, url@)),
            (UrlRun { dst_peer_id, url, preference_key, backoff_idx: 0 }).asked(
                old(lists),
                final(lists),
            ),
    {
        lists.dst_listener_blacklist.cleanup();
        if lists.dst_listener_blacklist.contains(dst_peer_id, url.as_str()) {
            return None;
        }
        Some(UrlRun { dst_peer_id, url, preference_key, backoff_idx: 0 })
    }

    /// The step that starts a round, given whether the URL is left alone.
    pub open spec fn round_step(satisfied: bool, listed: bool) -> UrlStep {
        if satisfied {
            UrlStep::Finished(DirectAttemptOutcome::AlreadySatisfied)
        } else if listed {
            UrlStep::UrlInBlacklist
        } else {
            UrlStep::Connect
        }
    }

    /// Tells what starts a round, given whether the URL is left alone.
    pub fn step_for(satisfied: bool, listed: bool) -> (r: UrlStep)
        ensures
            r == Self::round_step(satisfied, listed),
    {
        if satisfied {
            UrlStep::Finished(DirectAttemptOutcome::AlreadySatisfied)
        } else if listed {
            UrlStep::UrlInBlacklist
        } else {
            UrlStep::Connect
        }
    }

    /// Starts a round. A URL that is on the list is not connected to.
    pub fn begin_round(&self, lists: &mut DirectConnectorManager, satisfied: bool) -> (r: UrlStep)
        ensures
            exists|listed: bool|
                (listed ==> self.may_be_listed(old(lists))) && r == #[trigger] Self::round_step(
                    satisfied,
                    listed,
                ) && final(lists).dst_listener_blacklist@ == (if listed || satisfied {
                    old(lists).dst_listener_blacklist@
                } else {
                    old(lists).dst_listener_blacklist@.remove((self.dst_peer_id, self.url@))
                }),
            r is Connect ==> !self.may_be_listed(final(lists)),
            self.asked(old(lists), final(lists)),
    {
        let listed = !satisfied && lists.dst_listener_blacklist.contains(
            self.dst_peer_id,
            self.url.as_str(),
        );
        Self::step_for(satisfied, listed)
    }

    /// The URL is left alone from now on: it led back to this node, or the last attempt failed.
    pub open spec fn lists_url(&self, end: UrlAttemptEnd, satisfied: bool) -> bool {
        end is Failed && (end->self_loop || (!satisfied && self.backoff_idx >= 3))
    }

    /// For how long the URL is left alone, in seconds: longer if it led back to this node.
    pub open spec fn listed_secs(end: UrlAttemptEnd) -> u64 {
        if end is Failed && end->self_loop {
            DIRECT_CONNECTOR_BLACKLIST_TIMEOUT_SEC
        } else {
            DIRECT_CONNECTOR_FAILURE_COOLDOWN_SEC
        }
    }

    /// Takes in what came of an attempt.
    pub fn record(&mut self, lists: &mut DirectConnectorManager, end: UrlAttemptEnd, satisfied: bool) -> (r:
        UrlStep)
        requires
            old(self).wf(),
        ensures
            final(self).wf(),
            match end {
                UrlAttemptEnd::Connected => r == UrlStep::Finished(
                    DirectAttemptOutcome::Connected(old(self).preference_key),
                ),
                UrlAttemptEnd::Guarded => r == UrlStep::Fail,
                UrlAttemptEnd::Failed { self_loop } => if self_loop {
                    r == UrlStep::Fail
                } else if satisfied {
                    r == UrlStep::Finished(DirectAttemptOutcome::AlreadySatisfied)
                } else if old(self).backoff_idx < 3 {
                    r is Wait && is_half_jittered(
                        url_schedule()[old(self).backoff_idx as int],
                        r->ms,
                    )
                } else {
                    r == UrlStep::Fail
                },
            },
            *final(self) == (UrlRun {
                backoff_idx: if r is Wait {
                    (old(self).backoff_idx + 1) as usize
                } else {
                    old(self).backoff_idx
                },
                ..*old(self)
            }),
            final(lists).dst_listener_blacklist@ == (if old(self).lists_url(end, satisfied) {
                old(lists).dst_listener_blacklist@.insert(
                    (old(self).dst_peer_id, old(self).url@),
                    Self::listed_secs(end),
                )
            } else {
                old(lists).dst_listener_blacklist@
            }),
            final(lists).peer_black_list == old(lists).peer_black_list,
            final(lists).preferred_direct_targets == old(lists).preferred_direct_targets,
    {
        match end {
            UrlAttemptEnd::Connected => {
                return UrlStep::Finished(DirectAttemptOutcome::Connected(self.preference_key));
            },
            UrlAttemptEnd::Guarded => {
                return UrlStep::Fail;
            },
            UrlAttemptEnd::Failed { self_loop } => {
                if self_loop {
                    lists.dst_listener_blacklist.insert(
                        self.dst_peer_id,
                        self.url.as_str(),
                        DIRECT_CONNECTOR_BLACKLIST_TIMEOUT_SEC,
                    );
                    return UrlStep::Fail;
                }
            },
        }
        if satisfied {
            return UrlStep::Finished(DirectAttemptOutcome::AlreadySatisfied);
        }
        if self.backoff_idx >= 3 {
            lists.dst_listener_blacklist.insert(
                self.dst_peer_id,
                self.url.as_str(),
                DIRECT_CONNECTOR_FAILURE_COOLDOWN_SEC,
            );
            return UrlStep::Fail;
        }
        let base: u64 = if self.backoff_idx == 0 {
            1000
        } else if self.backoff_idx == 1 {
            2000
        } else {
            4000
        };
        self.backoff_idx = self.backoff_idx + 1;
        UrlStep::Wait { ms: crate::retry_backoff::BackOff::with_half_jitter(base) }
    }
}

/// A URL is tried four times at most; after that, and as soon as it leads back to this node, it is
/// left alone, in the latter case for longer; what the guard refuses is not tried again and not left
/// alone.
pub proof fn law_url_attempts_are_bounded(run: UrlRun, end: UrlAttemptEnd)
    requires
        run.wf(),
    ensures
        run.backoff_idx == 3 && end is Failed ==> run.lists_url(end, false),
        end == (UrlAttemptEnd::Failed { self_loop: true }) ==> run.lists_url(end, true)
            && run.lists_url(end, false) && UrlRun::listed_secs(end) == 300,
        end == (UrlAttemptEnd::Failed { self_loop: false }) ==> UrlRun::listed_secs(end) == 30,
        end is Guarded || end is Connected ==> !run.lists_url(end, true) && !run.lists_url(end, false),
{
}

/// The waiting times between the tries to connect to a peer, in milliseconds.
pub open spec fn peer_schedule() -> Seq<u64> {
    seq![1000, 2000, 2000, 5000, 5000, 10000, 30000, 60000]
}

/// A peer is left alone.
#[derive(Clone, Copy, Debug, PartialEq, Eq, Structural)]
pub struct PeerBlacklisted;

/// Connecting to a peer, over and over until what is aimed at is reached.
#[derive(Debug)]
pub struct PeerRun {
    pub dst_peer_id: PeerId,
    pub attempted: bool,
    pub backoff: BackOff,
}

impl PeerRun {
    pub open spec fn wf(&self) -> bool {
        self.backoff.wf() && self.backoff.schedule() == peer_schedule()
    }

    pub fn new(dst_peer_id: PeerId) -> (r: Self)
        ensures
            r.wf(),
            r.dst_peer_id == dst_peer_id,
            !r.attempted,
            r.backoff.position() == 0,
    {
        let mut schedule: Vec<u64> = Vec::new();
        schedule.push(1000);
        schedule.push(2000);
        schedule.push(2000);
        schedule.push(5000);
        schedule.push(5000);
        schedule.push(10000);
        schedule.push(30000);
        schedule.push(60000);
        assert(schedule@ =~= peer_schedule());
        PeerRun { dst_peer_id, attempted: false, backoff: BackOff::new(schedule) }
    }

    /// Starts a round: gives how long to wait, not at all at first. Ends the run for a peer that is
    /// left alone.
    pub fn begin_round(&mut self, lists: &mut DirectConnectorManager) -> (r: Result<
        u64,
        PeerBlacklisted,
    >)
        requires
            old(self).wf(),
        ensures
            final(self).wf(),
            final(self).dst_peer_id == old(self).dst_peer_id,
            r is Err ==> *final(self) == *old(self) && old(lists).peer_black_list@.contains_key(
                old(self).dst_peer_id,
            ),
            r is Ok ==> final(self).attempted,
            r is Ok && !old(self).attempted ==> r->Ok_0 == 0 && final(self).backoff == old(self).backoff,
            r is Ok && old(self).attempted ==> r->Ok_0 == peer_schedule()[old(self).backoff.position()] && final(self).backoff.position() == next_position(
                old(self).backoff.position(),
                8,
            ),
            final(lists).peer_black_list@ == (if r is Err {
                old(lists).peer_black_list@
            } else {
                old(lists).peer_black_list@.remove(old(self).dst_peer_id)
            }),
            final(lists).dst_listener_blacklist == old(lists).dst_listener_blacklist,
            final(lists).preferred_direct_targets == old(lists).preferred_direct_targets,
    {
        if lists.peer_black_list.contains(self.dst_peer_id) {
            return Err(PeerBlacklisted);
        }
        let wait: u64 = if self.attempted {
            self.backoff.next_backoff()
        } else {
            0
        };
        self.attempted = true;
        Ok(wait)
    }

    /// Ends a round. Gives whether what was aimed at is reached: without a priority any direct
    /// connection, else the target that is remembered.
    pub fn end_round(
        &self,
        lists: &mut DirectConnectorManager,
        priority_enabled: bool,
        peer: DirectPeer,
    ) -> (r: bool)
        ensures
            !priority_enabled ==> r == peer.directly_connected && *final(lists) == *old(lists),
            priority_enabled && r ==> old(lists).may_be_satisfied(peer),
            priority_enabled && !r && old(lists).may_be_satisfied(peer) ==> !final(lists).preferred_direct_targets@.contains_key(peer.peer_id),
            final(lists).preferred_direct_targets@ == old(lists).preferred_direct_targets@ || (!r
                && final(lists).preferred_direct_targets@ == old(lists).preferred_direct_targets@.remove(peer.peer_id)),
            final(lists).dst_listener_blacklist == old(lists).dst_listener_blacklist,
            final(lists).peer_black_list == old(lists).peer_black_list,
    {
        if priority_enabled {
            lists.direct_target_satisfied(peer)
        } else {
            peer.directly_connected
        }
    }
}

/// An attempt to punch a hole that failed by itself is followed by a plain one; one that succeeded, or in
/// whose way the guard stood, is not.
pub proof fn law_only_failures_are_tried_again<T>(attempt: Result<T, DirectConnectAttemptError>)
    ensures
        public_ipv4_result(attempt) is Fallback <==> attempt is Err && attempt->Err_0 is Failed,
        attempt is Ok ==> public_ipv4_result(attempt) == PublicIpv4Result::Settled(attempt),
        attempt is Err && attempt->Err_0 is Guarded ==> public_ipv4_result(attempt)
            == PublicIpv4Result::Settled(attempt),
{
}

/// An IPv4 address that all of the internet can reach is none of those that are private, loopback, for one
/// link, unspecified or for everybody; every other is one.
pub proof fn law_public_addresses(ip: u32)
    ensures
        public_ipv4(ip) <==> !(0x0a00_0000 <= ip <= 0x0aff_ffff) && !(0xac10_0000 <= ip <= 0xac1f_ffff)
            && !(0xc0a8_0000 <= ip <= 0xc0a8_ffff) && !(0x7f00_0000 <= ip <= 0x7fff_ffff) && !(
        0xa9fe_0000 <= ip <= 0xa9fe_ffff) && ip != 0 && ip != 0xffff_ffff,
{
}

/// Holes are punched for UDP alone: to every IPv6 address, and to public IPv4 addresses.
pub proof fn law_holes_are_punched_for_udp(url: UrlParts)
    ensures
        path_of(url) is PublicIpv6 <==> url.ip_scheme() == Some(IpScheme::Udp) && url.host is Ipv6,
        path_of(url) is PublicIpv4 <==> url.ip_scheme() == Some(IpScheme::Udp) && url.host is Ipv4
            && public_ipv4(url.host->Ipv4_0),
{
}

/// An address that the overlay manages is never offered; of the others, those that a stranger can reach
/// are.
pub proof fn law_usable_ipv6_addresses(ctx: &GlobalCtx, ip: u128, testing: bool)
    ensures
        ctx.managed_ipv6(ip) ==> !usable_ipv6(ctx, ip, testing),
        !ctx.managed_ipv6(ip) && testing ==> usable_ipv6(ctx, ip, testing),
        !ctx.managed_ipv6(ip) && !testing ==> (usable_ipv6(ctx, ip, testing) <==> 1 < ip
            < 0xfc00_0000_0000_0000_0000_0000_0000_0000 || 0xfe00_0000_0000_0000_0000_0000_0000_0000 <= ip
            < 0xfe80_0000_0000_0000_0000_0000_0000_0000 || 0xfec0_0000_0000_0000_0000_0000_0000_0000
            <= ip < 0xff00_0000_0000_0000_0000_0000_0000_0000),
{
}

/// Adding addresses keeps those that there are in their places, and adds each new one that can be offered
/// as long as there is room; none comes from elsewhere.
pub proof fn law_every_usable_address_is_added(
    ctx: &GlobalCtx,
    testing: bool,
    limit: int,
    before: Seq<u128>,
    ips: Seq<u128>,
)
    ensures
        ({
            let after = with_ipv6s(ctx, testing, limit, before, ips);
            &&& before.is_prefix_of(after)
            &&& after.len() < limit ==> forall|i: int|
                0 <= i < ips.len() && usable_ipv6(ctx, #[trigger] ips[i], testing) && !blocks(
                    ctx,
                    IpAddress::V6(ips[i]),
                ) ==> after.contains(ips[i])
            &&& forall|k: int|
                before.len() <= k < after.len() ==> ips.contains(#[trigger] after[k])
        }),
    decreases ips.len(),
{
    if ips.len() > 0 {
        let front = ips.drop_last();
        law_every_usable_address_is_added(ctx, testing, limit, before, front);
        let earlier = with_ipv6s(ctx, testing, limit, before, front);
        let after = with_ipv6s(ctx, testing, limit, before, ips);
        assert(earlier.is_prefix_of(after));
        assert forall|k: int| before.len() <= k < after.len() implies ips.contains(
            #[trigger] after[k],
        ) by {
            if k < earlier.len() {
                assert(after[k] == earlier[k]);
                let i = choose|i: int| 0 <= i < front.len() && front[i] == earlier[k];
                assert(ips[i] == after[k]);
            } else {
                assert(ips[ips.len() - 1] == after[k]);
            }
        }
        if after.len() < limit {
            assert forall|i: int|
                0 <= i < ips.len() && usable_ipv6(ctx, #[trigger] ips[i], testing) && !blocks(
                    ctx,
                    IpAddress::V6(ips[i]),
                ) implies after.contains(ips[i]) by {
                if i < front.len() {
                    assert(front[i] == ips[i]);
                    let k = choose|k: int| 0 <= k < earlier.len() && earlier[k] == ips[i];
                    assert(after[k] == ips[i]);
                } else if earlier.contains(ips[i]) {
                    let k = choose|k: int| 0 <= k < earlier.len() && earlier[k] == ips[i];
                    assert(after[k] == ips[i]);
                } else {
                    assert(after[after.len() - 1] == ips[i]);
                }
            }
        }
    }
}

/// What is offered to a peer are addresses that others see and addresses of the interfaces; each of them
/// that can be offered is, unless sixteen are.
pub proof fn law_addresses_are_offered(
    ctx: &GlobalCtx,
    testing: bool,
    stun_ips: Seq<u128>,
    list: IpList,
    ip: u128,
)
    ensures
        ({
            let offered = ipv6_candidates(ctx, testing, stun_ips, list);
            &&& offered.contains(ip) ==> stun_ips.contains(ip) || ipv6s_of(list).contains(ip)
            &&& offered.len() < 16 && (stun_ips.contains(ip) || ipv6s_of(list).contains(ip))
                && usable_ipv6(ctx, ip, testing) && !blocks(ctx, IpAddress::V6(ip))
                ==> offered.contains(ip)
        }),
{
    let limit = MAX_IPV6_HOLE_PUNCH_CONNECTOR_ADDRS as int;
    let seen = with_ipv6s(ctx, testing, limit, Seq::empty(), stun_ips);
    let offered = ipv6_candidates(ctx, testing, stun_ips, list);
    law_every_usable_address_is_added(ctx, testing, limit, Seq::empty(), stun_ips);
    law_every_usable_address_is_added(ctx, testing, limit, seen, ipv6s_of(list));
    if offered.contains(ip) {
        let k = choose|k: int| 0 <= k < offered.len() && offered[k] == ip;
        if k < seen.len() {
            assert(seen[k] == ip);
            assert(stun_ips.contains(seen[k]));
        } else {
            assert(ipv6s_of(list).contains(offered[k]));
        }
    }
    if offered.len() < 16 && usable_ipv6(ctx, ip, testing) && !blocks(ctx, IpAddress::V6(ip)) {
        if stun_ips.contains(ip) {
            let i = choose|i: int| 0 <= i < stun_ips.len() && stun_ips[i] == ip;
            assert(seen.contains(stun_ips[i]));
            let k = choose|k: int| 0 <= k < seen.len() && seen[k] == ip;
            assert(offered[k] == ip);
        }
        if ipv6s_of(list).contains(ip) {
            let own = ipv6s_of(list);
            let i = choose|i: int| 0 <= i < own.len() && own[i] == ip;
            assert(offered.contains(own[i]));
        }
    }
}

/// Of some texts, those that are IPv6 addresses count, and no others.
pub proof fn law_texts_that_are_ipv6_addresses(texts: Seq<String>, ip: u128)
    ensures
        ipv6s_in(texts).contains(ip) <==> exists|i: int|
            0 <= i < texts.len() && ip_from_text((#[trigger] texts[i])@) == Some(IpAddress::V6(ip)),
    decreases texts.len(),
{
    if texts.len() > 0 {
        let front = texts.drop_last();
        law_texts_that_are_ipv6_addresses(front, ip);
        let before = ipv6s_in(front);
        let all = ipv6s_in(texts);
        if before.contains(ip) {
            let k = choose|k: int| 0 <= k < before.len() && before[k] == ip;
            assert(all[k] == ip);
            let i = choose|i: int|
                0 <= i < front.len() && ip_from_text((#[trigger] front[i])@) == Some(IpAddress::V6(ip));
            assert(texts[i] == front[i]);
        }
        if ip_from_text(texts.last()@) == Some(IpAddress::V6(ip)) {
            assert(all[all.len() - 1] == ip);
            assert(texts[texts.len() - 1] == texts.last());
        } else if exists|i: int|
            0 <= i < texts.len() && ip_from_text((#[trigger] texts[i])@) == Some(IpAddress::V6(ip)) {
            let i = choose|i: int|
                0 <= i < texts.len() && ip_from_text((#[trigger] texts[i])@) == Some(IpAddress::V6(ip));
            assert(front[i] == texts[i]);
        }
        if all.contains(ip) && !before.contains(ip) {
            let k = choose|k: int| 0 <= k < all.len() && all[k] == ip;
            if k < before.len() {
                assert(before[k] == ip);
            }
        }
    }
}

/// The endpoints of some addresses are those addresses, in their order, at the port.
pub proof fn law_endpoints_keep_their_order(ips: Seq<u128>, port: u16, i: int)
    requires
        0 <= i < ips.len(),
    ensures
        endpoints_at(ips, port).len() == ips.len(),
        endpoints_at(ips, port)[i].spec_ip() == IpAddress::V6(ips[i]),
        endpoints_at(ips, port)[i].spec_port() == port,
{
}

/// The peers that may be connected to are those that are wanted.
pub proof fn law_wanted_peers_are_listed(
    flags: Flags,
    priority_enabled: bool,
    allow_public_server: bool,
    routes: Seq<RouteFacts>,
    peer_id: PeerId,
)
    ensures
        peers_wanted(flags, priority_enabled, allow_public_server, routes).contains(peer_id)
            <==> exists|i: int|
            0 <= i < routes.len() && (#[trigger] routes[i]).peer_id == peer_id && p2p_wanted(
                routes[i].feature_flag,
                allow_public_server,
                flags,
                routes[i].has_recent_traffic,
                priority_enabled,
                routes[i].has_peer,
            ),
    decreases routes.len(),
{
    if routes.len() > 0 {
        let front = routes.drop_last();
        law_wanted_peers_are_listed(flags, priority_enabled, allow_public_server, front, peer_id);
        let before = peers_wanted(flags, priority_enabled, allow_public_server, front);
        let all = peers_wanted(flags, priority_enabled, allow_public_server, routes);
        assert forall|i: int| 0 <= i < front.len() implies front[i] == #[trigger] routes[i] by {}
        if before.contains(peer_id) {
            let k = choose|k: int| 0 <= k < before.len() && before[k] == peer_id;
            assert(all[k] == peer_id);
            let i = choose|i: int|
                0 <= i < front.len() && (#[trigger] front[i]).peer_id == peer_id && p2p_wanted(
                    front[i].feature_flag,
                    allow_public_server,
                    flags,
                    front[i].has_recent_traffic,
                    priority_enabled,
                    front[i].has_peer,
                );
            assert(routes[i].peer_id == peer_id);
        } else {
            let last = routes.len() - 1;
            assert(routes[last] == routes.last());
            if all.contains(peer_id) {
                let k = choose|k: int| 0 <= k < all.len() && all[k] == peer_id;
                if k < before.len() {
                    assert(before[k] == peer_id);
                }
                assert(routes[last].peer_id == peer_id);
            }
            if exists|i: int|
                0 <= i < routes.len() && (#[trigger] routes[i]).peer_id == peer_id && p2p_wanted(
                    routes[i].feature_flag,
                    allow_public_server,
                    flags,
                    routes[i].has_recent_traffic,
                    priority_enabled,
                    routes[i].has_peer,
                ) {
                let i = choose|i: int|
                    0 <= i < routes.len() && (#[trigger] routes[i]).peer_id == peer_id && p2p_wanted(
                        routes[i].feature_flag,
                        allow_public_server,
                        flags,
                        routes[i].has_recent_traffic,
                        priority_enabled,
                        routes[i].has_peer,
                    );
                if i < last {
                    assert(front[i].peer_id == peer_id);
                }
                assert(i == last);
                assert(all[all.len() - 1] == peer_id);
            }
        }
    }
}

/// The peers that are left are those that are not skipped.
pub proof fn law_peers_are_left_unless_skipped(peers: Seq<DirectPeer>, skips: Seq<bool>, i: int)
    requires
        skips.len() == peers.len(),
        0 <= i < peers.len(),
        !skips[i],
    ensures
        not_skipped(peers, skips).contains(peers[i].peer_id),
    decreases peers.len(),
{
    let before = not_skipped(peers.drop_last(), skips.drop_last());
    let all = not_skipped(peers, skips);
    if i == peers.len() - 1 {
        assert(all[all.len() - 1] == peers[i].peer_id);
    } else {
        law_peers_are_left_unless_skipped(peers.drop_last(), skips.drop_last(), i);
        let k = choose|k: int| 0 <= k < before.len() && before[k] == peers[i].peer_id;
        assert(all[k] == peers[i].peer_id);
    }
}

/// Every peer that is left was not skipped.
pub proof fn law_skipped_peers_are_not_left(peers: Seq<DirectPeer>, skips: Seq<bool>, peer_id: PeerId)
    requires
        skips.len() == peers.len(),
        not_skipped(peers, skips).contains(peer_id),
    ensures
        exists|i: int| 0 <= i < peers.len() && (#[trigger] peers[i]).peer_id == peer_id && !skips[i],
    decreases peers.len(),
{
    if peers.len() > 0 {
        let rest = peers.drop_last();
        let flagged = skips.drop_last();
        let before = not_skipped(rest, flagged);
        let all = not_skipped(peers, skips);
        let k = choose|k: int| 0 <= k < all.len() && all[k] == peer_id;
        if k < before.len() {
            assert(before[k] == peer_id);
            law_skipped_peers_are_not_left(rest, flagged, peer_id);
            let i = choose|i: int|
                0 <= i < rest.len() && (#[trigger] rest[i]).peer_id == peer_id && !flagged[i];
            assert(peers[i].peer_id == peer_id && !skips[i]);
        } else {
            assert(peers[peers.len() - 1].peer_id == peer_id && !skips[peers.len() - 1]);
        }
    }
}

/// This node is always skipped; a peer that is connected directly is, unless transports are ranked. Other
/// peers are skipped only because they do not know the service or what is aimed at is reached.
pub proof fn law_why_peers_are_skipped(
    manager: DirectConnectorManager,
    my_peer_id: PeerId,
    priority_enabled: bool,
    peer: DirectPeer,
)
    ensures
        DirectConnectorManager::must_skip(my_peer_id, priority_enabled, peer) <==> peer.peer_id
            == my_peer_id || (peer.directly_connected && !priority_enabled),
        manager.may_skip(my_peer_id, priority_enabled, peer) && peer.peer_id != my_peer_id && !(
        peer.directly_connected && !priority_enabled) ==> manager.peer_black_list@.contains_key(
            peer.peer_id,
        ) || (priority_enabled && manager.preferred_direct_targets@.contains_key(peer.peer_id)
            && peer.current is Some && !manager.preferred_direct_targets@[peer.peer_id].target.before(
            peer.current->0,
        )),
        manager.peer_black_list@.contains_key(peer.peer_id) ==> manager.may_skip(
            my_peer_id,
            priority_enabled,
            peer,
        ),
{
}

/// Peers are looked for after the configuration was changed and after events were lost; lost events are
/// followed by a new subscription, and the end of the events by the end of listening.
pub proof fn law_what_follows_an_event(event: DirectEvent)
    ensures
        ({
            let step = DirectConnectorManager::step_after(event);
            &&& step.notify <==> event is ConfigPatched || event is Lagged
            &&& step.resubscribe <==> event is Lagged
            &&& step.stop <==> event is Closed
        }),
{
}

/// A URL is connected to unless what is aimed at is reached or the URL is left alone; the former is
/// looked at first.
pub proof fn law_rounds_of_a_url(run: UrlRun, satisfied: bool, listed: bool, end: UrlAttemptEnd)
    ensures
        UrlRun::round_step(satisfied, listed) is Connect <==> !satisfied && !listed,
        UrlRun::round_step(satisfied, listed) is UrlInBlacklist <==> !satisfied && listed,
        UrlRun::round_step(satisfied, listed) == UrlStep::Finished(
            DirectAttemptOutcome::AlreadySatisfied,
        ) <==> satisfied,
        run.lists_url(end, satisfied) <==> end == (UrlAttemptEnd::Failed { self_loop: true }) || (end == (
        UrlAttemptEnd::Failed { self_loop: false }) && !satisfied && run.backoff_idx >= 3),
        UrlRun::listed_secs(end) == 300 || UrlRun::listed_secs(end) == 30,
        UrlRun::listed_secs(end) == 300 <==> end == (UrlAttemptEnd::Failed { self_loop: true }),
{
}

/// The waiting times never get shorter: between the attempts at a URL they double from one second to four,
/// between the tries to connect to a peer they grow from one second to a minute.
pub proof fn law_waiting_times_grow(i: int, j: int)
    requires
        0 <= i <= j,
    ensures
        j < url_schedule().len() ==> 1_000 <= url_schedule()[i] <= url_schedule()[j] <= 4_000,
        url_schedule().len() == 3 && url_schedule()[0] == 1_000 && url_schedule()[1] == 2_000
            && url_schedule()[2] == 4_000,
        j < peer_schedule().len() ==> 1_000 <= peer_schedule()[i] <= peer_schedule()[j] <= 60_000,
        peer_schedule().len() == 8 && peer_schedule()[0] == 1_000 && peer_schedule()[7] == 60_000,
{
}

/// A UDP connection hides what it is just where the mode does not rule that out and stealth is in effect
/// for UDP.
pub proof fn law_udp_hides_unless_ruled_out(ctx: &GlobalCtx, mode: DirectStealthMode)
    ensures
        mode is Disabled ==> !udp_stealth_in_mode(ctx, mode),
        mode is Required || mode is PreferLegacyFallback ==> udp_stealth_in_mode(ctx, mode)
            == outer_session_enabled(ctx, StealthProtocol::Udp),
{
}

/// A failed attempt at a URL is repeated at most three times, after waits around one, two and four
/// seconds. A URL is left alone for five minutes if it leads back to this node and for thirty seconds if
/// the last attempt at it failed; nothing else is listed.
pub proof fn law_failed_urls_are_left_alone(
    run: &mut UrlRun,
    lists: &mut DirectConnectorManager,
    end: UrlAttemptEnd,
    satisfied: bool,
    r: UrlStep,
)
    requires
        old(run).wf(),
        call_ensures(UrlRun::record, (run, lists, end, satisfied), r),
    ensures
        end is Connected <==> r == UrlStep::Finished(
            DirectAttemptOutcome::Connected(old(run).preference_key),
        ),
        r == UrlStep::Finished(DirectAttemptOutcome::AlreadySatisfied) <==> end is Failed
            && !end->self_loop && satisfied,
        r is Wait <==> end is Failed && !end->self_loop && !satisfied && old(run).backoff_idx < 3,
        r is Wait && old(run).backoff_idx == 0 ==> 500 <= r->ms < 1500,
        r is Wait && old(run).backoff_idx == 1 ==> 1000 <= r->ms < 3000,
        r is Wait && old(run).backoff_idx == 2 ==> 2000 <= r->ms < 6000,
        r is Wait ==> final(run).backoff_idx == old(run).backoff_idx + 1,
        r !is Wait ==> final(run).backoff_idx == old(run).backoff_idx,
        forall|peer_id: PeerId, url: Seq<char>|
            #![auto]
            final(lists).dst_listener_blacklist@.contains_key((peer_id, url))
                <==> old(lists).dst_listener_blacklist@.contains_key((peer_id, url)) || (r is Fail
                && end is Failed && peer_id == old(run).dst_peer_id && url == old(run).url@),
        r is Fail && end is Failed && end->self_loop ==> final(lists).dst_listener_blacklist@[(
            old(run).dst_peer_id,
            old(run).url@,
        )] == 300,
        r is Fail && end is Failed && !end->self_loop ==> final(lists).dst_listener_blacklist@[(
            old(run).dst_peer_id,
            old(run).url@,
        )] == 30,
{
}

/// After a change of the configuration, or after lost events, nothing is aimed at; with a peer that is
/// gone, only what was aimed at for it is forgotten.
pub proof fn law_events_change_the_aims(
    lists: &mut DirectConnectorManager,
    event: DirectEvent,
    r: EventStep,
)
    requires
        call_ensures(DirectConnectorManager::handle_event, (lists, event), r),
    ensures
        forall|peer_id: PeerId|
            #![auto]
            final(lists).preferred_direct_targets@.contains_key(peer_id)
                <==> old(lists).preferred_direct_targets@.contains_key(peer_id) && event !is ConfigPatched
                && event !is Lagged && event != DirectEvent::PeerRemoved(peer_id),
        r.notify <==> event is ConfigPatched || event is Lagged,
        r.resubscribe <==> event is Lagged,
        r.stop <==> event is Closed,
{
}

/// A connection is kept just where it led to the expected peer, or in a test; only where the guard is in
/// force can another peer cost the expected one its default connection.
pub proof fn law_other_peers_are_closed(
    ctx: &mut GlobalCtx,
    dst_peer_id: PeerId,
    peer_id: PeerId,
    remote_url: &EndpointUrl,
    testing: bool,
    now_secs: u64,
    r: ConnectedPeerVerdict,
)
    requires
        old(ctx).wf(),
        call_ensures(
            judge_connected_peer,
            (ctx, dst_peer_id, peer_id, remote_url, testing, now_secs),
            r,
        ),
    ensures
        r is Keep <==> peer_id == dst_peer_id || testing,
        r is Close && r->invalidate_default_conn ==> old(ctx).flags.underlay_candidate_guard,
        r is Keep || !old(ctx).flags.underlay_candidate_guard ==> *final(ctx) == *old(ctx),
{
}

/// A peer is asked for packets just where this node has addresses: to each of them, at the local port, and
/// from the address that the URL names if that is an IPv6 address.
pub proof fn law_targets_are_the_own_addresses(
    ips: &Vec<u128>,
    local_port: u16,
    remote_url: &EndpointUrl,
    r: Option<(Vec<SocketAddress>, Option<u128>)>,
)
    requires
        call_ensures(ipv6_hole_punch_targets, (ips, local_port, remote_url), r),
    ensures
        r is Some <==> ips@.len() > 0,
        r is Some ==> (r->0).0@.len() == ips@.len(),
        r is Some ==> forall|i: int|
            0 <= i < ips@.len() ==> (#[trigger] (r->0).0@[i]).spec_ip() == IpAddress::V6(ips@[i])
                && (r->0).0@[i].spec_port() == local_port,
        r is Some && (r->0).1 is Some ==> remote_url.host@ == crate::endpoint_url::HostParts::Ipv6(
            (r->0).1->0,
        ),
        r is Some && remote_url.host@ is Ipv6 ==> (r->0).1 is Some,
{
}

/// The first round of a run starts at once and every later one after a wait. A round is begun for every
/// peer that is not listed, and the list changes for no other peer.
pub proof fn law_first_round_starts_at_once(
    run: &mut PeerRun,
    lists: &mut DirectConnectorManager,
    r: Result<u64, PeerBlacklisted>,
)
    requires
        old(run).wf(),
        call_ensures(PeerRun::begin_round, (run, lists), r),
    ensures
        !old(lists).peer_black_list@.contains_key(old(run).dst_peer_id) ==> r is Ok,
        r is Ok ==> final(run).attempted && !final(lists).peer_black_list@.contains_key(
            old(run).dst_peer_id,
        ),
        r is Ok && !old(run).attempted ==> r->Ok_0 == 0,
        r is Ok && old(run).attempted ==> r->Ok_0 > 0,
        r is Err ==> final(run).attempted == old(run).attempted,
        forall|peer_id: PeerId|
            #![auto]
            peer_id != old(run).dst_peer_id ==> (final(lists).peer_black_list@.contains_key(peer_id)
                <==> old(lists).peer_black_list@.contains_key(peer_id)),
{
}

/// Packets are asked for just of UDP listeners, at the listener's port. All addresses are named, the first
/// of them by itself, too, for peers that know of one address only.
pub proof fn law_packets_are_asked_of_udp_listeners(
    connector_addrs: Vec<SocketAddress>,
    preferred_src_ipv6: Option<u128>,
    remote_url: &EndpointUrl,
    agreed: &AgreedPorts,
    r: Result<HolePunchPacketRequest, HolePunchPacketError>,
)
    requires
        call_ensures(
            build_hole_punch_packet_request,
            (connector_addrs, preferred_src_ipv6, remote_url, agreed),
            r,
        ),
    ensures
        r is Ok <==> remote_url@.ip_scheme() == Some(IpScheme::Udp),
        r is Err ==> r->Err_0 is NotUdp,
        r is Ok ==> r->Ok_0.connector_addrs@ == connector_addrs@ && r->Ok_0.preferred_src_ipv6
            == preferred_src_ipv6,
        r is Ok && connector_addrs@.len() > 0 ==> r->Ok_0.connector_addr == Some(connector_addrs@[0]),
        r is Ok && connector_addrs@.len() == 0 ==> r->Ok_0.connector_addr is None,
        r is Ok && remote_url@.port is Some ==> r->Ok_0.listener_port == remote_url@.port->0,
{
}

} // verus!
