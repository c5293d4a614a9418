//! Punches holes over TCP. Both sides connect at the same time, so that either connection may come
//! about.
use vstd::prelude::*;

use crate::addr::{IpScheme, PeerId, SocketAddress};
use crate::blacklist::{AddressBlacklist, PeerBlacklist};
use crate::config::Flags;
use crate::connector::{
    is_p2p_wanted, p2p_wanted, ranked_hole_punch, should_attempt_ranked_hole_punch,
};
use crate::global_ctx::GlobalCtx;
use crate::hole_punch::{
    ask_lists, every_listed, handle_rpc_result, only_asked_leave, only_listed, BackOff, NatType,
    RouteFacts, RpcError, BLACKLIST_TIMEOUT_SEC, LOOP_BLACKLIST_TIMEOUT_SEC,
};
use crate::retry_backoff::{draw_between, next_position};
use crate::underlay_breaker::{
    any_gate, entries_for_attempt, UnderlayBreakerKey, UnderlayBreakerScope,
};

verus! {

/// How long connecting to a remote address is tried over and over, in milliseconds.
pub const CONNECT_WINDOW_MS: u64 = 10_000;

/// How long one try to connect may take, in milliseconds.
pub const CONNECT_TIMEOUT_MS: u64 = 3_000;

/// How long connections are accepted for, in milliseconds.
pub const ACCEPT_WINDOW_MS: u64 = 10_000;

/// How long a peer may take to answer, in milliseconds.
pub const RPC_TIMEOUT_MS: u64 = 6_000;

/// How often a node that was asked to connect tries it.
pub const SERVER_CONNECT_ATTEMPTS: u32 = 5;

/// The translation gives each destination a port of its own.
pub open spec fn symmetric(nat_type: NatType) -> bool {
    nat_type is Symmetric || nat_type is SymmetricEasyInc || nat_type is SymmetricEasyDec
}

pub fn is_symmetric_tcp_nat(nat_type: NatType) -> (r: bool)
    ensures
        r == symmetric(nat_type),
{
    match nat_type {
        NatType::Symmetric | NatType::SymmetricEasyInc | NatType::SymmetricEasyDec => true,
        _ => false,
    }
}

/// A node behind such a translation can be the one that punches.
pub open spec fn can_initiate(my_nat_type: NatType) -> bool {
    !symmetric(my_nat_type) && !(my_nat_type is Unknown)
}

/// The wildcard address of a version.
pub open spec fn wildcard_at(port: u16, is_v6: bool) -> SocketAddress {
    if is_v6 {
        SocketAddress::V6 { ipv6: 0, port, flowinfo: 0, scope_id: 0 }
    } else {
        SocketAddress::V4 { ipv4: 0, port }
    }
}

pub fn bind_addr_for_port(port: u16, is_v6: bool) -> (r: SocketAddress)
    ensures
        r == wildcard_at(port, is_v6),
        r.spec_ip().unspecified(),
        r.spec_port() == port,
{
    if is_v6 {
        SocketAddress::V6 { ipv6: 0, port, flowinfo: 0, scope_id: 0 }
    } else {
        SocketAddress::V4 { ipv4: 0, port }
    }
}

/// Connecting to a remote address, over and over until it succeeds or takes too long.
#[derive(Clone, Copy, Debug, PartialEq, Eq, Structural)]
pub struct RemoteConnect {
    pub remote: SocketAddress,
    /// Where connections start from.
    pub bind: SocketAddress,
    /// The node plays the client's part in what follows a connection.
    pub is_client: bool,
    pub max_attempts: u32,
    /// The peer that the address belongs to. It is left alone if it turns out to be this node.
    pub expected_peer_id: Option<PeerId>,
    /// The address is left alone if it turns out to be this node's.
    pub lists_address: bool,
    pub attempts: u32,
}

/// What to do next.
#[derive(Clone, Copy, Debug, PartialEq, Eq, Structural)]
pub enum ConnectStep {
    /// Try to connect. The first try makes use of the permission that was asked for, if one was.
    Connect { commit_preflight: bool },
    /// Nothing is to be done: the address is left alone, or loops are suppressed.
    Skip,
    TimedOut,
}

/// What came of a try.
#[derive(Clone, Copy, Debug, PartialEq, Eq, Structural)]
pub enum ConnectOutcome {
    NotConnected,
    Added,
    /// There was a connection, but the peer could not be added by it, perhaps because it turned out
    /// to be this node.
    AddFailed { self_loop: bool },
}

/// What a try means for going on.
#[derive(Clone, Copy, Debug, PartialEq, Eq, Structural)]
pub enum ConnectVerdict {
    /// Try again after a while.
    Wait { ms: u64 },
    Retry,
    Connected,
    Failed,
}

/// Why a connection is not tried at all.
#[derive(Clone, Copy, Debug, PartialEq, Eq, Structural)]
pub struct PeerGated;

/// The breaker's key of a peer to which holes are punched.
pub open spec fn punch_key(peer_id: PeerId) -> UnderlayBreakerKey {
    UnderlayBreakerKey::Peer {
        peer_id,
        scheme: IpScheme::Tcp,
        scope: UnderlayBreakerScope::HolePunch,
    }
}

impl RemoteConnect {
    /// The step that starts a round, given whether the address is left alone.
    pub open spec fn round_step(&self, elapsed_ms: u64, listed: bool, suppressed: bool) -> ConnectStep {
        if elapsed_ms >= CONNECT_WINDOW_MS || self.attempts >= self.max_attempts {
            ConnectStep::TimedOut
        } else if listed || suppressed {
            ConnectStep::Skip
        } else {
            ConnectStep::Connect { commit_preflight: self.is_client && self.attempts == 0 }
        }
    }

    /// The address may be left alone.
    pub open spec fn may_be_listed(&self, lists: &TcpHolePunchConnector) -> bool {
        self.lists_address && lists.loop_addr_blacklist@.contains_key(self.remote)
    }

    /// Checks that the breaker lets the peer be tried. Only a client asks it.
    pub fn check_gate(&self, ctx: &mut GlobalCtx, now_secs: u64) -> (r: Result<(), PeerGated>)
        requires
            old(ctx).wf(),
        ensures
            final(ctx).wf(),
            *final(ctx) == (GlobalCtx { breaker: final(ctx).breaker, ..*old(ctx) }),
            !(self.is_client && self.expected_peer_id is Some && old(ctx).flags.underlay_candidate_guard) ==> r is Ok && *final(ctx) == *old(ctx),
            self.is_client && self.expected_peer_id is Some && old(ctx).flags.underlay_candidate_guard ==> final(ctx).breaker@ == entries_for_attempt(
                old(ctx).breaker@,
                seq![punch_key(self.expected_peer_id->0)],
                now_secs,
            ) && r is Err == any_gate(
                final(ctx).breaker@,
                seq![punch_key(self.expected_peer_id->0)],
                now_secs,
            ),
    {
        if !self.is_client {
            return Ok(());
        }
        if let Some(peer_id) = self.expected_peer_id {
            let mut keys: Vec<UnderlayBreakerKey> = Vec::new();
            keys.push(
                UnderlayBreakerKey::peer(peer_id, IpScheme::Tcp, UnderlayBreakerScope::HolePunch),
            );
            assert(keys@ =~= seq![punch_key(peer_id)]);
            if ctx.is_underlay_attempt_blocked_at(keys.as_slice(), now_secs) {
                return Err(PeerGated);
            }
        }
        Ok(())
    }

    /// Tells what starts a round, given whether the address is left alone.
    pub fn step_for(&self, elapsed_ms: u64, listed: bool, suppressed: bool) -> (r: ConnectStep)
        ensures
            r == self.round_step(elapsed_ms, listed, suppressed),
    {
        if elapsed_ms >= CONNECT_WINDOW_MS || self.attempts >= self.max_attempts {
            ConnectStep::TimedOut
        } else if listed || suppressed {
            ConnectStep::Skip
        } else {
            ConnectStep::Connect { commit_preflight: self.is_client && self.attempts == 0 }
        }
    }

    /// The list of addresses is asked in a round: not beyond the bounds, and only where addresses
    /// are left alone.
    pub open spec fn asks_list(&self, elapsed_ms: u64) -> bool {
        self.lists_address && elapsed_ms < CONNECT_WINDOW_MS && self.attempts < self.max_attempts
    }

    /// Starts a round. An address that is on the list is not connected to.
    pub fn begin_round(
        &mut self,
        lists: &mut TcpHolePunchConnector,
        elapsed_ms: u64,
        suppressed: bool,
    ) -> (r: ConnectStep)
        ensures
            exists|listed: bool|
                (listed ==> old(self).may_be_listed(old(lists))) && r == #[trigger] old(self).round_step(elapsed_ms, listed, suppressed) && final(lists).loop_addr_blacklist@
                    == (if listed || !old(self).asks_list(elapsed_ms) {
                    old(lists).loop_addr_blacklist@
                } else {
                    old(lists).loop_addr_blacklist@.remove(old(self).remote)
                }),
            r is Connect && old(self).lists_address
                ==> !final(lists).loop_addr_blacklist@.contains_key(old(self).remote),
            *final(self) == (RemoteConnect {
                attempts: if r is Connect {
                    (old(self).attempts + 1) as u32
                } else {
                    old(self).attempts
                },
                ..*old(self)
            }),
            final(lists).blacklist == old(lists).blacklist,
            final(lists).loop_blacklist == old(lists).loop_blacklist,
    {
        let asks = self.lists_address && elapsed_ms < CONNECT_WINDOW_MS && self.attempts
            < self.max_attempts;
        if asks {
            lists.loop_addr_blacklist.cleanup();
        }
        let listed = asks && lists.loop_addr_blacklist.contains(self.remote);
        let step = self.step_for(elapsed_ms, listed, suppressed);
        match step {
            ConnectStep::Connect { .. } => {
                self.attempts = self.attempts + 1;
            },
            _ => {},
        }
        step
    }

    /// A peer or an address that turned out to be this node is left alone from now on.
    pub open spec fn lists_loop(&self, outcome: ConnectOutcome) -> bool {
        outcome == (ConnectOutcome::AddFailed { self_loop: true })
    }

    /// Takes in what came of a try.
    pub fn record(
        &self,
        lists: &mut TcpHolePunchConnector,
        outcome: ConnectOutcome,
        suppressed: bool,
    ) -> (r: ConnectVerdict)
        ensures
            match outcome {
                ConnectOutcome::NotConnected => r is Wait && 10 <= r->ms < 100,
                ConnectOutcome::Added => r == ConnectVerdict::Connected,
                ConnectOutcome::AddFailed { self_loop } => r == (if suppressed || (self_loop && (
                self.expected_peer_id is Some || self.lists_address)) {
                    ConnectVerdict::Failed
                } else {
                    ConnectVerdict::Retry
                }),
            },
            final(lists).blacklist == old(lists).blacklist,
            final(lists).loop_blacklist@ == (if self.lists_loop(outcome)
                && self.expected_peer_id is Some {
                old(lists).loop_blacklist@.insert(
                    self.expected_peer_id->0,
                    LOOP_BLACKLIST_TIMEOUT_SEC,
                )
            } else {
                old(lists).loop_blacklist@
            }),
            final(lists).loop_addr_blacklist@ == (if self.lists_loop(outcome)
                && self.expected_peer_id is None && self.lists_address {
                old(lists).loop_addr_blacklist@.insert(self.remote, LOOP_BLACKLIST_TIMEOUT_SEC)
            } else {
                old(lists).loop_addr_blacklist@
            }),
    {
        match outcome {
            ConnectOutcome::NotConnected => ConnectVerdict::Wait { ms: draw_between(10, 100) },
            ConnectOutcome::Added => ConnectVerdict::Connected,
            ConnectOutcome::AddFailed { self_loop } => {
                if self_loop {
                    if let Some(peer_id) = self.expected_peer_id {
                        lists.blacklist_loop_peer(peer_id);
                        return ConnectVerdict::Failed;
                    }
                    if self.lists_address {
                        lists.loop_addr_blacklist.insert(self.remote, LOOP_BLACKLIST_TIMEOUT_SEC);
                        return ConnectVerdict::Failed;
                    }
                }
                if suppressed {
                    return ConnectVerdict::Failed;
                }
                ConnectVerdict::Retry
            },
        }
    }
}

/// A peer's request is refused.
#[derive(Clone, Copy, Debug, PartialEq, Eq, Structural)]
pub enum ExchangeError {
    /// This node does not know how its address is translated.
    UnknownNat,
    MissingAddress,
    MalformedAddress,
}

/// What a request to connect to `mapped_addr` is answered.
pub open spec fn exchange_result(
    my_nat_type: NatType,
    mapped_addr: Option<SocketAddress>,
) -> Result<SocketAddress, ExchangeError> {
    if my_nat_type is Unknown {
        Err(ExchangeError::UnknownNat)
    } else {
        match mapped_addr {
            None => Err(ExchangeError::MissingAddress),
            Some(addr) => if addr.spec_ip().unspecified() || addr.spec_ip().multicast() {
                Err(ExchangeError::MalformedAddress)
            } else {
                Ok(addr)
            },
        }
    }
}

/// Checks a peer's request to connect to its mapped address.
pub fn check_exchange_request(
    my_nat_type: NatType,
    mapped_addr: Option<SocketAddress>,
) -> (r: Result<SocketAddress, ExchangeError>)
    ensures
        r == exchange_result(my_nat_type, mapped_addr),
{
    match my_nat_type {
        NatType::Unknown => {
            return Err(ExchangeError::UnknownNat);
        },
        _ => {},
    }
    match mapped_addr {
        None => Err(ExchangeError::MissingAddress),
        Some(addr) => {
            let ip = addr.ip();
            if ip.is_unspecified() || ip.is_multicast() {
                return Err(ExchangeError::MalformedAddress);
            }
            Ok(addr)
        },
    }
}

/// How a node that was asked to connect does so: as a client, a few times, without knowing the peer.
pub open spec fn answering_connect(remote: SocketAddress, local_port: u16) -> RemoteConnect {
    RemoteConnect {
        remote,
        bind: wildcard_at(local_port, remote is V6),
        is_client: true,
        max_attempts: SERVER_CONNECT_ATTEMPTS,
        expected_peer_id: None,
        lists_address: true,
        attempts: 0,
    }
}

/// How a node that punches connects: once, as a server, to a peer that it knows.
pub open spec fn initiating_connect(
    remote: SocketAddress,
    local_port: u16,
    dst_peer_id: PeerId,
) -> RemoteConnect {
    RemoteConnect {
        remote,
        bind: wildcard_at(local_port, remote is V6),
        is_client: false,
        max_attempts: 1,
        expected_peer_id: Some(dst_peer_id),
        lists_address: false,
        attempts: 0,
    }
}

pub fn connect_for_exchange(remote: SocketAddress, local_port: u16) -> (r: RemoteConnect)
    ensures
        r == answering_connect(remote, local_port),
{
    RemoteConnect {
        remote,
        bind: bind_addr_for_port(local_port, !remote.is_ipv4()),
        is_client: true,
        max_attempts: SERVER_CONNECT_ATTEMPTS,
        expected_peer_id: None,
        lists_address: true,
        attempts: 0,
    }
}

/// A peer to which a hole is to be punched.
#[derive(Clone, Copy, Debug, PartialEq, Eq, Structural)]
pub struct TcpPunchTaskInfo {
    pub dst_peer_id: PeerId,
}

/// Why punching failed.
#[derive(Clone, Copy, Debug, PartialEq, Eq, Structural)]
pub enum PunchError {
    Rpc(RpcError),
    /// The peer did not say where it listens.
    MissingListenerAddress,
}

/// What follows a try to connect to the peer.
#[derive(Clone, Copy, Debug, PartialEq, Eq, Structural)]
pub enum PunchStep {
    Done,
    /// Listen on the port from which the connection was tried, and accept connections for a while.
    Listen,
}

/// What came of accepting a connection.
#[derive(Clone, Copy, Debug, PartialEq, Eq, Structural)]
pub enum AcceptOutcome {
    AcceptFailed,
    Added,
    AddFailed { self_loop: bool },
}

/// A hole to the peer is wanted and can be punched.
pub open spec fn wants_tcp_hole(flags: Flags, my_peer_id: PeerId, route: RouteFacts) -> bool {
    let priority_enabled = flags.transport_priority@.len() > 0;
    &&& p2p_wanted(
        route.feature_flag,
        false,
        flags,
        route.has_recent_traffic,
        priority_enabled,
        route.has_peer,
    )
    &&& route.peer_id != my_peer_id
    &&& ranked_hole_punch(
        route.has_peer,
        priority_enabled,
        route.has_live_transport,
        route.candidate_improves,
    )
    &&& route.nat_type is Some
    &&& !(route.nat_type->0 is Unknown)
}

pub fn is_tcp_hole_wanted(flags: &Flags, my_peer_id: PeerId, route: &RouteFacts) -> (r: bool)
    ensures
        r == wants_tcp_hole(*flags, my_peer_id, *route),
{
    let priority_enabled = !flags.transport_priority.as_str().is_empty();
    let feature = match &route.feature_flag {
        Some(feature) => Some(feature),
        None => None,
    };
    let nat_known = match route.nat_type {
        None => false,
        Some(NatType::Unknown) => false,
        Some(_) => true,
    };
    is_p2p_wanted(
        feature,
        false,
        flags,
        route.has_recent_traffic,
        priority_enabled,
        route.has_peer,
    ) && route.peer_id != my_peer_id && should_attempt_ranked_hole_punch(
        route.has_peer,
        priority_enabled,
        route.has_live_transport,
        route.candidate_improves,
    ) && nat_known
}

/// The tasks for the peers to which a hole is wanted, without those that are left alone.
pub open spec fn tcp_tasks_of(
    flags: Flags,
    my_peer_id: PeerId,
    routes: Seq<RouteFacts>,
    left_alone: Seq<bool>,
) -> Seq<TcpPunchTaskInfo>
    decreases routes.len(),
{
    if routes.len() == 0 {
        Seq::empty()
    } else {
        let before = tcp_tasks_of(flags, my_peer_id, routes.drop_last(), left_alone.drop_last());
        if wants_tcp_hole(flags, my_peer_id, routes.last()) && !left_alone.last() {
            before.push(TcpPunchTaskInfo { dst_peer_id: routes.last().peer_id })
        } else {
            before
        }
    }
}

/// Lists the tasks for the peers to which a hole is wanted, given which of them are left alone.
pub fn tcp_tasks(
    flags: &Flags,
    my_peer_id: PeerId,
    routes: &Vec<RouteFacts>,
    left_alone: &Vec<bool>,
) -> (r: Vec<TcpPunchTaskInfo>)
    requires
        left_alone@.len() == routes@.len(),
    ensures
        r@ == tcp_tasks_of(*flags, my_peer_id, routes@, left_alone@),
{
    let mut tasks: Vec<TcpPunchTaskInfo> = Vec::new();
    let mut i: usize = 0;
    assert(routes@.take(0) =~= Seq::<RouteFacts>::empty());
    while i < routes.len()
        invariant
            i <= routes@.len(),
            left_alone@.len() == routes@.len(),
            tasks@ == tcp_tasks_of(
                *flags,
                my_peer_id,
                routes@.take(i as int),
                left_alone@.take(i as int),
            ),
        decreases routes@.len() - i,
    {
        let route = &routes[i];
        proof {
            assert(routes@.take(i as int + 1).drop_last() =~= routes@.take(i as int));
            assert(left_alone@.take(i as int + 1).drop_last() =~= left_alone@.take(i as int));
        }
        if !left_alone[i] && is_tcp_hole_wanted(flags, my_peer_id, route) {
            tasks.push(TcpPunchTaskInfo { dst_peer_id: route.peer_id });
        }
        i += 1;
    }
    assert(routes@.take(routes@.len() as int) =~= routes@);
    assert(left_alone@.take(routes@.len() as int) =~= left_alone@);
    tasks
}

/// The node's part in punching holes.
pub struct TcpHolePunchConnector {
    /// Peers that do not know the service.
    pub blacklist: PeerBlacklist,
    /// Peers that turned out to be this node.
    pub loop_blacklist: PeerBlacklist,
    /// Addresses that turned out to be this node's.
    pub loop_addr_blacklist: AddressBlacklist,
}

impl TcpHolePunchConnector {
    pub fn new() -> (r: Self)
        ensures
            r.blacklist@ == Map::<u32, u64>::empty(),
            r.loop_blacklist@ == Map::<u32, u64>::empty(),
            r.loop_addr_blacklist@ == Map::<SocketAddress, u64>::empty(),
    {
        TcpHolePunchConnector {
            blacklist: PeerBlacklist::new(),
            loop_blacklist: PeerBlacklist::new(),
            loop_addr_blacklist: AddressBlacklist::new(),
        }
    }

    /// Leaves a peer alone that turned out to be this node.
    pub fn blacklist_loop_peer(&mut self, dst_peer_id: PeerId)
        ensures
            final(self).loop_blacklist@ == old(self).loop_blacklist@.insert(
                dst_peer_id,
                LOOP_BLACKLIST_TIMEOUT_SEC,
            ),
            final(self).blacklist == old(self).blacklist,
            final(self).loop_addr_blacklist == old(self).loop_addr_blacklist,
    {
        self.loop_blacklist.insert(dst_peer_id, LOOP_BLACKLIST_TIMEOUT_SEC);
    }

    /// Lists the peers to which holes are to be punched. Nothing is done while loops are
    /// suppressed, nor by a node that cannot be the one that punches.
    pub fn collect_peers_need_task(
        &mut self,
        flags: &Flags,
        my_peer_id: PeerId,
        my_nat_type: NatType,
        routes: &Vec<RouteFacts>,
        suppressed: bool,
    ) -> (r: Vec<TcpPunchTaskInfo>)
        ensures
            suppressed || !can_initiate(my_nat_type) ==> r@.len() == 0 && *final(self) == *old(self),
            !suppressed && can_initiate(my_nat_type) ==> exists|left_alone: Seq<bool>|
                #[trigger] only_listed(
                    routes@,
                    left_alone,
                    old(self).blacklist@.dom().union(old(self).loop_blacklist@.dom()),
                ) && every_listed(
                    routes@,
                    left_alone,
                    final(self).blacklist@.dom().union(final(self).loop_blacklist@.dom()),
                ) && r@ == tcp_tasks_of(*flags, my_peer_id, routes@, left_alone),
            only_asked_leave(old(self).blacklist@, final(self).blacklist@, routes@),
            only_asked_leave(old(self).loop_blacklist@, final(self).loop_blacklist@, routes@),
            final(self).loop_addr_blacklist == old(self).loop_addr_blacklist,
    {
        let unknown = match my_nat_type {
            NatType::Unknown => true,
            _ => false,
        };
        if suppressed || is_symmetric_tcp_nat(my_nat_type) || unknown {
            return Vec::new();
        }
        self.blacklist.cleanup();
        self.loop_blacklist.cleanup();
        let left_alone = ask_lists(&mut self.blacklist, &mut self.loop_blacklist, routes);
        tcp_tasks(flags, my_peer_id, routes, &left_alone)
    }

    /// Tells whether punching goes on beyond its first checks, given whether the peer is left alone.
    pub open spec fn goes_on(listed: bool, suppressed: bool, my_nat_type: NatType) -> bool {
        !listed && !suppressed && can_initiate(my_nat_type)
    }

    /// Tells whether punching goes on, given whether the peer is left alone.
    pub fn is_going_on(listed: bool, suppressed: bool, my_nat_type: NatType) -> (r: bool)
        ensures
            r == Self::goes_on(listed, suppressed, my_nat_type),
    {
        let unknown = match my_nat_type {
            NatType::Unknown => true,
            _ => false,
        };
        !listed && !suppressed && !is_symmetric_tcp_nat(my_nat_type) && !unknown
    }

    /// Starts to punch a hole, not to a peer that is on the list of loops. Otherwise there is nothing
    /// to be done.
    pub fn begin_punch(&mut self, dst_peer_id: PeerId, suppressed: bool, my_nat_type: NatType) -> (r:
        bool)
        ensures
            exists|listed: bool|
                (listed ==> old(self).loop_blacklist@.contains_key(dst_peer_id))
                    && r == #[trigger] Self::goes_on(listed, suppressed, my_nat_type) && final(self).loop_blacklist@ == (if listed {
                    old(self).loop_blacklist@
                } else {
                    old(self).loop_blacklist@.remove(dst_peer_id)
                }),
            r ==> !final(self).loop_blacklist@.contains_key(dst_peer_id),
            final(self).blacklist == old(self).blacklist,
            final(self).loop_addr_blacklist == old(self).loop_addr_blacklist,
    {
        let listed = self.loop_blacklist.contains(dst_peer_id);
        Self::is_going_on(listed, suppressed, my_nat_type)
    }

    /// Takes in what the peer answered when it was asked to connect, and tells how to connect to it.
    pub fn after_exchange(
        &mut self,
        dst_peer_id: PeerId,
        local_port: u16,
        reply: Result<Option<SocketAddress>, RpcError>,
    ) -> (r: Result<RemoteConnect, PunchError>)
        ensures
            r == (match reply {
                Err(error) => Err::<RemoteConnect, PunchError>(PunchError::Rpc(error)),
                Ok(None) => Err(PunchError::MissingListenerAddress),
                Ok(Some(remote)) => Ok(initiating_connect(remote, local_port, dst_peer_id)),
            }),
            final(self).loop_blacklist == old(self).loop_blacklist,
            final(self).loop_addr_blacklist == old(self).loop_addr_blacklist,
            final(self).blacklist@ == (if reply is Err && reply->Err_0
                == RpcError::InvalidServiceKey {
                old(self).blacklist@.insert(dst_peer_id, BLACKLIST_TIMEOUT_SEC)
            } else {
                old(self).blacklist@
            }),
    {
        match handle_rpc_result(reply, dst_peer_id, &mut self.blacklist) {
            Err(error) => Err(PunchError::Rpc(error)),
            Ok(None) => Err(PunchError::MissingListenerAddress),
            Ok(Some(remote)) => Ok(
                RemoteConnect {
                    remote,
                    bind: bind_addr_for_port(local_port, !remote.is_ipv4()),
                    is_client: false,
                    max_attempts: 1,
                    expected_peer_id: Some(dst_peer_id),
                    lists_address: false,
                    attempts: 0,
                },
            ),
        }
    }

    /// What follows a try to connect, given whether the peer is left alone.
    pub open spec fn step_after_connect(connected: bool, listed: bool) -> PunchStep {
        if connected || listed {
            PunchStep::Done
        } else {
            PunchStep::Listen
        }
    }

    /// Tells what follows a try to connect, given whether the peer is left alone.
    pub fn step_for(connected: bool, listed: bool) -> (r: PunchStep)
        ensures
            r == Self::step_after_connect(connected, listed),
    {
        if connected || listed {
            PunchStep::Done
        } else {
            PunchStep::Listen
        }
    }

    /// Takes in whether the peer was connected. One that is on the list of loops is not listened for.
    pub fn after_connect(&mut self, dst_peer_id: PeerId, connected: bool) -> (r: PunchStep)
        ensures
            exists|listed: bool|
                (listed ==> old(self).loop_blacklist@.contains_key(dst_peer_id))
                    && r == #[trigger] Self::step_after_connect(connected, listed) && final(self).loop_blacklist@ == (if listed || connected {
                    old(self).loop_blacklist@
                } else {
                    old(self).loop_blacklist@.remove(dst_peer_id)
                }),
            r == PunchStep::Listen ==> !final(self).loop_blacklist@.contains_key(dst_peer_id),
            final(self).blacklist == old(self).blacklist,
            final(self).loop_addr_blacklist == old(self).loop_addr_blacklist,
    {
        let listed = !connected && self.loop_blacklist.contains(dst_peer_id);
        Self::step_for(connected, listed)
    }

    /// Takes in what came of accepting a connection. Accepting goes on, even after a connection,
    /// until a loop shows or the time is up. Gives whether it goes on.
    pub fn judge_accept(&mut self, dst_peer_id: PeerId, outcome: AcceptOutcome, suppressed: bool) -> (r:
        bool)
        ensures
            r == match outcome {
                AcceptOutcome::AddFailed { self_loop } => !self_loop && !suppressed,
                _ => true,
            },
            final(self).blacklist == old(self).blacklist,
            final(self).loop_addr_blacklist == old(self).loop_addr_blacklist,
            final(self).loop_blacklist@ == (if outcome == (AcceptOutcome::AddFailed {
                self_loop: true,
            }) {
                old(self).loop_blacklist@.insert(dst_peer_id, LOOP_BLACKLIST_TIMEOUT_SEC)
            } else {
                old(self).loop_blacklist@
            }),
    {
        match outcome {
            AcceptOutcome::AddFailed { self_loop } => {
                if self_loop {
                    self.blacklist_loop_peer(dst_peer_id);
                    return false;
                }
                !suppressed
            },
            _ => true,
        }
    }
}

/// The waiting times between the tries to punch a hole, in milliseconds.
pub open spec fn tcp_punch_schedule() -> Seq<u64> {
    seq![1000, 1000, 4000, 8000]
}

/// Punching a hole to a peer, over and over until it is punched.
#[derive(Debug)]
pub struct InitiatorRun {
    pub dst_peer_id: PeerId,
    pub backoff: BackOff,
}

impl InitiatorRun {
    pub open spec fn wf(&self) -> bool {
        self.backoff.wf() && self.backoff.schedule() == tcp_punch_schedule()
    }

    pub fn new(dst_peer_id: PeerId) -> (r: Self)
        ensures
            r.wf(),
            r.dst_peer_id == dst_peer_id,
            r.backoff.position() == 0,
    {
        let mut schedule: Vec<u64> = Vec::new();
        schedule.push(1000);
        schedule.push(1000);
        schedule.push(4000);
        schedule.push(8000);
        assert(schedule@ =~= tcp_punch_schedule());
        InitiatorRun { dst_peer_id, backoff: BackOff::new(schedule) }
    }

    /// Starts a round: gives how long to wait before the next try. Ends the run for a peer that
    /// turned out to be this node, and while loops are suppressed.
    pub fn begin_round(&mut self, lists: &mut TcpHolePunchConnector, suppressed: bool) -> (r: Option<
        u64,
    >)
        requires
            old(self).wf(),
        ensures
            final(self).wf(),
            final(self).dst_peer_id == old(self).dst_peer_id,
            suppressed ==> r is None,
            r is None ==> final(self).backoff == old(self).backoff && (suppressed || old(lists).loop_blacklist@.contains_key(old(self).dst_peer_id)),
            r is Some ==> !final(lists).loop_blacklist@.contains_key(old(self).dst_peer_id),
            r is None && !suppressed ==> final(lists).loop_blacklist@ == old(lists).loop_blacklist@,
            r is Some ==> r->0 == tcp_punch_schedule()[old(self).backoff.position()] && final(self).backoff.position() == next_position(old(self).backoff.position(), 4),
            final(lists).blacklist == old(lists).blacklist,
            final(lists).loop_addr_blacklist == old(lists).loop_addr_blacklist,
            final(lists).loop_blacklist@ == old(lists).loop_blacklist@
                || final(lists).loop_blacklist@ == old(lists).loop_blacklist@.remove(
                old(self).dst_peer_id,
            ),
    {
        if lists.loop_blacklist.contains(self.dst_peer_id) || suppressed {
            return None;
        }
        Some(self.backoff.next_backoff())
    }

    /// Takes in whether the try succeeded. Gives whether to try again: not a peer that does not know
    /// the service.
    pub fn end_round(&self, lists: &mut TcpHolePunchConnector, succeeded: bool) -> (r: bool)
        ensures
            succeeded ==> !r,
            !r ==> succeeded || old(lists).blacklist@.contains_key(self.dst_peer_id),
            r ==> !final(lists).blacklist@.contains_key(self.dst_peer_id),
            final(lists).loop_blacklist == old(lists).loop_blacklist,
            final(lists).loop_addr_blacklist == old(lists).loop_addr_blacklist,
            final(lists).blacklist@ == (if r {
                old(lists).blacklist@.remove(self.dst_peer_id)
            } else {
                old(lists).blacklist@
            }),
    {
        if succeeded {
            return false;
        }
        !lists.blacklist.contains(self.dst_peer_id)
    }
}

/// Connecting is tried no more often than allowed and not beyond its time, nor at all while loops
/// are suppressed; within these bounds an address that is not left alone is tried.
pub proof fn law_connecting_is_bounded(
    run: RemoteConnect,
    elapsed_ms: u64,
    listed: bool,
    suppressed: bool,
)
    ensures
        run.round_step(elapsed_ms, listed, suppressed) is Connect <==> run.attempts
            < run.max_attempts && elapsed_ms < CONNECT_WINDOW_MS && !listed && !suppressed,
        answering_connect(run.remote, 0).max_attempts == 5,
        initiating_connect(run.remote, 0, 0).max_attempts == 1,
{
}

/// A peer that wants a hole and is on no list is not left out.
pub proof fn law_unlisted_peers_are_served(
    flags: Flags,
    my_peer_id: PeerId,
    routes: Seq<RouteFacts>,
    left_alone: Seq<bool>,
    listed: Set<u32>,
    i: int,
)
    requires
        only_listed(routes, left_alone, listed),
        0 <= i < routes.len(),
        wants_tcp_hole(flags, my_peer_id, routes[i]),
        !listed.contains(routes[i].peer_id),
    ensures
        tcp_tasks_of(flags, my_peer_id, routes, left_alone).contains(
            TcpPunchTaskInfo { dst_peer_id: routes[i].peer_id },
        ),
    decreases routes.len(),
{
    let before = tcp_tasks_of(flags, my_peer_id, routes.drop_last(), left_alone.drop_last());
    let all = tcp_tasks_of(flags, my_peer_id, routes, left_alone);
    let task = TcpPunchTaskInfo { dst_peer_id: routes[i].peer_id };
    if i == routes.len() - 1 {
        assert(!left_alone[i]);
        assert(all[all.len() - 1] == task);
    } else {
        assert(only_listed(routes.drop_last(), left_alone.drop_last(), listed)) by {
            assert forall|k: int|
                0 <= k < routes.len() - 1 && #[trigger] left_alone.drop_last()[k] implies listed.contains(
                routes.drop_last()[k].peer_id,
            ) by {
                assert(left_alone[k]);
            }
        }
        law_unlisted_peers_are_served(
            flags,
            my_peer_id,
            routes.drop_last(),
            left_alone.drop_last(),
            listed,
            i,
        );
        let k = choose|k: int| 0 <= k < before.len() && before[k] == task;
        assert(all[k] == task);
    }
}

/// A peer that is listed gets no task.
pub proof fn law_listed_peers_are_left_out(
    flags: Flags,
    my_peer_id: PeerId,
    routes: Seq<RouteFacts>,
    left_alone: Seq<bool>,
    listed: Set<u32>,
    peer_id: PeerId,
)
    requires
        every_listed(routes, left_alone, listed),
        listed.contains(peer_id),
    ensures
        forall|k: int|
            0 <= k < tcp_tasks_of(flags, my_peer_id, routes, left_alone).len() ==> (
            #[trigger] tcp_tasks_of(flags, my_peer_id, routes, left_alone)[k]).dst_peer_id != peer_id,
    decreases routes.len(),
{
    if routes.len() > 0 {
        let rest = routes.drop_last();
        let flagged = left_alone.drop_last();
        assert(every_listed(rest, flagged, listed)) by {
            assert forall|k: int| 0 <= k < rest.len() && !(#[trigger] flagged[k]) implies !listed.contains(
                rest[k].peer_id,
            ) by {
                assert(!left_alone[k]);
            }
        }
        law_listed_peers_are_left_out(flags, my_peer_id, rest, flagged, listed, peer_id);
        let all = tcp_tasks_of(flags, my_peer_id, routes, left_alone);
        let before = tcp_tasks_of(flags, my_peer_id, rest, flagged);
        assert forall|k: int| 0 <= k < all.len() implies (#[trigger] all[k]).dst_peer_id != peer_id by {
            if k < before.len() {
                assert(all[k] == before[k]);
            } else {
                assert(!left_alone[routes.len() - 1]);
            }
        }
    }
}

/// A node punches a hole over TCP unless its translation is unknown or gives each destination a port of
/// its own.
pub proof fn law_who_can_punch(my_nat_type: NatType)
    ensures
        can_initiate(my_nat_type) <==> my_nat_type is OpenInternet || my_nat_type is NoPat
            || my_nat_type is FullCone || my_nat_type is Restricted || my_nat_type is PortRestricted
            || my_nat_type is SymUdpFirewall,
        symmetric(my_nat_type) ==> !can_initiate(my_nat_type),
        symmetric(my_nat_type) <==> my_nat_type is Symmetric || my_nat_type is SymmetricEasyInc
            || my_nat_type is SymmetricEasyDec,
{
}

/// A wildcard address is of the version that is asked for, unspecified, and at the given port.
pub proof fn law_wildcards_are_unspecified(port: u16, is_v6: bool)
    ensures
        wildcard_at(port, is_v6).spec_port() == port,
        wildcard_at(port, is_v6) is V6 <==> is_v6,
        wildcard_at(port, is_v6).spec_ip() == (if is_v6 {
            crate::addr::IpAddress::V6(0)
        } else {
            crate::addr::IpAddress::V4(0)
        }),
{
}

/// Connecting ends after ten seconds or when no try is left, whatever else holds; an address that is
/// left alone is passed over, as is every address while loops are suppressed. Only the first try of a
/// client makes use of the permission that was asked for.
pub proof fn law_rounds_of_connecting(
    run: RemoteConnect,
    elapsed_ms: u64,
    listed: bool,
    suppressed: bool,
)
    ensures
        ({
            let step = run.round_step(elapsed_ms, listed, suppressed);
            let over = elapsed_ms >= 10_000 || run.attempts >= run.max_attempts;
            &&& step is TimedOut <==> over
            &&& step is Skip <==> !over && (listed || suppressed)
            &&& step is Connect <==> !over && !listed && !suppressed
            &&& step is Connect ==> (step->commit_preflight <==> run.is_client && run.attempts == 0)
            &&& run.asks_list(elapsed_ms) <==> !over && run.lists_address
        }),
{
}

/// A node that was asked connects to the very address, from the same port, as a client, up to five
/// times, to whoever answers; a node that punches connects once, as a server, to the peer it knows. Both
/// connect from an address of the same version.
pub proof fn law_how_both_sides_connect(remote: SocketAddress, local_port: u16, dst_peer_id: PeerId)
    ensures
        ({
            let asked = answering_connect(remote, local_port);
            let punching = initiating_connect(remote, local_port, dst_peer_id);
            &&& asked.remote == remote && punching.remote == remote
            &&& asked.bind.spec_port() == local_port && punching.bind.spec_port() == local_port
            &&& asked.bind is V6 <==> remote is V6
            &&& punching.bind is V6 <==> remote is V6
            &&& asked.is_client && !punching.is_client
            &&& asked.max_attempts == 5 && punching.max_attempts == 1
            &&& asked.expected_peer_id is None
            &&& punching.expected_peer_id == Some(dst_peer_id)
            &&& asked.lists_address && !punching.lists_address
            &&& asked.attempts == 0 && punching.attempts == 0
        }),
{
}

/// A request is answered with the address to connect to, and just where this node's translation is known
/// and the address is one that can be connected to.
pub proof fn law_requests_are_answered_with_their_address(
    my_nat_type: NatType,
    mapped_addr: Option<SocketAddress>,
)
    ensures
        ({
            let answer = exchange_result(my_nat_type, mapped_addr);
            &&& answer is Ok ==> mapped_addr == Some(answer->Ok_0)
            &&& answer is Ok <==> !(my_nat_type is Unknown) && mapped_addr is Some
                && !mapped_addr->0.spec_ip().unspecified() && !mapped_addr->0.spec_ip().multicast()
            &&& answer == Err::<SocketAddress, _>(ExchangeError::UnknownNat) <==> my_nat_type is Unknown
            &&& answer == Err::<SocketAddress, _>(ExchangeError::MissingAddress) <==> !(my_nat_type
                is Unknown) && mapped_addr is None
        }),
{
}

/// No hole is punched over TCP to this node itself, to a peer whose translation is unknown, to a public
/// server, nor, unless transports are ranked and the candidate is a better one than those in use, to a
/// peer that is connected. Where nobody minds direct connections and nobody is lazy, one is punched to
/// every other peer.
pub proof fn law_holes_are_punched_where_they_help(
    flags: Flags,
    my_peer_id: PeerId,
    route: RouteFacts,
)
    ensures
        wants_tcp_hole(flags, my_peer_id, route) ==> {
            &&& route.peer_id != my_peer_id
            &&& route.nat_type is Some && !(route.nat_type->0 is Unknown)
            &&& route.has_peer ==> flags.transport_priority@.len() > 0 && !route.has_live_transport
                && route.candidate_improves
            &&& route.feature_flag is Some ==> !route.feature_flag->0.is_public_server
            &&& flags.disable_p2p ==> route.feature_flag is Some && route.feature_flag->0.need_p2p
            &&& flags.lazy_p2p && !route.has_recent_traffic && !route.has_peer
                ==> route.feature_flag is Some && route.feature_flag->0.need_p2p
        },
        route.peer_id != my_peer_id && route.nat_type is Some && !(route.nat_type->0 is Unknown)
            && !route.has_peer && !flags.disable_p2p && (route.feature_flag is None || (
        !route.feature_flag->0.is_public_server && !route.feature_flag->0.disable_p2p)) && (
        !flags.lazy_p2p || route.has_recent_traffic) ==> wants_tcp_hole(flags, my_peer_id, route),
        route.peer_id != my_peer_id && route.nat_type is Some && !(route.nat_type->0 is Unknown)
            && route.has_peer && !flags.disable_p2p && (route.feature_flag is None || (
        !route.feature_flag->0.is_public_server && !route.feature_flag->0.disable_p2p))
            && flags.transport_priority@.len() > 0 && !route.has_live_transport
            && route.candidate_improves ==> wants_tcp_hole(flags, my_peer_id, route),
{
}

/// Every task is for a peer that wants a hole and is not left alone.
pub proof fn law_tasks_are_for_wanting_peers(
    flags: Flags,
    my_peer_id: PeerId,
    routes: Seq<RouteFacts>,
    left_alone: Seq<bool>,
    k: int,
) -> (i: int)
    requires
        routes.len() == left_alone.len(),
        0 <= k < tcp_tasks_of(flags, my_peer_id, routes, left_alone).len(),
    ensures
        0 <= i < routes.len(),
        wants_tcp_hole(flags, my_peer_id, routes[i]),
        !left_alone[i],
        tcp_tasks_of(flags, my_peer_id, routes, left_alone)[k].dst_peer_id == routes[i].peer_id,
    decreases routes.len(),
{
    let before = tcp_tasks_of(flags, my_peer_id, routes.drop_last(), left_alone.drop_last());
    if k < before.len() {
        law_tasks_are_for_wanting_peers(
            flags,
            my_peer_id,
            routes.drop_last(),
            left_alone.drop_last(),
            k,
        )
    } else {
        routes.len() - 1
    }
}

/// Punching goes on only to a peer that is not left alone, while loops are not suppressed, and only by a
/// node that can be the one that punches; after a try to connect, the node listens unless it is connected
/// or the peer turned out to be left alone.
pub proof fn law_punching_goes_on(
    listed: bool,
    suppressed: bool,
    my_nat_type: NatType,
    connected: bool,
)
    ensures
        listed || suppressed || my_nat_type is Unknown || my_nat_type is Symmetric
            ==> !TcpHolePunchConnector::goes_on(listed, suppressed, my_nat_type),
        !listed && !suppressed && (my_nat_type is FullCone || my_nat_type is Restricted || my_nat_type
            is PortRestricted || my_nat_type is OpenInternet) ==> TcpHolePunchConnector::goes_on(
            listed,
            suppressed,
            my_nat_type,
        ),
        TcpHolePunchConnector::step_after_connect(connected, listed) is Done <==> connected || listed,
        TcpHolePunchConnector::step_after_connect(connected, listed) is Listen <==> !connected
            && !listed,
{
}

/// The waiting times between tries never get shorter: from one second to eight.
pub proof fn law_waiting_times_grow(i: int, j: int)
    requires
        0 <= i <= j < tcp_punch_schedule().len(),
    ensures
        1_000 <= tcp_punch_schedule()[i] <= tcp_punch_schedule()[j] <= 8_000,
        tcp_punch_schedule().len() == 4,
        tcp_punch_schedule()[0] == 1_000 && tcp_punch_schedule()[3] == 8_000,
{
}

/// The breaker keeps hole punching to each peer apart from that to every other peer.
pub proof fn law_peers_are_gated_apart(a: PeerId, b: PeerId)
    ensures
        punch_key(a) == punch_key(b) <==> a == b,
        punch_key(a) is Peer,
        punch_key(a)->Peer_peer_id == a,
        punch_key(a)->Peer_scope is HolePunch,
        punch_key(a)->Peer_scheme is Tcp,
{
}

/// A remote address or peer that turned out to be this node is left alone for five minutes, and nothing
/// else is ever listed by a try to connect: the peer where it is known, or else the address where
/// addresses are listed. Such a try has failed, and one that added the peer has succeeded.
pub proof fn law_own_node_is_left_alone(
    connect: &RemoteConnect,
    lists: &mut TcpHolePunchConnector,
    outcome: ConnectOutcome,
    suppressed: bool,
    r: ConnectVerdict,
)
    requires
        call_ensures(RemoteConnect::record, (connect, lists, outcome, suppressed), r),
    ensures
        final(lists).blacklist == old(lists).blacklist,
        forall|peer_id: PeerId|
            #![auto]
            final(lists).loop_blacklist@.contains_key(peer_id) <==> old(lists).loop_blacklist@.contains_key(
                peer_id,
            ) || (outcome is AddFailed && outcome->self_loop && connect.expected_peer_id == Some(peer_id)),
        forall|addr: SocketAddress|
            #![auto]
            final(lists).loop_addr_blacklist@.contains_key(addr)
                <==> old(lists).loop_addr_blacklist@.contains_key(addr) || (outcome is AddFailed
                && outcome->self_loop && connect.expected_peer_id is None && connect.lists_address
                && connect.remote == addr),
        outcome is AddFailed && outcome->self_loop && connect.expected_peer_id is Some
            ==> final(lists).loop_blacklist@[connect.expected_peer_id->0] == 300,
        outcome is AddFailed && outcome->self_loop && connect.expected_peer_id is None
            && connect.lists_address ==> final(lists).loop_addr_blacklist@[connect.remote] == 300,
        r is Connected <==> outcome is Added,
        r is Wait <==> outcome is NotConnected,
        r is Wait ==> 10 <= r->ms < 100,
        r is Failed <==> outcome is AddFailed && (suppressed || (outcome->self_loop && (
        connect.expected_peer_id is Some || connect.lists_address))),
{
}

/// An answered exchange leads to one connection, to the address that was answered and for the peer that
/// was asked; a peer that does not know the request is left alone for an hour, and no other.
pub proof fn law_answers_are_connected_to(
    lists: &mut TcpHolePunchConnector,
    dst_peer_id: PeerId,
    local_port: u16,
    reply: Result<Option<SocketAddress>, RpcError>,
    r: Result<RemoteConnect, PunchError>,
)
    requires
        call_ensures(TcpHolePunchConnector::after_exchange, (lists, dst_peer_id, local_port, reply), r),
    ensures
        r is Ok <==> reply is Ok && reply->Ok_0 is Some,
        r is Ok ==> r->Ok_0.remote == reply->Ok_0->0 && r->Ok_0.expected_peer_id == Some(dst_peer_id)
            && r->Ok_0.max_attempts == 1 && r->Ok_0.attempts == 0 && !r->Ok_0.is_client,
        reply is Ok && reply->Ok_0 is None ==> r->Err_0 == PunchError::MissingListenerAddress,
        reply is Err ==> r->Err_0 == PunchError::Rpc(reply->Err_0),
        forall|peer_id: PeerId|
            #![auto]
            final(lists).blacklist@.contains_key(peer_id) <==> old(lists).blacklist@.contains_key(peer_id)
                || (reply is Err && reply->Err_0 is InvalidServiceKey && peer_id == dst_peer_id),
        reply is Err && reply->Err_0 is InvalidServiceKey ==> final(lists).blacklist@[dst_peer_id] == 3600,
{
}

/// Accepting goes on unless an accepted connection could not be added and the node is the peer itself or
/// suppressed; only a peer that is this node is listed by it, for five minutes.
pub proof fn law_accepting_goes_on(
    lists: &mut TcpHolePunchConnector,
    dst_peer_id: PeerId,
    outcome: AcceptOutcome,
    suppressed: bool,
    r: bool,
)
    requires
        call_ensures(TcpHolePunchConnector::judge_accept, (lists, dst_peer_id, outcome, suppressed), r),
    ensures
        !r <==> outcome is AddFailed && (outcome->AddFailed_self_loop || suppressed),
        forall|peer_id: PeerId|
            #![auto]
            final(lists).loop_blacklist@.contains_key(peer_id) <==> old(lists).loop_blacklist@.contains_key(
                peer_id,
            ) || (outcome is AddFailed && outcome->AddFailed_self_loop && peer_id == dst_peer_id),
        outcome is AddFailed && outcome->AddFailed_self_loop
            ==> final(lists).loop_blacklist@[dst_peer_id] == 300,
        final(lists).blacklist == old(lists).blacklist,
        final(lists).loop_addr_blacklist == old(lists).loop_addr_blacklist,
{
}

/// Only a node that plays the client's part towards a known peer asks the breaker, and only where the
/// guard is in force; any other connection is tried at once.
pub proof fn law_who_asks_the_breaker(
    connect: &RemoteConnect,
    ctx: &mut GlobalCtx,
    now_secs: u64,
    r: Result<(), PeerGated>,
)
    requires
        call_ensures(RemoteConnect::check_gate, (connect, ctx, now_secs), r),
    ensures
        r is Err ==> connect.is_client && connect.expected_peer_id is Some
            && old(ctx).flags.underlay_candidate_guard,
        !connect.is_client || connect.expected_peer_id is None || !old(ctx).flags.underlay_candidate_guard
            ==> r is Ok && *final(ctx) == *old(ctx),
{
}

/// A round is begun for every peer that is not listed and only for such peers, except that a node that is
/// suppressed begins none. Of the list nothing but the peer's own entry changes.
pub proof fn law_rounds_are_for_unlisted_peers(
    run: &mut InitiatorRun,
    lists: &mut TcpHolePunchConnector,
    suppressed: bool,
    r: Option<u64>,
)
    requires
        old(run).wf(),
        call_ensures(InitiatorRun::begin_round, (run, lists, suppressed), r),
    ensures
        r is Some ==> !suppressed && !final(lists).loop_blacklist@.contains_key(old(run).dst_peer_id),
        !suppressed && !old(lists).loop_blacklist@.contains_key(old(run).dst_peer_id) ==> r is Some,
        final(run).dst_peer_id == old(run).dst_peer_id,
        forall|peer_id: PeerId|
            #![auto]
            peer_id != old(run).dst_peer_id ==> (final(lists).loop_blacklist@.contains_key(peer_id)
                <==> old(lists).loop_blacklist@.contains_key(peer_id)),
{
}

/// A run goes on after a round that failed unless its peer is listed, and ends after one that succeeded.
pub proof fn law_runs_end_with_success(
    run: &InitiatorRun,
    lists: &mut TcpHolePunchConnector,
    succeeded: bool,
    r: bool,
)
    requires
        call_ensures(InitiatorRun::end_round, (run, lists, succeeded), r),
    ensures
        succeeded ==> !r,
        !succeeded && !old(lists).blacklist@.contains_key(run.dst_peer_id) ==> r,
        r ==> !final(lists).blacklist@.contains_key(run.dst_peer_id),
{
}

} // verus!
