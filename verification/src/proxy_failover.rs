//! Chooses how a proxied TCP connection is carried. The first packet of a connection is held back
//! while the transports to the target are tried, QUIC before KCP; where none can be had, the packet
//! goes on natively, as it came. Times are in nanoseconds.
use vstd::prelude::*;

use crate::addr::{IpAddress, PeerId};
use crate::global_ctx::GlobalCtx;
use crate::indexed_table::IndexedTable;
use crate::packet::{
    ipv4_payload, is_tcp_packet, parse_tcp_packet, TcpPacketFields, TCP_FLAG_ACK, TCP_FLAG_SYN,
};
use crate::prepared_store::{
    waiting, with_prepared, without_prepared, FlowKey, PreparedKey, PreparedPlace,
    PreparedProxyStore, PreparedStreams,
};
use crate::proxy_prepare::ProxyPrepareFailureClass;
use crate::proxy_status::{
    latest_of, retain_latest_statuses, TcpProxyEntry, TcpProxyEntryState,
    TcpProxyEntryTransportType,
};
use crate::transport_health::{
    asked_of, cleared_of, recorded_of, tidied, time_since, HealthEntries, HealthEvent, HealthKey,
    HealthTable, HealthTransition, ProxyTransport, TransportHealth,
};

verus! {

/// How long the first packet of a connection is held back.
pub const PENDING_TTL: u64 = 5_000_000_000;

/// How long a decision is remembered.
pub const DECISION_TTL: u64 = 30_000_000_000;

/// How long a transport is given to prepare a stream.
pub const PREPARE_TIMEOUT: u64 = 1_000_000_000;

/// How long a transport may take beyond its time to say itself that the time is up.
pub const PREPARE_GRACE: u64 = 10_000_000;

/// The number of connections that are held.
pub const MAX_PENDING_FLOWS: usize = 4096;

/// How often preparing starts anew because the target's peer has changed.
pub const MAX_ROUTE_RESTARTS: u8 = 2;

/// What a peer can do for proxied connections.
#[derive(Clone, Copy, Debug, PartialEq, Eq, Structural)]
pub struct CapabilitySnapshot {
    pub quic: bool,
    pub kcp: bool,
    pub prepare_ack_version: u32,
}

/// The peer through which a destination is reached.
#[derive(Clone, Copy, Debug, PartialEq, Eq, Structural)]
pub struct Route {
    pub peer: PeerId,
    pub capabilities: CapabilitySnapshot,
}

#[derive(Clone, Copy, Debug, PartialEq, Eq, Structural)]
pub enum FlowDecision {
    Pending,
    Native,
    Proxy(ProxyTransport),
}

/// Why a transport is not used for a connection.
#[derive(Clone, Copy, Debug, PartialEq, Eq, Structural)]
pub enum Shortfall {
    Degraded,
    PrepareFailed,
    DestinationFailed,
    PolicyDenied,
    RouteStale,
    BusinessTimeout,
    AmbiguousTimeout,
    PrepareTimeout,
}

/// The words for a transport that is not used.
pub open spec fn shortfall_words(transport: ProxyTransport, shortfall: Shortfall) -> Seq<char> {
    match transport {
        ProxyTransport::Quic => match shortfall {
            Shortfall::Degraded => "quic_degraded"@,
            Shortfall::PrepareFailed => "quic_prepare_failed"@,
            Shortfall::DestinationFailed => "quic_destination_failed"@,
            Shortfall::PolicyDenied => "quic_policy_denied"@,
            Shortfall::RouteStale => "quic_route_stale"@,
            Shortfall::BusinessTimeout => "quic_business_timeout"@,
            Shortfall::AmbiguousTimeout => "quic_ambiguous_timeout"@,
            Shortfall::PrepareTimeout => "quic_prepare_timeout"@,
        },
        ProxyTransport::Kcp => match shortfall {
            Shortfall::Degraded => "kcp_degraded"@,
            Shortfall::PrepareFailed => "kcp_prepare_failed"@,
            Shortfall::DestinationFailed => "kcp_destination_failed"@,
            Shortfall::PolicyDenied => "kcp_policy_denied"@,
            Shortfall::RouteStale => "kcp_route_stale"@,
            Shortfall::BusinessTimeout => "kcp_business_timeout"@,
            Shortfall::AmbiguousTimeout => "kcp_ambiguous_timeout"@,
            Shortfall::PrepareTimeout => "kcp_prepare_timeout"@,
        },
    }
}

fn shortfall_text(transport: ProxyTransport, shortfall: Shortfall) -> (r: &'static str)
    ensures
        r@ == shortfall_words(transport, shortfall),
{
    match transport {
        ProxyTransport::Quic => match shortfall {
            Shortfall::Degraded => "quic_degraded",
            Shortfall::PrepareFailed => "quic_prepare_failed",
            Shortfall::DestinationFailed => "quic_destination_failed",
            Shortfall::PolicyDenied => "quic_policy_denied",
            Shortfall::RouteStale => "quic_route_stale",
            Shortfall::BusinessTimeout => "quic_business_timeout",
            Shortfall::AmbiguousTimeout => "quic_ambiguous_timeout",
            Shortfall::PrepareTimeout => "quic_prepare_timeout",
        },
        ProxyTransport::Kcp => match shortfall {
            Shortfall::Degraded => "kcp_degraded",
            Shortfall::PrepareFailed => "kcp_prepare_failed",
            Shortfall::DestinationFailed => "kcp_destination_failed",
            Shortfall::PolicyDenied => "kcp_policy_denied",
            Shortfall::RouteStale => "kcp_route_stale",
            Shortfall::BusinessTimeout => "kcp_business_timeout",
            Shortfall::AmbiguousTimeout => "kcp_ambiguous_timeout",
            Shortfall::PrepareTimeout => "kcp_prepare_timeout",
        },
    }
}

/// The shortfall that a failure of each class is.
pub open spec fn shortfall_of(class: ProxyPrepareFailureClass) -> Shortfall {
    match class {
        ProxyPrepareFailureClass::Transport => Shortfall::PrepareFailed,
        ProxyPrepareFailureClass::Destination => Shortfall::DestinationFailed,
        ProxyPrepareFailureClass::Policy => Shortfall::PolicyDenied,
        ProxyPrepareFailureClass::RouteStale => Shortfall::RouteStale,
        ProxyPrepareFailureClass::BusinessTimeout => Shortfall::BusinessTimeout,
        ProxyPrepareFailureClass::AmbiguousTimeout => Shortfall::AmbiguousTimeout,
    }
}

fn shortfall_for(class: ProxyPrepareFailureClass) -> (r: Shortfall)
    ensures
        r == shortfall_of(class),
{
    match class {
        ProxyPrepareFailureClass::Transport => Shortfall::PrepareFailed,
        ProxyPrepareFailureClass::Destination => Shortfall::DestinationFailed,
        ProxyPrepareFailureClass::Policy => Shortfall::PolicyDenied,
        ProxyPrepareFailureClass::RouteStale => Shortfall::RouteStale,
        ProxyPrepareFailureClass::BusinessTimeout => Shortfall::BusinessTimeout,
        ProxyPrepareFailureClass::AmbiguousTimeout => Shortfall::AmbiguousTimeout,
    }
}

/// Why a connection is not carried by the best transport.
#[derive(Clone, Copy, Debug, PartialEq, Eq, Structural)]
pub enum FallbackReason {
    PendingTimeout,
    RouteMissing,
    RouteRestartLimit,
    ProxyDispatchFailed,
    AllProxyFailed,
    /// What was the matter with each transport that was looked at and not used.
    Transports { quic: Option<Shortfall>, kcp: Option<Shortfall> },
}

impl FallbackReason {
    pub open spec fn words(self) -> Seq<char> {
        match self {
            FallbackReason::PendingTimeout => "pending_timeout"@,
            FallbackReason::RouteMissing => "route_missing"@,
            FallbackReason::RouteRestartLimit => "route_restart_limit"@,
            FallbackReason::ProxyDispatchFailed => "proxy_dispatch_failed"@,
            FallbackReason::AllProxyFailed => "all_proxy_failed"@,
            FallbackReason::Transports { quic, kcp } => match (quic, kcp) {
                (None, None) => Seq::empty(),
                (Some(q), None) => shortfall_words(ProxyTransport::Quic, q),
                (None, Some(k)) => shortfall_words(ProxyTransport::Kcp, k),
                (Some(q), Some(k)) => shortfall_words(ProxyTransport::Quic, q) + ","@
                    + shortfall_words(ProxyTransport::Kcp, k),
            },
        }
    }

    pub fn text(&self) -> (r: String)
        ensures
            r@ == self.words(),
    {
        match self {
            FallbackReason::PendingTimeout => "pending_timeout".to_owned(),
            FallbackReason::RouteMissing => "route_missing".to_owned(),
            FallbackReason::RouteRestartLimit => "route_restart_limit".to_owned(),
            FallbackReason::ProxyDispatchFailed => "proxy_dispatch_failed".to_owned(),
            FallbackReason::AllProxyFailed => "all_proxy_failed".to_owned(),
            FallbackReason::Transports { quic, kcp } => {
                let mut out = String::new();
                if let Some(q) = quic {
                    out.append(shortfall_text(ProxyTransport::Quic, *q));
                }
                if let Some(k) = kcp {
                    if quic.is_some() {
                        out.append(",");
                    }
                    out.append(shortfall_text(ProxyTransport::Kcp, *k));
                }
                assert(out@ =~= self.words());
                out
            },
        }
    }
}

/// Where a packet was going when it was held back.
#[derive(Clone, Copy, Debug, PartialEq, Eq, Structural)]
pub struct NicPacketContext {
    pub ip_addr: IpAddress,
    pub not_send_to_self: bool,
}

/// A connection whose transport is being chosen or has been chosen.
#[derive(Debug)]
pub struct DeferredFlow {
    /// Tells this connection from others between the same ends.
    pub entry: u64,
    pub initial_sequence: u32,
    pub generation: u64,
    pub original_syn: Vec<u8>,
    pub context: NicPacketContext,
    pub dst_peer_id: PeerId,
    pub capabilities: CapabilitySnapshot,
    pub route_restarts: u8,
    pub decision: FlowDecision,
    pub fallback_reason: FallbackReason,
    pub created_unix: u64,
    pub created_at: u64,
    pub updated_at: u64,
}

impl DeferredFlow {
    /// The connection goes on natively.
    pub open spec fn made_native(self, reason: FallbackReason, now: u64) -> Self {
        DeferredFlow {
            decision: FlowDecision::Native,
            fallback_reason: reason,
            updated_at: now,
            ..self
        }
    }

    /// The connection is carried by a transport.
    pub open spec fn made_proxy(
        self,
        transport: ProxyTransport,
        reason: FallbackReason,
        now: u64,
    ) -> Self {
        DeferredFlow {
            decision: FlowDecision::Proxy(transport),
            fallback_reason: reason,
            updated_at: now,
            ..self
        }
    }

    /// Preparing starts anew with another peer.
    pub open spec fn rerouted(self, route: Route, generation: u64, now: u64) -> Self {
        DeferredFlow {
            generation,
            dst_peer_id: route.peer,
            capabilities: route.capabilities,
            route_restarts: (self.route_restarts + 1) as u8,
            updated_at: now,
            ..self
        }
    }

    pub open spec fn pending_for_too_long(self, now: u64) -> bool {
        self.decision is Pending && time_since(now, self.created_at) >= PENDING_TTL
    }

    pub open spec fn decided_long_ago(self, now: u64) -> bool {
        !(self.decision is Pending) && time_since(now, self.updated_at) >= DECISION_TTL
    }

    /// What a stream for this connection is prepared for.
    pub open spec fn prepared_key(self, flow: FlowKey, transport: ProxyTransport) -> PreparedKey {
        PreparedKey {
            flow,
            initial_sequence: self.initial_sequence,
            generation: self.generation,
            dst_peer_id: self.dst_peer_id,
            transport,
        }
    }
}

/// How a packet that goes to a transport is marked: it comes from and goes to this node.
#[derive(Clone, Copy, Debug, PartialEq, Eq, Structural)]
pub struct ProxyMark {
    pub transport: ProxyTransport,
    pub peer_id: PeerId,
}

/// A packet to be sent on.
#[derive(Debug)]
pub struct Dispatch {
    pub payload: Vec<u8>,
    pub context: NicPacketContext,
    pub mark: Option<ProxyMark>,
}

impl Dispatch {
    /// The first packet of the connection as it came, where it was going.
    pub open spec fn carries(self, flow: DeferredFlow, mark: Option<ProxyMark>) -> bool {
        self.payload@ == flow.original_syn@ && self.context == flow.context && self.mark == mark
    }
}

/// The ends and the sequence number of a packet that opens a TCP connection.
pub open spec fn opens(bytes: Seq<u8>, flow: FlowKey, initial_sequence: u32) -> bool {
    is_tcp_packet(bytes) && exists|fields: TcpPacketFields| #[trigger]
        fields.of(bytes) && fields.tcp.initial() && flow == (FlowKey {
            src: fields.spec_src(),
            dst: fields.spec_dst(),
        }) && initial_sequence == fields.tcp.sequence
}

/// The bytes are a packet that opens a TCP connection.
pub open spec fn is_opening(bytes: Seq<u8>) -> bool {
    is_tcp_packet(bytes) && ipv4_payload(bytes)[13] & TCP_FLAG_SYN != 0 && ipv4_payload(bytes)[13]
        & TCP_FLAG_ACK == 0
}

/// Reads the packet that opens a TCP connection.
pub fn parse_syn(packet: &[u8]) -> (r: Option<(FlowKey, u32)>)
    ensures
        match r {
            Some((flow, initial_sequence)) => is_opening(packet@) && opens(
                packet@,
                flow,
                initial_sequence,
            ),
            None => !is_opening(packet@),
        },
{
    match parse_tcp_packet(packet) {
        None => None,
        Some(fields) => {
            assert(fields.of(packet@));
            if !fields.tcp.is_initial() {
                return None;
            }
            Some((FlowKey { src: fields.src(), dst: fields.dst() }, fields.tcp.sequence))
        },
    }
}

/// The node has the transport, and the peer can do it.
pub open spec fn is_available(
    transports: Seq<ProxyTransport>,
    capabilities: CapabilitySnapshot,
    transport: ProxyTransport,
) -> bool {
    transports.contains(transport) && match transport {
        ProxyTransport::Quic => capabilities.quic,
        ProxyTransport::Kcp => capabilities.kcp,
    }
}

/// The transports that can be had, in the order in which they are tried.
pub open spec fn transports_in_order(
    transports: Seq<ProxyTransport>,
    capabilities: CapabilitySnapshot,
) -> Seq<ProxyTransport> {
    (if is_available(transports, capabilities, ProxyTransport::Quic) {
        seq![ProxyTransport::Quic]
    } else {
        Seq::empty()
    }) + (if is_available(transports, capabilities, ProxyTransport::Kcp) {
        seq![ProxyTransport::Kcp]
    } else {
        Seq::empty()
    })
}

fn has_transport(transports: &Vec<ProxyTransport>, transport: ProxyTransport) -> (r: bool)
    ensures
        r == transports@.contains(transport),
{
    let mut i: usize = 0;
    while i < transports.len()
        invariant
            i <= transports@.len(),
            forall|j: int| 0 <= j < i ==> (#[trigger] transports@[j]) != transport,
        decreases transports@.len() - i,
    {
        if transports[i] == transport {
            assert(transports@[i as int] == transport);
            return true;
        }
        i += 1;
    }
    false
}

/// What is known of a connection while its transports are tried.
#[derive(Clone, Copy, Debug, PartialEq, Eq, Structural)]
pub struct Round {
    pub flow: FlowKey,
    pub entry: u64,
    pub generation: u64,
    pub peer: PeerId,
    pub capabilities: CapabilitySnapshot,
    pub created_at: u64,
    pub quic_left: bool,
    pub kcp_left: bool,
    pub quic: Option<Shortfall>,
    pub kcp: Option<Shortfall>,
}

impl Round {
    /// Nothing is the matter with a transport that has not been taken up.
    pub open spec fn wf(self) -> bool {
        (self.quic_left ==> self.quic is None) && (self.kcp_left ==> self.kcp is None)
    }

    /// How many transports are left.
    pub open spec fn left(self) -> nat {
        (if self.quic_left {
            1nat
        } else {
            0
        }) + (if self.kcp_left {
            1nat
        } else {
            0
        })
    }

    /// The transport that is next.
    pub open spec fn upcoming(self) -> Option<ProxyTransport> {
        if self.quic_left {
            Some(ProxyTransport::Quic)
        } else if self.kcp_left {
            Some(ProxyTransport::Kcp)
        } else {
            None
        }
    }

    /// The round once a transport has been taken up.
    pub open spec fn taken_up(self, transport: ProxyTransport) -> Self {
        match transport {
            ProxyTransport::Quic => Round { quic_left: false, ..self },
            ProxyTransport::Kcp => Round { kcp_left: false, ..self },
        }
    }

    /// The round once a transport turned out not to be used.
    pub open spec fn fell_short(self, transport: ProxyTransport, shortfall: Shortfall) -> Self {
        match transport {
            ProxyTransport::Quic => Round { quic: Some(shortfall), ..self },
            ProxyTransport::Kcp => Round { kcp: Some(shortfall), ..self },
        }
    }

    /// What was the matter with the transports so far.
    pub open spec fn shortfalls(self) -> FallbackReason {
        FallbackReason::Transports { quic: self.quic, kcp: self.kcp }
    }

    /// Why the connection goes on natively once no transport is left.
    pub open spec fn exhausted(self) -> FallbackReason {
        if self.quic is None && self.kcp is None {
            FallbackReason::AllProxyFailed
        } else {
            self.shortfalls()
        }
    }

    pub open spec fn health_key(self, transport: ProxyTransport) -> HealthKey {
        HealthKey { peer: self.peer, transport }
    }

    fn take_up(&self, transport: ProxyTransport) -> (r: Round)
        ensures
            r == self.taken_up(transport),
    {
        match transport {
            ProxyTransport::Quic => Round { quic_left: false, ..*self },
            ProxyTransport::Kcp => Round { kcp_left: false, ..*self },
        }
    }

    fn note(&self, transport: ProxyTransport, shortfall: Shortfall) -> (r: Round)
        ensures
            r == self.fell_short(transport, shortfall),
    {
        match transport {
            ProxyTransport::Quic => Round { quic: Some(shortfall), ..*self },
            ProxyTransport::Kcp => Round { kcp: Some(shortfall), ..*self },
        }
    }
}

/// A transport that is to prepare a stream.
#[derive(Clone, Copy, Debug, PartialEq, Eq, Structural)]
pub struct PrepareTask {
    pub round: Round,
    pub transport: ProxyTransport,
}

/// What came of preparing a stream.
#[derive(Clone, Copy, Debug, PartialEq, Eq, Structural)]
pub enum PrepareOutcome {
    Ready { stream: u64 },
    Failed(ProxyPrepareFailureClass),
    TimedOut,
}

/// What to do next for a connection.
#[derive(Debug)]
pub enum ResolveAction {
    /// Have the transport prepare a stream to the peer of the round, in the given time.
    Prepare { task: PrepareTask, budget: u64 },
    /// Send the packet on natively.
    SendNative { dispatch: Dispatch },
    /// Send the packet to the transport that has prepared a stream.
    SendProxy { dispatch: Dispatch, key: PreparedKey, entry: u64 },
    /// Nothing is left to do.
    Stop,
}

pub type Flows = Map<FlowKey, DeferredFlow>;

/// The state of the selector.
#[verifier::ext_equal]
pub ghost struct SelectorState {
    pub my_peer_id: PeerId,
    pub transports: Seq<ProxyTransport>,
    pub flows: Flows,
    pub health: HealthEntries,
    pub prepared: PreparedStreams,
    pub next_generation: u64,
}

pub open spec fn generation_after(generation: u64) -> u64 {
    if generation == u64::MAX {
        0
    } else {
        (generation + 1) as u64
    }
}

impl SelectorState {
    /// The connection is still the one that is held for its ends.
    pub open spec fn is_current(self, flow: FlowKey, entry: u64) -> bool {
        self.flows.contains_key(flow) && self.flows[flow].entry == entry
    }

    pub open spec fn with_flow(self, flow: FlowKey, value: DeferredFlow) -> Self {
        SelectorState { flows: self.flows.insert(flow, value), ..self }
    }

    /// The connection can be sent on natively: it is current and has not been yet.
    pub open spec fn can_go_native(self, flow: FlowKey, entry: u64) -> bool {
        self.is_current(flow, entry) && !(self.flows[flow].decision is Native)
    }

    /// The state after a connection was sent on natively, if it could be.
    pub open spec fn gone_native(
        self,
        flow: FlowKey,
        entry: u64,
        reason: FallbackReason,
        now: u64,
    ) -> Self {
        if self.can_go_native(flow, entry) {
            self.with_flow(flow, self.flows[flow].made_native(reason, now))
        } else {
            self
        }
    }

    /// The action sends the connection on natively, if it can be.
    pub open spec fn sends_natively(
        self,
        flow: FlowKey,
        entry: u64,
        action: ResolveAction,
    ) -> bool {
        if self.can_go_native(flow, entry) {
            action is SendNative && action->SendNative_dispatch.carries(self.flows[flow], None)
        } else {
            action is Stop
        }
    }

    /// The round in which the transports to the connection's peer are tried.
    pub open spec fn round_of(self, flow: FlowKey) -> Round {
        let value = self.flows[flow];
        Round {
            flow,
            entry: value.entry,
            generation: value.generation,
            peer: value.dst_peer_id,
            capabilities: value.capabilities,
            created_at: value.created_at,
            quic_left: is_available(self.transports, value.capabilities, ProxyTransport::Quic),
            kcp_left: is_available(self.transports, value.capabilities, ProxyTransport::Kcp),
            quic: None,
            kcp: None,
        }
    }
}

/// The time that a transport is given.
pub open spec fn prepare_budget(created_at: u64, now: u64) -> u64 {
    let remaining = PENDING_TTL - time_since(now, created_at);
    if remaining < PREPARE_TIMEOUT {
        remaining as u64
    } else {
        PREPARE_TIMEOUT
    }
}

/// The connection is sent on natively.
pub open spec fn goes_native(
    before: SelectorState,
    flow: FlowKey,
    entry: u64,
    reason: FallbackReason,
    now: u64,
    action: ResolveAction,
    after: SelectorState,
) -> bool {
    before.sends_natively(flow, entry, action) && after == before.gone_native(
        flow,
        entry,
        reason,
        now,
    )
}

/// A round goes on: the next transport whose health allows it is to prepare a stream; where none
/// is left or no time is left, the connection goes on natively.
pub open spec fn goes_on(
    before: SelectorState,
    round: Round,
    now: u64,
    action: ResolveAction,
    after: SelectorState,
) -> bool
    decreases round.left(),
{
    match round.upcoming() {
        None => goes_native(
            before,
            round.flow,
            round.entry,
            round.exhausted(),
            now,
            action,
            after,
        ),
        Some(transport) => {
            let rest = round.taken_up(transport);
            exists|allowed: bool, health: HealthEntries|
                #[trigger] asked_of(
                    before.health,
                    round.health_key(transport),
                    now,
                    allowed,
                    health,
                ) && {
                    let asked = SelectorState { health, ..before };
                    if !allowed {
                        goes_on(
                            asked,
                            rest.fell_short(transport, Shortfall::Degraded),
                            now,
                            action,
                            after,
                        )
                    } else if time_since(now, round.created_at) >= PENDING_TTL {
                        goes_native(
                            asked,
                            round.flow,
                            round.entry,
                            FallbackReason::PendingTimeout,
                            now,
                            action,
                            after,
                        )
                    } else {
                        after == asked && action == (ResolveAction::Prepare {
                            task: PrepareTask { round: rest, transport },
                            budget: prepare_budget(round.created_at, now),
                        })
                    }
                }
        },
    }
}

/// The transports to a connection's peer are tried from the start.
pub open spec fn starts(
    before: SelectorState,
    flow: FlowKey,
    entry: u64,
    now: u64,
    action: ResolveAction,
    after: SelectorState,
) -> bool {
    if !before.is_current(flow, entry) {
        action is Stop && after == before
    } else if time_since(now, before.flows[flow].created_at) >= PENDING_TTL {
        goes_native(before, flow, entry, FallbackReason::PendingTimeout, now, action, after)
    } else {
        goes_on(before, before.round_of(flow), now, action, after)
    }
}

/// The target is reached through another peer now: preparing starts anew with it or, after too
/// many changes, the connection goes on natively to it.
pub open spec fn changes_route(
    before: SelectorState,
    task: PrepareTask,
    route: Route,
    now: u64,
    action: ResolveAction,
    after: SelectorState,
) -> bool {
    let flow = task.round.flow;
    let entry = task.round.entry;
    let value = before.flows[flow];
    if !before.is_current(flow, entry) || !(value.decision is Pending) {
        action is Stop && after == before
    } else if value.route_restarts >= MAX_ROUTE_RESTARTS {
        goes_native(
            before.with_flow(
                flow,
                DeferredFlow {
                    dst_peer_id: route.peer,
                    capabilities: route.capabilities,
                    ..value
                },
            ),
            flow,
            entry,
            FallbackReason::RouteRestartLimit,
            now,
            action,
            after,
        )
    } else if value.generation != task.round.generation {
        action is Stop && after == before
    } else {
        starts(
            SelectorState {
                next_generation: generation_after(before.next_generation),
                ..before.with_flow(flow, value.rerouted(route, before.next_generation, now))
            },
            flow,
            entry,
            now,
            action,
            after,
        )
    }
}

/// The health after a failure of a transport has been taken note of. Only failures of the
/// transport itself count against it.
pub open spec fn failure_noted(
    before: HealthEntries,
    key: HealthKey,
    class: ProxyPrepareFailureClass,
    now: u64,
    after: HealthEntries,
) -> bool {
    match class {
        ProxyPrepareFailureClass::Transport => exists|transition: HealthTransition| #[trigger]
            recorded_of(before, key, now, HealthEvent::Failure, transition, after),
        ProxyPrepareFailureClass::AmbiguousTimeout => exists|transition: HealthTransition|
         #[trigger]
            recorded_of(before, key, now, HealthEvent::AmbiguousTimeout, transition, after),
        ProxyPrepareFailureClass::RouteStale => after == before,
        _ => after == cleared_of(before, key, now),
    }
}

/// A transport has fallen short, and its failure has been taken note of.
pub open spec fn falls_short(
    before: SelectorState,
    task: PrepareTask,
    class: ProxyPrepareFailureClass,
    shortfall: Shortfall,
    now: u64,
    action: ResolveAction,
    after: SelectorState,
) -> bool {
    exists|health: HealthEntries| #[trigger]
        failure_noted(before.health, task.round.health_key(task.transport), class, now, health)
            && goes_on(
            SelectorState { health, ..before },
            task.round.fell_short(task.transport, shortfall),
            now,
            action,
            after,
        )
}

/// The stream is kept for the connection, which goes to the transport.
pub open spec fn goes_by_proxy(
    before: SelectorState,
    task: PrepareTask,
    stream: u64,
    now: u64,
    action: ResolveAction,
    after: SelectorState,
) -> bool {
    let flow = task.round.flow;
    let value = before.flows[flow];
    let key = value.prepared_key(flow, task.transport);
    let mark = ProxyMark { transport: task.transport, peer_id: before.my_peer_id };
    exists|transition: HealthTransition, health: HealthEntries|
        #[trigger] recorded_of(
            before.health,
            task.round.health_key(task.transport),
            now,
            HealthEvent::Success,
            transition,
            health,
        ) && after == (SelectorState {
            flows: before.flows.insert(
                flow,
                value.made_proxy(task.transport, task.round.shortfalls(), now),
            ),
            prepared: with_prepared(before.prepared, key, stream, now),
            health,
            ..before
        }) && action is SendProxy && action->SendProxy_dispatch.carries(value, Some(mark))
            && action->key == key && action->entry == task.round.entry
}

/// What follows the attempt of a transport to prepare a stream, given the peer through which the
/// target is reached now.
pub open spec fn follows(
    before: SelectorState,
    task: PrepareTask,
    outcome: PrepareOutcome,
    route: Option<Route>,
    now: u64,
    action: ResolveAction,
    after: SelectorState,
) -> bool {
    let flow = task.round.flow;
    let entry = task.round.entry;
    let value = before.flows[flow];
    let late = time_since(now, task.round.created_at) >= PENDING_TTL;
    if late && !(outcome is Failed) {
        goes_native(before, flow, entry, FallbackReason::PendingTimeout, now, action, after)
    } else {
        match route {
            None => goes_native(
                before,
                flow,
                entry,
                FallbackReason::RouteMissing,
                now,
                action,
                after,
            ),
            Some(current) => if current.peer != task.round.peer {
                changes_route(before, task, current, now, action, after)
            } else {
                match outcome {
                    PrepareOutcome::Failed(class) => falls_short(
                        before,
                        task,
                        class,
                        shortfall_of(class),
                        now,
                        action,
                        after,
                    ),
                    PrepareOutcome::TimedOut => falls_short(
                        before,
                        task,
                        ProxyPrepareFailureClass::Transport,
                        Shortfall::PrepareTimeout,
                        now,
                        action,
                        after,
                    ),
                    PrepareOutcome::Ready { stream } => if !before.is_current(flow, entry)
                        || value.generation != task.round.generation || value.dst_peer_id
                        != task.round.peer || !(value.decision is Pending) {
                        action is Stop && after == before
                    } else {
                        goes_by_proxy(before, task, stream, now, action, after)
                    },
                }
            },
        }
    }
}

/// Chooses the transports of proxied connections.
pub struct DeferredProxySelector {
    pub my_peer_id: PeerId,
    pub transports: Vec<ProxyTransport>,
    pub flows: IndexedTable<FlowKey, DeferredFlow>,
    pub health: HealthTable,
    pub prepared: PreparedProxyStore,
    pub next_generation: u64,
}

impl View for DeferredProxySelector {
    type V = SelectorState;

    open spec fn view(&self) -> SelectorState {
        SelectorState {
            my_peer_id: self.my_peer_id,
            transports: self.transports@,
            flows: self.flows@,
            health: self.health@,
            prepared: self.prepared@,
            next_generation: self.next_generation,
        }
    }
}

fn copy_bytes(bytes: &Vec<u8>) -> (r: Vec<u8>)
    ensures
        r@ == bytes@,
{
    let r = bytes.clone();
    assert(r@ =~= bytes@);
    r
}

impl DeferredProxySelector {
    /// No more connections are held than the limit allows, and none has been rerouted more often
    /// than allowed.
    pub open spec fn wf(&self) -> bool {
        &&& self.flows.wf()
        &&& self.health.wf()
        &&& self.prepared.wf()
        &&& self.flows@.len() <= MAX_PENDING_FLOWS
        &&& forall|flow: FlowKey| #[trigger]
            self.flows@.contains_key(flow) ==> self.flows@[flow].route_restarts
                <= MAX_ROUTE_RESTARTS
    }

    pub fn new(my_peer_id: PeerId, transports: Vec<ProxyTransport>) -> (r: Self)
        ensures
            r.wf(),
            r@ == (SelectorState {
                my_peer_id,
                transports: transports@,
                flows: Flows::empty(),
                health: HealthEntries::empty(),
                prepared: PreparedStreams::empty(),
                next_generation: 1,
            }),
    {
        let flows: IndexedTable<FlowKey, DeferredFlow> = IndexedTable::new();
        proof {
            flows.lemma_view();
        }
        DeferredProxySelector {
            my_peer_id,
            transports,
            flows,
            health: HealthTable::new(),
            prepared: PreparedProxyStore::new(),
            next_generation: 1,
        }
    }

    /// The transports that can be had to a peer, in the order in which they are tried.
    pub fn available_transports(&self, capabilities: CapabilitySnapshot) -> (r: Vec<ProxyTransport>)
        ensures
            r@ == transports_in_order(self.transports@, capabilities),
    {
        let mut out: Vec<ProxyTransport> = Vec::new();
        if capabilities.quic && has_transport(&self.transports, ProxyTransport::Quic) {
            out.push(ProxyTransport::Quic);
        }
        if capabilities.kcp && has_transport(&self.transports, ProxyTransport::Kcp) {
            out.push(ProxyTransport::Kcp);
        }
        assert(out@ =~= transports_in_order(self.transports@, capabilities));
        out
    }

    /// Tells whether the transport of a connection is still being chosen.
    pub fn is_pending(&self, flow: FlowKey, entry: u64) -> (r: bool)
        requires
            self.wf(),
        ensures
            r == (self@.is_current(flow, entry) && self@.flows[flow].decision is Pending),
    {
        match self.flows.position(&flow) {
            None => false,
            Some(i) => {
                let value = self.flows.value_at(i);
                value.entry == entry && value.decision == FlowDecision::Pending
            },
        }
    }

    fn inject_native(&mut self, flow: FlowKey, entry: u64, reason: FallbackReason, now: u64) -> (r:
        ResolveAction)
        requires
            old(self).wf(),
        ensures
            final(self).wf(),
            goes_native(old(self)@, flow, entry, reason, now, r, final(self)@),
    {
        let place = match self.flows.position(&flow) {
            None => {
                return ResolveAction::Stop;
            },
            Some(place) => place,
        };
        let value = self.flows.value_at(place);
        if value.entry != entry || value.decision == FlowDecision::Native {
            return ResolveAction::Stop;
        }
        let dispatch = Dispatch {
            payload: copy_bytes(&value.original_syn),
            context: value.context,
            mark: None,
        };
        let slot = self.flows.value_mut(place);
        slot.decision = FlowDecision::Native;
        slot.fallback_reason = reason;
        slot.updated_at = now;
        proof {
            old(self).flows.lemma_view();
            self.flows.lemma_view();
            assert(self@ =~= old(self)@.gone_native(flow, entry, reason, now));
        }
        ResolveAction::SendNative { dispatch }
    }

    fn run(&mut self, round: Round, now: u64) -> (r: ResolveAction)
        requires
            old(self).wf(),
        ensures
            final(self).wf(),
            goes_on(old(self)@, round, now, r, final(self)@),
        decreases round.left(),
    {
        let transport = if round.quic_left {
            ProxyTransport::Quic
        } else if round.kcp_left {
            ProxyTransport::Kcp
        } else {
            let reason = if round.quic.is_none() && round.kcp.is_none() {
                FallbackReason::AllProxyFailed
            } else {
                FallbackReason::Transports { quic: round.quic, kcp: round.kcp }
            };
            return self.inject_native(round.flow, round.entry, reason, now);
        };
        let rest = round.take_up(transport);
        let key = HealthKey { peer: round.peer, transport };
        let allowed = self.health.health_allows(key, now);
        let ghost asked = self@;
        assert(asked == SelectorState { health: self.health@, ..old(self)@ });
        assert(asked_of(old(self)@.health, round.health_key(transport), now, allowed, asked.health));
        if !allowed {
            return self.run(rest.note(transport, Shortfall::Degraded), now);
        }
        let elapsed = now.saturating_sub(round.created_at);
        if elapsed >= PENDING_TTL {
            return self.inject_native(round.flow, round.entry, FallbackReason::PendingTimeout, now);
        }
        let remaining = PENDING_TTL - elapsed;
        let budget = if remaining < PREPARE_TIMEOUT {
            remaining
        } else {
            PREPARE_TIMEOUT
        };
        ResolveAction::Prepare { task: PrepareTask { round: rest, transport }, budget }
    }

    /// Starts to try the transports for a connection.
    pub fn begin(&mut self, flow: FlowKey, entry: u64, now: u64) -> (r: ResolveAction)
        requires
            old(self).wf(),
        ensures
            final(self).wf(),
            starts(old(self)@, flow, entry, now, r, final(self)@),
    {
        let place = match self.flows.position(&flow) {
            None => {
                return ResolveAction::Stop;
            },
            Some(place) => place,
        };
        let value = self.flows.value_at(place);
        if value.entry != entry {
            return ResolveAction::Stop;
        }
        if now.saturating_sub(value.created_at) >= PENDING_TTL {
            return self.inject_native(flow, entry, FallbackReason::PendingTimeout, now);
        }
        let round = Round {
            flow,
            entry,
            generation: value.generation,
            peer: value.dst_peer_id,
            capabilities: value.capabilities,
            created_at: value.created_at,
            quic_left: value.capabilities.quic && has_transport(
                &self.transports,
                ProxyTransport::Quic,
            ),
            kcp_left: value.capabilities.kcp && has_transport(
                &self.transports,
                ProxyTransport::Kcp,
            ),
            quic: None,
            kcp: None,
        };
        self.run(round, now)
    }

    fn change_route(&mut self, task: PrepareTask, route: Route, now: u64) -> (r: ResolveAction)
        requires
            old(self).wf(),
        ensures
            final(self).wf(),
            changes_route(old(self)@, task, route, now, r, final(self)@),
    {
        let flow = task.round.flow;
        let entry = task.round.entry;
        let place = match self.flows.position(&flow) {
            None => {
                return ResolveAction::Stop;
            },
            Some(place) => place,
        };
        let value = self.flows.value_at(place);
        if value.entry != entry || value.decision != FlowDecision::Pending {
            return ResolveAction::Stop;
        }
        if value.route_restarts >= MAX_ROUTE_RESTARTS {
            let ghost held = self@.flows[flow];
            let slot = self.flows.value_mut(place);
            slot.dst_peer_id = route.peer;
            slot.capabilities = route.capabilities;
            proof {
                old(self).flows.lemma_view();
                self.flows.lemma_view();
                assert(self@ =~= old(self)@.with_flow(
                    flow,
                    DeferredFlow {
                        dst_peer_id: route.peer,
                        capabilities: route.capabilities,
                        ..held
                    },
                ));
            }
            return self.inject_native(flow, entry, FallbackReason::RouteRestartLimit, now);
        }
        if value.generation != task.round.generation {
            return ResolveAction::Stop;
        }
        let generation = self.next_generation;
        self.next_generation = self.next_generation.wrapping_add(1);
        let ghost held = self@.flows[flow];
        let slot = self.flows.value_mut(place);
        slot.generation = generation;
        slot.dst_peer_id = route.peer;
        slot.capabilities = route.capabilities;
        slot.route_restarts = slot.route_restarts + 1;
        slot.updated_at = now;
        proof {
            old(self).flows.lemma_view();
            self.flows.lemma_view();
            assert(self@ =~= (SelectorState {
                next_generation: generation_after(old(self)@.next_generation),
                ..old(self)@.with_flow(flow, held.rerouted(route, old(self)@.next_generation, now))
            }));
        }
        self.begin(flow, entry, now)
    }

    fn note_failure(&mut self, key: HealthKey, class: ProxyPrepareFailureClass, now: u64)
        requires
            old(self).wf(),
        ensures
            final(self).wf(),
            failure_noted(old(self)@.health, key, class, now, final(self)@.health),
            final(self)@ == (SelectorState { health: final(self)@.health, ..old(self)@ }),
    {
        match class {
            ProxyPrepareFailureClass::Transport => {
                let transition = self.health.record_prepare_result(key, false, now);
                assert(recorded_of(
                    old(self)@.health,
                    key,
                    now,
                    HealthEvent::Failure,
                    transition,
                    self@.health,
                ));
            },
            ProxyPrepareFailureClass::AmbiguousTimeout => {
                let transition = self.health.record_ambiguous_timeout(key, now);
                assert(recorded_of(
                    old(self)@.health,
                    key,
                    now,
                    HealthEvent::AmbiguousTimeout,
                    transition,
                    self@.health,
                ));
            },
            ProxyPrepareFailureClass::RouteStale => {},
            ProxyPrepareFailureClass::Destination
            | ProxyPrepareFailureClass::Policy
            | ProxyPrepareFailureClass::BusinessTimeout => {
                self.health.clear_ambiguous_timeout(key, now);
            },
        }
    }

    fn fall_short(
        &mut self,
        task: PrepareTask,
        class: ProxyPrepareFailureClass,
        shortfall: Shortfall,
        now: u64,
    ) -> (r: ResolveAction)
        requires
            old(self).wf(),
        ensures
            final(self).wf(),
            falls_short(old(self)@, task, class, shortfall, now, r, final(self)@),
    {
        let key = HealthKey { peer: task.round.peer, transport: task.transport };
        self.note_failure(key, class, now);
        let ghost noted = self@;
        assert(failure_noted(
            old(self)@.health,
            task.round.health_key(task.transport),
            class,
            now,
            noted.health,
        ));
        self.run(task.round.note(task.transport, shortfall), now)
    }

    fn adopt(&mut self, task: PrepareTask, stream: u64, now: u64) -> (r: ResolveAction)
        requires
            old(self).wf(),
        ensures
            final(self).wf(),
            ({
                let flow = task.round.flow;
                let value = old(self)@.flows[flow];
                if !old(self)@.is_current(flow, task.round.entry) || value.generation
                    != task.round.generation || value.dst_peer_id != task.round.peer || !(
                value.decision is Pending) {
                    r is Stop && final(self)@ == old(self)@
                } else {
                    goes_by_proxy(old(self)@, task, stream, now, r, final(self)@)
                }
            }),
    {
        let flow = task.round.flow;
        let place = match self.flows.position(&flow) {
            None => {
                return ResolveAction::Stop;
            },
            Some(place) => place,
        };
        let value = self.flows.value_at(place);
        if value.entry != task.round.entry || value.generation != task.round.generation
            || value.dst_peer_id != task.round.peer || value.decision != FlowDecision::Pending {
            return ResolveAction::Stop;
        }
        let key = PreparedKey {
            flow,
            initial_sequence: value.initial_sequence,
            generation: value.generation,
            dst_peer_id: value.dst_peer_id,
            transport: task.transport,
        };
        let mark = ProxyMark { transport: task.transport, peer_id: self.my_peer_id };
        let dispatch = Dispatch {
            payload: copy_bytes(&value.original_syn),
            context: value.context,
            mark: Some(mark),
        };
        self.prepared.insert(key, stream, now);
        let ghost held = self@.flows[flow];
        let slot = self.flows.value_mut(place);
        slot.decision = FlowDecision::Proxy(task.transport);
        slot.fallback_reason =
        FallbackReason::Transports { quic: task.round.quic, kcp: task.round.kcp };
        slot.updated_at = now;
        let health_key = HealthKey { peer: task.round.peer, transport: task.transport };
        let transition = self.health.record_prepare_result(health_key, true, now);
        proof {
            old(self).flows.lemma_view();
            self.flows.lemma_view();
            assert(recorded_of(
                old(self)@.health,
                task.round.health_key(task.transport),
                now,
                HealthEvent::Success,
                transition,
                self@.health,
            ));
            assert(self@ =~= (SelectorState {
                flows: old(self)@.flows.insert(
                    flow,
                    held.made_proxy(task.transport, task.round.shortfalls(), now),
                ),
                prepared: with_prepared(old(self)@.prepared, key, stream, now),
                health: self@.health,
                ..old(self)@
            }));
        }
        ResolveAction::SendProxy { dispatch, key, entry: task.round.entry }
    }

    /// Takes in what came of preparing a stream, together with the peer through which the target
    /// is reached now. A stream that is ready and is not kept is of no use any more.
    pub fn on_prepared(
        &mut self,
        task: PrepareTask,
        outcome: PrepareOutcome,
        route: Option<Route>,
        now: u64,
    ) -> (r: ResolveAction)
        requires
            old(self).wf(),
        ensures
            final(self).wf(),
            follows(old(self)@, task, outcome, route, now, r, final(self)@),
    {
        let flow = task.round.flow;
        let entry = task.round.entry;
        let late = now.saturating_sub(task.round.created_at) >= PENDING_TTL;
        let failed = match outcome {
            PrepareOutcome::Failed(_) => true,
            _ => false,
        };
        if late && !failed {
            return self.inject_native(flow, entry, FallbackReason::PendingTimeout, now);
        }
        let current = match route {
            None => {
                return self.inject_native(flow, entry, FallbackReason::RouteMissing, now);
            },
            Some(current) => current,
        };
        if current.peer != task.round.peer {
            return self.change_route(task, current, now);
        }
        match outcome {
            PrepareOutcome::Failed(class) => self.fall_short(
                task,
                class,
                shortfall_for(class),
                now,
            ),
            PrepareOutcome::TimedOut => self.fall_short(
                task,
                ProxyPrepareFailureClass::Transport,
                Shortfall::PrepareTimeout,
                now,
            ),
            PrepareOutcome::Ready { stream } => self.adopt(task, stream, now),
        }
    }

    /// Takes in that the packet could not be handed to the transport: its stream is given up, and
    /// the connection goes on natively.
    pub fn on_dispatch_failed(&mut self, key: PreparedKey, entry: u64, now: u64) -> (r:
        ResolveAction)
        requires
            old(self).wf(),
        ensures
            final(self).wf(),
            goes_native(
                SelectorState {
                    prepared: without_prepared(old(self)@.prepared, key),
                    ..old(self)@
                },
                key.flow,
                entry,
                FallbackReason::ProxyDispatchFailed,
                now,
                r,
                final(self)@,
            ),
    {
        self.prepared.remove(key);
        assert(self@ =~= (SelectorState {
            prepared: without_prepared(old(self)@.prepared, key),
            ..old(self)@
        }));
        self.inject_native(key.flow, entry, FallbackReason::ProxyDispatchFailed, now)
    }
}

/// A held packet that goes on natively because its time is up.
#[derive(Debug)]
pub struct NativeInjection {
    pub flow: FlowKey,
    pub dispatch: Dispatch,
}

/// The connections after a sweep: old decisions are forgotten, and what was pending for too long
/// goes on natively.
pub open spec fn swept_flows(flows: Flows, now: u64) -> Flows {
    Map::new(
        |flow: FlowKey| flows.contains_key(flow) && !flows[flow].decided_long_ago(now),
        |flow: FlowKey|
            if flows[flow].pending_for_too_long(now) {
                flows[flow].made_native(FallbackReason::PendingTimeout, now)
            } else {
                flows[flow]
            },
    )
}

/// The stream at a place was kept for a connection.
pub open spec fn kept_for(state: SelectorState, place: PreparedPlace) -> bool {
    state.flows.contains_key(place.flow) && state.flows[place.flow].decision == FlowDecision::Proxy(
        place.transport,
    ) && state.prepared[place].key == state.flows[place.flow].prepared_key(
        place.flow,
        place.transport,
    )
}

/// The streams after a sweep: those of forgotten connections are given up, and those that have
/// waited too long.
pub open spec fn swept_streams(state: SelectorState, now: u64) -> PreparedStreams {
    waiting(
        state.prepared.restrict(
            Set::new(
                |place: PreparedPlace|
                    state.prepared.contains_key(place) && !(kept_for(state, place)
                        && state.flows[place.flow].decided_long_ago(now)),
            ),
        ),
        now,
    )
}

/// Each connection that was pending for too long is sent on once, as it came, and no other is.
pub open spec fn injections_of(
    flows: Flows,
    now: u64,
    injections: Seq<NativeInjection>,
) -> bool {
    &&& forall|i: int|
        0 <= i < injections.len() ==> flows.contains_key((#[trigger] injections[i]).flow)
            && flows[injections[i].flow].pending_for_too_long(now)
            && injections[i].dispatch.carries(flows[injections[i].flow], None)
    &&& forall|i: int, j: int|
        0 <= i < j < injections.len() ==> (#[trigger] injections[i]).flow != (
        #[trigger] injections[j]).flow
    &&& forall|flow: FlowKey| #[trigger]
        flows.contains_key(flow) && flows[flow].pending_for_too_long(now) ==> exists|i: int|
            0 <= i < injections.len() && (#[trigger] injections[i]).flow == flow
}

/// A sweep.
pub open spec fn sweeps(
    before: SelectorState,
    now: u64,
    injections: Seq<NativeInjection>,
    after: SelectorState,
) -> bool {
    &&& injections_of(before.flows, now, injections)
    &&& tidied(before.health, now, after.health)
    &&& after == (SelectorState {
        flows: swept_flows(before.flows, now),
        prepared: swept_streams(before, now),
        health: after.health,
        ..before
    })
}

#[derive(Clone, Copy, Debug, PartialEq, Eq, Structural)]
pub enum NicPacketFilterAction {
    /// The packet is none of the selector's business.
    Continue,
    /// The packet is held back.
    Consume,
    /// The packet is sent on at once.
    StopAndSend,
}

/// What becomes of a packet.
#[derive(Debug)]
pub struct FilterResult {
    pub action: NicPacketFilterAction,
    /// How the packet is marked before it is sent on.
    pub mark: Option<ProxyMark>,
    /// Held packets that go on natively now.
    pub injections: Vec<NativeInjection>,
    /// The connection whose transports are to be tried.
    pub started: Option<(FlowKey, u64)>,
}

impl FilterResult {
    pub open spec fn tells(
        self,
        action: NicPacketFilterAction,
        mark: Option<ProxyMark>,
        started: Option<(FlowKey, u64)>,
    ) -> bool {
        self.action == action && self.mark == mark && self.started == started
    }
}

/// The state once an older connection between the same ends has been forgotten.
pub open spec fn without_flow(state: SelectorState, flow: FlowKey) -> SelectorState {
    if state.flows.contains_key(flow) {
        let value = state.flows[flow];
        SelectorState {
            flows: state.flows.remove(flow),
            prepared: match value.decision {
                FlowDecision::Proxy(transport) => without_prepared(
                    state.prepared,
                    value.prepared_key(flow, transport),
                ),
                _ => state.prepared,
            },
            ..state
        }
    } else {
        state
    }
}

/// The connection is new and pending.
pub open spec fn is_new_flow(
    value: DeferredFlow,
    generation: u64,
    initial_sequence: u32,
    packet: Seq<u8>,
    context: NicPacketContext,
    route: Route,
    now: u64,
    now_unix: u64,
) -> bool {
    &&& value.entry == generation
    &&& value.generation == generation
    &&& value.initial_sequence == initial_sequence
    &&& value.original_syn@ == packet
    &&& value.context == context
    &&& value.dst_peer_id == route.peer
    &&& value.capabilities == route.capabilities
    &&& value.route_restarts == 0
    &&& value.decision is Pending
    &&& value.fallback_reason == (FallbackReason::Transports { quic: None, kcp: None })
    &&& value.created_unix == now_unix
    &&& value.created_at == now
    &&& value.updated_at == now
}

/// What becomes of the packet that opens a connection.
pub open spec fn takes_in(
    before: SelectorState,
    flow: FlowKey,
    initial_sequence: u32,
    packet: Seq<u8>,
    context: NicPacketContext,
    route: Option<Route>,
    now: u64,
    now_unix: u64,
    result: FilterResult,
    after: SelectorState,
) -> bool {
    let known = before.flows[flow];
    if before.flows.contains_key(flow) && known.initial_sequence == initial_sequence {
        &&& after == before
        &&& match known.decision {
            FlowDecision::Pending => result.tells(NicPacketFilterAction::Consume, None, None),
            FlowDecision::Native => result.tells(NicPacketFilterAction::StopAndSend, None, None),
            FlowDecision::Proxy(transport) => result.tells(
                NicPacketFilterAction::StopAndSend,
                Some(ProxyMark { transport, peer_id: before.my_peer_id }),
                None,
            ),
        }
    } else {
        let cleared = without_flow(before, flow);
        if cleared.flows.len() >= MAX_PENDING_FLOWS {
            after == cleared && result.tells(NicPacketFilterAction::StopAndSend, None, None)
        } else if route is None || transports_in_order(
            before.transports,
            route->0.capabilities,
        ).len() == 0 {
            after == cleared && result.tells(NicPacketFilterAction::Continue, None, None)
        } else {
            &&& is_new_flow(
                after.flows[flow],
                before.next_generation,
                initial_sequence,
                packet,
                context,
                route->0,
                now,
                now_unix,
            )
            &&& after == (SelectorState {
                flows: cleared.flows.insert(flow, after.flows[flow]),
                next_generation: generation_after(before.next_generation),
                ..cleared
            })
            &&& result.tells(
                NicPacketFilterAction::Consume,
                None,
                Some((flow, before.next_generation)),
            )
        }
    }
}

impl DeferredProxySelector {
    /// Sweeps: lets go on natively what was pending for too long, and forgets old decisions, the
    /// streams that were kept for them, and transports that have not been used for long.
    pub fn cleanup_flows(&mut self, now: u64) -> (r: Vec<NativeInjection>)
        requires
            old(self).wf(),
        ensures
            final(self).wf(),
            sweeps(old(self)@, now, r@, final(self)@),
    {
        let ghost before = self@;
        let mut injections: Vec<NativeInjection> = Vec::new();
        let mut i: usize = self.flows.len();
        proof {
            self.flows.lemma_view();
        }
        while i > 0
            invariant
                self.wf(),
                self.my_peer_id == before.my_peer_id,
                self.transports@ == before.transports,
                self.health@ == before.health,
                self.next_generation == before.next_generation,
                i <= self.flows.pairs().len(),
                forall|k: FlowKey| #[trigger]
                    self.flows@.contains_key(k) ==> before.flows.contains_key(k) && (
                    self.flows@[k] == before.flows[k] || (before.flows[k].pending_for_too_long(now)
                        && self.flows@[k] == before.flows[k].made_native(
                        FallbackReason::PendingTimeout,
                        now,
                    ))),
                forall|k: FlowKey| #[trigger]
                    before.flows.contains_key(k) && !self.flows@.contains_key(k)
                        ==> before.flows[k].decided_long_ago(now),
                forall|j: int|
                    i <= j < self.flows.pairs().len() ==> swept_flows(
                        before.flows,
                        now,
                    ).contains_key((#[trigger] self.flows.pairs()[j]).0)
                        && self.flows.pairs()[j].1 == swept_flows(
                        before.flows,
                        now,
                    )[self.flows.pairs()[j].0],
                forall|j: int|
                    0 <= j < i ==> (#[trigger] self.flows.pairs()[j]).1
                        == before.flows[self.flows.pairs()[j].0],
                forall|n: int|
                    0 <= n < injections@.len() ==> before.flows.contains_key(
                        (#[trigger] injections@[n]).flow,
                    ) && before.flows[injections@[n].flow].pending_for_too_long(now)
                        && injections@[n].dispatch.carries(before.flows[injections@[n].flow], None)
                        && self.flows@.contains_key(injections@[n].flow)
                        && self.flows@[injections@[n].flow].decision is Native,
                forall|n: int, m: int|
                    0 <= n < m < injections@.len() ==> (#[trigger] injections@[n]).flow != (
                    #[trigger] injections@[m]).flow,
                forall|j: int|
                    i <= j < self.flows.pairs().len()
                        && before.flows[(#[trigger] self.flows.pairs()[j]).0].pending_for_too_long(
                        now,
                    ) ==> exists|n: int|
                        0 <= n < injections@.len() && (#[trigger] injections@[n]).flow
                            == self.flows.pairs()[j].0,
                forall|place: PreparedPlace| #[trigger]
                    self.prepared@.contains_key(place) <==> before.prepared.contains_key(place)
                        && !(kept_for(before, place) && !self.flows@.contains_key(place.flow)),
                forall|place: PreparedPlace| #[trigger]
                    self.prepared@.contains_key(place) ==> self.prepared@[place]
                        == before.prepared[place],
            decreases i,
        {
            i -= 1;
            let ghost earlier = *self;
            let ghost sent_before = injections@;
            proof {
                self.flows.lemma_view();
            }
            let flow = self.flows.key_at(i);
            let value = self.flows.value_at(i);
            if value.decision == FlowDecision::Pending {
                if now.saturating_sub(value.created_at) >= PENDING_TTL {
                    let dispatch = Dispatch {
                        payload: copy_bytes(&value.original_syn),
                        context: value.context,
                        mark: None,
                    };
                    let slot = self.flows.value_mut(i);
                    slot.decision = FlowDecision::Native;
                    slot.fallback_reason = FallbackReason::PendingTimeout;
                    slot.updated_at = now;
                    injections.push(NativeInjection { flow, dispatch });
                    proof {
                        self.flows.lemma_view();
                        lemma_sweep_native(before, earlier, *self, now, i as int, sent_before, injections@);
                    }
                }
            } else if now.saturating_sub(value.updated_at) >= DECISION_TTL {
                let decision = value.decision;
                let initial_sequence = value.initial_sequence;
                let generation = value.generation;
                let dst_peer_id = value.dst_peer_id;
                let removed = self.flows.remove_at(i);
                if let FlowDecision::Proxy(transport) = decision {
                    self.prepared.remove(
                        PreparedKey { flow, initial_sequence, generation, dst_peer_id, transport },
                    );
                }
                proof {
                    self.flows.lemma_view();
                    lemma_sweep_forgets(before, earlier, *self, now, i as int, injections@);
                }
            }
        }
        proof {
            self.flows.lemma_view();
            assert forall|k: FlowKey| #[trigger] self.flows@.contains_key(k) implies swept_flows(
                before.flows,
                now,
            ).contains_key(k) && self.flows@[k] == swept_flows(before.flows, now)[k] by {
                let j = choose|j: int|
                    0 <= j < self.flows.pairs().len() && (#[trigger] self.flows.pairs()[j]).0 == k;
                assert(self.flows@[k] == self.flows.pairs()[j].1);
            }
            assert(self.flows@ =~= swept_flows(before.flows, now));
            assert forall|flow: FlowKey| #[trigger]
                before.flows.contains_key(flow) && before.flows[flow].pending_for_too_long(
                    now,
                ) implies exists|n: int|
                0 <= n < injections@.len() && (#[trigger] injections@[n]).flow == flow by {
                assert(self.flows@.contains_key(flow));
                let j = choose|j: int|
                    0 <= j < self.flows.pairs().len() && (#[trigger] self.flows.pairs()[j]).0
                        == flow;
                assert(before.flows[self.flows.pairs()[j].0].pending_for_too_long(now));
            }
        }
        let ghost streams = self.prepared@;
        self.prepared.cleanup(now);
        self.health.cleanup(now);
        proof {
            let kept = before.prepared.restrict(
                Set::new(
                    |place: PreparedPlace|
                        before.prepared.contains_key(place) && !(kept_for(before, place)
                            && before.flows[place.flow].decided_long_ago(now)),
                ),
            );
            assert forall|place: PreparedPlace| #[trigger] streams.contains_key(
                place,
            ) == kept.contains_key(place) by {
                if before.flows.contains_key(place.flow) {
                    assert(self.flows@.contains_key(place.flow)
                        == !before.flows[place.flow].decided_long_ago(now));
                }
            }
            assert(streams =~= kept);
            assert(self.prepared@ == swept_streams(before, now));
        }
        injections
    }
}

/// What a sweep knows when it has looked at the connections from `i` on.
proof fn lemma_sweep_native(
    before: SelectorState,
    earlier: DeferredProxySelector,
    later: DeferredProxySelector,
    now: u64,
    i: int,
    sent_before: Seq<NativeInjection>,
    sent: Seq<NativeInjection>,
)
    requires
        earlier.flows.wf(),
        later.flows.wf(),
        0 <= i < earlier.flows.pairs().len(),
        earlier.flows.pairs()[i].1 == before.flows[earlier.flows.pairs()[i].0],
        earlier.flows.pairs()[i].1.pending_for_too_long(now),
        later.flows.pairs() == earlier.flows.pairs().update(
            i,
            (
                earlier.flows.pairs()[i].0,
                earlier.flows.pairs()[i].1.made_native(FallbackReason::PendingTimeout, now),
            ),
        ),
        later.flows@ == earlier.flows@.insert(
            earlier.flows.pairs()[i].0,
            earlier.flows.pairs()[i].1.made_native(FallbackReason::PendingTimeout, now),
        ),
        sent == sent_before.push(sent.last()),
        sent.last().flow == earlier.flows.pairs()[i].0,
        forall|n: int|
            0 <= n < sent_before.len() ==> earlier.flows@.contains_key(
                (#[trigger] sent_before[n]).flow,
            ) && earlier.flows@[sent_before[n].flow].decision is Native,
        forall|n: int, m: int|
            0 <= n < m < sent_before.len() ==> (#[trigger] sent_before[n]).flow != (
            #[trigger] sent_before[m]).flow,
        forall|j: int|
            i + 1 <= j < earlier.flows.pairs().len() && before.flows[(
            #[trigger] earlier.flows.pairs()[j]).0].pending_for_too_long(now) ==> exists|n: int|
                0 <= n < sent_before.len() && (#[trigger] sent_before[n]).flow
                    == earlier.flows.pairs()[j].0,
    ensures
        forall|n: int, m: int|
            0 <= n < m < sent.len() ==> (#[trigger] sent[n]).flow != (#[trigger] sent[m]).flow,
        forall|n: int|
            0 <= n < sent.len() ==> later.flows@.contains_key((#[trigger] sent[n]).flow)
                && later.flows@[sent[n].flow].decision is Native,
        forall|j: int|
            i <= j < later.flows.pairs().len() && before.flows[(
            #[trigger] later.flows.pairs()[j]).0].pending_for_too_long(now) ==> exists|n: int|
                0 <= n < sent.len() && (#[trigger] sent[n]).flow == later.flows.pairs()[j].0,
{
    earlier.flows.lemma_view();
    let key = earlier.flows.pairs()[i].0;
    assert(earlier.flows@[key].decision is Pending);
    assert forall|n: int, m: int| 0 <= n < m < sent.len() implies (#[trigger] sent[n]).flow != (
    #[trigger] sent[m]).flow by {
        assert(sent[n] == sent_before[n]);
        if m < sent_before.len() {
            assert(sent[m] == sent_before[m]);
        }
    }
    assert forall|n: int| 0 <= n < sent.len() implies later.flows@.contains_key(
        (#[trigger] sent[n]).flow,
    ) && later.flows@[sent[n].flow].decision is Native by {
        if n < sent_before.len() {
            assert(sent[n] == sent_before[n]);
        }
    }
    assert forall|j: int|
        i <= j < later.flows.pairs().len() && before.flows[(
        #[trigger] later.flows.pairs()[j]).0].pending_for_too_long(now) implies exists|n: int|
        0 <= n < sent.len() && (#[trigger] sent[n]).flow == later.flows.pairs()[j].0 by {
        if j == i {
            assert(sent[sent.len() - 1].flow == key);
        } else {
            assert(later.flows.pairs()[j] == earlier.flows.pairs()[j]);
            let n = choose|n: int|
                0 <= n < sent_before.len() && (#[trigger] sent_before[n]).flow
                    == earlier.flows.pairs()[j].0;
            assert(sent[n] == sent_before[n]);
        }
    }
}

proof fn lemma_sweep_forgets(
    before: SelectorState,
    earlier: DeferredProxySelector,
    later: DeferredProxySelector,
    now: u64,
    i: int,
    sent: Seq<NativeInjection>,
)
    requires
        earlier.flows.wf(),
        later.flows.wf(),
        0 <= i < earlier.flows.pairs().len(),
        later.flows.pairs() == earlier.flows.pairs().remove(i),
        forall|j: int|
            i + 1 <= j < earlier.flows.pairs().len() ==> swept_flows(before.flows, now).contains_key(
                (#[trigger] earlier.flows.pairs()[j]).0,
            ) && earlier.flows.pairs()[j].1 == swept_flows(before.flows, now)[
                earlier.flows.pairs()[j].0
            ],
        forall|j: int|
            i + 1 <= j < earlier.flows.pairs().len() && before.flows[(
            #[trigger] earlier.flows.pairs()[j]).0].pending_for_too_long(now) ==> exists|n: int|
                0 <= n < sent.len() && (#[trigger] sent[n]).flow == earlier.flows.pairs()[j].0,
    ensures
        forall|j: int|
            i <= j < later.flows.pairs().len() ==> swept_flows(before.flows, now).contains_key(
                (#[trigger] later.flows.pairs()[j]).0,
            ) && later.flows.pairs()[j].1 == swept_flows(before.flows, now)[
                later.flows.pairs()[j].0
            ],
        forall|j: int|
            i <= j < later.flows.pairs().len() && before.flows[(
            #[trigger] later.flows.pairs()[j]).0].pending_for_too_long(now) ==> exists|n: int|
                0 <= n < sent.len() && (#[trigger] sent[n]).flow == later.flows.pairs()[j].0,
        forall|j: int|
            0 <= j < i ==> (#[trigger] later.flows.pairs()[j]) == earlier.flows.pairs()[j],
{
    assert forall|j: int| i <= j < later.flows.pairs().len() implies (
    #[trigger] later.flows.pairs()[j]) == earlier.flows.pairs()[j + 1] by {}
}

/// The packet is none of the selector's business: it is not to be intercepted, does not open a
/// connection, or goes to this node's own virtual address.
pub open spec fn passes_by(ctx: &GlobalCtx, packet: Seq<u8>, bypass: bool) -> bool {
    bypass || !is_opening(packet) || exists|flow: FlowKey, initial_sequence: u32|
        #[trigger] opens(packet, flow, initial_sequence) && ctx.local_virtual_ip(flow.dst.spec_ip())
}

proof fn lemma_opens_one_flow(packet: Seq<u8>, a: FlowKey, m: u32, b: FlowKey, n: u32)
    requires
        opens(packet, a, m),
        opens(packet, b, n),
    ensures
        a == b,
        m == n,
{
    let f = choose|f: TcpPacketFields| #[trigger]
        f.of(packet) && f.tcp.initial() && a == (FlowKey { src: f.spec_src(), dst: f.spec_dst() })
            && m == f.tcp.sequence;
    let g = choose|g: TcpPacketFields| #[trigger]
        g.of(packet) && g.tcp.initial() && b == (FlowKey { src: g.spec_src(), dst: g.spec_dst() })
            && n == g.tcp.sequence;
    assert(f.ip.source == g.ip.source);
    assert(f.tcp.source == g.tcp.source);
}

impl DeferredProxySelector {
    fn forget(&mut self, flow: FlowKey, place: usize)
        requires
            old(self).wf(),
            place < old(self).flows.pairs().len(),
            old(self).flows.pairs()[place as int].0 == flow,
        ensures
            final(self).wf(),
            final(self)@ == without_flow(old(self)@, flow),
            !final(self)@.flows.contains_key(flow),
    {
        proof {
            self.flows.lemma_view();
        }
        let removed = self.flows.remove_at(place);
        let value = removed.1;
        if let FlowDecision::Proxy(transport) = value.decision {
            self.prepared.remove(
                PreparedKey {
                    flow,
                    initial_sequence: value.initial_sequence,
                    generation: value.generation,
                    dst_peer_id: value.dst_peer_id,
                    transport,
                },
            );
        }
        proof {
            self.flows.lemma_view();
            assert(self@ =~= without_flow(old(self)@, flow));
        }
    }

    fn take_in(
        &mut self,
        flow: FlowKey,
        initial_sequence: u32,
        packet: &[u8],
        context: NicPacketContext,
        route: Option<Route>,
        now: u64,
        now_unix: u64,
        injections: Vec<NativeInjection>,
    ) -> (r: FilterResult)
        requires
            old(self).wf(),
        ensures
            final(self).wf(),
            r.injections == injections,
            takes_in(
                old(self)@,
                flow,
                initial_sequence,
                packet@,
                context,
                route,
                now,
                now_unix,
                r,
                final(self)@,
            ),
    {
        proof {
            self.flows.lemma_view();
        }
        if let Some(place) = self.flows.position(&flow) {
            let value = self.flows.value_at(place);
            if value.initial_sequence == initial_sequence {
                let (action, mark) = match value.decision {
                    FlowDecision::Pending => (NicPacketFilterAction::Consume, None),
                    FlowDecision::Native => (NicPacketFilterAction::StopAndSend, None),
                    FlowDecision::Proxy(transport) => (
                        NicPacketFilterAction::StopAndSend,
                        Some(ProxyMark { transport, peer_id: self.my_peer_id }),
                    ),
                };
                return FilterResult { action, mark, injections, started: None };
            }
            self.forget(flow, place);
        }
        let ghost cleared = self@;
        assert(cleared =~= without_flow(old(self)@, flow));
        proof {
            self.flows.lemma_view();
        }
        if self.flows.len() >= MAX_PENDING_FLOWS {
            return FilterResult {
                action: NicPacketFilterAction::StopAndSend,
                mark: None,
                injections,
                started: None,
            };
        }
        let through = match route {
            None => {
                return FilterResult {
                    action: NicPacketFilterAction::Continue,
                    mark: None,
                    injections,
                    started: None,
                };
            },
            Some(through) => through,
        };
        if self.available_transports(through.capabilities).len() == 0 {
            return FilterResult {
                action: NicPacketFilterAction::Continue,
                mark: None,
                injections,
                started: None,
            };
        }
        let generation = self.next_generation;
        self.next_generation = self.next_generation.wrapping_add(1);
        let mut original_syn: Vec<u8> = Vec::new();
        original_syn.extend_from_slice(packet);
        assert(original_syn@ =~= packet@);
        let value = DeferredFlow {
            entry: generation,
            initial_sequence,
            generation,
            original_syn,
            context,
            dst_peer_id: through.peer,
            capabilities: through.capabilities,
            route_restarts: 0,
            decision: FlowDecision::Pending,
            fallback_reason: FallbackReason::Transports { quic: None, kcp: None },
            created_unix: now_unix,
            created_at: now,
            updated_at: now,
        };
        self.flows.push_new(flow, value);
        proof {
            self.flows.lemma_view();
            assert(self@ =~= (SelectorState {
                flows: cleared.flows.insert(flow, self@.flows[flow]),
                next_generation: generation_after(old(self)@.next_generation),
                ..cleared
            }));
        }
        FilterResult {
            action: NicPacketFilterAction::Consume,
            mark: None,
            injections,
            started: Some((flow, generation)),
        }
    }

    /// Looks at a packet that comes from the virtual interface. `route` tells the peer through
    /// which the packet's destination is reached.
    pub fn try_process_packet_from_nic(
        &mut self,
        ctx: &GlobalCtx,
        packet: &[u8],
        context: NicPacketContext,
        bypass: bool,
        route: Option<Route>,
        now: u64,
        now_unix: u64,
    ) -> (r: FilterResult)
        requires
            old(self).wf(),
        ensures
            final(self).wf(),
            passes_by(ctx, packet@, bypass) ==> final(self)@ == old(self)@ && r.tells(
                NicPacketFilterAction::Continue,
                None,
                None,
            ) && r.injections@.len() == 0,
            !passes_by(ctx, packet@, bypass) ==> exists|
                flow: FlowKey,
                initial_sequence: u32,
                swept: SelectorState,
            |
                opens(packet@, flow, initial_sequence) && #[trigger] sweeps(
                    old(self)@,
                    now,
                    r.injections@,
                    swept,
                ) && #[trigger] takes_in(
                    swept,
                    flow,
                    initial_sequence,
                    packet@,
                    context,
                    route,
                    now,
                    now_unix,
                    r,
                    final(self)@,
                ),
    {
        let none = FilterResult {
            action: NicPacketFilterAction::Continue,
            mark: None,
            injections: Vec::new(),
            started: None,
        };
        if bypass {
            return none;
        }
        let (flow, initial_sequence) = match parse_syn(packet) {
            None => {
                return none;
            },
            Some(found) => found,
        };
        if ctx.is_ip_local_virtual_ip(&flow.dst.ip()) {
            assert(opens(packet@, flow, initial_sequence));
            return none;
        }
        proof {
            assert forall|other: FlowKey, number: u32| #[trigger]
                opens(packet@, other, number) implies !ctx.local_virtual_ip(
                other.dst.spec_ip(),
            ) by {
                lemma_opens_one_flow(packet@, flow, initial_sequence, other, number);
            }
            assert(!passes_by(ctx, packet@, bypass));
        }
        let injections = self.cleanup_flows(now);
        let ghost swept = self@;
        assert(sweeps(old(self)@, now, injections@, swept));
        self.take_in(
            flow,
            initial_sequence,
            packet,
            context,
            route,
            now,
            now_unix,
            injections,
        )
    }
}

/// The names of the transports that a connection may use, in the order in which they are tried.
pub open spec fn requested_words(quic: bool, kcp: bool) -> Seq<char> {
    if quic && kcp {
        "quic,kcp,native"@
    } else if quic {
        "quic,native"@
    } else if kcp {
        "kcp,native"@
    } else {
        "native"@
    }
}

fn requested_text(quic: bool, kcp: bool) -> (r: String)
    ensures
        r@ == requested_words(quic, kcp),
{
    if quic && kcp {
        "quic,kcp,native".to_owned()
    } else if quic {
        "quic,native".to_owned()
    } else if kcp {
        "kcp,native".to_owned()
    } else {
        "native".to_owned()
    }
}

/// The health that is shown worse: degraded before not, then by failures, then by timeouts.
pub open spec fn no_better(a: TransportHealth, b: TransportHealth) -> bool {
    if a.degraded != b.degraded {
        a.degraded
    } else if a.consecutive_failures != b.consecutive_failures {
        a.consecutive_failures > b.consecutive_failures
    } else {
        a.ambiguous_timeout_strikes >= b.ambiguous_timeout_strikes
    }
}

fn is_no_better(a: &TransportHealth, b: &TransportHealth) -> (r: bool)
    ensures
        r == no_better(*a, *b),
{
    if a.degraded != b.degraded {
        a.degraded
    } else if a.consecutive_failures != b.consecutive_failures {
        a.consecutive_failures > b.consecutive_failures
    } else {
        a.ambiguous_timeout_strikes >= b.ambiguous_timeout_strikes
    }
}

impl SelectorState {
    /// The health of a transport that the connection may use.
    pub open spec fn known_health(self, flow: FlowKey, transport: ProxyTransport) -> Option<
        TransportHealth,
    > {
        let value = self.flows[flow];
        let key = HealthKey { peer: value.dst_peer_id, transport };
        if is_available(self.transports, value.capabilities, transport) && self.health.contains_key(
            key,
        ) {
            Some(self.health[key])
        } else {
            None
        }
    }

    /// The health that is shown with a connection: that of the transport that it uses or, without
    /// one, the worst.
    pub open spec fn shown_health(self, flow: FlowKey) -> Option<TransportHealth> {
        let quic = self.known_health(flow, ProxyTransport::Quic);
        let kcp = self.known_health(flow, ProxyTransport::Kcp);
        let decision = self.flows[flow].decision;
        if decision == FlowDecision::Proxy(ProxyTransport::Quic) && quic is Some {
            quic
        } else if decision == FlowDecision::Proxy(ProxyTransport::Kcp) && kcp is Some {
            kcp
        } else if quic is Some && (kcp is None || !no_better(kcp->0, quic->0)) {
            quic
        } else {
            kcp
        }
    }

    /// The entry shows the connection.
    pub open spec fn shows(self, flow: FlowKey, entry: TcpProxyEntry) -> bool {
        let value = self.flows[flow];
        let health = self.shown_health(flow);
        &&& entry.src == Some(flow.src)
        &&& entry.dst == Some(flow.dst)
        &&& entry.start_time == value.created_unix
        &&& entry.dst_peer_id == value.dst_peer_id
        &&& entry.generation == value.generation
        &&& entry.fallback_reason@ == value.fallback_reason.words()
        &&& entry.requested_transport@ == requested_words(
            is_available(self.transports, value.capabilities, ProxyTransport::Quic),
            is_available(self.transports, value.capabilities, ProxyTransport::Kcp),
        )
        &&& match value.decision {
            FlowDecision::Pending => entry.selected_transport@ == "pending"@ && entry.transport_type
                == TcpProxyEntryTransportType::Tcp && entry.state
                == TcpProxyEntryState::SynReceived,
            FlowDecision::Native => entry.selected_transport@ == "native"@ && entry.transport_type
                == TcpProxyEntryTransportType::Tcp && entry.state == TcpProxyEntryState::Connected,
            FlowDecision::Proxy(ProxyTransport::Quic) => entry.selected_transport@ == "quic"@
                && entry.transport_type == TcpProxyEntryTransportType::Quic && entry.state
                == TcpProxyEntryState::Connected,
            FlowDecision::Proxy(ProxyTransport::Kcp) => entry.selected_transport@ == "kcp"@
                && entry.transport_type == TcpProxyEntryTransportType::Kcp && entry.state
                == TcpProxyEntryState::Connected,
        }
        &&& entry.transport_degraded == (health is Some && health->0.degraded)
        &&& entry.consecutive_failures == match health {
            Some(health) => health.consecutive_failures as u32,
            None => 0,
        }
        &&& entry.consecutive_successes == match health {
            Some(health) => health.consecutive_successes as u32,
            None => 0,
        }
        &&& entry.ambiguous_timeout_strikes == match health {
            Some(health) => health.ambiguous_timeout_strikes,
            None => 0,
        }
    }

    /// The entries show the connections that are held, each once.
    pub open spec fn shows_all(self, flows: Seq<FlowKey>, entries: Seq<TcpProxyEntry>) -> bool {
        &&& flows.len() == entries.len()
        &&& flows.no_duplicates()
        &&& forall|flow: FlowKey| self.flows.contains_key(flow) <==> flows.contains(flow)
        &&& forall|i: int|
            0 <= i < entries.len() ==> self.shows(#[trigger] flows[i], #[trigger] entries[i])
    }
}

/// The newest connections, and the held packets that go on natively now.
#[derive(Debug)]
pub struct StatusList {
    pub statuses: Vec<TcpProxyEntry>,
    pub injections: Vec<NativeInjection>,
}

impl DeferredProxySelector {
    fn health_of(&self, value: &DeferredFlow, transport: ProxyTransport) -> (r: Option<
        TransportHealth,
    >)
        requires
            self.wf(),
        ensures
            r == (if is_available(self.transports@, value.capabilities, transport)
                && self@.health.contains_key(HealthKey { peer: value.dst_peer_id, transport }) {
                Some(self@.health[HealthKey { peer: value.dst_peer_id, transport }])
            } else {
                None
            }),
    {
        let capable = match transport {
            ProxyTransport::Quic => value.capabilities.quic,
            ProxyTransport::Kcp => value.capabilities.kcp,
        };
        if !capable || !has_transport(&self.transports, transport) {
            return None;
        }
        self.health.get(&HealthKey { peer: value.dst_peer_id, transport })
    }

    fn status_of(&self, flow: FlowKey, value: &DeferredFlow) -> (r: TcpProxyEntry)
        requires
            self.wf(),
            self@.flows[flow] == *value,
        ensures
            self@.shows(flow, r),
    {
        let quic = self.health_of(value, ProxyTransport::Quic);
        let kcp = self.health_of(value, ProxyTransport::Kcp);
        let worst = match (quic, kcp) {
            (Some(q), Some(k)) => if is_no_better(&k, &q) {
                Some(k)
            } else {
                Some(q)
            },
            (Some(q), None) => Some(q),
            (None, other) => other,
        };
        let (selected, transport_type, state, health) = match value.decision {
            FlowDecision::Pending => (
                "pending",
                TcpProxyEntryTransportType::Tcp,
                TcpProxyEntryState::SynReceived,
                worst,
            ),
            FlowDecision::Native => (
                "native",
                TcpProxyEntryTransportType::Tcp,
                TcpProxyEntryState::Connected,
                worst,
            ),
            FlowDecision::Proxy(ProxyTransport::Quic) => (
                "quic",
                TcpProxyEntryTransportType::Quic,
                TcpProxyEntryState::Connected,
                if quic.is_some() {
                    quic
                } else {
                    worst
                },
            ),
            FlowDecision::Proxy(ProxyTransport::Kcp) => (
                "kcp",
                TcpProxyEntryTransportType::Kcp,
                TcpProxyEntryState::Connected,
                if kcp.is_some() {
                    kcp
                } else {
                    worst
                },
            ),
        };
        let (transport_degraded, failures, successes, ambiguous_timeout_strikes) = match health {
            Some(health) => (
                health.degraded,
                health.consecutive_failures as u32,
                health.consecutive_successes as u32,
                health.ambiguous_timeout_strikes,
            ),
            None => (false, 0, 0, 0),
        };
        TcpProxyEntry {
            src: Some(flow.src),
            dst: Some(flow.dst),
            start_time: value.created_unix,
            state,
            transport_type,
            requested_transport: requested_text(
                value.capabilities.quic && has_transport(&self.transports, ProxyTransport::Quic),
                value.capabilities.kcp && has_transport(&self.transports, ProxyTransport::Kcp),
            ),
            selected_transport: selected.to_owned(),
            fallback_reason: value.fallback_reason.text(),
            dst_peer_id: value.dst_peer_id,
            transport_degraded,
            consecutive_failures: failures,
            consecutive_successes: successes,
            generation: value.generation,
            ambiguous_timeout_strikes,
        }
    }

    /// Sweeps and lists the newest connections.
    pub fn list_statuses(&mut self, now: u64) -> (r: StatusList)
        requires
            old(self).wf(),
        ensures
            final(self).wf(),
            sweeps(old(self)@, now, r.injections@, final(self)@),
            exists|flows: Seq<FlowKey>, entries: Seq<TcpProxyEntry>|
                #[trigger] final(self)@.shows_all(flows, entries) && latest_of(
                    entries,
                    r.statuses@,
                ),
    {
        let injections = self.cleanup_flows(now);
        let mut statuses: Vec<TcpProxyEntry> = Vec::new();
        let mut i: usize = 0;
        proof {
            self.flows.lemma_view();
        }
        let ghost flows = Seq::new(self.flows.pairs().len(), |j: int| self.flows.pairs()[j].0);
        while i < self.flows.len()
            invariant
                self.wf(),
                i <= self.flows.pairs().len(),
                statuses@.len() == i,
                flows == Seq::new(self.flows.pairs().len(), |j: int| self.flows.pairs()[j].0),
                forall|j: int|
                    0 <= j < i ==> self@.shows(#[trigger] flows[j], #[trigger] statuses@[j]),
            decreases self.flows.pairs().len() - i,
        {
            proof {
                self.flows.lemma_view();
            }
            let status = self.status_of(self.flows.key_at(i), self.flows.value_at(i));
            statuses.push(status);
            i += 1;
        }
        let ghost entries = statuses@;
        retain_latest_statuses(&mut statuses);
        proof {
            self.flows.lemma_view();
            assert(flows.no_duplicates());
            assert forall|flow: FlowKey| self@.flows.contains_key(flow) <==> flows.contains(flow) by {
                if self@.flows.contains_key(flow) {
                    let j = choose|j: int|
                        0 <= j < self.flows.pairs().len() && (#[trigger] self.flows.pairs()[j]).0
                            == flow;
                    assert(flows[j] == flow);
                }
                if flows.contains(flow) {
                    let j = choose|j: int| 0 <= j < flows.len() && flows[j] == flow;
                    assert(self.flows.pairs()[j].0 == flow);
                }
            }
            assert(self@.shows_all(flows, entries));
        }
        StatusList { statuses, injections }
    }
}

/// The transports are tried in order: while QUIC is left, KCP is taken up only if the health of
/// QUIC does not allow it; and the connection goes on natively only when nothing is left that is
/// allowed, or no time.
pub proof fn law_quic_before_kcp_before_native(
    before: SelectorState,
    round: Round,
    now: u64,
    action: ResolveAction,
    after: SelectorState,
)
    requires
        round.wf(),
        goes_on(before, round, now, action, after),
    ensures
        action is Prepare && action->task.transport == ProxyTransport::Kcp && round.quic_left
            ==> action->task.round.quic == Some(Shortfall::Degraded),
        action is Prepare && action->task.transport == ProxyTransport::Quic ==> round.quic_left,
        action is Prepare ==> action->task.round.left() < round.left() && action->task.round.wf(),
        action is SendNative && after.flows[round.flow].fallback_reason
            != FallbackReason::PendingTimeout ==> {
            let reason = after.flows[round.flow].fallback_reason;
            &&& round.quic_left ==> reason is Transports && reason->Transports_quic is Some
            &&& round.kcp_left ==> reason is Transports && reason->Transports_kcp is Some
        },
        !(action is SendProxy),
    decreases round.left(),
{
    if let Some(transport) = round.upcoming() {
        let (allowed, health) = choose|allowed: bool, health: HealthEntries|
            #[trigger] asked_of(
                before.health,
                round.health_key(transport),
                now,
                allowed,
                health,
            ) && {
                let asked = SelectorState { health, ..before };
                if !allowed {
                    goes_on(
                        asked,
                        round.taken_up(transport).fell_short(transport, Shortfall::Degraded),
                        now,
                        action,
                        after,
                    )
                } else if time_since(now, round.created_at) >= PENDING_TTL {
                    goes_native(
                        asked,
                        round.flow,
                        round.entry,
                        FallbackReason::PendingTimeout,
                        now,
                        action,
                        after,
                    )
                } else {
                    after == asked && action == (ResolveAction::Prepare {
                        task: PrepareTask { round: round.taken_up(transport), transport },
                        budget: prepare_budget(round.created_at, now),
                    })
                }
            };
        if !allowed {
            let rest = round.taken_up(transport).fell_short(transport, Shortfall::Degraded);
            law_quic_before_kcp_before_native(
                SelectorState { health, ..before },
                rest,
                now,
                action,
                after,
            );
            lemma_shortfalls_stay(SelectorState { health, ..before }, rest, now, action, after);
        }
    }
}

/// What was the matter with a transport is not forgotten while a round goes on.
proof fn lemma_shortfalls_stay(
    before: SelectorState,
    round: Round,
    now: u64,
    action: ResolveAction,
    after: SelectorState,
)
    requires
        round.wf(),
        goes_on(before, round, now, action, after),
    ensures
        action is Prepare && !round.quic_left ==> action->task.round.quic == round.quic,
        action is Prepare && !round.kcp_left ==> action->task.round.kcp == round.kcp,
        action is SendNative && after.flows[round.flow].fallback_reason
            != FallbackReason::PendingTimeout ==> {
            let reason = after.flows[round.flow].fallback_reason;
            &&& round.quic is Some ==> reason is Transports && reason->Transports_quic == round.quic
            &&& round.kcp is Some ==> reason is Transports && reason->Transports_kcp == round.kcp
        },
    decreases round.left(),
{
    if let Some(transport) = round.upcoming() {
        let (allowed, health) = choose|allowed: bool, health: HealthEntries|
            #[trigger] asked_of(
                before.health,
                round.health_key(transport),
                now,
                allowed,
                health,
            ) && {
                let asked = SelectorState { health, ..before };
                if !allowed {
                    goes_on(
                        asked,
                        round.taken_up(transport).fell_short(transport, Shortfall::Degraded),
                        now,
                        action,
                        after,
                    )
                } else if time_since(now, round.created_at) >= PENDING_TTL {
                    goes_native(
                        asked,
                        round.flow,
                        round.entry,
                        FallbackReason::PendingTimeout,
                        now,
                        action,
                        after,
                    )
                } else {
                    after == asked && action == (ResolveAction::Prepare {
                        task: PrepareTask { round: round.taken_up(transport), transport },
                        budget: prepare_budget(round.created_at, now),
                    })
                }
            };
        if !allowed {
            lemma_shortfalls_stay(
                SelectorState { health, ..before },
                round.taken_up(transport).fell_short(transport, Shortfall::Degraded),
                now,
                action,
                after,
            );
        }
    }
}

/// While a round goes on, nothing but the health of the round's peer and the connection itself
/// changes; and what is sent on is the first packet of the connection as it came.
proof fn lemma_round_stays_with_its_own(
    before: SelectorState,
    round: Round,
    now: u64,
    action: ResolveAction,
    after: SelectorState,
)
    requires
        goes_on(before, round, now, action, after),
    ensures
        action is SendNative ==> action->SendNative_dispatch.carries(
            before.flows[round.flow],
            None,
        ),
        !(action is SendProxy),
        after.prepared == before.prepared,
        forall|key: HealthKey|
            key.peer != round.peer && #[trigger] after.health.contains_key(key)
                ==> before.health.contains_key(key) && after.health[key] == before.health[key],
    decreases round.left(),
{
    if let Some(transport) = round.upcoming() {
        let (allowed, health) = choose|allowed: bool, health: HealthEntries|
            #[trigger] asked_of(
                before.health,
                round.health_key(transport),
                now,
                allowed,
                health,
            ) && {
                let asked = SelectorState { health, ..before };
                if !allowed {
                    goes_on(
                        asked,
                        round.taken_up(transport).fell_short(transport, Shortfall::Degraded),
                        now,
                        action,
                        after,
                    )
                } else if time_since(now, round.created_at) >= PENDING_TTL {
                    goes_native(
                        asked,
                        round.flow,
                        round.entry,
                        FallbackReason::PendingTimeout,
                        now,
                        action,
                        after,
                    )
                } else {
                    after == asked && action == (ResolveAction::Prepare {
                        task: PrepareTask { round: round.taken_up(transport), transport },
                        budget: prepare_budget(round.created_at, now),
                    })
                }
            };
        assert forall|key: HealthKey|
            key.peer != round.peer && #[trigger] health.contains_key(
                key,
            ) implies before.health.contains_key(key) && health[key] == before.health[key] by {
            let with = choose|with: HealthEntries| #[trigger]
                crate::transport_health::entered(
                    before.health,
                    round.health_key(transport),
                    now,
                    with,
                ) && allowed == with[round.health_key(transport)].allows(now) && health
                    == with.insert(
                    round.health_key(transport),
                    with[round.health_key(transport)].asked(now),
                );
            assert(with.contains_key(key));
        }
        if !allowed {
            lemma_round_stays_with_its_own(
                SelectorState { health, ..before },
                round.taken_up(transport).fell_short(transport, Shortfall::Degraded),
                now,
                action,
                after,
            );
        }
    }
}

proof fn lemma_route_change_stays_with_its_own(
    before: SelectorState,
    task: PrepareTask,
    route: Route,
    now: u64,
    action: ResolveAction,
    after: SelectorState,
)
    requires
        changes_route(before, task, route, now, action, after),
        route.peer != task.round.peer,
    ensures
        action is SendNative ==> action->SendNative_dispatch.carries(
            before.flows[task.round.flow],
            None,
        ),
        !(action is SendProxy),
        after.prepared == before.prepared,
        forall|key: HealthKey|
            key.peer == task.round.peer && #[trigger] after.health.contains_key(key)
                ==> before.health.contains_key(key) && after.health[key] == before.health[key],
{
    let flow = task.round.flow;
    let entry = task.round.entry;
    let value = before.flows[flow];
    if before.is_current(flow, entry) && value.decision is Pending && value.route_restarts
        < MAX_ROUTE_RESTARTS && value.generation == task.round.generation {
        let moved = SelectorState {
            next_generation: generation_after(before.next_generation),
            ..before.with_flow(flow, value.rerouted(route, before.next_generation, now))
        };
        assert(starts(moved, flow, entry, now, action, after));
        if time_since(now, moved.flows[flow].created_at) < PENDING_TTL {
            lemma_round_stays_with_its_own(moved, moved.round_of(flow), now, action, after);
        }
    }
}

/// Whatever comes of trying the transports, what is sent on is the first packet of the connection,
/// byte for byte as it came and where it was going; natively it goes unmarked, to a transport it
/// goes marked with it.
pub proof fn law_what_is_sent_is_what_came(
    before: SelectorState,
    task: PrepareTask,
    outcome: PrepareOutcome,
    route: Option<Route>,
    now: u64,
    action: ResolveAction,
    after: SelectorState,
)
    requires
        follows(before, task, outcome, route, now, action, after),
    ensures
        action is SendNative ==> action->SendNative_dispatch.carries(
            before.flows[task.round.flow],
            None,
        ),
        action is SendProxy ==> action->SendProxy_dispatch.carries(
            before.flows[task.round.flow],
            Some(ProxyMark { transport: task.transport, peer_id: before.my_peer_id }),
        ),
        action is SendProxy ==> outcome is Ready && route is Some && route->0.peer
            == task.round.peer,
{
    let late = time_since(now, task.round.created_at) >= PENDING_TTL;
    if !(late && !(outcome is Failed)) && route is Some {
        if route->0.peer != task.round.peer {
            lemma_route_change_stays_with_its_own(before, task, route->0, now, action, after);
        } else if !(outcome is Ready) {
            let (class, shortfall) = match outcome {
                PrepareOutcome::Failed(class) => (class, shortfall_of(class)),
                _ => (ProxyPrepareFailureClass::Transport, Shortfall::PrepareTimeout),
            };
            let health = choose|health: HealthEntries| #[trigger]
                failure_noted(
                    before.health,
                    task.round.health_key(task.transport),
                    class,
                    now,
                    health,
                ) && goes_on(
                    SelectorState { health, ..before },
                    task.round.fell_short(task.transport, shortfall),
                    now,
                    action,
                    after,
                );
            lemma_round_stays_with_its_own(
                SelectorState { health, ..before },
                task.round.fell_short(task.transport, shortfall),
                now,
                action,
                after,
            );
        }
    }
}

/// When the target is reached through another peer by the time a transport has answered, the
/// answer is not used: no stream is kept, and it does not count for or against the transports to
/// the old peer.
pub proof fn law_route_change_wins(
    before: SelectorState,
    task: PrepareTask,
    outcome: PrepareOutcome,
    route: Route,
    now: u64,
    action: ResolveAction,
    after: SelectorState,
    key: HealthKey,
)
    requires
        follows(before, task, outcome, Some(route), now, action, after),
        route.peer != task.round.peer,
        key.peer == task.round.peer,
    ensures
        !(action is SendProxy),
        after.prepared == before.prepared,
        after.health.contains_key(key) ==> before.health.contains_key(key) && after.health[key]
            == before.health[key],
{
    let late = time_since(now, task.round.created_at) >= PENDING_TTL;
    if !(late && !(outcome is Failed)) {
        lemma_route_change_stays_with_its_own(before, task, route, now, action, after);
    }
}

/// Once preparing has started anew as often as is allowed, a further change of the peer sends the
/// connection on natively, to the peer of the moment.
pub proof fn law_route_changes_are_bounded(
    before: SelectorState,
    task: PrepareTask,
    route: Route,
    now: u64,
    action: ResolveAction,
    after: SelectorState,
)
    requires
        changes_route(before, task, route, now, action, after),
        before.is_current(task.round.flow, task.round.entry),
        before.flows[task.round.flow].decision is Pending,
        before.flows[task.round.flow].route_restarts >= MAX_ROUTE_RESTARTS,
    ensures
        action is SendNative,
        after.flows[task.round.flow].decision is Native,
        after.flows[task.round.flow].dst_peer_id == route.peer,
        after.flows[task.round.flow].fallback_reason == FallbackReason::RouteRestartLimit,
{
}

/// A refusal or failure on the far side does not count against the transport.
pub proof fn law_only_transport_failures_count(
    before: HealthEntries,
    key: HealthKey,
    class: ProxyPrepareFailureClass,
    now: u64,
    after: HealthEntries,
)
    requires
        failure_noted(before, key, class, now, after),
        class is Destination || class is Policy || class is BusinessTimeout || class is RouteStale,
    ensures
        after.dom() == before.dom(),
        before.contains_key(key) ==> after[key].degraded == before[key].degraded
            && after[key].consecutive_failures == before[key].consecutive_failures,
{
    assert(after.dom() =~= before.dom());
}

/// A packet that is sent again while its connection is known starts nothing: it is held back,
/// sent on natively, or sent to the transport, as has been decided.
pub proof fn law_repeated_packet_follows_the_decision(
    before: SelectorState,
    flow: FlowKey,
    packet: Seq<u8>,
    context: NicPacketContext,
    route: Option<Route>,
    now: u64,
    now_unix: u64,
    result: FilterResult,
    after: SelectorState,
)
    requires
        before.flows.contains_key(flow),
        takes_in(
            before,
            flow,
            before.flows[flow].initial_sequence,
            packet,
            context,
            route,
            now,
            now_unix,
            result,
            after,
        ),
    ensures
        after == before,
        result.started is None,
        before.flows[flow].decision is Pending <==> result.action
            == NicPacketFilterAction::Consume,
        result.mark is Some <==> before.flows[flow].decision is Proxy,
{
}

/// A new connection between the ends of an older one takes its place: the older one is forgotten
/// with the stream that was kept for it, and what is still done for it has no effect.
pub proof fn law_new_connection_replaces_the_old(
    before: SelectorState,
    flow: FlowKey,
    initial_sequence: u32,
    packet: Seq<u8>,
    context: NicPacketContext,
    route: Option<Route>,
    now: u64,
    now_unix: u64,
    result: FilterResult,
    after: SelectorState,
)
    requires
        before.flows.contains_key(flow),
        before.flows[flow].initial_sequence != initial_sequence,
        before.flows[flow].entry != before.next_generation,
        takes_in(
            before,
            flow,
            initial_sequence,
            packet,
            context,
            route,
            now,
            now_unix,
            result,
            after,
        ),
    ensures
        !after.is_current(flow, before.flows[flow].entry),
        before.flows[flow].decision matches FlowDecision::Proxy(transport)
            ==> !after.prepared.contains_key(PreparedPlace { flow, transport })
            || after.prepared[PreparedPlace { flow, transport }].key
            != before.flows[flow].prepared_key(flow, transport),
{
}

/// A connection that was pending for too long is sent on natively, once, and that stays decided.
pub proof fn law_pending_ends_natively(
    before: SelectorState,
    now: u64,
    injections: Seq<NativeInjection>,
    after: SelectorState,
    flow: FlowKey,
)
    requires
        sweeps(before, now, injections, after),
        before.flows.contains_key(flow),
        before.flows[flow].pending_for_too_long(now),
    ensures
        after.flows.contains_key(flow),
        after.flows[flow] == before.flows[flow].made_native(FallbackReason::PendingTimeout, now),
        exists|i: int|
            0 <= i < injections.len() && (#[trigger] injections[i]).flow == flow
                && injections[i].dispatch.carries(before.flows[flow], None),
        !after.can_go_native(flow, before.flows[flow].entry),
{
}

/// A transport that is asked to prepare a stream while a round goes on gets the time that is left of the
/// five seconds since the connection was created, but at most one second; it is asked only while time
/// is left, and gets the full second during the first four.
pub proof fn law_transports_get_the_time_that_is_left(
    before: SelectorState,
    round: Round,
    now: u64,
    action: ResolveAction,
    after: SelectorState,
)
    requires
        goes_on(before, round, now, action, after),
    ensures
        action is Prepare ==> {
            let created = round.created_at;
            let budget = action->budget;
            let left = created + 5_000_000_000 - now;
            &&& now < created + 5_000_000_000
            &&& 0 < budget <= 1_000_000_000
            &&& created <= now && left < 1_000_000_000 ==> budget == left
            &&& created <= now && left >= 1_000_000_000 ==> budget == 1_000_000_000
            &&& now < created ==> budget == 1_000_000_000
            &&& now <= created + 4_000_000_000 ==> budget == 1_000_000_000
            &&& created <= now ==> now + budget <= created + 5_000_000_000
        },
        action is Prepare ==> {
            let asked = action->task.round;
            &&& asked.created_at == round.created_at
            &&& asked.flow == round.flow && asked.entry == round.entry
            &&& asked.peer == round.peer && asked.generation == round.generation
        },
    decreases round.left(),
{
    if let Some(transport) = round.upcoming() {
        let (allowed, health) = choose|allowed: bool, health: HealthEntries|
            #[trigger] asked_of(
                before.health,
                round.health_key(transport),
                now,
                allowed,
                health,
            ) && {
                let asked = SelectorState { health, ..before };
                if !allowed {
                    goes_on(
                        asked,
                        round.taken_up(transport).fell_short(transport, Shortfall::Degraded),
                        now,
                        action,
                        after,
                    )
                } else if time_since(now, round.created_at) >= PENDING_TTL {
                    goes_native(
                        asked,
                        round.flow,
                        round.entry,
                        FallbackReason::PendingTimeout,
                        now,
                        action,
                        after,
                    )
                } else {
                    after == asked && action == (ResolveAction::Prepare {
                        task: PrepareTask { round: round.taken_up(transport), transport },
                        budget: prepare_budget(round.created_at, now),
                    })
                }
            };
        if !allowed {
            law_transports_get_the_time_that_is_left(
                SelectorState { health, ..before },
                round.taken_up(transport).fell_short(transport, Shortfall::Degraded),
                now,
                action,
                after,
            );
        }
    }
}

/// When the transports of a connection are tried from the start, the one that is asked first gets the
/// time that is left of the five seconds since the connection was created, but at most one second.
pub proof fn law_first_transport_gets_the_time_that_is_left(
    before: SelectorState,
    flow: FlowKey,
    entry: u64,
    now: u64,
    action: ResolveAction,
    after: SelectorState,
)
    requires
        starts(before, flow, entry, now, action, after),
    ensures
        action is Prepare ==> {
            let created = before.flows[flow].created_at;
            let left = created + 5_000_000_000 - now;
            &&& before.flows.contains_key(flow) && before.flows[flow].entry == entry
            &&& action->task.round.created_at == created && action->task.round.flow == flow
            &&& 0 < left && 0 < action->budget
            &&& created <= now ==> action->budget == (if left < 1_000_000_000 {
                left
            } else {
                1_000_000_000
            })
            &&& now <= created + 4_000_000_000 ==> action->budget == 1_000_000_000
        },
        before.flows.contains_key(flow) && before.flows[flow].entry == entry && now
            >= before.flows[flow].created_at + 5_000_000_000 ==> !(action is Prepare),
        !(before.flows.contains_key(flow) && before.flows[flow].entry == entry) ==> action is Stop
            && after == before,
{
    if before.is_current(flow, entry) && time_since(now, before.flows[flow].created_at)
        < PENDING_TTL {
        law_transports_get_the_time_that_is_left(
            before,
            before.round_of(flow),
            now,
            action,
            after,
        );
    }
}

/// After the answer of a transport, the next one that is asked gets the time that is left of the five
/// seconds since the connection was created, but at most one second. A stream that is ready later than
/// that is not used, nor is one for which no peer is known any more.
pub proof fn law_next_transport_gets_the_time_that_is_left(
    before: SelectorState,
    task: PrepareTask,
    outcome: PrepareOutcome,
    route: Option<Route>,
    now: u64,
    action: ResolveAction,
    after: SelectorState,
)
    requires
        follows(before, task, outcome, route, now, action, after),
    ensures
        action is Prepare ==> {
            let created = action->task.round.created_at;
            let left = created + 5_000_000_000 - now;
            &&& created == task.round.created_at || created == before.flows[task.round.flow].created_at
            &&& route is Some
            &&& route->0.peer == task.round.peer ==> created == task.round.created_at && !(outcome
                is Ready)
            &&& 0 < left && 0 < action->budget
            &&& created <= now ==> action->budget == (if left < 1_000_000_000 {
                left
            } else {
                1_000_000_000
            })
            &&& now <= created + 4_000_000_000 ==> action->budget == 1_000_000_000
        },
        action is SendProxy ==> now < task.round.created_at + 5_000_000_000 && route is Some,
{
    let late = time_since(now, task.round.created_at) >= PENDING_TTL;
    if !(late && !(outcome is Failed)) && route is Some {
        if route->0.peer != task.round.peer {
            let flow = task.round.flow;
            let value = before.flows[flow];
            if before.is_current(flow, task.round.entry) && value.decision is Pending
                && value.route_restarts < MAX_ROUTE_RESTARTS && value.generation
                == task.round.generation {
                let moved = SelectorState {
                    next_generation: generation_after(before.next_generation),
                    ..before.with_flow(
                        flow,
                        value.rerouted(route->0, before.next_generation, now),
                    )
                };
                law_first_transport_gets_the_time_that_is_left(
                    moved,
                    flow,
                    task.round.entry,
                    now,
                    action,
                    after,
                );
            }
            lemma_route_change_stays_with_its_own(before, task, route->0, now, action, after);
        } else if !(outcome is Ready) {
            let (class, shortfall) = match outcome {
                PrepareOutcome::Failed(class) => (class, shortfall_of(class)),
                _ => (ProxyPrepareFailureClass::Transport, Shortfall::PrepareTimeout),
            };
            let health = choose|health: HealthEntries| #[trigger]
                failure_noted(
                    before.health,
                    task.round.health_key(task.transport),
                    class,
                    now,
                    health,
                ) && goes_on(
                    SelectorState { health, ..before },
                    task.round.fell_short(task.transport, shortfall),
                    now,
                    action,
                    after,
                );
            law_transports_get_the_time_that_is_left(
                SelectorState { health, ..before },
                task.round.fell_short(task.transport, shortfall),
                now,
                action,
                after,
            );
            lemma_round_stays_with_its_own(
                SelectorState { health, ..before },
                task.round.fell_short(task.transport, shortfall),
                now,
                action,
                after,
            );
        }
    }
}

/// A transport can be had if and only if the node has it and the peer can do it; of the two that can be
/// had QUIC comes first, and nothing comes twice. A new round starts with just these.
pub proof fn law_transports_that_can_be_had(
    transports: Seq<ProxyTransport>,
    capabilities: CapabilitySnapshot,
)
    ensures
        ({
            let order = transports_in_order(transports, capabilities);
            &&& order.contains(ProxyTransport::Quic) <==> transports.contains(ProxyTransport::Quic)
                && capabilities.quic
            &&& order.contains(ProxyTransport::Kcp) <==> transports.contains(ProxyTransport::Kcp)
                && capabilities.kcp
            &&& order.no_duplicates()
            &&& order.len() == 2 ==> order[0] == ProxyTransport::Quic
        }),
{
    let order = transports_in_order(transports, capabilities);
    if transports.contains(ProxyTransport::Quic) && capabilities.quic {
        assert(order[0] == ProxyTransport::Quic);
    }
    if transports.contains(ProxyTransport::Kcp) && capabilities.kcp {
        assert(order.last() == ProxyTransport::Kcp);
        assert(order[order.len() - 1] == ProxyTransport::Kcp);
    }
}

/// The round of a connection is about that connection and the peer it goes to, and starts with the
/// transports that can be had, nothing being the matter with them.
pub proof fn law_round_starts_with_what_can_be_had(state: SelectorState, flow: FlowKey)
    ensures
        ({
            let round = state.round_of(flow);
            let value = state.flows[flow];
            &&& round.flow == flow && round.entry == value.entry
            &&& round.generation == value.generation && round.peer == value.dst_peer_id
            &&& round.created_at == value.created_at
            &&& round.quic_left <==> state.transports.contains(ProxyTransport::Quic)
                && value.capabilities.quic
            &&& round.kcp_left <==> state.transports.contains(ProxyTransport::Kcp)
                && value.capabilities.kcp
            &&& round.quic is None && round.kcp is None && round.wf()
            &&& round.upcoming() == (if round.quic_left {
                Some(ProxyTransport::Quic)
            } else if round.kcp_left {
                Some(ProxyTransport::Kcp)
            } else {
                None
            })
        }),
{
}

/// A connection that is pending is so for too long after five seconds, and a decision is forgotten
/// thirty seconds after it was last touched, not earlier.
pub proof fn law_times_of_a_connection(value: DeferredFlow, now: u64)
    ensures
        value.pending_for_too_long(now) <==> value.decision is Pending && now >= value.created_at
            + 5_000_000_000,
        value.decided_long_ago(now) <==> !(value.decision is Pending) && now >= value.updated_at
            + 30_000_000_000,
{
}

/// What is decided of a connection does not change which connection it is: its packet, where that was
/// going, its number and when it was created all stay. A change of the peer is counted and numbered
/// anew.
pub proof fn law_decisions_keep_the_connection(
    value: DeferredFlow,
    transport: ProxyTransport,
    reason: FallbackReason,
    route: Route,
    generation: u64,
    now: u64,
)
    requires
        value.route_restarts < u8::MAX,
    ensures
        ({
            let native = value.made_native(reason, now);
            let proxied = value.made_proxy(transport, reason, now);
            let moved = value.rerouted(route, generation, now);
            &&& native.decision is Native && native.fallback_reason == reason && native.updated_at
                == now
            &&& proxied.decision == FlowDecision::Proxy(transport) && proxied.fallback_reason == reason
                && proxied.updated_at == now
            &&& moved.decision == value.decision && moved.updated_at == now
            &&& moved.generation == generation && moved.dst_peer_id == route.peer
                && moved.capabilities == route.capabilities
            &&& moved.route_restarts == value.route_restarts + 1
            &&& native.dst_peer_id == value.dst_peer_id && proxied.dst_peer_id == value.dst_peer_id
            &&& native.generation == value.generation && proxied.generation == value.generation
            &&& native.entry == value.entry && proxied.entry == value.entry && moved.entry
                == value.entry
            &&& native.created_at == value.created_at && proxied.created_at == value.created_at
                && moved.created_at == value.created_at
            &&& native.original_syn == value.original_syn && proxied.original_syn
                == value.original_syn && moved.original_syn == value.original_syn
            &&& native.context == value.context && proxied.context == value.context && moved.context
                == value.context
            &&& native.initial_sequence == value.initial_sequence && proxied.initial_sequence
                == value.initial_sequence && moved.initial_sequence == value.initial_sequence
        }),
{
}

/// A connection that is held can go on natively once: after that it cannot again.
pub proof fn law_connections_go_native_once(
    state: SelectorState,
    flow: FlowKey,
    entry: u64,
    reason: FallbackReason,
    now: u64,
)
    ensures
        state.can_go_native(flow, entry) <==> state.flows.contains_key(flow)
            && state.flows[flow].entry == entry && !(state.flows[flow].decision is Native),
        !state.gone_native(flow, entry, reason, now).can_go_native(flow, entry),
        state.can_go_native(flow, entry) ==> {
            let after = state.gone_native(flow, entry, reason, now);
            &&& after.flows.dom() == state.flows.dom()
            &&& after.flows[flow].decision is Native
            &&& after.flows[flow].fallback_reason == reason
            &&& after.health == state.health && after.prepared == state.prepared
        },
        !state.can_go_native(flow, entry) ==> state.gone_native(flow, entry, reason, now) == state,
{
    if state.can_go_native(flow, entry) {
        assert(state.gone_native(flow, entry, reason, now).flows.dom() =~= state.flows.dom());
    }
}

/// A stream that is ready is kept for its connection under what it was prepared for, and the connection
/// is decided: it goes by the transport that has prepared it.
pub proof fn law_ready_stream_is_kept(
    before: SelectorState,
    task: PrepareTask,
    stream: u64,
    route: Option<Route>,
    now: u64,
    action: ResolveAction,
    after: SelectorState,
)
    requires
        follows(before, task, PrepareOutcome::Ready { stream }, route, now, action, after),
        route is Some,
        route->0.peer == task.round.peer,
        now < task.round.created_at + 5_000_000_000,
        before.flows.contains_key(task.round.flow),
        before.flows[task.round.flow].entry == task.round.entry,
        before.flows[task.round.flow].generation == task.round.generation,
        before.flows[task.round.flow].dst_peer_id == task.round.peer,
        before.flows[task.round.flow].decision is Pending,
    ensures
        ({
            let flow = task.round.flow;
            let place = PreparedPlace { flow, transport: task.transport };
            &&& action is SendProxy
            &&& after.flows[flow].decision == FlowDecision::Proxy(task.transport)
            &&& after.flows[flow].dst_peer_id == task.round.peer
            &&& after.prepared.contains_key(place)
            &&& after.prepared[place].stream == stream
            &&& after.prepared[place].key.initial_sequence == before.flows[flow].initial_sequence
            &&& after.prepared[place].key.generation == task.round.generation
            &&& after.prepared[place].key.dst_peer_id == task.round.peer
            &&& action->key == after.prepared[place].key
            &&& action->SendProxy_dispatch.mark == Some(
                ProxyMark { transport: task.transport, peer_id: before.my_peer_id },
            )
        }),
{
}

/// An answer for a connection that has been replaced, numbered anew, sent to another peer or decided has
/// no effect; neither has one after which no connection is held.
pub proof fn law_late_answers_have_no_effect(
    before: SelectorState,
    task: PrepareTask,
    stream: u64,
    route: Option<Route>,
    now: u64,
    action: ResolveAction,
    after: SelectorState,
)
    requires
        follows(before, task, PrepareOutcome::Ready { stream }, route, now, action, after),
        !before.flows.contains_key(task.round.flow) || before.flows[task.round.flow].entry
            != task.round.entry || before.flows[task.round.flow].decision is Native,
    ensures
        action is Stop,
        after == before,
{
}

/// Where no peer is known for the target any more, a connection that is still held goes on natively.
pub proof fn law_without_a_peer_connections_go_native(
    before: SelectorState,
    task: PrepareTask,
    outcome: PrepareOutcome,
    now: u64,
    action: ResolveAction,
    after: SelectorState,
)
    requires
        follows(before, task, outcome, None, now, action, after),
        before.can_go_native(task.round.flow, task.round.entry),
    ensures
        action is SendNative,
        after.flows[task.round.flow].decision is Native,
        outcome is Failed || now < task.round.created_at + 5_000_000_000
            ==> after.flows[task.round.flow].fallback_reason is RouteMissing,
        !(outcome is Failed) && now >= task.round.created_at + 5_000_000_000
            ==> after.flows[task.round.flow].fallback_reason is PendingTimeout,
        after.health == before.health,
{
}

/// A stream that could not be used is given up, and its connection goes on natively.
pub proof fn law_failed_dispatch_goes_native(
    before: SelectorState,
    key: PreparedKey,
    entry: u64,
    now: u64,
    action: ResolveAction,
    after: SelectorState,
)
    requires
        goes_native(
            SelectorState { prepared: without_prepared(before.prepared, key), ..before },
            key.flow,
            entry,
            FallbackReason::ProxyDispatchFailed,
            now,
            action,
            after,
        ),
    ensures
        before.can_go_native(key.flow, entry) <==> action is SendNative,
        action is SendNative ==> after.flows[key.flow].decision is Native,
        !after.prepared.contains_key(key.spec_place()) || after.prepared[key.spec_place()].key != key,
{
}

/// A sweep forgets the connections that were decided half a minute ago, and no others; it gives up the
/// streams that have waited too long, and those of the connections that it forgets.
pub proof fn law_sweep_forgets_what_is_old(
    before: SelectorState,
    now: u64,
    injections: Seq<NativeInjection>,
    after: SelectorState,
    flow: FlowKey,
    place: PreparedPlace,
)
    requires
        sweeps(before, now, injections, after),
    ensures
        after.flows.contains_key(flow) <==> before.flows.contains_key(flow) && (
        before.flows[flow].decision is Pending || now < before.flows[flow].updated_at
            + 30_000_000_000),
        after.flows.contains_key(flow) && (!(before.flows[flow].decision is Pending) || now
            < before.flows[flow].created_at + 5_000_000_000) ==> after.flows[flow]
            == before.flows[flow],
        after.prepared.contains_key(place) ==> before.prepared.contains_key(place)
            && after.prepared[place] == before.prepared[place] && before.prepared[place].expires_at
            > now,
        before.prepared.contains_key(place) && before.prepared[place].expires_at > now
            && before.flows.contains_key(place.flow) && after.flows.contains_key(place.flow)
            ==> after.prepared.contains_key(place),
        before.prepared.contains_key(place) && before.flows.contains_key(place.flow)
            && before.flows[place.flow].decision == FlowDecision::Proxy(place.transport)
            && before.prepared[place].key == before.flows[place.flow].prepared_key(
            place.flow,
            place.transport,
        ) && !after.flows.contains_key(place.flow) ==> !after.prepared.contains_key(place),
        after.next_generation == before.next_generation && after.transports == before.transports,
{
}

/// The first packet of a connection is held back, and its transports are tried, just where there is
/// room, a peer is known, and a transport to it can be had; without room it is sent on at once, and in
/// any other case it is left alone.
pub proof fn law_new_connections_are_held_where_it_helps(
    before: SelectorState,
    flow: FlowKey,
    initial_sequence: u32,
    packet: Seq<u8>,
    context: NicPacketContext,
    route: Option<Route>,
    now: u64,
    now_unix: u64,
    result: FilterResult,
    after: SelectorState,
)
    requires
        !before.flows.contains_key(flow),
        takes_in(
            before,
            flow,
            initial_sequence,
            packet,
            context,
            route,
            now,
            now_unix,
            result,
            after,
        ),
    ensures
        ({
            let full = before.flows.len() >= 4096;
            let can = route is Some && ((before.transports.contains(ProxyTransport::Quic)
                && route->0.capabilities.quic) || (before.transports.contains(ProxyTransport::Kcp)
                && route->0.capabilities.kcp));
            &&& result.action is Consume <==> !full && can
            &&& result.action is StopAndSend <==> full
            &&& result.started is Some <==> !full && can
            &&& result.mark is None
            &&& full || !can ==> after == before
            &&& !full && can ==> {
                &&& after.flows.contains_key(flow)
                &&& after.flows[flow].decision is Pending
                &&& after.flows[flow].initial_sequence == initial_sequence
                &&& after.flows[flow].original_syn@ == packet
                &&& after.flows[flow].context == context
                &&& after.flows[flow].dst_peer_id == route->0.peer
                &&& after.flows[flow].created_at == now
                &&& result.started == Some((flow, after.flows[flow].entry))
                &&& after.next_generation != before.next_generation
            }
        }),
{
    if route is Some {
        law_transports_that_can_be_had(before.transports, route->0.capabilities);
        let order = transports_in_order(before.transports, route->0.capabilities);
        if order.len() > 0 {
            assert(order.contains(order[0]));
        }
    }
}

/// Only packets that open a TCP connection are looked at, which have the bit for opening and not that
/// for acknowledging; none that bypasses the selector, and none to the node's own virtual address.
pub proof fn law_only_opening_packets_are_looked_at(
    ctx: &GlobalCtx,
    packet: Seq<u8>,
    bypass: bool,
    fields: TcpPacketFields,
)
    requires
        is_tcp_packet(packet),
        fields.of(packet),
        fields.tcp.initial(),
    ensures
        is_opening(packet) <==> ipv4_payload(packet)[13] & 0x02u8 != 0 && ipv4_payload(packet)[13]
            & 0x10u8 == 0,
        bypass ==> passes_by(ctx, packet, bypass),
        ctx.ipv4 is Some && ctx.ipv4->0.address == fields.ip.destination ==> passes_by(
            ctx,
            packet,
            bypass,
        ),
        !bypass && is_opening(packet) && !(ctx.ipv4 is Some && ctx.ipv4->0.address
            == fields.ip.destination) ==> !passes_by(ctx, packet, bypass),
{
    let flow = FlowKey { src: fields.spec_src(), dst: fields.spec_dst() };
    assert(opens(packet, flow, fields.tcp.sequence));
    assert forall|other: FlowKey, number: u32| #[trigger] opens(packet, other, number) implies other
        == flow by {
        lemma_opens_one_flow(packet, flow, fields.tcp.sequence, other, number);
    }
}

/// Each kind of failure has its own shortfall, and none is that of a transport that was not tried or
/// did not answer in time.
pub proof fn law_failures_have_their_shortfalls(class: ProxyPrepareFailureClass)
    ensures
        shortfall_of(class) is PrepareFailed <==> class is Transport,
        shortfall_of(class) is DestinationFailed <==> class is Destination,
        shortfall_of(class) is PolicyDenied <==> class is Policy,
        shortfall_of(class) is RouteStale <==> class is RouteStale,
        shortfall_of(class) is BusinessTimeout <==> class is BusinessTimeout,
        shortfall_of(class) is AmbiguousTimeout <==> class is AmbiguousTimeout,
        !(shortfall_of(class) is Degraded) && !(shortfall_of(class) is PrepareTimeout),
{
}

/// What is noted of a transport in a round is noted of that one alone; when no transport is left, what
/// is told is what was the matter with each, or that all have failed where nothing is noted.
pub proof fn law_rounds_note_each_transport(round: Round, shortfall: Shortfall)
    ensures
        ({
            let quic = round.fell_short(ProxyTransport::Quic, shortfall);
            let kcp = round.fell_short(ProxyTransport::Kcp, shortfall);
            &&& quic.quic == Some(shortfall) && quic.kcp == round.kcp
            &&& kcp.kcp == Some(shortfall) && kcp.quic == round.quic
            &&& quic.quic_left == round.quic_left && quic.kcp_left == round.kcp_left
            &&& kcp.quic_left == round.quic_left && kcp.kcp_left == round.kcp_left
            &&& !round.taken_up(ProxyTransport::Quic).quic_left && round.taken_up(
                ProxyTransport::Quic,
            ).kcp_left == round.kcp_left
            &&& !round.taken_up(ProxyTransport::Kcp).kcp_left && round.taken_up(
                ProxyTransport::Kcp,
            ).quic_left == round.quic_left
            &&& quic.exhausted() == (FallbackReason::Transports {
                quic: Some(shortfall),
                kcp: round.kcp,
            })
            &&& kcp.exhausted() == (FallbackReason::Transports {
                quic: round.quic,
                kcp: Some(shortfall),
            })
            &&& round.quic is None && round.kcp is None ==> round.exhausted() is AllProxyFailed
        }),
{
}

/// The number after the last one is zero, and every other number is followed by the next.
pub proof fn law_numbers_go_round(generation: u64)
    ensures
        generation < u64::MAX ==> generation_after(generation) == generation + 1,
        generation == u64::MAX ==> generation_after(generation) == 0,
{
}

/// The words for what is the matter with a transport begin with its name, and say the same of either
/// transport.
pub proof fn law_words_begin_with_the_transport(shortfall: Shortfall)
    ensures
        shortfall_words(ProxyTransport::Quic, shortfall).take(5) == seq!['q', 'u', 'i', 'c', '_'],
        shortfall_words(ProxyTransport::Kcp, shortfall).take(4) == seq!['k', 'c', 'p', '_'],
        shortfall_words(ProxyTransport::Quic, shortfall).skip(5) == shortfall_words(
            ProxyTransport::Kcp,
            shortfall,
        ).skip(4),
{
    reveal_strlit("quic_degraded");
    reveal_strlit("quic_prepare_failed");
    reveal_strlit("quic_destination_failed");
    reveal_strlit("quic_policy_denied");
    reveal_strlit("quic_route_stale");
    reveal_strlit("quic_business_timeout");
    reveal_strlit("quic_ambiguous_timeout");
    reveal_strlit("quic_prepare_timeout");
    reveal_strlit("kcp_degraded");
    reveal_strlit("kcp_prepare_failed");
    reveal_strlit("kcp_destination_failed");
    reveal_strlit("kcp_policy_denied");
    reveal_strlit("kcp_route_stale");
    reveal_strlit("kcp_business_timeout");
    reveal_strlit("kcp_ambiguous_timeout");
    reveal_strlit("kcp_prepare_timeout");
    let quic = shortfall_words(ProxyTransport::Quic, shortfall);
    let kcp = shortfall_words(ProxyTransport::Kcp, shortfall);
    assert(quic.take(5) =~= seq!['q', 'u', 'i', 'c', '_']);
    assert(kcp.take(4) =~= seq!['k', 'c', 'p', '_']);
    assert(quic.skip(5) =~= kcp.skip(4));
}

/// What is the matter with a transport can be told from the words.
pub proof fn law_words_tell_the_shortfall(a: Shortfall, b: Shortfall)
    ensures
        shortfall_words(ProxyTransport::Quic, a) == shortfall_words(ProxyTransport::Quic, b)
            ==> a == b,
{
    reveal_strlit("quic_degraded");
    reveal_strlit("quic_prepare_failed");
    reveal_strlit("quic_destination_failed");
    reveal_strlit("quic_policy_denied");
    reveal_strlit("quic_route_stale");
    reveal_strlit("quic_business_timeout");
    reveal_strlit("quic_ambiguous_timeout");
    reveal_strlit("quic_prepare_timeout");
    assert("quic_degraded"@.len() == 13);
    assert("quic_prepare_failed"@.len() == 19);
    assert("quic_destination_failed"@.len() == 23);
    assert("quic_policy_denied"@.len() == 18);
    assert("quic_route_stale"@.len() == 16);
    assert("quic_business_timeout"@.len() == 21);
    assert("quic_ambiguous_timeout"@.len() == 22);
    assert("quic_prepare_timeout"@.len() == 20);
}

/// What is told of a connection names the transports that were looked at and not used, with a comma
/// between them.
pub proof fn law_words_name_each_transport(quic: Option<Shortfall>, kcp: Option<Shortfall>)
    ensures
        ({
            let words = (FallbackReason::Transports { quic, kcp }).words();
            &&& quic is None && kcp is None ==> words.len() == 0
            &&& quic is Some && kcp is None ==> words == shortfall_words(ProxyTransport::Quic, quic->0)
            &&& quic is None && kcp is Some ==> words == shortfall_words(ProxyTransport::Kcp, kcp->0)
            &&& quic is Some && kcp is Some ==> words == shortfall_words(ProxyTransport::Quic, quic->0)
                + seq![','] + shortfall_words(ProxyTransport::Kcp, kcp->0)
        }),
{
    reveal_strlit(",");
    assert(","@ =~= seq![',']);
}

/// A connection is said to use the transports that it may use, QUIC before KCP, and at last none.
pub proof fn law_requested_transports_are_named(quic: bool, kcp: bool)
    ensures
        requested_words(quic, kcp) == (if quic {
            "quic,"@
        } else {
            Seq::<char>::empty()
        }) + (if kcp {
            "kcp,"@
        } else {
            Seq::<char>::empty()
        }) + "native"@,
{
    reveal_strlit("quic,kcp,native");
    reveal_strlit("quic,native");
    reveal_strlit("kcp,native");
    reveal_strlit("native");
    reveal_strlit("quic,");
    reveal_strlit("kcp,");
    assert(requested_words(quic, kcp) =~= (if quic {
        "quic,"@
    } else {
        Seq::<char>::empty()
    }) + (if kcp {
        "kcp,"@
    } else {
        Seq::<char>::empty()
    }) + "native"@);
}

/// The health that is shown is that of the transport in use, if it is known; else it is that of a
/// transport that the connection may use and to which none that it may use does worse.
pub proof fn law_shown_health_is_the_worst(state: SelectorState, flow: FlowKey)
    ensures
        ({
            let quic = state.known_health(flow, ProxyTransport::Quic);
            let kcp = state.known_health(flow, ProxyTransport::Kcp);
            let shown = state.shown_health(flow);
            let decision = state.flows[flow].decision;
            &&& shown is Some <==> quic is Some || kcp is Some
            &&& shown is Some ==> shown == quic || shown == kcp
            &&& decision == FlowDecision::Proxy(ProxyTransport::Quic) && quic is Some ==> shown == quic
            &&& decision == FlowDecision::Proxy(ProxyTransport::Kcp) && kcp is Some ==> shown == kcp
            &&& !(decision is Proxy) && quic is Some ==> no_better(shown->0, quic->0)
            &&& !(decision is Proxy) && kcp is Some ==> no_better(shown->0, kcp->0)
        }),
        ({
            let value = state.flows[flow];
            let key = HealthKey { peer: value.dst_peer_id, transport: ProxyTransport::Quic };
            state.known_health(flow, ProxyTransport::Quic) is Some <==> state.transports.contains(
                ProxyTransport::Quic,
            ) && value.capabilities.quic && state.health.contains_key(key)
        }),
{
}

/// A degraded transport does worse than one that is not, and more failures in a row are worse.
pub proof fn law_what_is_worse(a: TransportHealth, b: TransportHealth)
    ensures
        no_better(a, a),
        no_better(a, b) || no_better(b, a),
        a.degraded && !b.degraded ==> no_better(a, b) && !no_better(b, a),
        a.degraded == b.degraded && a.consecutive_failures > b.consecutive_failures ==> no_better(
            a,
            b,
        ) && !no_better(b, a),
        a.degraded == b.degraded && a.consecutive_failures == b.consecutive_failures ==> (no_better(
            a,
            b,
        ) <==> a.ambiguous_timeout_strikes >= b.ambiguous_timeout_strikes),
{
}

/// What is asked first of a transport for a connection is bounded by the connection's five seconds and by
/// one second of its own, counted from when the connection was created.
pub proof fn law_begun_connections_have_their_time(
    selector: &mut DeferredProxySelector,
    flow: FlowKey,
    entry: u64,
    now: u64,
    r: ResolveAction,
)
    requires
        old(selector).wf(),
        call_ensures(DeferredProxySelector::begin, (selector, flow, entry, now), r),
    ensures
        r is Prepare ==> {
            let created = old(selector)@.flows[flow].created_at;
            &&& old(selector)@.flows.contains_key(flow) && old(selector)@.flows[flow].entry == entry
            &&& now <= created + 4_000_000_000 ==> r->budget == 1_000_000_000
            &&& now > created + 4_000_000_000 ==> r->budget == created + 5_000_000_000 - now
            &&& 0 < r->budget
        },
        !(old(selector)@.flows.contains_key(flow) && old(selector)@.flows[flow].entry == entry) ==> r is Stop
            && final(selector)@ == old(selector)@,
{
    law_first_transport_gets_the_time_that_is_left(old(selector)@, flow, entry, now, r, final(selector)@);
}

/// What is asked of the next transport is bounded in the same way, and a connection is handed to a
/// transport only within its five seconds and by a known peer.
pub proof fn law_answered_connections_have_their_time(
    selector: &mut DeferredProxySelector,
    task: PrepareTask,
    outcome: PrepareOutcome,
    route: Option<Route>,
    now: u64,
    r: ResolveAction,
)
    requires
        old(selector).wf(),
        call_ensures(DeferredProxySelector::on_prepared, (selector, task, outcome, route, now), r),
    ensures
        r is Prepare ==> {
            let created = r->task.round.created_at;
            &&& route is Some
            &&& route->0.peer == task.round.peer ==> created == task.round.created_at && outcome !is Ready
            &&& now <= created + 4_000_000_000 ==> r->budget == 1_000_000_000
            &&& now > created + 4_000_000_000 ==> r->budget == created + 5_000_000_000 - now
            &&& 0 < r->budget
        },
        r is SendProxy ==> now < task.round.created_at + 5_000_000_000 && route is Some,
{
    law_next_transport_gets_the_time_that_is_left(
        old(selector)@,
        task,
        outcome,
        route,
        now,
        r,
        final(selector)@,
    );
}

} // verus!
