//! Punches holes over UDP: to which peers, by which method, and when to try again.
use vstd::prelude::*;

use crate::addr::{PeerId, SocketAddress};
use crate::blacklist::PeerBlacklist;
use crate::config::Flags;
use crate::connector::{
    downgrades_udp_stealth, is_p2p_wanted, p2p_wanted, ranked_hole_punch,
    should_attempt_ranked_hole_punch, should_downgrade_udp_stealth,
};
use crate::hole_punch::{
    ask_lists, every_listed, only_asked_leave, only_listed, BackOff, NatType, RouteFacts,
    LOOP_BLACKLIST_TIMEOUT_SEC,
};
use crate::retry_backoff::{next_position, previous_position};
use crate::stealth_registry::{enabled_by, protocol_enabled, protocols_of_text, StealthProtocol};

verus! {

/// A peer to which a hole is to be punched.
#[derive(Clone, Copy, Debug, PartialEq, Eq, Structural)]
pub struct PunchTaskInfo {
    pub dst_peer_id: PeerId,
    pub dst_nat_type: NatType,
    pub my_nat_type: NatType,
    pub disable_udp_stealth: bool,
}

/// How a hole is punched, depending on the two types of address translation.
#[derive(Clone, Copy, Debug, PartialEq, Eq, Structural)]
pub enum UdpPunchClientMethod {
    ConeToCone,
    SymToCone,
    EasySymToEasySym,
}

/// What came of punching a hole.
#[derive(Clone, Copy, Debug, PartialEq, Eq, Structural)]
pub enum PunchOutcome {
    /// There is a tunnel, and the peer is connected by it.
    TunnelAdded,
    /// There is a tunnel, but the peer could not be connected by it, perhaps because it turned out
    /// to be this node.
    AddFailed { self_loop: bool },
    /// There is no tunnel.
    NoTunnel,
    Failed,
}

/// What an outcome means for going on.
#[derive(Clone, Copy, Debug, PartialEq, Eq, Structural)]
pub enum PunchVerdict {
    Stop,
    /// Try again, without counting this try.
    RollBack,
    /// Try again, and count this try.
    Advance,
}

pub open spec fn punch_verdict(
    outcome: PunchOutcome,
    suppressed_before: bool,
    suppressed_after: bool,
) -> PunchVerdict {
    if suppressed_before {
        PunchVerdict::Stop
    } else {
        match outcome {
            PunchOutcome::TunnelAdded => PunchVerdict::Stop,
            PunchOutcome::AddFailed { self_loop } => if self_loop || suppressed_after {
                PunchVerdict::Stop
            } else {
                PunchVerdict::RollBack
            },
            PunchOutcome::NoTunnel => PunchVerdict::Advance,
            PunchOutcome::Failed => PunchVerdict::RollBack,
        }
    }
}

/// The peer turned out to be this node.
pub open spec fn found_itself(outcome: PunchOutcome, suppressed_before: bool) -> bool {
    !suppressed_before && outcome == (PunchOutcome::AddFailed { self_loop: true })
}

/// What a peer is told about the listener that it is to reach.
#[derive(Clone, Copy, Debug, PartialEq, Eq, Structural)]
pub struct PunchListener {
    pub mapped_addr: SocketAddress,
    pub stealth_enabled: bool,
}

/// Why a peer is told of no listener.
#[derive(Clone, Copy, Debug, PartialEq, Eq, Structural)]
pub enum PunchListenerError {
    /// The peer asks in a way that this node no longer serves.
    LegacyDisabled,
    NoListener,
}

/// Serves requests to punch holes. Those that come from behind a symmetric translation use many
/// ports, so that only one of them is served at a time.
#[derive(Debug)]
pub struct UdpHolePunchServer {
    pub sym_punch_running: bool,
}

impl UdpHolePunchServer {
    pub fn new() -> (r: Self)
        ensures
            !r.sym_punch_running,
    {
        UdpHolePunchServer { sym_punch_running: false }
    }

    /// A request that says nothing about stealth comes from a node that does not know it. It is
    /// rejected where such requests are disabled, whether or not this node is stealthy.
    pub open spec fn legacy_rejected(disable_legacy: bool, use_stealth: Option<bool>) -> bool {
        disable_legacy && use_stealth is None
    }

    pub fn rejects_legacy_punch(disable_legacy: bool, use_stealth: Option<bool>) -> (r: bool)
        ensures
            r == Self::legacy_rejected(disable_legacy, use_stealth),
    {
        disable_legacy && use_stealth.is_none()
    }

    /// Checks a request for a listener, before one is selected.
    pub fn check_punch_request(flags: &Flags, use_stealth: Option<bool>) -> (r: Result<
        (),
        PunchListenerError,
    >)
        ensures
            r == (if Self::legacy_rejected(flags.disable_legacy_udp_hole_punch, use_stealth) {
                Err::<(), PunchListenerError>(PunchListenerError::LegacyDisabled)
            } else {
                Ok(())
            }),
    {
        if Self::rejects_legacy_punch(flags.disable_legacy_udp_hole_punch, use_stealth) {
            return Err(PunchListenerError::LegacyDisabled);
        }
        Ok(())
    }

    /// Answers a peer that asks for a listener: with the one that was selected, unless the request
    /// is rejected.
    pub fn select_punch_listener(
        flags: &Flags,
        use_stealth: Option<bool>,
        stealth_enabled: bool,
        selected: Option<SocketAddress>,
    ) -> (r: Result<PunchListener, PunchListenerError>)
        ensures
            r == (if Self::legacy_rejected(flags.disable_legacy_udp_hole_punch, use_stealth) {
                Err::<PunchListener, PunchListenerError>(PunchListenerError::LegacyDisabled)
            } else {
                match selected {
                    None => Err(PunchListenerError::NoListener),
                    Some(mapped_addr) => Ok(PunchListener { mapped_addr, stealth_enabled }),
                }
            }),
    {
        match Self::check_punch_request(flags, use_stealth) {
            Err(error) => Err(error),
            Ok(()) => match selected {
                None => Err(PunchListenerError::NoListener),
                Some(mapped_addr) => Ok(PunchListener { mapped_addr, stealth_enabled }),
            },
        }
    }

    /// Starts to serve a symmetric request, unless one is being served.
    pub fn try_begin_sym_punch(&mut self) -> (r: bool)
        ensures
            r == !old(self).sym_punch_running,
            final(self).sym_punch_running,
    {
        let free = !self.sym_punch_running;
        self.sym_punch_running = true;
        free
    }

    pub fn end_sym_punch(&mut self)
        requires
            old(self).sym_punch_running,
        ensures
            !final(self).sym_punch_running,
    {
        self.sym_punch_running = false;
    }
}

/// The node's part in punching holes.
pub struct UdpHolePunchConnector {
    pub blacklist: PeerBlacklist,
    pub loop_blacklist: PeerBlacklist,
}

/// The task of punching a hole to a peer.
pub open spec fn task_for(flags: Flags, my_nat_type: NatType, route: RouteFacts) -> PunchTaskInfo {
    PunchTaskInfo {
        dst_peer_id: route.peer_id,
        dst_nat_type: route.nat_type->0,
        my_nat_type,
        disable_udp_stealth: downgrades_udp_stealth(
            enabled_by(flags, StealthProtocol::Udp),
            route.feature_flag,
        ),
    }
}

/// A hole to the peer is wanted and can be punched.
pub open spec fn wants_hole(flags: Flags, route: RouteFacts) -> bool {
    let priority_enabled = flags.transport_priority@.len() > 0;
    &&& p2p_wanted(
        route.feature_flag,
        false,
        flags,
        route.has_recent_traffic,
        priority_enabled,
        route.has_peer,
    )
    &&& route.nat_type is Some
    &&& ranked_hole_punch(
        route.has_peer,
        priority_enabled,
        route.has_live_transport,
        route.candidate_improves,
    )
    &&& route.can_punch_hole
}

/// The tasks for the peers to which a hole is wanted, without those that are left alone.
pub open spec fn tasks_of(
    flags: Flags,
    my_nat_type: NatType,
    routes: Seq<RouteFacts>,
    left_alone: Seq<bool>,
) -> Seq<PunchTaskInfo>
    decreases routes.len(),
{
    if routes.len() == 0 {
        Seq::empty()
    } else {
        let before = tasks_of(flags, my_nat_type, routes.drop_last(), left_alone.drop_last());
        if wants_hole(flags, routes.last()) && !left_alone.last() {
            before.push(task_for(flags, my_nat_type, routes.last()))
        } else {
            before
        }
    }
}

pub fn is_hole_wanted(flags: &Flags, route: &RouteFacts) -> (r: bool)
    ensures
        r == wants_hole(*flags, *route),
{
    let priority_enabled = !flags.transport_priority.as_str().is_empty();
    let feature = match &route.feature_flag {
        Some(feature) => Some(feature),
        None => None,
    };
    is_p2p_wanted(
        feature,
        false,
        flags,
        route.has_recent_traffic,
        priority_enabled,
        route.has_peer,
    ) && route.nat_type.is_some() && should_attempt_ranked_hole_punch(
        route.has_peer,
        priority_enabled,
        route.has_live_transport,
        route.candidate_improves,
    ) && route.can_punch_hole
}

/// Lists the tasks for the peers to which a hole is wanted, given which of them are left alone.
pub fn tasks_for(
    flags: &Flags,
    my_nat_type: NatType,
    routes: &Vec<RouteFacts>,
    left_alone: &Vec<bool>,
) -> (r: Vec<PunchTaskInfo>)
    requires
        protocols_of_text(flags.stealth_protocols@) is Ok,
        left_alone@.len() == routes@.len(),
    ensures
        r@ == tasks_of(*flags, my_nat_type, routes@, left_alone@),
{
    let mut tasks: Vec<PunchTaskInfo> = Vec::new();
    let mut i: usize = 0;
    assert(routes@.take(0) =~= Seq::<RouteFacts>::empty());
    while i < routes.len()
        invariant
            protocols_of_text(flags.stealth_protocols@) is Ok,
            i <= routes@.len(),
            left_alone@.len() == routes@.len(),
            tasks@ == tasks_of(
                *flags,
                my_nat_type,
                routes@.take(i as int),
                left_alone@.take(i as int),
            ),
        decreases routes@.len() - i,
    {
        let route = &routes[i];
        proof {
            assert(routes@.take(i as int + 1).drop_last() =~= routes@.take(i as int));
            assert(left_alone@.take(i as int + 1).drop_last() =~= left_alone@.take(i as int));
        }
        if !left_alone[i] && is_hole_wanted(flags, route) {
            if let Some(dst_nat_type) = route.nat_type {
                let feature = match &route.feature_flag {
                    Some(feature) => Some(feature),
                    None => None,
                };
                tasks.push(
                    PunchTaskInfo {
                        dst_peer_id: route.peer_id,
                        dst_nat_type,
                        my_nat_type,
                        disable_udp_stealth: should_downgrade_udp_stealth(
                            protocol_enabled(flags, StealthProtocol::Udp),
                            feature,
                        ),
                    },
                );
            }
        }
        i += 1;
    }
    assert(routes@.take(routes@.len() as int) =~= routes@);
    assert(left_alone@.take(routes@.len() as int) =~= left_alone@);
    tasks
}

impl UdpHolePunchConnector {
    pub fn new() -> (r: Self)
        ensures
            r.blacklist@ == Map::<u32, u64>::empty(),
            r.loop_blacklist@ == Map::<u32, u64>::empty(),
    {
        UdpHolePunchConnector {
            blacklist: PeerBlacklist::new(),
            loop_blacklist: PeerBlacklist::new(),
        }
    }

    /// Leaves a peer alone that turned out to be this node.
    pub fn blacklist_loop_peer(&mut self, dst_peer_id: PeerId)
        ensures
            final(self).loop_blacklist@ == old(self).loop_blacklist@.insert(
                dst_peer_id,
                LOOP_BLACKLIST_TIMEOUT_SEC,
            ),
            final(self).blacklist == old(self).blacklist,
    {
        self.loop_blacklist.insert(dst_peer_id, LOOP_BLACKLIST_TIMEOUT_SEC);
    }

    /// Lists the peers to which holes are to be punched. Nothing is done while loops are
    /// suppressed, nor by a node that others can reach anyway.
    pub fn collect_peers_need_task(
        &mut self,
        flags: &Flags,
        routes: &Vec<RouteFacts>,
        my_nat_type: NatType,
        suppressed: bool,
    ) -> (r: Vec<PunchTaskInfo>)
        requires
            protocols_of_text(flags.stealth_protocols@) is Ok,
        ensures
            suppressed || my_nat_type.open() ==> r@.len() == 0 && *final(self) == *old(self),
            !suppressed && !my_nat_type.open() ==> exists|left_alone: Seq<bool>|
                #[trigger] only_listed(
                    routes@,
                    left_alone,
                    old(self).blacklist@.dom().union(old(self).loop_blacklist@.dom()),
                ) && every_listed(
                    routes@,
                    left_alone,
                    final(self).blacklist@.dom().union(final(self).loop_blacklist@.dom()),
                ) && r@ == tasks_of(*flags, my_nat_type, routes@, left_alone),
            only_asked_leave(old(self).blacklist@, final(self).blacklist@, routes@),
            only_asked_leave(old(self).loop_blacklist@, final(self).loop_blacklist@, routes@),
    {
        if suppressed || my_nat_type.is_open() {
            return Vec::new();
        }
        self.blacklist.cleanup();
        self.loop_blacklist.cleanup();
        let left_alone = ask_lists(&mut self.blacklist, &mut self.loop_blacklist, routes);
        tasks_for(flags, my_nat_type, routes, &left_alone)
    }

    /// Decides what an outcome means. A peer that turned out to be this node is left alone.
    pub fn judge_punch(
        &mut self,
        dst_peer_id: PeerId,
        outcome: PunchOutcome,
        suppressed_before: bool,
        suppressed_after: bool,
    ) -> (r: PunchVerdict)
        ensures
            r == punch_verdict(outcome, suppressed_before, suppressed_after),
            final(self).blacklist == old(self).blacklist,
            final(self).loop_blacklist@ == (if found_itself(outcome, suppressed_before) {
                old(self).loop_blacklist@.insert(dst_peer_id, LOOP_BLACKLIST_TIMEOUT_SEC)
            } else {
                old(self).loop_blacklist@
            }),
    {
        if suppressed_before {
            return PunchVerdict::Stop;
        }
        match outcome {
            PunchOutcome::TunnelAdded => PunchVerdict::Stop,
            PunchOutcome::AddFailed { self_loop } => {
                if self_loop {
                    self.blacklist_loop_peer(dst_peer_id);
                    return PunchVerdict::Stop;
                }
                if suppressed_after {
                    return PunchVerdict::Stop;
                }
                PunchVerdict::RollBack
            },
            PunchOutcome::NoTunnel => PunchVerdict::Advance,
            PunchOutcome::Failed => PunchVerdict::RollBack,
        }
    }
}

/// A peer that wants a hole and is on no list is not left out, and only peers that want one are
/// taken, in their order.
pub proof fn law_unlisted_peers_are_served(
    flags: Flags,
    my_nat_type: NatType,
    routes: Seq<RouteFacts>,
    left_alone: Seq<bool>,
    listed: Set<u32>,
    i: int,
)
    requires
        only_listed(routes, left_alone, listed),
        0 <= i < routes.len(),
        wants_hole(flags, routes[i]),
        !listed.contains(routes[i].peer_id),
    ensures
        tasks_of(flags, my_nat_type, routes, left_alone).contains(
            task_for(flags, my_nat_type, routes[i]),
        ),
    decreases routes.len(),
{
    let before = tasks_of(flags, my_nat_type, routes.drop_last(), left_alone.drop_last());
    let all = tasks_of(flags, my_nat_type, routes, left_alone);
    if i == routes.len() - 1 {
        assert(!left_alone[i]);
        assert(all[all.len() - 1] == task_for(flags, my_nat_type, routes[i]));
    } else {
        assert(only_listed(routes.drop_last(), left_alone.drop_last(), listed)) by {
            assert forall|k: int|
                0 <= k < routes.len() - 1 && #[trigger] left_alone.drop_last()[k] implies listed.contains(
                routes.drop_last()[k].peer_id,
            ) by {
                assert(left_alone[k]);
            }
        }
        law_unlisted_peers_are_served(
            flags,
            my_nat_type,
            routes.drop_last(),
            left_alone.drop_last(),
            listed,
            i,
        );
        let task = task_for(flags, my_nat_type, routes[i]);
        let k = choose|k: int| 0 <= k < before.len() && before[k] == task;
        assert(all[k] == task);
    }
}

/// A peer that is listed gets no task.
pub proof fn law_listed_peers_are_left_out(
    flags: Flags,
    my_nat_type: NatType,
    routes: Seq<RouteFacts>,
    left_alone: Seq<bool>,
    listed: Set<u32>,
    peer_id: PeerId,
)
    requires
        every_listed(routes, left_alone, listed),
        listed.contains(peer_id),
    ensures
        forall|k: int|
            0 <= k < tasks_of(flags, my_nat_type, routes, left_alone).len() ==> (
            #[trigger] tasks_of(flags, my_nat_type, routes, left_alone)[k]).dst_peer_id != peer_id,
    decreases routes.len(),
{
    if routes.len() > 0 {
        let rest = routes.drop_last();
        let flagged = left_alone.drop_last();
        assert(every_listed(rest, flagged, listed)) by {
            assert forall|k: int| 0 <= k < rest.len() && !(#[trigger] flagged[k]) implies !listed.contains(
                rest[k].peer_id,
            ) by {
                assert(!left_alone[k]);
            }
        }
        law_listed_peers_are_left_out(flags, my_nat_type, rest, flagged, listed, peer_id);
        let all = tasks_of(flags, my_nat_type, routes, left_alone);
        let before = tasks_of(flags, my_nat_type, rest, flagged);
        assert forall|k: int| 0 <= k < all.len() implies (#[trigger] all[k]).dst_peer_id != peer_id by {
            if k < before.len() {
                assert(all[k] == before[k]);
            } else {
                assert(!left_alone[routes.len() - 1]);
            }
        }
    }
}

/// What is tried.
#[derive(Clone, Copy, Debug, PartialEq, Eq, Structural)]
pub enum PunchTry {
    /// Punch as if both sides had a cone.
    Cone,
    /// Punch by the method of the task.
    Method,
}

#[derive(Clone, Copy, Debug, PartialEq, Eq, Structural)]
pub enum PunchStep {
    Done,
    TryMethod,
    NextRound,
}

/// The waiting times between the tries of a method, in milliseconds.
pub open spec fn punch_schedule(method: UdpPunchClientMethod) -> Seq<u64> {
    match method {
        UdpPunchClientMethod::ConeToCone => seq![1000, 1000, 2000, 4000, 4000, 8000, 8000, 16000],
        _ => seq![1000, 1000, 2000, 4000, 4000, 8000, 8000, 16000, 64000],
    }
}

/// Punching a hole to a peer, over and over until it is punched.
#[derive(Debug)]
pub struct PunchRun {
    pub dst_peer_id: PeerId,
    pub method: UdpPunchClientMethod,
    pub backoff: BackOff,
    pub round: u32,
    /// Leaves out the tries that only make sense in the field.
    pub testing: bool,
}

impl PunchRun {
    pub open spec fn wf(&self) -> bool {
        self.backoff.wf() && self.backoff.schedule() == punch_schedule(self.method)
    }

    pub fn new(dst_peer_id: PeerId, method: UdpPunchClientMethod, testing: bool) -> (r: Self)
        ensures
            r.wf(),
            r.dst_peer_id == dst_peer_id,
            r.method == method,
            r.backoff.position() == 0,
            r.round == 0,
            r.testing == testing,
    {
        let mut schedule: Vec<u64> = Vec::new();
        schedule.push(1000);
        schedule.push(1000);
        schedule.push(2000);
        schedule.push(4000);
        schedule.push(4000);
        schedule.push(8000);
        schedule.push(8000);
        schedule.push(16000);
        if method != UdpPunchClientMethod::ConeToCone {
            schedule.push(64000);
        }
        assert(schedule@ =~= punch_schedule(method));
        PunchRun { dst_peer_id, method, backoff: BackOff::new(schedule), round: 0, testing }
    }

    /// What is tried first in a round: a cone, unless that is the method anyway.
    pub open spec fn spec_first_try(&self) -> PunchTry {
        if self.method == UdpPunchClientMethod::ConeToCone || self.testing {
            PunchTry::Method
        } else {
            PunchTry::Cone
        }
    }

    /// Starts a round: gives how long to wait and what to try then. Ends the run for a peer that
    /// turned out to be this node.
    pub fn begin_round(&mut self, connector: &mut UdpHolePunchConnector) -> (r: Option<
        (u64, PunchTry),
    >)
        requires
            old(self).wf(),
        ensures
            final(self).wf(),
            final(connector).blacklist == old(connector).blacklist,
            final(connector).loop_blacklist@ == (if r is None {
                old(connector).loop_blacklist@
            } else {
                old(connector).loop_blacklist@.remove(old(self).dst_peer_id)
            }),
            r is None ==> old(connector).loop_blacklist@.contains_key(old(self).dst_peer_id)
                && *final(self) == *old(self),
            r is Some ==> r->0 == (
                old(self).backoff.schedule()[old(self).backoff.position()],
                old(self).spec_first_try(),
            ) && final(self).backoff.position() == next_position(
                old(self).backoff.position(),
                old(self).backoff.schedule().len() as int,
            ) && *final(self) == (PunchRun { backoff: final(self).backoff, ..*old(self) }),
    {
        if connector.loop_blacklist.contains(self.dst_peer_id) {
            return None;
        }
        let wait = self.backoff.next_backoff();
        let first = if self.method == UdpPunchClientMethod::ConeToCone || self.testing {
            PunchTry::Method
        } else {
            PunchTry::Cone
        };
        Some((wait, first))
    }

    /// Tries of this kind count for the waiting times.
    pub open spec fn counts(&self, tried: PunchTry) -> bool {
        tried is Method
    }

    /// Tries of this kind count as rounds.
    pub open spec fn counts_rounds(&self, tried: PunchTry) -> bool {
        tried is Method && self.method == UdpPunchClientMethod::SymToCone
    }

    /// The step that follows a try.
    pub open spec fn step_after(&self, tried: PunchTry, verdict: PunchVerdict) -> PunchStep {
        if verdict is Stop {
            PunchStep::Done
        } else if tried is Cone {
            PunchStep::TryMethod
        } else {
            PunchStep::NextRound
        }
    }

    /// The position in the waiting times after a try.
    pub open spec fn position_after(&self, tried: PunchTry, verdict: PunchVerdict) -> int {
        if verdict is RollBack && self.counts(tried) {
            previous_position(self.backoff.position())
        } else {
            self.backoff.position()
        }
    }

    /// The number of rounds after a try.
    pub open spec fn round_after(&self, tried: PunchTry, verdict: PunchVerdict) -> int {
        if !self.counts_rounds(tried) {
            self.round as int
        } else if verdict is RollBack {
            if self.round > 0 {
                self.round - 1
            } else {
                0
            }
        } else if verdict is Advance {
            self.round + 1
        } else {
            self.round as int
        }
    }

    /// Takes in what came of a try.
    pub fn handle_punch_result(
        &mut self,
        connector: &mut UdpHolePunchConnector,
        tried: PunchTry,
        outcome: PunchOutcome,
        suppressed_before: bool,
        suppressed_after: bool,
    ) -> (r: PunchStep)
        requires
            old(self).wf(),
            old(self).round < u32::MAX,
        ensures
            final(self).wf(),
            ({
                let verdict = punch_verdict(outcome, suppressed_before, suppressed_after);
                &&& r == old(self).step_after(tried, verdict)
                &&& final(self).backoff.position() == old(self).position_after(tried, verdict)
                &&& final(self).round == old(self).round_after(tried, verdict)
                &&& *final(self) == (PunchRun {
                    backoff: final(self).backoff,
                    round: final(self).round,
                    ..*old(self)
                })
            }),
            final(connector).blacklist == old(connector).blacklist,
            final(connector).loop_blacklist@ == (if found_itself(outcome, suppressed_before) {
                old(connector).loop_blacklist@.insert(
                    old(self).dst_peer_id,
                    LOOP_BLACKLIST_TIMEOUT_SEC,
                )
            } else {
                old(connector).loop_blacklist@
            }),
    {
        let verdict = connector.judge_punch(
            self.dst_peer_id,
            outcome,
            suppressed_before,
            suppressed_after,
        );
        let by_method = match tried {
            PunchTry::Method => true,
            PunchTry::Cone => false,
        };
        let in_rounds = by_method && self.method == UdpPunchClientMethod::SymToCone;
        match verdict {
            PunchVerdict::Stop => {
                return PunchStep::Done;
            },
            PunchVerdict::RollBack => {
                if by_method {
                    self.backoff.rollback();
                }
                if in_rounds {
                    self.round = self.round.saturating_sub(1);
                }
            },
            PunchVerdict::Advance => {
                if in_rounds {
                    self.round = self.round + 1;
                }
            },
        }
        if by_method {
            PunchStep::NextRound
        } else {
            PunchStep::TryMethod
        }
    }

    /// Takes in that the peer was busy: the try does not count.
    pub fn handle_busy(&mut self) -> (r: PunchStep)
        requires
            old(self).wf(),
        ensures
            final(self).wf(),
            r == PunchStep::NextRound,
            final(self).backoff.position() == previous_position(old(self).backoff.position()),
            *final(self) == (PunchRun { backoff: final(self).backoff, ..*old(self) }),
    {
        self.backoff.rollback();
        PunchStep::NextRound
    }
}

/// A run ends only when a tunnel was added, the peer turned out to be this node, or loops are
/// suppressed. It goes on one try further just where there was no tunnel and no failure, and in every
/// other case the try is taken back.
pub proof fn law_runs_end_only_for_a_reason(
    outcome: PunchOutcome,
    suppressed_before: bool,
    suppressed_after: bool,
)
    ensures
        ({
            let verdict = punch_verdict(outcome, suppressed_before, suppressed_after);
            let added = outcome is TunnelAdded;
            let refused = outcome is AddFailed && (outcome->self_loop || suppressed_after);
            &&& verdict is Stop <==> suppressed_before || added || refused
            &&& verdict is Advance <==> !suppressed_before && outcome is NoTunnel
            &&& outcome is Failed && !suppressed_before ==> verdict is RollBack
            &&& outcome is AddFailed && !suppressed_before && !refused ==> verdict is RollBack
        }),
        found_itself(outcome, suppressed_before) <==> !suppressed_before && outcome is AddFailed
            && outcome->self_loop,
        found_itself(outcome, suppressed_before) ==> punch_verdict(
            outcome,
            suppressed_before,
            suppressed_after,
        ) is Stop,
{
}

/// A failed try takes the waiting time one step back, and the round where rounds count; a try without
/// a tunnel leaves the waiting time and counts the round; a try for a cone that is not the method
/// changes neither; and what ends the run changes neither.
pub proof fn law_failed_tries_are_taken_back(
    run: PunchRun,
    tried: PunchTry,
    outcome: PunchOutcome,
    suppressed_before: bool,
    suppressed_after: bool,
)
    requires
        run.wf(),
    ensures
        ({
            let verdict = punch_verdict(outcome, suppressed_before, suppressed_after);
            let step = run.step_after(tried, verdict);
            let at = run.backoff.position();
            let next = run.position_after(tried, verdict);
            let round = run.round_after(tried, verdict);
            let in_rounds = run.method is SymToCone;
            let failed = !suppressed_before && (outcome is Failed || (outcome is AddFailed
                && !outcome->self_loop && !suppressed_after));
            let ends = suppressed_before || outcome is TunnelAdded || (outcome is AddFailed && (
            outcome->self_loop || suppressed_after));
            &&& step is Done <==> ends
            &&& ends ==> next == at && round == run.round
            &&& !ends && tried is Cone ==> step is TryMethod && next == at && round == run.round
            &&& !ends && tried is Method ==> step is NextRound
            &&& failed && tried is Method && at > 0 ==> next == at - 1
            &&& failed && tried is Method && at == 0 ==> next == 0
            &&& failed && tried is Method && in_rounds && run.round > 0 ==> round == run.round - 1
            &&& failed && tried is Method && (!in_rounds || run.round == 0) ==> round == run.round
            &&& outcome is NoTunnel && !suppressed_before ==> next == at
            &&& outcome is NoTunnel && !suppressed_before && tried is Method && in_rounds ==> round
                == run.round + 1
            &&& outcome is NoTunnel && !suppressed_before && !in_rounds ==> round == run.round
        }),
{
}

/// The waiting times between tries never get shorter: from a second to sixteen where both sides have a
/// cone, and to sixty-four otherwise. A round starts with the method where both sides have a cone.
pub proof fn law_waiting_times_grow(run: PunchRun, i: int, j: int)
    requires
        run.wf(),
        0 <= i <= j < run.backoff.schedule().len(),
    ensures
        ({
            let waits = run.backoff.schedule();
            &&& 1_000 <= waits[i] <= waits[j]
            &&& waits[j] <= 2 * waits[i] || j > i + 1 || waits[j] == 64_000
            &&& waits[0] == 1_000 && waits[1] == 1_000
            &&& run.method is ConeToCone ==> waits.last() == 16_000 && waits.len() == 8
            &&& !(run.method is ConeToCone) ==> waits.last() == 64_000 && waits.len() == 9
        }),
        run.method is ConeToCone ==> run.spec_first_try() is Method,
        !(run.method is ConeToCone) && !run.testing ==> run.spec_first_try() is Cone,
        run.testing ==> run.spec_first_try() is Method,
{
}

/// No hole is punched to a peer whose translation is unknown or cannot be passed, to a public server,
/// nor, unless transports are ranked and the candidate is a better one than those in use, to a peer
/// that is connected. Where nobody minds direct connections and nobody is lazy, a hole is punched to
/// every other peer.
pub proof fn law_holes_are_punched_where_they_help(flags: Flags, route: RouteFacts)
    ensures
        wants_hole(flags, route) ==> {
            &&& route.nat_type is Some && route.can_punch_hole
            &&& route.has_peer ==> flags.transport_priority@.len() > 0 && !route.has_live_transport
                && route.candidate_improves
            &&& route.feature_flag is Some ==> !route.feature_flag->0.is_public_server
            &&& flags.disable_p2p ==> route.feature_flag is Some && route.feature_flag->0.need_p2p
            &&& route.feature_flag is Some && route.feature_flag->0.disable_p2p ==> flags.need_p2p
            &&& flags.lazy_p2p && !route.has_recent_traffic && !route.has_peer
                ==> route.feature_flag is Some && route.feature_flag->0.need_p2p
        },
        route.nat_type is Some && route.can_punch_hole && !route.has_peer && !flags.disable_p2p && (
        route.feature_flag is None || (!route.feature_flag->0.is_public_server
            && !route.feature_flag->0.disable_p2p)) && (!flags.lazy_p2p || route.has_recent_traffic)
            ==> wants_hole(flags, route),
        route.nat_type is Some && route.can_punch_hole && route.has_peer && !flags.disable_p2p && (
        route.feature_flag is None || (!route.feature_flag->0.is_public_server
            && !route.feature_flag->0.disable_p2p)) && flags.transport_priority@.len() > 0
            && !route.has_live_transport && route.candidate_improves ==> wants_hole(flags, route),
{
}

/// Every task is for a peer that wants a hole and is not left alone, with what is known of that peer
/// and of this node.
pub proof fn law_tasks_are_for_wanting_peers(
    flags: Flags,
    my_nat_type: NatType,
    routes: Seq<RouteFacts>,
    left_alone: Seq<bool>,
    k: int,
) -> (i: int)
    requires
        routes.len() == left_alone.len(),
        0 <= k < tasks_of(flags, my_nat_type, routes, left_alone).len(),
    ensures
        k <= i < routes.len(),
        wants_hole(flags, routes[i]),
        !left_alone[i],
        ({
            let task = tasks_of(flags, my_nat_type, routes, left_alone)[k];
            let feature = routes[i].feature_flag;
            &&& task.dst_peer_id == routes[i].peer_id
            &&& routes[i].nat_type == Some(task.dst_nat_type)
            &&& task.my_nat_type == my_nat_type
            &&& task.disable_udp_stealth <==> enabled_by(flags, StealthProtocol::Udp) && feature is Some
                && !feature->0.stealth_supported
        }),
    decreases routes.len(),
{
    let before = tasks_of(flags, my_nat_type, routes.drop_last(), left_alone.drop_last());
    lemma_no_more_tasks_than_peers(flags, my_nat_type, routes.drop_last(), left_alone.drop_last());
    if k < before.len() {
        law_tasks_are_for_wanting_peers(
            flags,
            my_nat_type,
            routes.drop_last(),
            left_alone.drop_last(),
            k,
        )
    } else {
        routes.len() - 1
    }
}

proof fn lemma_no_more_tasks_than_peers(
    flags: Flags,
    my_nat_type: NatType,
    routes: Seq<RouteFacts>,
    left_alone: Seq<bool>,
)
    ensures
        tasks_of(flags, my_nat_type, routes, left_alone).len() <= routes.len(),
    decreases routes.len(),
{
    if routes.len() > 0 {
        lemma_no_more_tasks_than_peers(
            flags,
            my_nat_type,
            routes.drop_last(),
            left_alone.drop_last(),
        );
    }
}

/// A peer is told of a listener just where one was selected and its request is not rejected; a request is
/// rejected only if it says nothing about stealth and such requests are disabled.
pub proof fn law_who_is_told_of_a_listener(
    flags: &Flags,
    use_stealth: Option<bool>,
    stealth_enabled: bool,
    selected: Option<SocketAddress>,
    r: Result<PunchListener, PunchListenerError>,
)
    requires
        call_ensures(
            UdpHolePunchServer::select_punch_listener,
            (flags, use_stealth, stealth_enabled, selected),
            r,
        ),
    ensures
        use_stealth is None && flags.disable_legacy_udp_hole_punch ==> r == Err::<PunchListener, _>(
            PunchListenerError::LegacyDisabled,
        ),
        (use_stealth is Some || !flags.disable_legacy_udp_hole_punch) && selected is None ==> r == Err::<
            PunchListener,
            _,
        >(PunchListenerError::NoListener),
        (use_stealth is Some || !flags.disable_legacy_udp_hole_punch) && selected is Some ==> r == Ok::<
            _,
            PunchListenerError,
        >(PunchListener { mapped_addr: selected->0, stealth_enabled }),
{
}

/// A try ends a run just where punching was suppressed before it, where it connected the peer, or where the
/// peer could not be added and is this node or punching is suppressed by now. A peer that is this node is
/// left alone for five minutes, and no other.
pub proof fn law_tries_are_judged(
    connector: &mut UdpHolePunchConnector,
    dst_peer_id: PeerId,
    outcome: PunchOutcome,
    suppressed_before: bool,
    suppressed_after: bool,
    r: PunchVerdict,
)
    requires
        call_ensures(
            UdpHolePunchConnector::judge_punch,
            (connector, dst_peer_id, outcome, suppressed_before, suppressed_after),
            r,
        ),
    ensures
        r is Stop <==> suppressed_before || outcome is TunnelAdded || (outcome is AddFailed && (
        outcome->self_loop || suppressed_after)),
        r is Advance <==> !suppressed_before && outcome is NoTunnel,
        r is RollBack <==> !suppressed_before && (outcome is Failed || (outcome is AddFailed
            && !outcome->self_loop && !suppressed_after)),
        forall|peer_id: PeerId|
            #![auto]
            final(connector).loop_blacklist@.contains_key(peer_id)
                <==> old(connector).loop_blacklist@.contains_key(peer_id) || (peer_id == dst_peer_id
                && !suppressed_before && outcome is AddFailed && outcome->self_loop),
        !suppressed_before && outcome is AddFailed && outcome->self_loop
            ==> final(connector).loop_blacklist@[dst_peer_id] == 300,
        final(connector).blacklist == old(connector).blacklist,
{
}

/// What a run does after a try: it is done just where the try ended it, goes on with its method after a try
/// for a cone, and with the next round otherwise.
pub proof fn law_runs_go_on_after_a_try(
    run: &mut PunchRun,
    connector: &mut UdpHolePunchConnector,
    tried: PunchTry,
    outcome: PunchOutcome,
    suppressed_before: bool,
    suppressed_after: bool,
    r: PunchStep,
)
    requires
        old(run).wf(),
        old(run).round < u32::MAX,
        call_ensures(
            PunchRun::handle_punch_result,
            (run, connector, tried, outcome, suppressed_before, suppressed_after),
            r,
        ),
    ensures
        ({
            let ends = suppressed_before || outcome is TunnelAdded || (outcome is AddFailed && (
            outcome->self_loop || suppressed_after));
            &&& r is Done <==> ends
            &&& r is TryMethod <==> !ends && tried is Cone
            &&& r is NextRound <==> !ends && tried is Method
        }),
        final(run).dst_peer_id == old(run).dst_peer_id,
        final(run).method == old(run).method,
        final(connector).loop_blacklist@.contains_key(old(run).dst_peer_id)
            <==> old(connector).loop_blacklist@.contains_key(old(run).dst_peer_id) || (!suppressed_before
            && outcome is AddFailed && outcome->self_loop),
{
    law_failed_tries_are_taken_back(*old(run), tried, outcome, suppressed_before, suppressed_after);
}

/// A round is begun for every peer that is not listed, after the waiting time that is its turn, and no
/// other peer's entry changes.
pub proof fn law_rounds_are_for_unlisted_peers(
    run: &mut PunchRun,
    connector: &mut UdpHolePunchConnector,
    r: Option<(u64, PunchTry)>,
)
    requires
        old(run).wf(),
        call_ensures(PunchRun::begin_round, (run, connector), r),
    ensures
        !old(connector).loop_blacklist@.contains_key(old(run).dst_peer_id) ==> r is Some,
        r is Some ==> !final(connector).loop_blacklist@.contains_key(old(run).dst_peer_id),
        r is Some ==> (r->0).0 == old(run).backoff.schedule()[old(run).backoff.position()],
        r is None ==> *final(run) == *old(run),
        forall|peer_id: PeerId|
            #![auto]
            peer_id != old(run).dst_peer_id ==> (final(connector).loop_blacklist@.contains_key(peer_id)
                <==> old(connector).loop_blacklist@.contains_key(peer_id)),
{
}

} // verus!
