//! How direct connections to a peer are tried: in which order, how stealthily, and when it is
//! enough.
use vstd::prelude::*;

use crate::addr::IpAddress;
use crate::config::{Flags, PeerFeatureFlag};
use crate::connector::known;
use crate::direct_candidates::{
    improving, retain_higher_priority_candidates, views_of, CandidateParts, DirectCandidate,
};
use crate::keyed_table::unique_keys;
use crate::stealth_registry::{
    effective, peer_supports, peer_supports_protocol, StealthProtocol, StealthProtocolSet,
};
use crate::text::{lowercase, lowered, same_text};
use crate::transport_priority::{
    builtin_order, builtin_transports, has_scope, lemma_order_is_short, names_of, order_by_rules,
    rules_of_text, rules_without_repetition, PreferenceKey, PriorityRule, TransportPathClass,
    TransportPriority, TransportPriorityScope, TransportProtocol,
};

verus! {

/// How long the next transport waits for the ones before it, in milliseconds.
pub const PROTOCOL_STAGGER_MS: u64 = 300;

/// Whether a connection to a peer hides what it is.
#[derive(Clone, Copy, Debug, PartialEq, Eq, Structural)]
pub enum DirectStealthMode {
    Disabled,
    Required,
    /// It does at first, and does not if that fails.
    PreferLegacyFallback,
}

/// The mode for a peer of which `feature` is known.
pub open spec fn stealth_mode_of(
    protocol: StealthProtocol,
    feature: Option<PeerFeatureFlag>,
) -> DirectStealthMode {
    match feature {
        Some(flag) => if peer_supports(flag, protocol) {
            DirectStealthMode::Required
        } else {
            DirectStealthMode::Disabled
        },
        None => DirectStealthMode::PreferLegacyFallback,
    }
}

pub fn direct_stealth_mode(
    protocol: StealthProtocol,
    remote_feature: Option<&PeerFeatureFlag>,
) -> (r: DirectStealthMode)
    ensures
        r == stealth_mode_of(protocol, known(remote_feature)),
{
    match remote_feature {
        Some(feature) => if peer_supports_protocol(feature, protocol) {
            DirectStealthMode::Required
        } else {
            DirectStealthMode::Disabled
        },
        None => DirectStealthMode::PreferLegacyFallback,
    }
}

/// The name under which the stealth of a transport is configured.
pub open spec fn stealth_key(scheme: Seq<char>) -> Seq<char> {
    if scheme == "quic-brutal"@ {
        "quic"@
    } else {
        scheme
    }
}

pub fn stealth_protocol_key_for_scheme<'a>(scheme: &'a str) -> (r: &'a str)
    ensures
        r@ == stealth_key(scheme@),
{
    if same_text(scheme, "quic-brutal") {
        StealthProtocol::Quic.as_str()
    } else {
        scheme
    }
}

/// The stealth modes of transports.
pub open spec fn modes_of(
    protocols: Seq<StealthProtocol>,
    feature: Option<PeerFeatureFlag>,
) -> Seq<(StealthProtocol, DirectStealthMode)> {
    protocols.map_values(|p: StealthProtocol| (p, stealth_mode_of(p, feature)))
}

/// Decides the stealth modes of the transports for a peer.
pub fn stealth_modes_for(
    protocols: &Vec<StealthProtocol>,
    remote_feature: Option<&PeerFeatureFlag>,
) -> (r: Vec<(StealthProtocol, DirectStealthMode)>)
    ensures
        r@ == modes_of(protocols@, known(remote_feature)),
{
    let mut out: Vec<(StealthProtocol, DirectStealthMode)> = Vec::new();
    let mut i: usize = 0;
    while i < protocols.len()
        invariant
            i <= protocols@.len(),
            out@ == modes_of(protocols@, known(remote_feature)).take(i as int),
        decreases protocols@.len() - i,
    {
        let protocol = protocols[i];
        out.push((protocol, direct_stealth_mode(protocol, remote_feature)));
        i += 1;
        assert(out@ =~= modes_of(protocols@, known(remote_feature)).take(i as int));
    }
    assert(out@ =~= modes_of(protocols@, known(remote_feature)));
    out
}

/// The mode under a name; a transport without one goes without stealth.
pub open spec fn mode_named(
    modes: Seq<(StealthProtocol, DirectStealthMode)>,
    name: Seq<char>,
) -> DirectStealthMode
    decreases modes.len(),
{
    if modes.len() == 0 {
        DirectStealthMode::Disabled
    } else if modes.last().0.name() == name {
        modes.last().1
    } else {
        mode_named(modes.drop_last(), name)
    }
}

fn find_mode(modes: &Vec<(StealthProtocol, DirectStealthMode)>, name: &str) -> (r: DirectStealthMode)
    ensures
        r == mode_named(modes@, name@),
{
    let mut i: usize = modes.len();
    assert(modes@.take(i as int) =~= modes@);
    while i > 0
        invariant
            i <= modes@.len(),
            mode_named(modes@, name@) == mode_named(modes@.take(i as int), name@),
        decreases i,
    {
        assert(modes@.take(i as int).drop_last() =~= modes@.take(i as int - 1));
        if same_text(modes[i - 1].0.as_str(), name) {
            return modes[i - 1].1;
        }
        i -= 1;
    }
    DirectStealthMode::Disabled
}

/// The names of the built-in order.
pub open spec fn builtin_names() -> Seq<Seq<char>> {
    builtin_order().map_values(|p: TransportProtocol| p.name())
}

/// Picks the transports that are neither the default one nor UDP.
pub open spec fn other_than(default_protocol: Seq<char>) -> spec_fn(Seq<char>) -> bool {
    |name: Seq<char>| name != default_protocol && name != "udp"@
}

/// The order where no priority is configured: the default transport, UDP, and then the others.
pub open spec fn compatible_order(default_protocol: Seq<char>) -> Seq<Seq<char>> {
    let front = if default_protocol == "udp"@ {
        seq![default_protocol]
    } else {
        seq![default_protocol, "udp"@]
    };
    front + builtin_names().filter(other_than(default_protocol))
}

/// The order of the transports for a path to a peer.
pub open spec fn direct_order(
    flags: Flags,
    rules: Seq<PriorityRule>,
    is_lan: bool,
    virtual_ip: Option<IpAddress>,
) -> Seq<Seq<char>> {
    if rules.len() == 0 {
        compatible_order(lowered(flags.default_protocol@))
    } else {
        order_by_rules(rules, is_lan, virtual_ip).map_values(|p: TransportProtocol| p.name())
    }
}

/// Decides the order of the transports for a path to a peer.
pub fn direct_order_for(
    flags: &Flags,
    priority: &TransportPriority,
    is_lan: bool,
    virtual_ip: Option<IpAddress>,
) -> (r: Vec<String>)
    requires
        priority.wf(),
    ensures
        names_of(r@) == direct_order(*flags, priority@, is_lan, virtual_ip),
{
    if !priority.is_empty() {
        let order = priority.order_for(is_lan, virtual_ip);
        assert(names_of(order@) =~= direct_order(*flags, priority@, is_lan, virtual_ip));
        return order;
    }
    let default_protocol = lowercase(flags.default_protocol.as_str());
    let ghost dp = default_protocol@;
    let is_udp = same_text(default_protocol.as_str(), "udp");
    let mut out: Vec<String> = Vec::new();
    out.push(default_protocol.clone());
    if !is_udp {
        out.push("udp".to_owned());
    }
    let ghost front = names_of(out@);
    assert(front =~= (if is_udp {
        seq![dp]
    } else {
        seq![dp, "udp"@]
    }));
    let builtin = builtin_transports();
    let ghost other = other_than(dp);
    let mut i: usize = 0;
    proof {
        reveal(Seq::filter);
        assert(builtin_names().take(0) =~= Seq::<Seq<char>>::empty());
        assert(names_of(out@) =~= front + builtin_names().take(0).filter(other));
    }
    while i < builtin.len()
        invariant
            i <= builtin@.len(),
            builtin@ == builtin_order(),
            default_protocol@ == dp,
            other == other_than(dp),
            names_of(out@) == front + builtin_names().take(i as int).filter(other),
        decreases builtin@.len() - i,
    {
        let name = builtin[i].as_str();
        let ghost before = out@;
        proof {
            reveal(Seq::filter);
            let next = builtin_names().take(i as int + 1);
            assert(next.drop_last() =~= builtin_names().take(i as int));
            assert(next.last() == name@);
        }
        if !same_text(name, default_protocol.as_str()) && !same_text(name, "udp") {
            out.push(name.to_owned());
            assert(names_of(out@) =~= names_of(before).push(name@));
        }
        i += 1;
        assert(names_of(out@) =~= front + builtin_names().take(i as int).filter(other));
    }
    proof {
        assert(builtin_names().take(builtin_names().len() as int) =~= builtin_names());
    }
    out
}

/// The address of a peer by which rules for single peers are looked up: the IPv4 address if there is
/// a rule for it, else the IPv6 address.
pub open spec fn rule_address(
    rules: Seq<PriorityRule>,
    ipv4: Option<u32>,
    ipv6: Option<u128>,
) -> Option<IpAddress> {
    if ipv4 is Some && has_scope(
        rules,
        TransportPriorityScope::VirtualIp(IpAddress::V4(ipv4->0)),
    ) {
        Some(IpAddress::V4(ipv4->0))
    } else {
        match ipv6 {
            Some(ip) => Some(IpAddress::V6(ip)),
            None => None,
        }
    }
}

pub fn transport_virtual_ip(
    priority: &TransportPriority,
    ipv4: Option<u32>,
    ipv6: Option<u128>,
) -> (r: Option<IpAddress>)
    ensures
        r == rule_address(priority@, ipv4, ipv6),
{
    if let Some(ip) = ipv4 {
        if priority.has_virtual_ip_rule(IpAddress::V4(ip)) {
            return Some(IpAddress::V4(ip));
        }
    }
    match ipv6 {
        Some(ip) => Some(IpAddress::V6(ip)),
        None => None,
    }
}

/// A rule for the IPv4 address of a peer wins over one for its IPv6 address.
pub proof fn law_ipv4_rule_wins(rules: Seq<PriorityRule>, ipv4: u32, ipv6: Option<u128>)
    requires
        has_scope(rules, TransportPriorityScope::VirtualIp(IpAddress::V4(ipv4))),
    ensures
        rule_address(rules, Some(ipv4), ipv6) == Some(IpAddress::V4(ipv4)),
{
}

/// Without a priority the default transport comes first, then UDP; the priority being configured,
/// the default transport does not matter.
pub proof fn law_default_protocol_leads(
    flags: Flags,
    other: Flags,
    rules: Seq<PriorityRule>,
    is_lan: bool,
    virtual_ip: Option<IpAddress>,
)
    ensures
        rules.len() == 0 ==> direct_order(flags, rules, is_lan, virtual_ip)[0] == lowered(
            flags.default_protocol@,
        ),
        rules.len() == 0 && lowered(flags.default_protocol@) != "udp"@ ==> direct_order(
            flags,
            rules,
            is_lan,
            virtual_ip,
        )[1] == "udp"@,
        rules.len() > 0 ==> direct_order(flags, rules, is_lan, virtual_ip) == direct_order(
            other,
            rules,
            is_lan,
            virtual_ip,
        ),
{
}

/// The most preferred of some ways.
pub open spec fn best_of(keys: Seq<PreferenceKey>) -> Option<PreferenceKey>
    decreases keys.len(),
{
    if keys.len() == 0 {
        None
    } else {
        match best_of(keys.drop_last()) {
            None => Some(keys.last()),
            Some(best) => if keys.last().before(best) {
                Some(keys.last())
            } else {
                Some(best)
            },
        }
    }
}

/// The most preferred way is among the ways, and none is preferred to it.
pub proof fn law_best_is_best(keys: Seq<PreferenceKey>)
    ensures
        keys.len() == 0 <==> best_of(keys) is None,
        keys.len() > 0 ==> keys.contains(best_of(keys)->0),
        forall|i: int| 0 <= i < keys.len() ==> !(#[trigger] keys[i]).before(best_of(keys)->0),
    decreases keys.len(),
{
    if keys.len() > 0 {
        let front = keys.drop_last();
        law_best_is_best(front);
        if front.len() > 0 {
            let best = best_of(front)->0;
            let k = choose|k: int| 0 <= k < front.len() && front[k] == best;
            assert(keys[k] == best);
            assert forall|i: int| 0 <= i < keys.len() implies !(#[trigger] keys[i]).before(
                best_of(keys)->0,
            ) by {
                if i < front.len() {
                    assert(front[i] == keys[i]);
                    assert(!front[i].before(best));
                }
            }
        }
        assert(keys[keys.len() - 1] == keys.last());
    }
}

fn best_key(keys: &Vec<PreferenceKey>) -> (r: Option<PreferenceKey>)
    ensures
        r == best_of(keys@),
{
    let mut best: Option<PreferenceKey> = None;
    let mut i: usize = 0;
    assert(keys@.take(0) =~= Seq::<PreferenceKey>::empty());
    while i < keys.len()
        invariant
            i <= keys@.len(),
            best == best_of(keys@.take(i as int)),
        decreases keys@.len() - i,
    {
        assert(keys@.take(i as int + 1).drop_last() =~= keys@.take(i as int));
        match best {
            None => {
                best = Some(keys[i]);
            },
            Some(so_far) => {
                if keys[i].is_before(so_far) {
                    best = Some(keys[i]);
                }
            },
        }
        i += 1;
    }
    assert(keys@.take(keys@.len() as int) =~= keys@);
    best
}

/// How much candidates are preferred.
pub open spec fn keys_of(
    candidates: Seq<CandidateParts>,
    lan_order: Seq<Seq<char>>,
    wan_order: Seq<Seq<char>>,
) -> Seq<PreferenceKey> {
    candidates.map_values(|c: CandidateParts| c.key(lan_order, wan_order))
}

/// How candidates are tried: local ones first, and then the others.
#[derive(Debug)]
pub struct DirectPlan {
    pub lan: Vec<DirectCandidate>,
    pub wan: Vec<DirectCandidate>,
    /// What is aimed at, where a priority is configured.
    pub target: Option<PreferenceKey>,
}

/// The candidates that are tried: with a priority, only those that are preferred to what there is.
pub open spec fn tried(
    candidates: Seq<DirectCandidate>,
    lan_order: Seq<Seq<char>>,
    wan_order: Seq<Seq<char>>,
    priority_enabled: bool,
    existing: Option<PreferenceKey>,
) -> Seq<DirectCandidate> {
    if priority_enabled && existing is Some {
        improving(candidates, lan_order, wan_order, existing->0)
    } else {
        candidates
    }
}

/// Plans how candidates are tried.
pub fn plan_direct_connect(
    candidates: Vec<DirectCandidate>,
    lan_order: &Vec<String>,
    wan_order: &Vec<String>,
    priority_enabled: bool,
    existing: Option<PreferenceKey>,
) -> (r: DirectPlan)
    ensures
        r.target == (if priority_enabled {
            best_of(keys_of(views_of(candidates@), names_of(lan_order@), names_of(wan_order@)))
        } else {
            None
        }),
        r.lan@ == tried(
            candidates@.filter(|c: DirectCandidate| c.is_lan),
            names_of(lan_order@),
            names_of(wan_order@),
            priority_enabled,
            existing,
        ),
        r.wan@ == tried(
            candidates@.filter(|c: DirectCandidate| !c.is_lan),
            names_of(lan_order@),
            names_of(wan_order@),
            priority_enabled,
            existing,
        ),
{
    let ghost all = candidates@;
    let ghost keys_all = keys_of(views_of(all), names_of(lan_order@), names_of(wan_order@));
    let ghost local = |c: DirectCandidate| c.is_lan;
    let ghost remote = |c: DirectCandidate| !c.is_lan;
    let mut rest = candidates;
    let mut lan: Vec<DirectCandidate> = Vec::new();
    let mut wan: Vec<DirectCandidate> = Vec::new();
    let mut keys: Vec<PreferenceKey> = Vec::new();
    let ghost mut seen: int = 0;
    proof {
        reveal(Seq::filter);
        assert(all.take(0) =~= Seq::<DirectCandidate>::empty());
        assert(all.skip(0) =~= all);
    }
    while rest.len() > 0
        invariant
            0 <= seen <= all.len(),
            rest@ == all.skip(seen),
            local == |c: DirectCandidate| c.is_lan,
            remote == |c: DirectCandidate| !c.is_lan,
            keys_all == keys_of(views_of(all), names_of(lan_order@), names_of(wan_order@)),
            lan@ == all.take(seen).filter(local),
            wan@ == all.take(seen).filter(remote),
            keys@ == keys_all.take(seen),
        decreases rest@.len(),
    {
        let candidate = rest.remove(0);
        let ghost before = keys@;
        keys.push(candidate.preference_key(lan_order, wan_order));
        proof {
            reveal(Seq::filter);
            assert(candidate == all[seen]);
            assert(all.take(seen + 1).drop_last() =~= all.take(seen));
            assert(rest@ =~= all.skip(seen + 1));
            assert(keys@ =~= keys_all.take(seen + 1));
            seen = seen + 1;
        }
        if candidate.is_lan {
            lan.push(candidate);
        } else {
            wan.push(candidate);
        }
    }
    assert(all.take(seen) =~= all);
    assert(keys_all.take(seen) =~= keys_all);
    if !priority_enabled {
        return DirectPlan { lan, wan, target: None };
    }
    let lan = retain_higher_priority_candidates(lan, lan_order, wan_order, existing);
    let wan = retain_higher_priority_candidates(wan, lan_order, wan_order, existing);
    DirectPlan { lan, wan, target: best_key(&keys) }
}

/// The part of a plan that is carried out.
#[derive(Clone, Copy, Debug, PartialEq, Eq, Structural)]
pub enum PlanStage {
    Lan,
    Wan,
    Done,
}

impl DirectPlan {
    pub open spec fn first(&self) -> PlanStage {
        if self.lan@.len() > 0 {
            PlanStage::Lan
        } else if self.wan@.len() > 0 {
            PlanStage::Wan
        } else {
            PlanStage::Done
        }
    }

    /// What is tried first.
    pub fn first_stage(&self) -> (r: PlanStage)
        ensures
            r == self.first(),
    {
        if !self.lan.is_empty() {
            PlanStage::Lan
        } else if !self.wan.is_empty() {
            PlanStage::Wan
        } else {
            PlanStage::Done
        }
    }

    pub open spec fn after(&self, stage: PlanStage, satisfied: bool) -> PlanStage {
        if stage is Lan && !satisfied && self.wan@.len() > 0 {
            PlanStage::Wan
        } else {
            PlanStage::Done
        }
    }

    /// What is tried after a stage: nothing, if the local candidates were enough.
    pub fn next_stage(&self, stage: PlanStage, satisfied: bool) -> (r: PlanStage)
        ensures
            r == self.after(stage, satisfied),
    {
        match stage {
            PlanStage::Lan => if !satisfied && !self.wan.is_empty() {
                PlanStage::Wan
            } else {
                PlanStage::Done
            },
            _ => PlanStage::Done,
        }
    }
}

/// Other candidates are tried only after the local ones, and only if those were not enough.
pub proof fn law_local_candidates_come_first(plan: DirectPlan, satisfied: bool)
    ensures
        plan.lan@.len() > 0 ==> plan.first() is Lan,
        plan.after(PlanStage::Lan, satisfied) is Wan ==> !satisfied,
        plan.after(PlanStage::Wan, satisfied) is Done,
{
}

/// An attempt at a candidate.
#[derive(Clone, Copy, Debug, PartialEq, Eq, Structural)]
pub struct PlannedAttempt {
    /// The place of the candidate.
    pub candidate: usize,
    pub delay_ms: u64,
    pub stealth_mode: DirectStealthMode,
    pub preference_key: Option<PreferenceKey>,
}

/// The places of the candidates with a transport.
pub open spec fn places_of(candidates: Seq<CandidateParts>, protocol: Seq<char>) -> Seq<int>
    decreases candidates.len(),
{
    if candidates.len() == 0 {
        Seq::empty()
    } else {
        let before = places_of(candidates.drop_last(), protocol);
        if candidates.last().url.scheme == protocol {
            before.push(candidates.len() - 1)
        } else {
            before
        }
    }
}

/// The attempt at the candidate at a place.
pub open spec fn attempt_at(
    candidates: Seq<CandidateParts>,
    order: Seq<Seq<char>>,
    modes: Seq<(StealthProtocol, DirectStealthMode)>,
    priority_enabled: bool,
    delay_ms: int,
    place: int,
) -> PlannedAttempt {
    PlannedAttempt {
        candidate: place as usize,
        delay_ms: delay_ms as u64,
        stealth_mode: mode_named(modes, stealth_key(candidates[place].url.scheme)),
        preference_key: if priority_enabled {
            Some(candidates[place].key_in(order))
        } else {
            None
        },
    }
}

/// The number of transports of an order that have candidates.
pub open spec fn groups_in(candidates: Seq<CandidateParts>, order: Seq<Seq<char>>) -> int
    decreases order.len(),
{
    if order.len() == 0 {
        0
    } else {
        groups_in(candidates, order.drop_last()) + (if places_of(candidates, order.last()).len() > 0 {
            1int
        } else {
            0
        })
    }
}

/// The attempts at the candidates, transport by transport; each transport that has candidates starts
/// a little later than the one before. `done` transports of the order are through.
pub open spec fn attempts_of(
    candidates: Seq<CandidateParts>,
    order: Seq<Seq<char>>,
    modes: Seq<(StealthProtocol, DirectStealthMode)>,
    priority_enabled: bool,
    done: int,
) -> Seq<PlannedAttempt>
    decreases done,
{
    if done <= 0 {
        Seq::empty()
    } else {
        attempts_of(candidates, order, modes, priority_enabled, done - 1) + places_of(
            candidates,
            order[done - 1],
        ).map_values(
            |place: int|
                attempt_at(
                    candidates,
                    order,
                    modes,
                    priority_enabled,
                    PROTOCOL_STAGGER_MS * groups_in(candidates, order.take(done - 1)),
                    place,
                ),
        )
    }
}

fn candidate_places(candidates: &Vec<DirectCandidate>, protocol: &str) -> (r: Vec<usize>)
    ensures
        r@.map_values(|i: usize| i as int) == places_of(views_of(candidates@), protocol@),
        forall|i: int| 0 <= i < r@.len() ==> #[trigger] r@[i] < candidates@.len(),
{
    let ghost views = views_of(candidates@);
    let mut out: Vec<usize> = Vec::new();
    let mut i: usize = 0;
    assert(views.take(0) =~= Seq::<CandidateParts>::empty());
    assert(out@.map_values(|i: usize| i as int) =~= Seq::<int>::empty());
    while i < candidates.len()
        invariant
            i <= candidates@.len(),
            views == views_of(candidates@),
            out@.map_values(|i: usize| i as int) == places_of(views.take(i as int), protocol@),
            forall|k: int| 0 <= k < out@.len() ==> #[trigger] out@[k] < candidates@.len(),
        decreases candidates@.len() - i,
    {
        let ghost before = out@;
        assert(views.take(i as int + 1).drop_last() =~= views.take(i as int));
        if same_text(candidates[i].url.scheme.as_str(), protocol) {
            out.push(i);
            assert(out@.map_values(|i: usize| i as int) =~= before.map_values(
                |i: usize| i as int,
            ).push(i as int));
        }
        i += 1;
    }
    assert(views.take(views.len() as int) =~= views);
    out
}

/// Plans the attempts at some candidates.
pub fn plan_bucket(
    candidates: &Vec<DirectCandidate>,
    protocol_order: &Vec<String>,
    modes: &Vec<(StealthProtocol, DirectStealthMode)>,
    priority_enabled: bool,
) -> (r: Vec<PlannedAttempt>)
    requires
        protocol_order@.len() <= u32::MAX,
    ensures
        r@ == attempts_of(
            views_of(candidates@),
            names_of(protocol_order@),
            modes@,
            priority_enabled,
            protocol_order@.len() as int,
        ),
{
    let ghost views = views_of(candidates@);
    let ghost order = names_of(protocol_order@);
    let mut out: Vec<PlannedAttempt> = Vec::new();
    let mut groups: u64 = 0;
    let mut i: usize = 0;
    assert(order.take(0) =~= Seq::<Seq<char>>::empty());
    while i < protocol_order.len()
        invariant
            i <= protocol_order@.len(),
            protocol_order@.len() <= u32::MAX,
            views == views_of(candidates@),
            order == names_of(protocol_order@),
            groups == groups_in(views, order.take(i as int)),
            groups <= i,
            out@ == attempts_of(views, order, modes@, priority_enabled, i as int),
        decreases protocol_order@.len() - i,
    {
        let places = candidate_places(candidates, protocol_order[i].as_str());
        let delay_ms: u64 = PROTOCOL_STAGGER_MS * groups;
        let ghost before = out@;
        let ghost group = places_of(views, order[i as int]).map_values(
            |place: int|
                attempt_at(views, order, modes@, priority_enabled, delay_ms as int, place),
        );
        assert(places@.map_values(|i: usize| i as int).len() == places@.len());
        let mut k: usize = 0;
        while k < places.len()
            invariant
                k <= places@.len(),
                views == views_of(candidates@),
                order == names_of(protocol_order@),
                i < protocol_order@.len(),
                places@.map_values(|i: usize| i as int) == places_of(views, order[i as int]),
                forall|j: int| 0 <= j < places@.len() ==> #[trigger] places@[j] < candidates@.len(),
                group == places_of(views, order[i as int]).map_values(
                    |place: int|
                        attempt_at(views, order, modes@, priority_enabled, delay_ms as int, place),
                ),
                group.len() == places@.len(),
                out@ == before + group.take(k as int),
            decreases places@.len() - k,
        {
            let place = places[k];
            assert(places@.map_values(|i: usize| i as int)[k as int] == place as int);
            let candidate = &candidates[place];
            assert(views[place as int] == candidate@);
            let stealth_mode = find_mode(
                modes,
                stealth_protocol_key_for_scheme(candidate.url.scheme.as_str()),
            );
            let preference_key = if priority_enabled {
                Some(
                    PreferenceKey::new(
                        candidate.path(),
                        protocol_order,
                        candidate.url.scheme.as_str(),
                    ),
                )
            } else {
                None
            };
            out.push(PlannedAttempt { candidate: place, delay_ms, stealth_mode, preference_key });
            k += 1;
            assert(out@ =~= before + group.take(k as int));
        }
        assert(group.take(k as int) =~= group);
        proof {
            assert(order.take(i as int + 1).drop_last() =~= order.take(i as int));
            assert(places@.map_values(|i: usize| i as int).len() == places@.len());
        }
        if places.len() > 0 {
            groups = groups + 1;
        }
        i += 1;
        assert(out@ =~= attempts_of(views, order, modes@, priority_enabled, i as int));
    }
    out
}

/// What the attempts at some candidates aim at.
pub open spec fn bucket_target(
    candidates: Seq<CandidateParts>,
    order: Seq<Seq<char>>,
    priority_enabled: bool,
) -> Option<PreferenceKey> {
    if priority_enabled {
        best_of(keys_of(candidates, order, order))
    } else {
        None
    }
}

pub fn target_of_bucket(
    candidates: &Vec<DirectCandidate>,
    protocol_order: &Vec<String>,
    priority_enabled: bool,
) -> (r: Option<PreferenceKey>)
    ensures
        r == bucket_target(views_of(candidates@), names_of(protocol_order@), priority_enabled),
        candidates@.len() > 0 && priority_enabled ==> r is Some,
{
    if !priority_enabled {
        return None;
    }
    let ghost keys_all = keys_of(
        views_of(candidates@),
        names_of(protocol_order@),
        names_of(protocol_order@),
    );
    let mut keys: Vec<PreferenceKey> = Vec::new();
    let mut i: usize = 0;
    while i < candidates.len()
        invariant
            i <= candidates@.len(),
            keys_all == keys_of(
                views_of(candidates@),
                names_of(protocol_order@),
                names_of(protocol_order@),
            ),
            keys@ == keys_all.take(i as int),
        decreases candidates@.len() - i,
    {
        keys.push(candidates[i].preference_key(protocol_order, protocol_order));
        i += 1;
        assert(keys@ =~= keys_all.take(i as int));
    }
    assert(keys_all.take(i as int) =~= keys_all);
    proof {
        law_best_is_best(keys_all);
    }
    best_key(&keys)
}

/// How a peer is connected to directly: the candidates, the attempts at them, and what is aimed at.
#[derive(Debug)]
pub struct DirectSchedule {
    pub plan: DirectPlan,
    pub lan_attempts: Vec<PlannedAttempt>,
    pub wan_attempts: Vec<PlannedAttempt>,
    pub lan_target: Option<PreferenceKey>,
    pub wan_target: Option<PreferenceKey>,
}

/// What is known of a peer that is to be connected to.
pub struct DirectPeerFacts<'a> {
    pub feature: Option<&'a PeerFeatureFlag>,
    pub ipv4: Option<u32>,
    pub ipv6: Option<u128>,
    /// How much the best way by which the peer is connected is preferred.
    pub existing: Option<PreferenceKey>,
}

impl DirectSchedule {
    /// The schedule for some candidates, by the orders of the transports within the local network
    /// and beyond it.
    pub open spec fn fits(
        &self,
        candidates: Seq<DirectCandidate>,
        lan_order: Seq<Seq<char>>,
        wan_order: Seq<Seq<char>>,
        modes: Seq<(StealthProtocol, DirectStealthMode)>,
        priority_enabled: bool,
        existing: Option<PreferenceKey>,
    ) -> bool {
        &&& self.plan.target == (if priority_enabled {
            best_of(keys_of(views_of(candidates), lan_order, wan_order))
        } else {
            None
        })
        &&& self.plan.lan@ == tried(
            candidates.filter(|c: DirectCandidate| c.is_lan),
            lan_order,
            wan_order,
            priority_enabled,
            existing,
        )
        &&& self.plan.wan@ == tried(
            candidates.filter(|c: DirectCandidate| !c.is_lan),
            lan_order,
            wan_order,
            priority_enabled,
            existing,
        )
        &&& self.lan_attempts@ == attempts_of(
            views_of(self.plan.lan@),
            lan_order,
            modes,
            priority_enabled,
            lan_order.len() as int,
        )
        &&& self.wan_attempts@ == attempts_of(
            views_of(self.plan.wan@),
            wan_order,
            modes,
            priority_enabled,
            wan_order.len() as int,
        )
        &&& self.lan_target == bucket_target(views_of(self.plan.lan@), lan_order, priority_enabled)
        &&& self.wan_target == bucket_target(views_of(self.plan.wan@), wan_order, priority_enabled)
    }
}

/// An order of transports for a peer is short.
proof fn lemma_direct_order_is_short(
    flags: Flags,
    rules: Seq<PriorityRule>,
    is_lan: bool,
    virtual_ip: Option<IpAddress>,
)
    requires
        unique_keys(rules),
        rules_without_repetition(rules),
    ensures
        direct_order(flags, rules, is_lan, virtual_ip).len() <= 9,
{
    if rules.len() > 0 {
        lemma_order_is_short(rules, is_lan, virtual_ip);
    } else {
        builtin_names().lemma_filter_len(other_than(lowered(flags.default_protocol@)));
    }
}

/// Schedules the attempts at some candidates: the rules for the peer's virtual address, or the
/// default transport, decide the order of the transports; the candidates are split into local and
/// other ones; and each transport starts a little later than the one before.
pub fn schedule_direct_connect(
    flags: &Flags,
    priority: &TransportPriority,
    stealth: &StealthProtocolSet,
    peer: &DirectPeerFacts,
    candidates: Vec<DirectCandidate>,
) -> (r: DirectSchedule)
    requires
        priority.wf(),
    ensures
        r.fits(
            candidates@,
            direct_order(*flags, priority@, true, rule_address(priority@, peer.ipv4, peer.ipv6)),
            direct_order(*flags, priority@, false, rule_address(priority@, peer.ipv4, peer.ipv6)),
            modes_of(effective(stealth@, flags.stealth_mode), known(peer.feature)),
            priority@.len() > 0,
            peer.existing,
        ),
{
    let priority_enabled = !priority.is_empty();
    let virtual_ip = transport_virtual_ip(priority, peer.ipv4, peer.ipv6);
    let lan_order = direct_order_for(flags, priority, true, virtual_ip);
    let wan_order = direct_order_for(flags, priority, false, virtual_ip);
    proof {
        lemma_direct_order_is_short(*flags, priority@, true, virtual_ip);
        lemma_direct_order_is_short(*flags, priority@, false, virtual_ip);
        assert(names_of(lan_order@).len() == lan_order@.len());
        assert(names_of(wan_order@).len() == wan_order@.len());
    }
    let protocols = stealth.effective_protocols(flags.stealth_mode);
    let modes = stealth_modes_for(&protocols, peer.feature);
    let plan = plan_direct_connect(
        candidates,
        &lan_order,
        &wan_order,
        priority_enabled,
        peer.existing,
    );
    let lan_attempts = plan_bucket(&plan.lan, &lan_order, &modes, priority_enabled);
    let wan_attempts = plan_bucket(&plan.wan, &wan_order, &modes, priority_enabled);
    let lan_target = target_of_bucket(&plan.lan, &lan_order, priority_enabled);
    let wan_target = target_of_bucket(&plan.wan, &wan_order, priority_enabled);
    DirectSchedule { plan, lan_attempts, wan_attempts, lan_target, wan_target }
}

/// What is aimed at has been reached: a way that is not worse than the target, or any direct
/// connection where there is no target.
pub open spec fn reached(
    target: Option<PreferenceKey>,
    current: Option<PreferenceKey>,
    directly_connected: bool,
) -> bool {
    match target {
        Some(target) => current is Some && current->0.not_after(target),
        None => directly_connected,
    }
}

pub fn is_target_reached(
    target: Option<PreferenceKey>,
    current: Option<PreferenceKey>,
    directly_connected: bool,
) -> (r: bool)
    ensures
        r == reached(target, current, directly_connected),
{
    match target {
        Some(target) => match current {
            Some(current) => !target.is_before(current),
            None => false,
        },
        None => directly_connected,
    }
}

/// What came of an attempt.
#[derive(Clone, Copy, Debug, PartialEq, Eq, Structural)]
pub enum DirectAttemptOutcome {
    Connected(Option<PreferenceKey>),
    AlreadySatisfied,
}

/// The attempts at some candidates are enough, given whether the target is reached.
pub open spec fn bucket_settled(
    joined: Option<DirectAttemptOutcome>,
    target: Option<PreferenceKey>,
    target_reached: bool,
) -> bool {
    match joined {
        Some(DirectAttemptOutcome::Connected(None)) => true,
        Some(DirectAttemptOutcome::Connected(Some(key))) => target == Some(key),
        Some(DirectAttemptOutcome::AlreadySatisfied) => target_reached,
        None => false,
    }
}

/// Tells whether an attempt that has ended was enough, so that the others are called off. `joined`
/// is nothing for an attempt that failed.
pub fn is_bucket_settled(
    joined: Option<DirectAttemptOutcome>,
    target: Option<PreferenceKey>,
    target_reached: bool,
) -> (r: bool)
    ensures
        r == bucket_settled(joined, target, target_reached),
{
    match joined {
        Some(DirectAttemptOutcome::Connected(None)) => true,
        Some(DirectAttemptOutcome::Connected(Some(key))) => match target {
            Some(target) => target == key,
            None => false,
        },
        Some(DirectAttemptOutcome::AlreadySatisfied) => target_reached,
        None => false,
    }
}

proof fn lemma_places(candidates: Seq<CandidateParts>, protocol: Seq<char>)
    ensures
        ({
            let places = places_of(candidates, protocol);
            &&& forall|k: int|
                0 <= k < places.len() ==> 0 <= #[trigger] places[k] < candidates.len()
                    && candidates[places[k]].url.scheme == protocol
            &&& forall|k: int, l: int|
                0 <= k < l < places.len() ==> #[trigger] places[k] < #[trigger] places[l]
            &&& forall|i: int|
                0 <= i < candidates.len() && (#[trigger] candidates[i]).url.scheme == protocol
                    ==> places.contains(i)
        }),
    decreases candidates.len(),
{
    if candidates.len() > 0 {
        let front = candidates.drop_last();
        lemma_places(front, protocol);
        let before = places_of(front, protocol);
        let places = places_of(candidates, protocol);
        assert forall|i: int|
            0 <= i < candidates.len() && (#[trigger] candidates[i]).url.scheme == protocol implies places.contains(
        i) by {
            if i < front.len() {
                assert(front[i] == candidates[i]);
                let k = choose|k: int| 0 <= k < before.len() && before[k] == i;
                assert(places[k] == i);
            } else {
                assert(places[places.len() - 1] == i);
            }
        }
        assert forall|k: int| 0 <= k < places.len() implies 0 <= #[trigger] places[k] < candidates.len()
            && candidates[places[k]].url.scheme == protocol by {
            if k < before.len() {
                assert(places[k] == before[k]);
                assert(front[before[k]] == candidates[before[k]]);
            }
        }
        assert forall|k: int, l: int| 0 <= k < l < places.len() implies #[trigger] places[k]
            < #[trigger] places[l] by {
            assert(places[k] == before[k]);
            if l < before.len() {
                assert(places[l] == before[l]);
            }
        }
    }
}

/// The attempts of the first `done` transports of an order: each is at a candidate of one of these
/// transports, and each such candidate has an attempt.
proof fn lemma_attempts(
    candidates: Seq<CandidateParts>,
    order: Seq<Seq<char>>,
    modes: Seq<(StealthProtocol, DirectStealthMode)>,
    priority_enabled: bool,
    done: int,
)
    requires
        order.no_duplicates(),
        candidates.len() <= usize::MAX,
        0 <= done <= order.len(),
    ensures
        ({
            let attempts = attempts_of(candidates, order, modes, priority_enabled, done);
            &&& forall|k: int|
                0 <= k < attempts.len() ==> (#[trigger] attempts[k]).candidate < candidates.len()
                    && order.take(done).contains(candidates[attempts[k].candidate as int].url.scheme)
            &&& forall|i: int|
                0 <= i < candidates.len() && order.take(done).contains(
                    (#[trigger] candidates[i]).url.scheme,
                ) ==> exists|k: int|
                    0 <= k < attempts.len() && (#[trigger] attempts[k]).candidate == i
            &&& forall|k: int, l: int|
                0 <= k < l < attempts.len() ==> (#[trigger] attempts[k]).candidate != (
                #[trigger] attempts[l]).candidate
        }),
    decreases done,
{
    let attempts = attempts_of(candidates, order, modes, priority_enabled, done);
    if done > 0 {
        lemma_attempts(candidates, order, modes, priority_enabled, done - 1);
        lemma_places(candidates, order[done - 1]);
        let before = attempts_of(candidates, order, modes, priority_enabled, done - 1);
        let places = places_of(candidates, order[done - 1]);
        let earlier = order.take(done - 1);
        let now = order.take(done);
        assert(now[done - 1] == order[done - 1]);
        assert(attempts.len() == before.len() + places.len());
        assert forall|k: int| before.len() <= k < attempts.len() implies (
        #[trigger] attempts[k]).candidate == places[k - before.len()] by {}
        assert forall|name: Seq<char>| #[trigger] now.contains(name) <==> earlier.contains(name) || name
            == order[done - 1] by {
            if earlier.contains(name) {
                let j = choose|j: int| 0 <= j < earlier.len() && earlier[j] == name;
                assert(now[j] == name);
            }
            if now.contains(name) {
                let j = choose|j: int| 0 <= j < now.len() && now[j] == name;
                if j < done - 1 {
                    assert(earlier[j] == name);
                }
            }
        }
        assert(!earlier.contains(order[done - 1])) by {
            if earlier.contains(order[done - 1]) {
                let j = choose|j: int| 0 <= j < earlier.len() && earlier[j] == order[done - 1];
                assert(order[j] == order[done - 1]);
            }
        }
        assert forall|k: int| 0 <= k < attempts.len() implies (#[trigger] attempts[k]).candidate
            < candidates.len() && now.contains(
            candidates[attempts[k].candidate as int].url.scheme,
        ) by {
            if k < before.len() {
                assert(attempts[k] == before[k]);
            }
        }
        assert forall|i: int|
            0 <= i < candidates.len() && now.contains((#[trigger] candidates[i]).url.scheme) implies exists|
            k: int,
        | 0 <= k < attempts.len() && (#[trigger] attempts[k]).candidate == i by {
            if earlier.contains(candidates[i].url.scheme) {
                let k = choose|k: int| 0 <= k < before.len() && (#[trigger] before[k]).candidate == i;
                assert(attempts[k] == before[k]);
            } else {
                let p = choose|p: int| 0 <= p < places.len() && places[p] == i;
                assert(attempts[before.len() + p].candidate == i);
            }
        }
        assert forall|k: int, l: int| 0 <= k < l < attempts.len() implies (
        #[trigger] attempts[k]).candidate != (#[trigger] attempts[l]).candidate by {
            if l < before.len() {
                assert(attempts[k] == before[k]);
                assert(attempts[l] == before[l]);
            } else if k < before.len() {
                assert(attempts[k] == before[k]);
            }
        }
    } else {
        assert(order.take(0) =~= Seq::<Seq<char>>::empty());
    }
}

/// Every candidate whose transport is in the order is tried exactly once, and nothing else is.
pub proof fn law_listed_candidates_are_tried_once(
    candidates: Seq<CandidateParts>,
    order: Seq<Seq<char>>,
    modes: Seq<(StealthProtocol, DirectStealthMode)>,
    priority_enabled: bool,
)
    requires
        order.no_duplicates(),
        candidates.len() <= usize::MAX,
    ensures
        ({
            let attempts = attempts_of(
                candidates,
                order,
                modes,
                priority_enabled,
                order.len() as int,
            );
            &&& forall|i: int|
                0 <= i < candidates.len() && order.contains((#[trigger] candidates[i]).url.scheme)
                    ==> exists|k: int| 0 <= k < attempts.len() && (#[trigger] attempts[k]).candidate == i
            &&& forall|k: int, l: int|
                0 <= k < l < attempts.len() ==> (#[trigger] attempts[k]).candidate != (
                #[trigger] attempts[l]).candidate
            &&& forall|k: int|
                0 <= k < attempts.len() ==> (#[trigger] attempts[k]).candidate < candidates.len()
                    && order.contains(candidates[attempts[k].candidate as int].url.scheme)
        }),
{
    lemma_attempts(candidates, order, modes, priority_enabled, order.len() as int);
    assert(order.take(order.len() as int) =~= order);
}

proof fn lemma_groups(candidates: Seq<CandidateParts>, order: Seq<Seq<char>>)
    ensures
        0 <= groups_in(candidates, order) <= order.len(),
    decreases order.len(),
{
    if order.len() > 0 {
        lemma_groups(candidates, order.drop_last());
    }
}

proof fn lemma_delays(
    candidates: Seq<CandidateParts>,
    order: Seq<Seq<char>>,
    modes: Seq<(StealthProtocol, DirectStealthMode)>,
    priority_enabled: bool,
    done: int,
)
    requires
        order.no_duplicates(),
        order.len() <= u32::MAX,
        candidates.len() <= usize::MAX,
        0 <= done <= order.len(),
    ensures
        ({
            let attempts = attempts_of(candidates, order, modes, priority_enabled, done);
            let groups = groups_in(candidates, order.take(done));
            &&& attempts.len() > 0 ==> attempts[0].delay_ms == 0 && attempts.last().delay_ms == 300 * (
            groups - 1)
            &&& attempts.len() == 0 ==> groups == 0
            &&& forall|k: int, l: int|
                0 <= k && l == k + 1 && l < attempts.len() ==> {
                    let first = candidates[(#[trigger] attempts[k]).candidate as int].url.scheme;
                    let second = candidates[(#[trigger] attempts[l]).candidate as int].url.scheme;
                    attempts[l].delay_ms == attempts[k].delay_ms + (if first == second {
                        0int
                    } else {
                        300
                    })
                }
            &&& forall|k: int|
                0 <= k < attempts.len() ==> (#[trigger] attempts[k]).preference_key is Some
                    == priority_enabled
        }),
    decreases done,
{
    if done > 0 {
        lemma_delays(candidates, order, modes, priority_enabled, done - 1);
        lemma_attempts(candidates, order, modes, priority_enabled, done - 1);
        lemma_places(candidates, order[done - 1]);
        lemma_groups(candidates, order.take(done - 1));
        assert(order.take(done).drop_last() =~= order.take(done - 1));
        assert(order.take(done).last() == order[done - 1]);
        let before = attempts_of(candidates, order, modes, priority_enabled, done - 1);
        let attempts = attempts_of(candidates, order, modes, priority_enabled, done);
        let places = places_of(candidates, order[done - 1]);
        let groups = groups_in(candidates, order.take(done - 1));
        assert(attempts.len() == before.len() + places.len());
        assert forall|k: int| before.len() <= k < attempts.len() implies (
        #[trigger] attempts[k]).delay_ms == 300 * groups && attempts[k].candidate == places[k
            - before.len()] && candidates[attempts[k].candidate as int].url.scheme == order[done - 1]
            && attempts[k].preference_key is Some == priority_enabled by {}
        assert forall|k: int| 0 <= k < before.len() implies #[trigger] attempts[k] == before[k] by {}
        let earlier = order.take(done - 1);
        assert(!earlier.contains(order[done - 1])) by {
            if earlier.contains(order[done - 1]) {
                let j = choose|j: int| 0 <= j < earlier.len() && earlier[j] == order[done - 1];
                assert(order[j] == order[done - 1]);
            }
        }
        assert forall|k: int, l: int| 0 <= k && l == k + 1 && l < attempts.len() implies {
            let first = candidates[(#[trigger] attempts[k]).candidate as int].url.scheme;
            let second = candidates[(#[trigger] attempts[l]).candidate as int].url.scheme;
            attempts[l].delay_ms == attempts[k].delay_ms + (if first == second {
                0int
            } else {
                300
            })
        } by {
            if l < before.len() {
                assert(attempts[k] == before[k] && attempts[l] == before[l]);
            } else if k < before.len() {
                assert(k == before.len() - 1);
                assert(attempts[k] == before.last());
                assert(earlier.contains(candidates[before[k].candidate as int].url.scheme));
            }
        }
        if places.len() == 0 {
            assert(attempts =~= before);
        }
    } else {
        assert(order.take(0) =~= Seq::<Seq<char>>::empty());
    }
}

/// The first attempt starts at once; each further one starts with the one before it where both use the
/// same transport, and 300 milliseconds after it where it is the first of the next transport.
pub proof fn law_transports_are_staggered(
    candidates: Seq<CandidateParts>,
    order: Seq<Seq<char>>,
    modes: Seq<(StealthProtocol, DirectStealthMode)>,
    priority_enabled: bool,
)
    requires
        order.no_duplicates(),
        order.len() <= u32::MAX,
        candidates.len() <= usize::MAX,
    ensures
        ({
            let attempts = attempts_of(
                candidates,
                order,
                modes,
                priority_enabled,
                order.len() as int,
            );
            &&& attempts.len() > 0 ==> attempts[0].delay_ms == 0
            &&& forall|k: int, l: int|
                0 <= k && l == k + 1 && l < attempts.len() ==> {
                    let first = candidates[(#[trigger] attempts[k]).candidate as int].url.scheme;
                    let second = candidates[(#[trigger] attempts[l]).candidate as int].url.scheme;
                    attempts[l].delay_ms == attempts[k].delay_ms + (if first == second {
                        0int
                    } else {
                        300
                    })
                }
            &&& forall|k: int|
                0 <= k < attempts.len() ==> (#[trigger] attempts[k]).preference_key is Some
                    == priority_enabled
        }),
{
    lemma_delays(candidates, order, modes, priority_enabled, order.len() as int);
}

/// Transports are tried in their order: the transport of an attempt does not come later in the order
/// than that of any later attempt.
pub proof fn law_transports_are_tried_in_order(
    candidates: Seq<CandidateParts>,
    order: Seq<Seq<char>>,
    modes: Seq<(StealthProtocol, DirectStealthMode)>,
    priority_enabled: bool,
    done: int,
)
    requires
        order.no_duplicates(),
        candidates.len() <= usize::MAX,
        0 <= done <= order.len(),
    ensures
        ({
            let attempts = attempts_of(candidates, order, modes, priority_enabled, done);
            forall|k: int, l: int, a: int, b: int|
                0 <= k < l < attempts.len() && 0 <= a < order.len() && 0 <= b < order.len() && candidates[(
                #[trigger] attempts[k]).candidate as int].url.scheme == #[trigger] order[a]
                    && candidates[(#[trigger] attempts[l]).candidate as int].url.scheme
                    == #[trigger] order[b] ==> a <= b
        }),
    decreases done,
{
    if done > 0 {
        law_transports_are_tried_in_order(candidates, order, modes, priority_enabled, done - 1);
        lemma_attempts(candidates, order, modes, priority_enabled, done - 1);
        lemma_places(candidates, order[done - 1]);
        let before = attempts_of(candidates, order, modes, priority_enabled, done - 1);
        let attempts = attempts_of(candidates, order, modes, priority_enabled, done);
        let places = places_of(candidates, order[done - 1]);
        assert(attempts.len() == before.len() + places.len());
        assert forall|k: int| before.len() <= k < attempts.len() implies candidates[(
        #[trigger] attempts[k]).candidate as int].url.scheme == order[done - 1] by {
            assert(attempts[k].candidate == places[k - before.len()]);
        }
        assert forall|k: int, l: int, a: int, b: int|
            0 <= k < l < attempts.len() && 0 <= a < order.len() && 0 <= b < order.len() && candidates[(
            #[trigger] attempts[k]).candidate as int].url.scheme == #[trigger] order[a] && candidates[(
            #[trigger] attempts[l]).candidate as int].url.scheme == #[trigger] order[b] implies a
            <= b by {
            if l < before.len() {
                assert(attempts[k] == before[k] && attempts[l] == before[l]);
            } else {
                assert(order[b] == order[done - 1]);
                assert(b == done - 1);
                if k < before.len() {
                    assert(attempts[k] == before[k]);
                    let earlier = order.take(done - 1);
                    let j = choose|j: int|
                        0 <= j < earlier.len() && earlier[j]
                            == candidates[before[k].candidate as int].url.scheme;
                    assert(order[j] == order[a]);
                } else {
                    assert(order[a] == order[done - 1]);
                }
            }
        }
    }
}

proof fn lemma_mode(
    protocols: Seq<StealthProtocol>,
    feature: Option<PeerFeatureFlag>,
    protocol: StealthProtocol,
)
    ensures
        mode_named(modes_of(protocols, feature), protocol.name()) == (if protocols.contains(protocol) {
            stealth_mode_of(protocol, feature)
        } else {
            DirectStealthMode::Disabled
        }),
    decreases protocols.len(),
{
    let modes = modes_of(protocols, feature);
    if protocols.len() > 0 {
        let front = protocols.drop_last();
        lemma_mode(front, feature, protocol);
        assert(modes.drop_last() =~= modes_of(front, feature));
        crate::stealth_registry::lemma_names_tell(protocols.last(), protocol);
        if front.contains(protocol) {
            let i = choose|i: int| 0 <= i < front.len() && front[i] == protocol;
            assert(protocols[i] == protocol);
        }
        if protocols.last() == protocol {
            assert(protocols[protocols.len() - 1] == protocol);
        } else if protocols.contains(protocol) {
            let i = choose|i: int| 0 <= i < protocols.len() && protocols[i] == protocol;
            assert(front[i] == protocol);
        }
    }
}

/// A transport that hides itself does so towards a peer that is known to understand it, does so at first
/// towards a peer of which nothing is known, and does not towards any other peer. A transport that does
/// not hide itself never does.
pub proof fn law_stealth_follows_what_is_known(
    protocols: Seq<StealthProtocol>,
    feature: Option<PeerFeatureFlag>,
    protocol: StealthProtocol,
)
    ensures
        ({
            let mode = mode_named(modes_of(protocols, feature), stealth_key(protocol.name()));
            &&& mode is Required <==> protocols.contains(protocol) && feature is Some && peer_supports(
                feature->0,
                protocol,
            )
            &&& mode is PreferLegacyFallback <==> protocols.contains(protocol) && feature is None
        }),
        stealth_key("quic-brutal"@) == StealthProtocol::Quic.name(),
{
    lemma_mode(protocols, feature, protocol);
    crate::stealth_registry::lemma_names_tell(protocol, protocol);
    reveal_strlit("quic-brutal");
    assert(stealth_key(protocol.name()) == protocol.name());
}

/// Without a priority, an order names the default transport, UDP and every other transport once, the
/// others in their usual order.
pub proof fn law_default_order_is_complete(default_protocol: Seq<char>, protocol: TransportProtocol)
    ensures
        compatible_order(default_protocol).no_duplicates(),
        compatible_order(default_protocol).contains(protocol.name()),
        compatible_order(default_protocol).contains(default_protocol),
        forall|i: int|
            0 <= i < compatible_order(default_protocol).len() ==> (#[trigger] compatible_order(
                default_protocol,
            )[i]) == default_protocol || builtin_names().contains(
                compatible_order(default_protocol)[i],
            ),
{
    let order = compatible_order(default_protocol);
    let names = builtin_names();
    let pred = other_than(default_protocol);
    let rest = names.filter(pred);
    let front = if default_protocol == "udp"@ {
        seq![default_protocol]
    } else {
        seq![default_protocol, "udp"@]
    };
    lemma_builtin_names_differ();
    lemma_filter_keeps_apart(names, pred);
    assert(order =~= front + rest);
    assert(order[0] == default_protocol);
    assert(names.contains("udp"@)) by {
        assert(names[1] == "udp"@);
    }
    assert forall|i: int| 0 <= i < rest.len() implies names.contains(#[trigger] rest[i]) && rest[i]
        != default_protocol && rest[i] != "udp"@ by {
        assert(rest.contains(rest[i]));
        crate::stealth_registry::lemma_filter_holds(names, pred, rest[i]);
    }
    assert forall|i: int| 0 <= i < order.len() implies (#[trigger] order[i]) == default_protocol
        || names.contains(order[i]) by {
        if i >= front.len() {
            assert(order[i] == rest[i - front.len()]);
        }
    }
    assert forall|i: int, j: int| 0 <= i < j < order.len() implies order[i] != order[j] by {
        if j >= front.len() {
            assert(order[j] == rest[j - front.len()]);
            if i >= front.len() {
                assert(order[i] == rest[i - front.len()]);
            }
        }
    }
    let name = protocol.name();
    assert(names.contains(name)) by {
        assert(names[0] == "tcp"@ && names[1] == "udp"@ && names[2] == "wg"@ && names[3] == "quic"@
            && names[4] == "ws"@ && names[5] == "wss"@ && names[6] == "faketcp"@);
    }
    if name == default_protocol {
    } else if name == "udp"@ {
        assert(order[1] == "udp"@);
    } else {
        crate::stealth_registry::lemma_filter_holds(names, pred, name);
        let k = choose|k: int| 0 <= k < rest.len() && rest[k] == name;
        assert(order[front.len() + k] == name);
    }
}

proof fn lemma_builtin_names_differ()
    ensures
        builtin_names().no_duplicates(),
{
    reveal_strlit("tcp");
    reveal_strlit("udp");
    reveal_strlit("wg");
    reveal_strlit("quic");
    reveal_strlit("ws");
    reveal_strlit("wss");
    reveal_strlit("faketcp");
    let names = builtin_names();
    assert(names[0] == "tcp"@ && names[1] == "udp"@ && names[2] == "wg"@ && names[3] == "quic"@
        && names[4] == "ws"@ && names[5] == "wss"@ && names[6] == "faketcp"@);
    assert("tcp"@[0] == 't' && "udp"@[0] == 'u' && "wss"@[0] == 'w');
    assert("wg"@[1] == 'g' && "ws"@[1] == 's');
}

proof fn lemma_filter_keeps_apart(s: Seq<Seq<char>>, pred: spec_fn(Seq<char>) -> bool)
    requires
        s.no_duplicates(),
    ensures
        s.filter(pred).no_duplicates(),
    decreases s.len(),
{
    reveal(Seq::filter);
    if s.len() > 0 {
        let front = s.drop_last();
        lemma_filter_keeps_apart(front, pred);
        crate::stealth_registry::lemma_filter_holds(front, pred, s.last());
        assert(!front.contains(s.last()));
    }
}

/// The order for a peer names no transport twice, so that every candidate of a transport in it is tried
/// exactly once.
pub proof fn law_orders_repeat_nothing(
    flags: Flags,
    value: Seq<char>,
    is_lan: bool,
    virtual_ip: Option<IpAddress>,
)
    requires
        rules_of_text(value) is Ok,
    ensures
        direct_order(flags, rules_of_text(value)->Ok_0, is_lan, virtual_ip).no_duplicates(),
{
    let rules = rules_of_text(value)->Ok_0;
    if rules.len() == 0 {
        law_default_order_is_complete(lowered(flags.default_protocol@), TransportProtocol::Tcp);
    } else {
        crate::transport_priority::law_rules_only_reorder(
            value,
            is_lan,
            virtual_ip,
            TransportProtocol::Tcp,
        );
        let order = order_by_rules(rules, is_lan, virtual_ip);
        let names = direct_order(flags, rules, is_lan, virtual_ip);
        assert forall|i: int, j: int| 0 <= i < j < names.len() implies names[i] != names[j] by {
            crate::transport_priority::law_words_name_their_transports(names[i], order[i]);
            crate::transport_priority::law_words_name_their_transports(names[i], order[j]);
        }
    }
}

/// Rules for single peers are looked up by the IPv4 address only where there is such a rule, and by the
/// IPv6 address in every other case.
pub proof fn law_ipv6_address_is_used_otherwise(
    rules: Seq<PriorityRule>,
    ipv4: Option<u32>,
    ipv6: Option<u128>,
)
    ensures
        ipv4 is None || !has_scope(rules, TransportPriorityScope::VirtualIp(IpAddress::V4(ipv4->0)))
            ==> (rule_address(rules, ipv4, ipv6) is Some <==> ipv6 is Some),
        ipv4 is None || !has_scope(rules, TransportPriorityScope::VirtualIp(IpAddress::V4(ipv4->0)))
            ==> (ipv6 is Some ==> rule_address(rules, ipv4, ipv6) == Some(IpAddress::V6(ipv6->0))),
        rule_address(rules, ipv4, ipv6) matches Some(IpAddress::V4(ip)) ==> ipv4 == Some(ip)
            && has_scope(rules, TransportPriorityScope::VirtualIp(IpAddress::V4(ip))),
{
}

/// All candidates are tried unless a priority is configured and the peer is connected already; then
/// those are that are preferred to the way there is.
pub proof fn law_only_improvements_are_tried(
    candidates: Seq<DirectCandidate>,
    lan_order: Seq<Seq<char>>,
    wan_order: Seq<Seq<char>>,
    priority_enabled: bool,
    existing: Option<PreferenceKey>,
    candidate: DirectCandidate,
)
    ensures
        !priority_enabled || existing is None ==> tried(
            candidates,
            lan_order,
            wan_order,
            priority_enabled,
            existing,
        ) == candidates,
        priority_enabled && existing is Some ==> (tried(
            candidates,
            lan_order,
            wan_order,
            priority_enabled,
            existing,
        ).contains(candidate) <==> candidates.contains(candidate) && ({
            let order = if candidate.is_lan {
                lan_order
            } else {
                wan_order
            };
            let path = if candidate.is_lan {
                TransportPathClass::Lan
            } else {
                TransportPathClass::Wan
            };
            PreferenceKey::of(path, order, candidate.url@.scheme).before(existing->0)
        })),
{
    if priority_enabled && existing is Some {
        crate::stealth_registry::lemma_filter_holds(
            candidates,
            |c: DirectCandidate| c@.key(lan_order, wan_order).before(existing->0),
            candidate,
        );
    }
}

/// A plan starts with the local candidates, if there are any, else with the others; the others follow
/// the local ones just where those were not enough; and nothing follows the others.
pub proof fn law_stages_follow(plan: DirectPlan, satisfied: bool)
    ensures
        plan.lan@.len() > 0 ==> plan.first() is Lan,
        plan.lan@.len() == 0 && plan.wan@.len() > 0 ==> plan.first() is Wan,
        plan.lan@.len() == 0 && plan.wan@.len() == 0 ==> plan.first() is Done,
        plan.after(PlanStage::Lan, satisfied) is Wan <==> !satisfied && plan.wan@.len() > 0,
        plan.after(PlanStage::Lan, satisfied) is Done <==> satisfied || plan.wan@.len() == 0,
        plan.after(PlanStage::Wan, satisfied) is Done,
        plan.after(PlanStage::Done, satisfied) is Done,
{
}

/// What is aimed at is reached by a way that is at least as good: on a better path, or on the same path
/// with a transport that comes no later. Without an aim any direct connection will do.
pub proof fn law_aim_is_reached_by_what_is_as_good(
    target: Option<PreferenceKey>,
    current: Option<PreferenceKey>,
    directly_connected: bool,
)
    ensures
        target is None ==> reached(target, current, directly_connected) == directly_connected,
        target is Some && current is None ==> !reached(target, current, directly_connected),
        target is Some && current is Some ==> (reached(target, current, directly_connected) <==> if (
        current->0.path == target->0.path) {
            current->0.rank <= target->0.rank
        } else {
            current->0.path is Lan
        }),
{
}

/// A failed attempt settles nothing. A connection of which nothing more is known settles the matter, one
/// whose rank is known settles it if it is what is aimed at, and an attempt that found the peer connected
/// settles it if the aim is reached.
pub proof fn law_what_settles_the_attempts(
    joined: Option<DirectAttemptOutcome>,
    target: Option<PreferenceKey>,
    target_reached: bool,
)
    ensures
        joined is None ==> !bucket_settled(joined, target, target_reached),
        joined == Some(DirectAttemptOutcome::Connected(None)) ==> bucket_settled(
            joined,
            target,
            target_reached,
        ),
        joined matches Some(DirectAttemptOutcome::Connected(Some(key))) ==> (bucket_settled(
            joined,
            target,
            target_reached,
        ) <==> target is Some && target->0 == key),
        joined == Some(DirectAttemptOutcome::AlreadySatisfied) ==> bucket_settled(
            joined,
            target,
            target_reached,
        ) == target_reached,
{
}

/// With a priority, the attempts at some candidates aim at one of them to which no other is preferred;
/// without one, or without candidates, they aim at nothing.
pub proof fn law_attempts_aim_at_the_best(
    candidates: Seq<CandidateParts>,
    order: Seq<Seq<char>>,
    priority_enabled: bool,
)
    ensures
        bucket_target(candidates, order, priority_enabled) is Some <==> priority_enabled
            && candidates.len() > 0,
        bucket_target(candidates, order, priority_enabled) matches Some(target) ==> {
            &&& exists|i: int|
                0 <= i < candidates.len() && (#[trigger] candidates[i]).key(order, order) == target
            &&& forall|i: int|
                0 <= i < candidates.len() ==> !(#[trigger] candidates[i]).key(order, order).before(target)
        },
{
    let keys = keys_of(candidates, order, order);
    law_best_is_best(keys);
    if priority_enabled && candidates.len() > 0 {
        let target = best_of(keys)->0;
        let i = choose|i: int| 0 <= i < keys.len() && keys[i] == target;
        assert(candidates[i].key(order, order) == target);
        assert forall|i: int| 0 <= i < candidates.len() implies !(#[trigger] candidates[i]).key(
            order,
            order,
        ).before(target) by {
            assert(keys[i] == candidates[i].key(order, order));
        }
    }
}

} // verus!
