//! Direct connections: candidates, their order and the runs that try them.
use easytier::addr::{IpAddress, IpScheme, SocketAddress};
use easytier::config::{Flags, PeerFeatureFlag};
use easytier::connector::{should_downgrade_udp_stealth, stealth_protocol_for};
use easytier::direct::{
    build_hole_punch_packet_request, build_udp_stealth_for_peer,
    collect_ipv6_hole_punch_candidates, direct_path, ipv6_hole_punch_targets, is_public_ipv4,
    is_usable_public_ipv6_candidate_with_mode, judge_connected_peer, list_peers, peers_left,
    push_ipv6_hole_punch_candidate, resolve_public_ipv4_connect_result, ConnectedPeerVerdict,
    DirectConnectAttemptError, DirectConnectorManager, DirectEvent, DirectPath, DirectPeer,
    EventStep, HolePunchPacketError, PeerRun, PublicIpv4Result, UrlAttemptEnd, UrlRun, UrlStep,
};
use easytier::direct_candidates::{
    available_listeners, expand_direct_candidates, is_lan_candidate,
    retain_higher_priority_candidates, DirectCandidate, HostFacts, ResolvedListener,
};
use easytier::direct_plan::{
    direct_order_for, direct_stealth_mode, is_bucket_settled, is_target_reached, plan_bucket,
    plan_direct_connect, schedule_direct_connect, stealth_modes_for,
    stealth_protocol_key_for_scheme, target_of_bucket, transport_virtual_ip,
    DirectAttemptOutcome, DirectPeerFacts, DirectStealthMode, PlanStage,
};
use easytier::dns::{
    apply_control_plane_mark, plan_control_plane_lookup, plan_mapped_listener_addrs,
    plan_socket_addrs, set_control_plane_socket_mark, socket_addrs_at, AddrPlan,
    ControlPlaneDns, HostLookup, HostLookupError,
};
use easytier::endpoint_url::{
    connector_default_port, listener_url_for_addr, mapped_listener_port, AgreedPorts,
    EndpointUrl, UrlHost,
};
use easytier::error::Error;
use easytier::global_ctx::GlobalCtx;
use easytier::hole_punch::RouteFacts;
use easytier::ip_range::{IpCidr, Ipv6Inet};
use easytier::network::IpList;
use easytier::stealth_registry::{
    StealthProtocol, StealthProtocolSet, StealthTransportProtocol, TransportStealthCapability,
    STEALTH_LEVEL_AUTHENTICATED,
};
use easytier::transport_priority::{PreferenceKey, TransportPathClass, TransportPriority};

const AGREED: AgreedPorts = AgreedPorts { wg: 11011, quic: 11012, quic_brutal: 11013, faketcp: 11014 };

fn v4(a: u8, b: u8, c: u8, d: u8) -> IpAddress {
    IpAddress::V4(u32::from_be_bytes([a, b, c, d]))
}

fn bits4(a: u8, b: u8, c: u8, d: u8) -> u32 {
    u32::from_be_bytes([a, b, c, d])
}

fn bits6(text: &str) -> u128 {
    let inet: cidr::Ipv6Inet = format!("{text}/128").parse().unwrap();
    inet.address().into()
}

fn ip(text: &str) -> IpAddress {
    let inet: cidr::IpInet = text.parse().unwrap();
    match inet {
        cidr::IpInet::V4(inet) => IpAddress::V4(inet.address().into()),
        cidr::IpInet::V6(inet) => IpAddress::V6(inet.address().into()),
    }
}

fn network(text: &str) -> IpCidr {
    let inet: cidr::IpInet = text.parse().unwrap();
    match inet {
        cidr::IpInet::V4(inet) => IpCidr::V4 {
            first4: inet.first_address().into(),
            last4: inet.last_address().into(),
            length: inet.network_length(),
        },
        cidr::IpInet::V6(inet) => IpCidr::V6 {
            first6: inet.first_address().into(),
            last6: inet.last_address().into(),
            length: inet.network_length(),
        },
    }
}

fn url(text: &str) -> EndpointUrl {
    match EndpointUrl::parse(text) {
        Ok(url) => url,
        Err(_) => panic!("{text}"),
    }
}

fn at(ip: IpAddress, port: u16) -> SocketAddress {
    SocketAddress::new(ip, port)
}

/// Resolves the way that a resolver treats names that are addresses.
fn resolved(plan: AddrPlan) -> Vec<SocketAddress> {
    match plan {
        AddrPlan::Direct(addr) => vec![addr],
        AddrPlan::Lookup { host, port, .. } => socket_addrs_at(&vec![ip(&host)], port),
    }
}

fn names(list: &[&str]) -> Vec<String> {
    list.iter().map(|name| name.to_string()).collect()
}

fn candidate(text: &str, is_lan: bool) -> DirectCandidate {
    DirectCandidate { url: url(text), is_lan }
}

fn texts(candidates: &[DirectCandidate]) -> Vec<String> {
    candidates.iter().map(|candidate| candidate.url.text.clone()).collect()
}

fn node() -> GlobalCtx {
    GlobalCtx::new("default".to_owned(), None, None, Flags::default())
}

fn empty_list() -> IpList {
    IpList {
        public_ipv4: None,
        interface_ipv4s: vec![],
        public_ipv6: None,
        interface_ipv6s: vec![],
    }
}

fn managed_node() -> GlobalCtx {
    let mut ctx = node();
    let managed = bits6("2001:db8::2");
    ctx.set_public_ipv6_routes(&vec![Ipv6Inet { address: managed, first: managed, last: managed }]);
    ctx
}

#[test]
fn public_ipv6_candidate_rejects_easytier_managed_addr_even_in_tests() {
    let ctx = managed_node();
    assert!(!is_usable_public_ipv6_candidate_with_mode(bits6("2001:db8::2"), &ctx, true));
    assert!(is_usable_public_ipv6_candidate_with_mode(bits6("::1"), &ctx, true));
    assert!(!is_usable_public_ipv6_candidate_with_mode(bits6("::1"), &ctx, false));
}

#[test]
fn ipv6_hole_punch_candidates_are_deduped_filtered_and_capped() {
    let ctx = managed_node();
    let first = bits6("2001:db8::1");
    let managed = bits6("2001:db8::2");
    let second = bits6("2001:db8::3");
    let third = bits6("2001:db8::4");
    let mut candidates = Vec::new();

    push_ipv6_hole_punch_candidate(&mut candidates, first, &ctx, 2, false);
    push_ipv6_hole_punch_candidate(&mut candidates, first, &ctx, 2, false);
    push_ipv6_hole_punch_candidate(&mut candidates, managed, &ctx, 2, false);
    push_ipv6_hole_punch_candidate(&mut candidates, second, &ctx, 2, false);
    push_ipv6_hole_punch_candidate(&mut candidates, third, &ctx, 2, false);

    assert_eq!(candidates, vec![first, second]);
}

#[test]
fn ipv6_addresses_come_from_stun_then_interfaces_then_the_public_one() {
    let mut list = empty_list();
    list.interface_ipv6s = vec![bits6("2001:db8::7"), bits6("fe80::1")];
    list.public_ipv6 = Some(bits6("2001:db8::9"));
    let collected = collect_ipv6_hole_punch_candidates(
        &node(),
        false,
        &vec!["203.0.113.1".to_owned(), "2001:db8::5".to_owned(), "junk".to_owned()],
        &list,
    );
    assert_eq!(collected.len(), 3);
    assert!(collected.contains(&bits6("2001:db8::5")));
    assert!(collected.contains(&bits6("2001:db8::7")));
    assert!(collected.contains(&bits6("2001:db8::9")));
}

#[test]
fn udp_ipv6_url_matches_hole_punch_branch_condition() {
    let remote_url = url("udp://[2001:db8::1]:11010");
    let takes_udp_ipv6_hole_punch_branch = remote_url.ip_scheme() == Some(IpScheme::Udp)
        && matches!(remote_url.host, UrlHost::Ipv6(_));

    assert!(takes_udp_ipv6_hole_punch_branch);
    assert_eq!(direct_path(&remote_url), DirectPath::PublicIpv6);
    let over_ipv4 = |bits: u32| EndpointUrl { host: UrlHost::Ipv4(bits), ..url("udp://x:1") };
    assert_eq!(direct_path(&over_ipv4(bits4(8, 8, 8, 8))), DirectPath::PublicIpv4);
    assert_eq!(direct_path(&over_ipv4(bits4(10, 0, 0, 1))), DirectPath::Plain);
    assert_eq!(direct_path(&url("tcp://[2001:db8::1]:11010")), DirectPath::Plain);
}

#[test]
fn mapped_listener_port_uses_ip_scheme_defaults() {
    assert_eq!(mapped_listener_port(&url("ws://example.com"), &AGREED), Some(80));
    assert_eq!(mapped_listener_port(&url("wss://example.com"), &AGREED), Some(443));
    assert_eq!(mapped_listener_port(&url("tcp://127.0.0.1"), &AGREED), Some(11010));
    assert_eq!(mapped_listener_port(&url("udp://127.0.0.1"), &AGREED), Some(11010));
    assert_eq!(mapped_listener_port(&url("udp://127.0.0.1:7"), &AGREED), Some(7));
    assert_eq!(mapped_listener_port(&url("ring://x"), &AGREED), None);
    assert_eq!(connector_default_port(&url("wg://x"), &AGREED), Some(11011));
}

#[test]
fn priority_upgrade_keeps_only_better_candidates_than_existing_direct_conn() {
    let order = names(&["quic", "faketcp", "ws", "wg", "udp", "tcp", "wss"]);
    let candidates = || {
        vec![
            candidate("tcp://127.0.0.1:11010", true),
            candidate("udp://127.0.0.1:11010", true),
            candidate("quic://127.0.0.1:11012", true),
        ]
    };

    let existing_tcp_key = PreferenceKey::new(TransportPathClass::Lan, &order, "tcp");
    let upgraded =
        retain_higher_priority_candidates(candidates(), &order, &order, Some(existing_tcp_key));
    assert_eq!(
        upgraded.iter().map(|candidate| candidate.url.scheme.as_str()).collect::<Vec<_>>(),
        ["udp", "quic"]
    );

    let existing_quic_key = PreferenceKey::new(TransportPathClass::Lan, &order, "quic");
    let already_best =
        retain_higher_priority_candidates(candidates(), &order, &order, Some(existing_quic_key));
    assert!(already_best.is_empty());

    let no_existing = retain_higher_priority_candidates(candidates(), &order, &order, None);
    assert_eq!(no_existing.len(), candidates().len());
}

#[test]
fn priority_upgrade_compares_path_before_protocol() {
    let order = names(&["quic", "tcp"]);
    let wan_quic = candidate("quic://198.51.100.2:11012", false);
    let lan_tcp = PreferenceKey::new(TransportPathClass::Lan, &order, "tcp");

    assert!(
        retain_higher_priority_candidates(vec![wan_quic], &order, &order, Some(lan_tcp)).is_empty()
    );
}

#[test]
fn resolve_mapped_listener_addrs_uses_default_ports() {
    let dns = ControlPlaneDns::new();
    assert_eq!(
        plan_mapped_listener_addrs(&url("wss://127.0.0.1"), &AGREED, &dns).map(resolved).ok(),
        Some(vec![at(v4(127, 0, 0, 1), 443)])
    );
    assert_eq!(
        plan_mapped_listener_addrs(&url("tcp://127.0.0.1"), &AGREED, &dns).map(resolved).ok(),
        Some(vec![at(v4(127, 0, 0, 1), 11010)])
    );
}

#[test]
fn socket_addrs_preserves_explicit_zero_port() {
    let cases = [
        ("ws://127.0.0.1:0", 80, 0),
        ("wss://127.0.0.1:0", 443, 0),
        ("ws://127.0.0.1", 80, 80),
        ("wss://127.0.0.1", 443, 443),
    ];

    for (raw_url, default_port, expected_port) in cases {
        let plan = plan_socket_addrs(&url(raw_url), Some(default_port), &ControlPlaneDns::new());
        assert_eq!(plan.map(resolved).ok(), Some(vec![at(v4(127, 0, 0, 1), expected_port)]));
    }
}

#[test]
fn marked_lookups_use_the_resolver() {
    let mut dns = ControlPlaneDns::new();
    assert_eq!(apply_control_plane_mark(&dns), None);
    assert!(matches!(plan_control_plane_lookup(&dns, "host:80"), Ok(HostLookup::System)));
    set_control_plane_socket_mark(&mut dns, Some(7));
    assert_eq!(apply_control_plane_mark(&dns), Some(7));
    assert!(matches!(
        plan_control_plane_lookup(&dns, "host:80"),
        Ok(HostLookup::Resolver { host: "host", port: 80 })
    ));
    assert_eq!(
        plan_control_plane_lookup(&dns, "host").err(),
        Some(HostLookupError::NoPort)
    );
    assert_eq!(
        plan_control_plane_lookup(&dns, "host:port").err(),
        Some(HostLookupError::InvalidPort)
    );
    match plan_socket_addrs(&url("tcp://example.com"), Some(80), &dns) {
        Ok(AddrPlan::Lookup { host, port, system_first }) => {
            assert_eq!((host.as_str(), port, system_first), ("example.com", 80, false));
        }
        _ => panic!("a name is looked up"),
    }
    assert!(plan_socket_addrs(&url("tcp://example.com"), None, &dns).is_err());
    assert_eq!(
        socket_addrs_at(&vec![v4(1, 2, 3, 4), v4(1, 2, 3, 5)], 9),
        vec![at(v4(1, 2, 3, 4), 9), at(v4(1, 2, 3, 5), 9)]
    );
    set_control_plane_socket_mark(&mut dns, None);
    assert_eq!(apply_control_plane_mark(&dns), None);
}

#[test]
fn direct_connector_scheme_blacklist() {
    let mut lists = DirectConnectorManager::new();
    let host = HostFacts { testing: true, local_ips: vec![], local_networks: vec![] };
    let mut list = empty_list();
    list.interface_ipv4s.push(bits4(127, 0, 0, 1));
    let listeners = available_listeners(vec![url("tcp://127.0.0.1:10222")], true, &AGREED);
    let resolved = listeners
        .iter()
        .map(|listener| ResolvedListener {
            url: listener.copy(),
            addrs: Some(vec![at(v4(127, 0, 0, 1), 10222)]),
        })
        .collect::<Vec<_>>();
    let candidates = expand_direct_candidates(&node(), &host, &list, &resolved);
    assert_eq!(texts(&candidates), ["tcp://127.0.0.1:10222"]);

    let text = candidates[0].url.text.clone();
    let mut run = UrlRun::start(1, text.clone(), None, &mut lists).unwrap();
    loop {
        assert!(matches!(run.begin_round(&mut lists, false), UrlStep::Connect));
        match run.record(&mut lists, UrlAttemptEnd::Failed { self_loop: false }, false) {
            UrlStep::Wait { .. } => {}
            step => {
                assert!(matches!(step, UrlStep::Fail));
                break;
            }
        }
    }
    assert!(lists.dst_listener_blacklist.contains(1, "tcp://127.0.0.1:10222"));
    assert!(UrlRun::start(1, text, None, &mut lists).is_none());
}

#[test]
fn url_runs_end_as_their_attempts_say() {
    let key = PreferenceKey { path: TransportPathClass::Lan, rank: 0 };
    let mut lists = DirectConnectorManager::new();
    let mut run = UrlRun::start(1, "tcp://1.2.3.4:5".to_owned(), Some(key), &mut lists).unwrap();
    assert!(matches!(
        run.begin_round(&mut lists, true),
        UrlStep::Finished(DirectAttemptOutcome::AlreadySatisfied)
    ));
    assert!(matches!(
        run.record(&mut lists, UrlAttemptEnd::Connected, false),
        UrlStep::Finished(DirectAttemptOutcome::Connected(Some(_)))
    ));
    let mut guarded = UrlRun::start(1, "udp://1.2.3.4:5".to_owned(), None, &mut lists).unwrap();
    assert!(matches!(
        guarded.record(&mut lists, UrlAttemptEnd::Guarded, false),
        UrlStep::Fail
    ));
    let mut looped = UrlRun::start(1, "ws://1.2.3.4:5".to_owned(), None, &mut lists).unwrap();
    looped.record(&mut lists, UrlAttemptEnd::Failed { self_loop: true }, false);
    assert!(matches!(looped.begin_round(&mut lists, false), UrlStep::UrlInBlacklist));
}

#[test]
fn direct_connector_downgrades_udp_stealth_only_when_peer_disables_it() {
    assert!(!should_downgrade_udp_stealth(
        false,
        Some(&PeerFeatureFlag { stealth_supported: false, ..Default::default() }),
    ));
    assert!(!should_downgrade_udp_stealth(
        true,
        Some(&PeerFeatureFlag { stealth_supported: true, ..Default::default() }),
    ));
    assert!(!should_downgrade_udp_stealth(true, None));
    assert!(should_downgrade_udp_stealth(
        true,
        Some(&PeerFeatureFlag { stealth_supported: false, ..Default::default() }),
    ));
}

#[test]
fn direct_transport_stealth_preserves_unknown_capability_fallback() {
    assert_eq!(
        direct_stealth_mode(StealthProtocol::Tcp, None),
        DirectStealthMode::PreferLegacyFallback
    );
    assert_eq!(
        direct_stealth_mode(StealthProtocol::Tcp, Some(&PeerFeatureFlag::default())),
        DirectStealthMode::Disabled
    );
    let feature = PeerFeatureFlag {
        stealth_capabilities: vec![TransportStealthCapability {
            protocol: StealthTransportProtocol::Tcp,
            wire_version: 1,
            level_mask: STEALTH_LEVEL_AUTHENTICATED,
        }],
        ..Default::default()
    };
    assert_eq!(
        direct_stealth_mode(StealthProtocol::Tcp, Some(&feature)),
        DirectStealthMode::Required
    );
}

#[test]
fn quic_brutal_uses_quic_stealth_capability_key() {
    assert_eq!(stealth_protocol_key_for_scheme("quic"), "quic");
    assert_eq!(stealth_protocol_key_for_scheme("quic-brutal"), "quic");
    assert_eq!(stealth_protocol_key_for_scheme("tcp"), "tcp");
    assert_eq!(stealth_protocol_for(IpScheme::QuicBrutal), StealthProtocol::Quic);
}

#[test]
fn guarded_public_ipv4_attempt_does_not_trigger_direct_fallback() {
    let attempt: Result<u32, DirectConnectAttemptError> = Err(DirectConnectAttemptError::Guarded(
        Error::InvalidUrl("guarded".to_owned()),
    ));
    assert!(matches!(
        resolve_public_ipv4_connect_result(attempt),
        PublicIpv4Result::Settled(Err(DirectConnectAttemptError::Guarded(_)))
    ));
}

#[test]
fn failed_public_ipv4_attempt_still_uses_direct_fallback() {
    let attempt: Result<u32, DirectConnectAttemptError> =
        Err(DirectConnectAttemptError::Failed(Error::NotFound));
    assert!(matches!(
        resolve_public_ipv4_connect_result(attempt),
        PublicIpv4Result::Fallback
    ));
    let connected: Result<u32, DirectConnectAttemptError> = Ok(7);
    assert!(matches!(
        resolve_public_ipv4_connect_result(connected),
        PublicIpv4Result::Settled(Ok(7))
    ));
}

#[test]
fn direct_candidates_are_classified_after_address_resolution() {
    let local_networks = vec![
        network("192.168.50.10/24"),
        network("169.254.10.1/24"),
        network("fd00:50::10/64"),
        network("fe80::1/64"),
        network("203.0.113.10/24"),
        network("2001:db8:50::10/64"),
    ];

    assert!(is_lan_candidate(ip("192.168.50.99"), &local_networks));
    assert!(is_lan_candidate(ip("fd00:50::99"), &local_networks));
    assert!(is_lan_candidate(ip("169.254.10.2"), &local_networks));
    assert!(is_lan_candidate(ip("fe80::2"), &local_networks));
    assert!(!is_lan_candidate(ip("169.254.200.2"), &local_networks));
    assert!(!is_lan_candidate(ip("fe80:1::2"), &local_networks));
    assert!(!is_lan_candidate(ip("198.51.100.7"), &local_networks));
    assert!(!is_lan_candidate(ip("203.0.113.99"), &local_networks));
    assert!(!is_lan_candidate(ip("2001:db8:50::99"), &local_networks));
}

#[test]
fn direct_candidate_does_not_copy_remote_quic_brutal_send_rate() {
    let listener = url("quic-brutal://0.0.0.0:21013?tx_bps=500000000");
    let candidate = listener_url_for_addr(&listener, at(v4(192, 0, 2, 10), 21013)).unwrap();

    assert_eq!(candidate.text, "quic-brutal://192.0.2.10:21013");
}

#[test]
fn wildcard_listeners_stand_for_every_open_address_of_the_host() {
    let host = HostFacts {
        testing: false,
        local_ips: vec![v4(192, 168, 1, 2)],
        local_networks: vec![network("192.168.1.2/24")],
    };
    let list = IpList {
        public_ipv4: Some(bits4(8, 8, 8, 8)),
        interface_ipv4s: vec![
            bits4(192, 168, 1, 9),
            bits4(198, 18, 0, 1),
            bits4(127, 0, 0, 1),
            bits4(192, 168, 1, 9),
        ],
        public_ipv6: None,
        interface_ipv6s: vec![],
    };
    let resolved = vec![ResolvedListener {
        url: url("tcp://0.0.0.0:11010"),
        addrs: Some(vec![at(v4(0, 0, 0, 0), 11010)]),
    }];
    let candidates = expand_direct_candidates(&node(), &host, &list, &resolved);
    assert_eq!(
        texts(&candidates),
        ["tcp://192.168.1.9:11010", "tcp://8.8.8.8:11010"]
    );
    assert!(candidates[0].is_lan);
    assert!(!candidates[1].is_lan);
}

#[test]
fn listeners_without_an_address_are_left_out() {
    let listeners = vec![
        url("tcp://0.0.0.0:11010"),
        url("ring://x"),
        url("tcp://[::]:11010"),
        url("udp://0.0.0.0:11010"),
    ];
    let open = available_listeners(listeners, false, &AGREED);
    let open = open.iter().map(|listener| listener.text.as_str()).collect::<Vec<_>>();
    assert!(open.contains(&"tcp://0.0.0.0:11010"));
    assert!(open.contains(&"udp://0.0.0.0:11010"));
    assert!(!open.contains(&"ring://x"));
    assert!(!open.contains(&"tcp://[::]:11010"));
}

#[test]
fn the_order_of_transports_follows_priority_or_the_default() {
    let mut flags = Flags::default();
    flags.default_protocol = "udp".to_owned();
    let none = TransportPriority::parse("").unwrap();
    assert_eq!(direct_order_for(&flags, &none, true, None)[0], "udp");
    let priority = TransportPriority::parse("lan:quic,tcp;10.0.0.1:wg").unwrap();
    assert_eq!(direct_order_for(&flags, &priority, true, None)[..2], ["quic", "tcp"]);
    assert_eq!(
        direct_order_for(&flags, &priority, false, Some(v4(10, 0, 0, 1)))[0],
        "wg"
    );
    assert_eq!(
        transport_virtual_ip(&priority, Some(bits4(10, 0, 0, 1)), Some(bits6("fd00::1"))),
        Some(v4(10, 0, 0, 1))
    );
    assert_eq!(
        transport_virtual_ip(&priority, Some(bits4(10, 0, 0, 2)), Some(bits6("fd00::1"))),
        Some(IpAddress::V6(bits6("fd00::1")))
    );
}

#[test]
fn local_candidates_are_planned_first() {
    let order = names(&["quic", "tcp"]);
    let plan = plan_direct_connect(
        vec![
            candidate("tcp://8.8.8.8:1", false),
            candidate("tcp://192.168.1.1:1", true),
            candidate("quic://8.8.8.8:1", false),
        ],
        &order,
        &order,
        true,
        None,
    );
    assert_eq!(texts(&plan.lan), ["tcp://192.168.1.1:1"]);
    assert_eq!(texts(&plan.wan), ["tcp://8.8.8.8:1", "quic://8.8.8.8:1"]);
    assert_eq!(plan.target, Some(PreferenceKey { path: TransportPathClass::Lan, rank: 1 }));
    assert_eq!(plan.first_stage(), PlanStage::Lan);
    assert_eq!(plan.next_stage(PlanStage::Lan, false), PlanStage::Wan);
    assert_eq!(plan.next_stage(PlanStage::Lan, true), PlanStage::Done);
    assert_eq!(plan.next_stage(PlanStage::Wan, false), PlanStage::Done);

    let modes = stealth_modes_for(&vec![StealthProtocol::Tcp], None);
    let attempts = plan_bucket(&plan.wan, &order, &modes, true);
    assert_eq!(attempts.len(), 2);
    assert!(attempts[0].delay_ms > attempts[1].delay_ms || attempts[0].candidate == 1);
    let tcp = attempts.iter().find(|attempt| attempt.candidate == 0).unwrap();
    let quic = attempts.iter().find(|attempt| attempt.candidate == 1).unwrap();
    assert_eq!(tcp.stealth_mode, DirectStealthMode::PreferLegacyFallback);
    assert_eq!(quic.stealth_mode, DirectStealthMode::Disabled);
    assert_eq!(quic.delay_ms, 0);
    assert!(tcp.delay_ms > 0);
    assert_eq!(
        target_of_bucket(&plan.wan, &order, true),
        Some(PreferenceKey { path: TransportPathClass::Wan, rank: 0 })
    );
    assert_eq!(target_of_bucket(&plan.wan, &order, false), None);
}

#[test]
fn attempts_are_scheduled_by_the_rules_for_the_peer() {
    let flags = Flags::default();
    let stealth = StealthProtocolSet::parse("udp,tcp").unwrap();
    let priority = TransportPriority::parse("global:tcp;10.0.0.1:quic,tcp").unwrap();
    let peer = DirectPeerFacts {
        feature: None,
        ipv4: Some(bits4(10, 0, 0, 1)),
        ipv6: None,
        existing: None,
    };
    let candidates = || {
        vec![
            candidate("tcp://8.8.8.8:1", false),
            candidate("tcp://192.168.1.1:1", true),
            candidate("quic://8.8.8.8:1", false),
        ]
    };
    let mut manager = DirectConnectorManager::new();
    let schedule =
        manager.begin_direct_connect(5, &flags, &priority, &stealth, &peer, candidates());
    assert_eq!(texts(&schedule.plan.lan), ["tcp://192.168.1.1:1"]);
    assert_eq!(schedule.lan_attempts.len(), 1);
    assert_eq!(schedule.lan_attempts[0].delay_ms, 0);
    let wan = schedule
        .wan_attempts
        .iter()
        .map(|attempt| (attempt.candidate, attempt.delay_ms, attempt.stealth_mode))
        .collect::<Vec<_>>();
    assert_eq!(
        wan,
        [
            (1, 0, DirectStealthMode::Disabled),
            (0, 300, DirectStealthMode::PreferLegacyFallback),
        ]
    );
    assert_eq!(
        schedule.plan.target,
        Some(PreferenceKey { path: TransportPathClass::Lan, rank: 1 })
    );
    assert_eq!(
        schedule.wan_target,
        Some(PreferenceKey { path: TransportPathClass::Wan, rank: 0 })
    );
    let reached = DirectPeer { peer_id: 5, current: schedule.plan.target, directly_connected: true };
    assert!(manager.direct_target_satisfied(reached));

    let other = DirectPeerFacts { ipv4: None, ..peer };
    let schedule = schedule_direct_connect(&flags, &priority, &stealth, &other, candidates());
    assert_eq!(schedule.wan_attempts[0].candidate, 0);

    let none = TransportPriority::parse("").unwrap();
    let schedule = manager.begin_direct_connect(6, &flags, &none, &stealth, &other, candidates());
    assert_eq!(schedule.plan.target, None);
    assert_eq!(schedule.wan_attempts[0].candidate, 0);
    assert_eq!(schedule.wan_attempts[0].preference_key, None);
}

#[test]
fn urls_that_loop_are_left_alone_for_longer() {
    let url_text = "tcp://127.0.0.1:10222";
    let mut lists = DirectConnectorManager::new();
    let mut run = UrlRun::start(1, url_text.to_owned(), None, &mut lists).unwrap();
    assert_eq!(run.begin_round(&mut lists, false), UrlStep::Connect);
    assert_eq!(UrlRun::step_for(false, true), UrlStep::UrlInBlacklist);
    let end = UrlAttemptEnd::Failed { self_loop: true };
    assert_eq!(run.record(&mut lists, end, false), UrlStep::Fail);
    assert_eq!(run.begin_round(&mut lists, false), UrlStep::UrlInBlacklist);
    let other = UrlRun::start(2, url_text.to_owned(), None, &mut lists).unwrap();
    assert_eq!(other.begin_round(&mut lists, false), UrlStep::Connect);
}

#[test]
fn buckets_settle_when_the_target_is_reached() {
    let better = PreferenceKey { path: TransportPathClass::Lan, rank: 0 };
    let worse = PreferenceKey { path: TransportPathClass::Wan, rank: 0 };
    assert!(better.is_before(worse));
    assert!(is_target_reached(Some(worse), Some(better), false));
    assert!(!is_target_reached(Some(better), Some(worse), true));
    assert!(is_target_reached(None, None, true));
    assert!(!is_target_reached(None, Some(better), false));
    assert!(is_bucket_settled(
        Some(DirectAttemptOutcome::AlreadySatisfied),
        Some(better),
        true
    ));
    assert!(!is_bucket_settled(None, Some(better), false));
}

#[test]
fn packet_requests_name_the_udp_listener() {
    let request = build_hole_punch_packet_request(
        vec![at(v4(1, 2, 3, 4), 5)],
        None,
        &url("udp://5.6.7.8:9"),
        &AGREED,
    )
    .ok()
    .unwrap();
    assert_eq!(request.listener_port, 9);
    assert_eq!(request.connector_addr, Some(at(v4(1, 2, 3, 4), 5)));
    assert_eq!(request.connector_addrs, vec![at(v4(1, 2, 3, 4), 5)]);
    assert_eq!(
        build_hole_punch_packet_request(vec![], None, &url("tcp://5.6.7.8:9"), &AGREED).err(),
        Some(HolePunchPacketError::NotUdp)
    );
    assert!(ipv6_hole_punch_targets(&vec![], 7, &url("udp://[2001:db8::1]:9")).is_none());
    let own = bits6("2001:db8::5");
    let (addrs, preferred) =
        ipv6_hole_punch_targets(&vec![own], 7, &url("udp://[2001:db8::1]:9")).unwrap();
    assert_eq!(addrs, vec![at(IpAddress::V6(own), 7)]);
    assert_eq!(preferred, Some(bits6("2001:db8::1")));
}

#[test]
fn private_addresses_are_not_public() {
    assert!(is_public_ipv4(bits4(8, 8, 8, 8)));
    for private in [
        bits4(10, 0, 0, 1),
        bits4(172, 16, 0, 1),
        bits4(192, 168, 0, 1),
        bits4(127, 0, 0, 1),
        bits4(169, 254, 0, 1),
        bits4(0, 0, 0, 0),
    ] {
        assert!(!is_public_ipv4(private));
    }
}

#[test]
fn unexpected_peers_are_closed() {
    let mut ctx = node();
    let remote = url("tcp://8.8.8.8:1");
    assert_eq!(
        judge_connected_peer(&mut ctx, 7, 7, &remote, false, 100),
        ConnectedPeerVerdict::Keep
    );
    assert!(matches!(
        judge_connected_peer(&mut ctx, 7, 8, &remote, false, 100),
        ConnectedPeerVerdict::Close { .. }
    ));
    assert!(!build_udp_stealth_for_peer(&ctx, DirectStealthMode::Required));
}

fn route(peer_id: u32) -> RouteFacts {
    RouteFacts {
        peer_id,
        feature_flag: None,
        has_recent_traffic: false,
        has_peer: false,
        has_live_transport: false,
        candidate_improves: true,
        nat_type: None,
        can_punch_hole: true,
    }
}

#[test]
fn peers_are_listed_for_direct_connections() {
    let flags = Flags::default();
    let priority = TransportPriority::parse("").unwrap();
    let mut lazy = Flags::default();
    lazy.lazy_p2p = true;
    let mut connected = route(3);
    connected.has_peer = true;
    let mut public_server = route(4);
    public_server.feature_flag =
        Some(PeerFeatureFlag { is_public_server: true, ..Default::default() });
    let routes = vec![route(2), connected, public_server];
    assert_eq!(list_peers(&flags, &priority, false, &routes), vec![2, 3]);
    assert_eq!(list_peers(&flags, &priority, true, &routes), vec![2, 3, 4]);
    assert_eq!(list_peers(&lazy, &priority, false, &routes), Vec::<u32>::new());
    let ranked = TransportPriority::parse("global:quic").unwrap();
    assert_eq!(list_peers(&lazy, &ranked, false, &routes), vec![3]);
}

#[test]
fn peers_need_a_task_until_their_target_is_reached() {
    let mut manager = DirectConnectorManager::new();
    let target = PreferenceKey { path: TransportPathClass::Lan, rank: 0 };
    let peer = DirectPeer { peer_id: 5, current: None, directly_connected: true };
    assert_eq!(manager.collect_peers_need_task(1, true, &vec![peer]), vec![5]);
    assert_eq!(manager.collect_peers_need_task(5, true, &vec![peer]), Vec::<u32>::new());
    assert_eq!(manager.collect_peers_need_task(1, false, &vec![peer]), Vec::<u32>::new());
    manager.aim_at(5, Some(target));
    assert!(!manager.direct_target_satisfied(peer));
    assert_eq!(manager.collect_peers_need_task(1, true, &vec![peer]), vec![5]);
    let reached = DirectPeer { current: Some(target), ..peer };
    assert!(manager.direct_target_satisfied(reached));
    assert_eq!(
        manager.handle_event(DirectEvent::PeerRemoved(5)),
        EventStep { notify: false, resubscribe: false, stop: false }
    );
    assert!(!manager.direct_target_satisfied(reached));
    assert!(manager.handle_event(DirectEvent::Closed).stop);
    assert!(manager.handle_event(DirectEvent::Lagged).notify);
    assert!(!manager.handle_event(DirectEvent::Other).notify);
}

#[test]
fn blacklisted_peers_are_not_tried() {
    let mut manager = DirectConnectorManager::new();
    let mut run = PeerRun::new(5);
    assert_eq!(run.begin_round(&mut manager).ok(), Some(0));
    manager.peer_black_list.insert(5, 60);
    assert!(run.begin_round(&mut manager).is_err());
    let unconnected = DirectPeer { peer_id: 5, current: None, directly_connected: false };
    let other = DirectPeer { peer_id: 6, ..unconnected };
    assert_eq!(manager.collect_peers_need_task(1, false, &vec![unconnected, other]), vec![6]);
    assert_eq!(peers_left(&vec![unconnected, other], &vec![false, true]), vec![5]);
    let peer = DirectPeer { peer_id: 5, current: None, directly_connected: true };
    assert!(run.end_round(&mut manager, false, peer));
}
