//! Manual connectors, hole punching and the managed relay process.
use easytier::addr::{IpAddress, IpVersion, SocketAddress};
use easytier::blacklist::{AddressBlacklist, PeerBlacklist, UrlBlacklist};
use easytier::config::{Flags, PeerFeatureFlag};
use easytier::endpoint_url::EndpointUrl;
use easytier::gost::{
    begin_readiness_round, build_readiness_payload, check_associate_reply, check_gost_config,
    check_greeting, encode_associate, encode_greeting, encode_socks5_udp_request,
    end_readiness_round, gost_listener_url, is_readiness_echo, loopback_for, relay_endpoint,
    socks5_udp_payload, GostConfigError, GostProcessConfig, GostStart, ReadinessStep,
    Socks5Error, StartStep, DEFAULT_PORT_CANDIDATES, UDP_READINESS_PAYLOAD_SIZE,
};
use easytier::global_ctx::GlobalCtx;
use easytier::hole_punch::{
    handle_rpc_result, NatType, RouteFacts, RpcError, LOOP_BLACKLIST_TIMEOUT_SEC,
};
use easytier::manual::{
    begin_stage, end_stage, reconnect_ip_versions, reconnect_timeout, resolves_by_itself,
    ConnectorStatus, ManualConnectorManager, ReconnectRun, ReconnectStage, ReconnectStep,
};
use easytier::tcp_hole_punch::{
    bind_addr_for_port, check_exchange_request, connect_for_exchange, is_symmetric_tcp_nat,
    AcceptOutcome, ConnectOutcome, ConnectStep, ConnectVerdict, ExchangeError, InitiatorRun,
    tcp_tasks as tasks_of_tcp, PunchError, TcpHolePunchConnector, TcpPunchTaskInfo,
    SERVER_CONNECT_ATTEMPTS,
};
use easytier::text_set::TextSet;
use easytier::udp_hole_punch::{
    tasks_for, PunchListener, PunchListenerError, PunchOutcome, PunchRun, PunchStep, PunchTry,
    PunchVerdict, UdpHolePunchConnector, UdpHolePunchServer, UdpPunchClientMethod,
};

fn v4(a: u8, b: u8, c: u8, d: u8) -> IpAddress {
    IpAddress::V4(u32::from_be_bytes([a, b, c, d]))
}

fn at(ip: IpAddress, port: u16) -> SocketAddress {
    SocketAddress::new(ip, port)
}

fn url(text: &str) -> EndpointUrl {
    match EndpointUrl::parse(text) {
        Ok(url) => url,
        Err(_) => panic!("{text}"),
    }
}

fn set(list: &[&str]) -> TextSet {
    let mut texts = TextSet::new();
    for text in list {
        texts.insert(text);
    }
    texts
}

fn status_of(manager: &mut ManualConnectorManager, url: &str) -> Option<ConnectorStatus> {
    manager
        .list_connectors(&TextSet::new())
        .into_iter()
        .find(|connector| connector.url == url)
        .map(|connector| connector.status)
}

#[test]
fn runtime_helper_lifecycle_is_instance_local() {
    let mut manager_a = ManualConnectorManager::new();
    let manager_b = ManualConnectorManager::new();
    let url = "tcp://127.0.0.1:1";

    manager_a.add_runtime_bootstrap_helper_by_url(url);
    assert!(manager_a.is_runtime_bootstrap_helper(url));
    assert!(!manager_b.is_runtime_bootstrap_helper(url));

    manager_a.add_connector_by_url(url);
    assert!(!manager_a.is_runtime_bootstrap_helper(url));
    manager_a.remove_connector(url).unwrap();
    manager_a.add_connector_by_url(url);
    assert!(!manager_a.is_to_be_removed(url));

    let helper_to_remove = "tcp://127.0.0.1:2";
    manager_a.add_runtime_bootstrap_helper_by_url(helper_to_remove);
    manager_a.remove_connector(helper_to_remove).unwrap();
    assert!(!manager_a.is_runtime_bootstrap_helper(helper_to_remove));

    let helper_to_clear = "tcp://127.0.0.1:3";
    manager_a.add_runtime_bootstrap_helper_by_url(helper_to_clear);
    manager_a.clear_connectors();
    assert!(!manager_a.is_runtime_bootstrap_helper(helper_to_clear));
    assert!(manager_a.remove_connector("tcp://127.0.0.1:9").is_err());
}

#[test]
fn live_primary_peer_pauses_only_runtime_helpers_without_events() {
    let mut manager = ManualConnectorManager::new();
    let helper = "tcp://127.0.0.1:20001";
    let configured = "tcp://127.0.0.1:20002";
    manager.add_runtime_bootstrap_helper_by_url(helper);
    manager.add_connector_by_url(configured);
    let dead = manager.collect_dead_conns(&TextSet::new());
    assert!(dead.contains(helper) && dead.contains(configured));

    assert!(manager.pause_runtime_bootstrap_helpers(&set(&[helper]), true));
    let connecting = manager.claim_dead_connectors(&dead, true);
    assert!(connecting.contains(configured));
    assert!(!connecting.contains(helper));
    assert!(manager.pause_runtime_bootstrap_helpers(&dead, true));
    assert!(manager.is_runtime_bootstrap_helper(helper));
    assert!(!manager.is_runtime_bootstrap_helper(configured));
    assert_eq!(status_of(&mut manager, helper), Some(ConnectorStatus::Disconnected));
    manager.finish_reconnect(configured);

    assert!(!manager.pause_runtime_bootstrap_helpers(&dead, false));
    let connecting = manager.claim_dead_connectors(&dead, false);
    assert!(connecting.contains(helper));
    assert!(manager.is_reconnecting(helper));
    manager.add_connector_by_url(helper);
    assert!(!manager.is_runtime_bootstrap_helper(helper));
    assert!(!manager.is_connector(helper));
    manager.finish_reconnect(helper);
    assert!(manager.is_connector(helper));
    assert!(!manager.is_runtime_bootstrap_helper(helper));

    assert!(manager.claim_dead_connector(helper));
    manager.remove_connector(helper).unwrap();
    manager.finish_reconnect(helper);
    manager.handle_remove_connector();
    assert_eq!(status_of(&mut manager, helper), None);

    assert!(manager.is_reconnecting(configured) || manager.claim_dead_connector(configured));
    manager.clear_connectors();
    manager.finish_reconnect(configured);
    manager.handle_remove_connector();
    assert!(manager.list_connectors(&TextSet::new()).is_empty());
}

#[test]
fn reconnect_timeout_reserves_udp_stealth_fallback_budget() {
    let udp = url("udp://127.0.0.1:11010");
    let tcp = url("tcp://127.0.0.1:11010");

    assert_eq!(reconnect_timeout(&udp, true), 6);
    assert_eq!(reconnect_timeout(&udp, false), 2);
    assert_eq!(reconnect_timeout(&tcp, true), 2);
}

#[test]
fn reconnect_timeout_reports_exhausted_budget_for_stage() {
    let err = begin_stage(ReconnectStage::Resolve, 50, 1).unwrap_err();
    assert!(err.message_start().contains("resolve timeout after"));
}

#[test]
fn reconnect_timeout_reports_stage_timeout_with_remaining_budget() {
    let remaining = begin_stage(ReconnectStage::Handshake, 0, 10).unwrap();
    let err = end_stage::<(), ()>(ReconnectStage::Handshake, remaining, None).unwrap_err();
    assert!(err.message_start().contains("handshake timeout after"));
    assert_eq!(err.after, 10);
}

#[test]
fn reconnect_timeout_preserves_success_within_budget() {
    let remaining = begin_stage(ReconnectStage::Connect, 0, 50).unwrap();
    let result = end_stage::<u32, ()>(ReconnectStage::Connect, remaining, Some(Ok(123))).unwrap();
    assert_eq!(result, Ok(123));
}

#[test]
fn reconnecting_tries_each_family_once() {
    assert!(resolves_by_itself(&url("txt://example.com")));
    assert!(!resolves_by_itself(&url("tcp://example.com")));
    let addrs = vec![at(v4(1, 2, 3, 4), 1), at(IpAddress::V6(1), 1)];
    assert_eq!(
        reconnect_ip_versions(&url("tcp://example.com"), &addrs),
        vec![IpVersion::V4, IpVersion::V6]
    );
    assert_eq!(
        reconnect_ip_versions(&url("srv://example.com"), &vec![]),
        vec![IpVersion::Both]
    );
    let mut run = ReconnectRun::start(vec![IpVersion::V4, IpVersion::V6]);
    assert_eq!(run.step(), ReconnectStep::Try(IpVersion::V4));
    assert_eq!(run.record(false), ReconnectStep::Try(IpVersion::V6));
    assert_eq!(run.record(false), ReconnectStep::LastErrorStands);
    assert_eq!(ReconnectRun::start(vec![]).step(), ReconnectStep::NoAddress);
    let mut run = ReconnectRun::start(vec![IpVersion::V4]);
    assert_eq!(run.record(true), ReconnectStep::Connected);
}

fn route(peer_id: u32) -> RouteFacts {
    RouteFacts {
        peer_id,
        feature_flag: Some(PeerFeatureFlag::default()),
        has_recent_traffic: false,
        has_peer: false,
        has_live_transport: false,
        candidate_improves: true,
        nat_type: Some(NatType::PortRestricted),
        can_punch_hole: true,
    }
}

fn tcp_tasks(connector: &mut TcpHolePunchConnector, flags: &Flags, route: RouteFacts) -> Vec<u32> {
    connector
        .collect_peers_need_task(flags, 1, NatType::PortRestricted, &vec![route], false)
        .iter()
        .map(|task| task.dst_peer_id)
        .collect()
}

#[test]
fn lazy_p2p_collects_tcp_hole_punch_tasks_only_after_recent_traffic() {
    let mut flags = Flags::default();
    flags.lazy_p2p = true;
    let mut connector = TcpHolePunchConnector::new();
    assert!(tcp_tasks(&mut connector, &flags, route(3)).is_empty());
    let mut busy = route(3);
    busy.has_recent_traffic = true;
    assert_eq!(tcp_tasks(&mut connector, &flags, busy), vec![3]);
}

#[test]
fn tcp_hole_punch_collect_skips_loop_blacklisted_peer() {
    let flags = Flags::default();
    let mut connector = TcpHolePunchConnector::new();
    assert_eq!(tcp_tasks(&mut connector, &flags, route(3)), vec![3]);
    connector.loop_blacklist.insert(3, LOOP_BLACKLIST_TIMEOUT_SEC);
    assert!(tcp_tasks(&mut connector, &flags, route(3)).is_empty());
}

#[test]
fn tcp_hole_punch_skip_symmetric_peer() {
    assert!(is_symmetric_tcp_nat(NatType::Symmetric));
    assert!(!is_symmetric_tcp_nat(NatType::PortRestricted));
    let mut connector = TcpHolePunchConnector::new();
    let mut symmetric = route(3);
    symmetric.nat_type = Some(NatType::Symmetric);
    let tasks = connector.collect_peers_need_task(
        &Flags::default(),
        1,
        NatType::Symmetric,
        &vec![symmetric],
        false,
    );
    assert!(tasks.is_empty());
}

#[test]
fn tcp_punching_is_refused_early() {
    let mut connector = TcpHolePunchConnector::new();
    assert!(connector.begin_punch(3, false, NatType::PortRestricted));
    assert!(!connector.begin_punch(3, true, NatType::PortRestricted));
    assert!(!connector.begin_punch(3, false, NatType::Unknown));
    assert_eq!(
        check_exchange_request(NatType::Unknown, None).err(),
        Some(ExchangeError::UnknownNat)
    );
    assert_eq!(
        check_exchange_request(NatType::FullCone, None).err(),
        Some(ExchangeError::MissingAddress)
    );
    assert_eq!(
        check_exchange_request(NatType::FullCone, Some(at(v4(0, 0, 0, 0), 1))).err(),
        Some(ExchangeError::MalformedAddress)
    );
    let mapped = at(v4(203, 0, 113, 1), 1);
    assert_eq!(check_exchange_request(NatType::FullCone, Some(mapped)).ok(), Some(mapped));
    assert_eq!(bind_addr_for_port(7, false), at(v4(0, 0, 0, 0), 7));
    assert_eq!(bind_addr_for_port(7, true), at(IpAddress::V6(0), 7));
}

#[test]
fn tcp_connecting_lists_loops_and_ends() {
    let mut lists = TcpHolePunchConnector::new();
    let remote = at(v4(203, 0, 113, 1), 9);
    let mut run = match lists.after_exchange(3, 7, Ok(Some(remote))) {
        Ok(run) => run,
        Err(_) => panic!("the reply names an address"),
    };
    assert_eq!(run.remote, remote);
    assert_eq!(run.bind, at(v4(0, 0, 0, 0), 7));
    assert!(matches!(
        lists.after_exchange(3, 7, Ok(None)),
        Err(PunchError::MissingListenerAddress)
    ));
    let mut ctx = GlobalCtx::new("default".to_owned(), None, None, Flags::default());
    assert!(run.check_gate(&mut ctx, 100).is_ok());
    assert!(matches!(run.begin_round(&mut lists, 0, false), ConnectStep::Connect { .. }));
    assert!(matches!(
        run.record(&mut lists, ConnectOutcome::NotConnected, false),
        ConnectVerdict::Wait { .. }
    ));
    assert!(matches!(
        run.record(&mut lists, ConnectOutcome::Added, false),
        ConnectVerdict::Connected
    ));
    let mut exchange = connect_for_exchange(remote, 7);
    assert!(matches!(exchange.begin_round(&mut lists, 0, true), ConnectStep::Skip));
    assert!(matches!(exchange.begin_round(&mut lists, 10_000, false), ConnectStep::TimedOut));
    for _ in 0..SERVER_CONNECT_ATTEMPTS {
        assert!(matches!(exchange.begin_round(&mut lists, 0, false), ConnectStep::Connect { .. }));
    }
    assert!(matches!(exchange.begin_round(&mut lists, 0, false), ConnectStep::TimedOut));
    exchange.record(&mut lists, ConnectOutcome::AddFailed { self_loop: true }, false);
    assert!(lists.loop_addr_blacklist.contains(remote));
    assert!(!lists.judge_accept(3, AcceptOutcome::AddFailed { self_loop: true }, false));
    assert!(lists.loop_blacklist.contains(3));
    assert!(lists.judge_accept(4, AcceptOutcome::Added, false));
    let mut initiator = InitiatorRun::new(5);
    assert_eq!(initiator.begin_round(&mut lists, true), None);
    assert!(initiator.begin_round(&mut lists, false).is_some());
}

fn udp_tasks(connector: &mut UdpHolePunchConnector, flags: &Flags, route: RouteFacts) -> Vec<u32> {
    connector
        .collect_peers_need_task(flags, &vec![route], NatType::PortRestricted, false)
        .iter()
        .map(|task| task.dst_peer_id)
        .collect()
}

#[test]
fn lazy_p2p_collects_udp_hole_punch_tasks_only_after_recent_traffic() {
    let mut flags = Flags::default();
    flags.lazy_p2p = true;
    let mut connector = UdpHolePunchConnector::new();
    assert!(udp_tasks(&mut connector, &flags, route(3)).is_empty());
    let mut busy = route(3);
    busy.has_recent_traffic = true;
    assert_eq!(udp_tasks(&mut connector, &flags, busy), vec![3]);
}

#[test]
fn udp_hole_punch_collect_marks_legacy_peer_for_stealth_downgrade() {
    let mut flags = Flags::default();
    flags.stealth_mode = true;
    let mut connector = UdpHolePunchConnector::new();
    let tasks =
        connector.collect_peers_need_task(&flags, &vec![route(3)], NatType::PortRestricted, false);
    let task = tasks.iter().find(|task| task.dst_peer_id == 3).unwrap();
    assert!(task.disable_udp_stealth);
}

#[test]
fn udp_hole_punch_collect_skips_loop_blacklisted_peer() {
    let flags = Flags::default();
    let mut connector = UdpHolePunchConnector::new();
    assert_eq!(udp_tasks(&mut connector, &flags, route(3)), vec![3]);
    connector.loop_blacklist.insert(3, LOOP_BLACKLIST_TIMEOUT_SEC);
    assert!(udp_tasks(&mut connector, &flags, route(3)).is_empty());
}

#[test]
fn test_hole_punching_blacklist() {
    let mut connector = UdpHolePunchConnector::new();
    let refused: Result<(), RpcError> = Err(RpcError::InvalidServiceKey);
    assert!(handle_rpc_result(refused, 3, &mut connector.blacklist).is_err());
    assert!(connector.blacklist.contains(3));
    assert!(udp_tasks(&mut connector, &Flags::default(), route(3)).is_empty());
    let failed: Result<(), RpcError> = Err(RpcError::Other);
    assert!(handle_rpc_result(failed, 4, &mut connector.blacklist).is_err());
    assert!(!connector.blacklist.contains(4));
}

#[test]
fn peers_are_told_of_a_listener() {
    let addr = at(v4(203, 0, 113, 1), 1);
    let mut flags = Flags::default();
    assert_eq!(
        UdpHolePunchServer::select_punch_listener(&flags, None, true, Some(addr)),
        Ok(PunchListener { mapped_addr: addr, stealth_enabled: true })
    );
    assert_eq!(
        UdpHolePunchServer::select_punch_listener(&flags, None, false, None),
        Err(PunchListenerError::NoListener)
    );
    flags.disable_legacy_udp_hole_punch = true;
    for stealth_mode in [true, false] {
        flags.stealth_mode = stealth_mode;
        assert_eq!(
            UdpHolePunchServer::check_punch_request(&flags, None),
            Err(PunchListenerError::LegacyDisabled)
        );
        assert_eq!(
            UdpHolePunchServer::select_punch_listener(&flags, None, stealth_mode, Some(addr)),
            Err(PunchListenerError::LegacyDisabled)
        );
    }
    for use_stealth in [true, false] {
        assert_eq!(UdpHolePunchServer::check_punch_request(&flags, Some(use_stealth)), Ok(()));
        assert!(!UdpHolePunchServer::rejects_legacy_punch(true, Some(use_stealth)));
    }
}

#[test]
fn entries_last_for_their_seconds() {
    let mut peers = PeerBlacklist::new();
    peers.insert(3, 0);
    assert!(!peers.contains(3));
    peers.insert(3, 300);
    assert!(peers.contains(3));
    peers.insert(3, 0);
    assert!(!peers.contains(3));
    let mut urls = UrlBlacklist::new();
    urls.insert(3, "tcp://1.2.3.4:5", 30);
    assert!(urls.contains(3, "tcp://1.2.3.4:5"));
    urls.insert(3, "tcp://1.2.3.4:5", 0);
    assert!(!urls.contains(3, "tcp://1.2.3.4:5"));
    let mut addresses = AddressBlacklist::new();
    let addr = at(v4(203, 0, 113, 1), 1);
    addresses.insert(addr, 0);
    assert!(!addresses.contains(addr));
    addresses.insert(addr, 300);
    assert!(addresses.contains(addr));
}

#[test]
fn cleaning_a_list_changes_no_answer() {
    let mut peers = PeerBlacklist::new();
    peers.insert(3, 300);
    peers.insert(4, 0);
    peers.cleanup();
    assert!(peers.contains(3));
    assert!(!peers.contains(4));
    let addr = at(v4(203, 0, 113, 1), 1);
    let mut addresses = AddressBlacklist::new();
    addresses.insert(addr, 300);
    addresses.cleanup();
    assert!(addresses.contains(addr));
    let mut urls = UrlBlacklist::new();
    urls.insert(3, "tcp://1.2.3.4:5", 30);
    urls.cleanup();
    assert!(urls.contains(3, "tcp://1.2.3.4:5"));
    assert!(!urls.contains(4, "tcp://1.2.3.4:5"));
}

#[test]
fn what_a_list_answers_decides() {
    let flags = Flags::default();
    let routes = vec![route(3), route(4)];
    let tcp = tasks_of_tcp(&flags, 1, &routes, &vec![true, false]);
    assert_eq!(tcp, vec![TcpPunchTaskInfo { dst_peer_id: 4 }]);
    let udp = tasks_for(&flags, NatType::PortRestricted, &routes, &vec![false, true]);
    assert_eq!(udp.len(), 1);
    assert_eq!(udp[0].dst_peer_id, 3);
    let nat = NatType::PortRestricted;
    assert!(TcpHolePunchConnector::is_going_on(false, false, nat));
    assert!(!TcpHolePunchConnector::is_going_on(true, false, nat));
    assert!(!TcpHolePunchConnector::is_going_on(false, true, nat));
    assert!(!TcpHolePunchConnector::is_going_on(false, false, NatType::Unknown));
    let run = connect_for_exchange(at(v4(203, 0, 113, 1), 1), 2);
    assert_eq!(run.step_for(0, true, false), ConnectStep::Skip);
    assert_eq!(run.step_for(0, false, false), ConnectStep::Connect { commit_preflight: true });
    assert_eq!(run.step_for(10_000, false, false), ConnectStep::TimedOut);
}

#[test]
fn listed_peers_end_the_runs() {
    let mut connector = TcpHolePunchConnector::new();
    let nat = NatType::PortRestricted;
    assert!(connector.begin_punch(3, false, nat));
    connector.blacklist_loop_peer(3);
    assert!(!connector.begin_punch(3, false, nat));
    assert!(connector.begin_punch(4, false, nat));
    let mut run = InitiatorRun::new(3);
    assert_eq!(run.begin_round(&mut connector, false), None);
    let mut other = InitiatorRun::new(4);
    assert_eq!(other.begin_round(&mut connector, false), Some(1000));
    assert!(other.end_round(&mut connector, false));
    connector.blacklist.insert(4, 3600);
    assert!(!other.end_round(&mut connector, false));

    let mut udp = UdpHolePunchConnector::new();
    let mut punch = PunchRun::new(3, UdpPunchClientMethod::ConeToCone, false);
    assert!(punch.begin_round(&mut udp).is_some());
    udp.blacklist_loop_peer(4);
    assert!(punch.begin_round(&mut udp).is_some());
    udp.blacklist_loop_peer(3);
    assert!(punch.begin_round(&mut udp).is_none());
    assert!(udp.loop_blacklist.contains(4));
}

#[test]
fn one_symmetric_punch_runs_at_a_time() {
    let mut server = UdpHolePunchServer::new();
    assert!(server.try_begin_sym_punch());
    assert!(!server.try_begin_sym_punch());
    server.end_sym_punch();
    assert!(server.try_begin_sym_punch());
}

#[test]
fn udp_punching_ends_with_a_tunnel_or_a_loop() {
    let mut connector = UdpHolePunchConnector::new();
    assert_eq!(
        connector.judge_punch(3, PunchOutcome::TunnelAdded, false, false),
        PunchVerdict::Stop
    );
    assert_eq!(
        connector.judge_punch(3, PunchOutcome::NoTunnel, false, false),
        PunchVerdict::Advance
    );
    let mut run = PunchRun::new(3, UdpPunchClientMethod::ConeToCone, true);
    let (_, tried) = run.begin_round(&mut connector).unwrap();
    assert_eq!(tried, PunchTry::Method);
    assert_eq!(
        run.handle_punch_result(
            &mut connector,
            tried,
            PunchOutcome::AddFailed { self_loop: true },
            false,
            false,
        ),
        PunchStep::Done
    );
    assert!(connector.loop_blacklist.contains(3));
    assert_eq!(run.handle_busy(), PunchStep::NextRound);
}

#[test]
fn listed_entries_expire() {
    let mut peers = PeerBlacklist::new();
    peers.insert(1, 0);
    assert!(!peers.contains(1));
    peers.insert(1, 3600);
    assert!(peers.contains(1));
    assert!(!peers.contains(2));
    let mut addrs = AddressBlacklist::new();
    addrs.insert(at(v4(1, 2, 3, 4), 5), 3600);
    assert!(addrs.contains(at(v4(1, 2, 3, 4), 5)));
    assert!(!addrs.contains(at(v4(1, 2, 3, 4), 6)));
    assert!(!addrs.contains(at(IpAddress::V6(0x01020304), 5)));
    let mut urls = UrlBlacklist::new();
    urls.insert(1, "tcp://a", 3600);
    assert!(urls.contains(1, "tcp://a"));
    assert!(!urls.contains(2, "tcp://a"));
    assert!(!urls.contains(1, "tcp://b"));
}

#[test]
fn socks5_udp_readiness_packet_round_trips_large_ipv4_payload() {
    let payload = vec![0x5a; UDP_READINESS_PAYLOAD_SIZE];
    let packet = encode_socks5_udp_request(at(v4(127, 0, 0, 1), 53), &payload);

    assert_eq!(socks5_udp_payload(&packet).unwrap(), payload);
    assert!(packet.len() > 4096);
}

#[test]
fn socks5_udp_payload_rejects_fragmented_and_truncated_packets() {
    assert!(socks5_udp_payload(&[0, 0, 1, 1, 0, 0, 0, 0, 0, 53]).is_err());
    assert!(socks5_udp_payload(&[0, 0, 0, 4]).is_err());
    assert_eq!(
        socks5_udp_payload(&[0, 0, 1, 1, 0, 0, 0, 0, 0, 53]).err(),
        Some(Socks5Error::Fragmented)
    );
    assert_eq!(socks5_udp_payload(&[0, 1, 0, 1]).err(), Some(Socks5Error::InvalidHeader));
    assert_eq!(
        socks5_udp_payload(&[0, 0, 0, 9, 0, 0]).err(),
        Some(Socks5Error::InvalidAddressType(9))
    );
    assert_eq!(socks5_udp_payload(&[0, 0, 0, 3]).err(), Some(Socks5Error::TruncatedDomain));
    assert_eq!(
        socks5_udp_payload(&[0, 0, 0, 3, 1, 97, 0, 53, 42]).unwrap(),
        &[42]
    );
}

#[test]
fn managed_gost_uses_bounded_udp_and_first_packet_source_pinning() {
    let listener = gost_listener_url(at(v4(127, 0, 0, 1), DEFAULT_PORT_CANDIDATES[0]));
    assert!(listener.contains("udpBufferSize=65535"));
    assert!(listener.contains("udpSourceCheck=first-packet"));
    assert!(listener.contains(&format!("127.0.0.1:{}", DEFAULT_PORT_CANDIDATES[0])));
    assert_eq!(
        gost_listener_url(at(v4(127, 0, 0, 1), 16650)),
        "socks5://127.0.0.1:16650?udp=true&udpBufferSize=65535&udpSourceCheck=first-packet"
    );
    assert!(gost_listener_url(at(IpAddress::V6(1), 7)).contains("//[::1]:7?"));
    let scoped = SocketAddress::V6 {
        ipv6: 0xfe80_0000_0000_0000_0000_0000_0000_0001,
        port: 10,
        flowinfo: 3,
        scope_id: 120,
    };
    assert!(gost_listener_url(scoped).contains("//[fe80::1%120]:10?"));
}

#[test]
fn gost_is_started_on_each_port_in_turn() {
    let mut config = GostProcessConfig::new("gost".to_owned());
    assert_eq!(check_gost_config(&config, true).ok(), Some(()));
    assert_eq!(
        check_gost_config(&config, false).err(),
        Some(GostConfigError::MissingExecutable)
    );
    config.port_candidates = vec![7, 8];
    let mut start = GostStart::new(&config);
    assert_eq!(start.step(), StartStep::Start(at(v4(127, 0, 0, 1), 7)));
    start.record_failure(at(v4(127, 0, 0, 1), 7), "in use");
    assert_eq!(start.step(), StartStep::Start(at(v4(127, 0, 0, 1), 8)));
    start.record_failure(at(v4(127, 0, 0, 1), 8), "gone");
    assert_eq!(start.step(), StartStep::Exhausted);
    let message = start.message();
    assert!(message.contains("127.0.0.1:7") && message.contains("in use"));
    assert!(message.contains("127.0.0.1:8") && message.contains("gone"));
    config.port_candidates = vec![];
    assert_eq!(
        check_gost_config(&config, true).err(),
        Some(GostConfigError::NoPortCandidate)
    );
    config.port_candidates = vec![7];
    config.listen_address = v4(192, 168, 1, 1);
    assert_eq!(check_gost_config(&config, true).err(), Some(GostConfigError::NotLoopback));
    assert_eq!(begin_readiness_round(true), ReadinessStep::Exited);
    assert_eq!(begin_readiness_round(false), ReadinessStep::Probe);
    assert_eq!(end_readiness_round(true, true), ReadinessStep::Ready);
    assert_eq!(end_readiness_round(false, true), ReadinessStep::TimedOut);
    assert!(matches!(end_readiness_round(false, false), ReadinessStep::Pause { .. }));
}

#[test]
fn the_relay_is_asked_for_an_association() {
    assert_eq!(encode_greeting(), vec![5, 1, 0]);
    assert_eq!(encode_associate(), vec![5, 3, 0, 1, 0, 0, 0, 0, 0, 0]);
    assert!(check_greeting(&[5, 0]).is_ok());
    assert_eq!(check_greeting(&[5, 2]).err(), Some(Socks5Error::AuthenticationRequired));
    assert_eq!(check_associate_reply(&[5, 0, 0, 1]).ok(), Some(4));
    assert_eq!(check_associate_reply(&[5, 0, 0, 4]).ok(), Some(16));
    assert_eq!(check_associate_reply(&[5, 1, 0, 1]).err(), Some(Socks5Error::AssociateFailed));
    assert_eq!(check_associate_reply(&[5, 0, 0, 3]).err(), Some(Socks5Error::DomainAddress));
    assert_eq!(
        check_associate_reply(&[5, 0, 0, 9]).err(),
        Some(Socks5Error::InvalidAddressType(9))
    );
    let endpoint = at(v4(127, 0, 0, 1), 1080);
    assert_eq!(
        relay_endpoint(endpoint, &[127, 0, 0, 1], &[1, 0]).ok(),
        Some(at(v4(127, 0, 0, 1), 256))
    );
    assert_eq!(
        relay_endpoint(endpoint, &[0, 0, 0, 0], &[1, 0]).ok(),
        Some(at(v4(127, 0, 0, 1), 256))
    );
    assert_eq!(
        relay_endpoint(endpoint, &[127, 0, 0, 1], &[0, 0]).err(),
        Some(Socks5Error::ZeroPort)
    );
    assert_eq!(loopback_for(endpoint), v4(127, 0, 0, 1));
    let payload = build_readiness_payload();
    let packet = encode_socks5_udp_request(endpoint, &payload);
    assert!(is_readiness_echo(socks5_udp_payload(&packet).unwrap()));
    assert!(!is_readiness_echo(&packet));
    assert!(!is_readiness_echo(&payload[1..]));
}
