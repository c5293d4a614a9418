//! Interfaces, guarded addresses and how connections over them start.
use easytier::addr::{IpAddress, IpScheme, IpVersion, SocketAddress};
use easytier::config::{Flags, PeerFeatureFlag};
use easytier::connector::{
    bind_addrs_for_peer_connector, build_resolved_bind_addrs, plan_connector,
    resolved_bind_snapshot_for_platform, should_attempt_ranked_hole_punch,
    should_background_p2p_with_peer, should_try_p2p_with_peer, AddressRun, AttemptError,
    ConnectorPlan, ConnectorPlanError, PreparedUnderlayConnector, ResolveError, ResolveStep,
};
use easytier::error::TunnelError;
use easytier::global_ctx::GlobalCtx;
use easytier::ip_range::{IpCidr, Ipv4Inet, Ipv6Inet};
use easytier::loop_suppression::ProtocolLoopScope;
use easytier::network::{
    build_underlay_snapshot, collect_local_ip_addrs, convert_windows_interface_addr,
    filter_iface_bsd, filter_iface_linux, filter_iface_windows, is_interface_physical,
    HostInterface, IpList, SnapshotStep, UnderlayInterfaceSnapshot, UnderlaySnapshotCache,
    WindowsInterfaceAddr,
};
use easytier::underlay_breaker::{UnderlayBreakerKey, UnderlayBreakerScope};
use easytier::underlay_guard::{
    bind_device_sources, builtin_excludes_match, check_underlay_candidate, judge_probes,
    native_interface_inspection_active, next_recovery_step, parse_exclude_cidrs,
    prepare_underlay_attempt, select_preflight_udp_bind_target, should_block_underlay_ip,
    snapshot_needs_recollection, suspicious_interface_name, validate_connected_udp_source,
    validate_exclude_cidrs, wildcard_udp_bind_addr, CandidateCheck, PreflightUdpBindTarget,
    RecoveryStep, Refusal, BUILTIN_UNDERLAY_GUARD_CIDRS, DEFAULT_UNDERLAY_EXCLUDE_CIDRS,
};

const MILLISECOND: u64 = 1_000_000;

fn v4(a: u8, b: u8, c: u8, d: u8) -> IpAddress {
    IpAddress::V4(u32::from_be_bytes([a, b, c, d]))
}

fn bits4(ip: IpAddress) -> u32 {
    match ip {
        IpAddress::V4(bits) => bits,
        IpAddress::V6(_) => panic!("not an IPv4 address"),
    }
}

fn bits6(text: &str) -> u128 {
    let inet: cidr::Ipv6Inet = format!("{text}/128").parse().unwrap();
    inet.address().into()
}

fn v6(text: &str) -> IpAddress {
    IpAddress::V6(bits6(text))
}

fn inet4(text: &str) -> Ipv4Inet {
    let inet: cidr::Ipv4Inet = text.parse().unwrap();
    Ipv4Inet {
        address: inet.address().into(),
        first: inet.first_address().into(),
        last: inet.last_address().into(),
    }
}

fn at(ip: IpAddress, port: u16) -> SocketAddress {
    SocketAddress::new(ip, port)
}

fn interface(name: &str, index: u32, ips: &[IpAddress]) -> HostInterface {
    HostInterface {
        name: name.to_owned(),
        index,
        is_point_to_point: false,
        is_loopback: false,
        is_up: true,
        is_lower_up: true,
        has_nonzero_mac: true,
        ips: ips.to_vec(),
    }
}

fn snapshot_with_interface(name: &str, index: u32, ip: IpAddress) -> UnderlayInterfaceSnapshot {
    let all = [interface(name, index, &[ip])];
    build_underlay_snapshot(&all, &all, None, None)
}

fn node(flags: Flags) -> GlobalCtx {
    GlobalCtx::new("default".to_owned(), None, None, flags)
}

#[test]
fn snapshot_preserves_sources_first_match_and_fallback_families() {
    let own = [v4(192, 0, 2, 10), v6("2001:db8::10")];
    let all = [
        interface("en-test0", 4, &own),
        interface("tun-test0", 9, &[own[0], own[1], v4(10, 44, 0, 1)]),
    ];
    let filtered = [interface("en-test0", 4, &own)];
    let snapshot = build_underlay_snapshot(
        &all,
        &filtered,
        Some(bits4(v4(192, 0, 2, 10))),
        Some(bits6("2001:db8::10")),
    );

    assert!(snapshot
        .ip_list
        .interface_ipv4s
        .contains(&bits4(v4(192, 0, 2, 10))));
    assert!(!snapshot
        .ip_list
        .interface_ipv4s
        .contains(&bits4(v4(10, 44, 0, 1))));
    assert!(snapshot
        .ip_list
        .interface_ipv6s
        .contains(&bits6("2001:db8::10")));
    let resolved = snapshot.interface_for(&v4(192, 0, 2, 10)).unwrap();
    assert_eq!(resolved.name, "en-test0");
    assert_eq!(resolved.index, 4);
    assert!(!snapshot.has_unmapped_fallback_for(true));
    assert!(!snapshot.has_unmapped_fallback_for(false));
}

#[test]
fn unmapped_fallback_is_tracked_per_address_family() {
    let all = [interface("en-test0", 4, &[v4(192, 0, 2, 10)])];
    let snapshot = build_underlay_snapshot(
        &all,
        &all,
        Some(bits4(v4(192, 0, 2, 10))),
        Some(bits6("2001:db8::99")),
    );

    assert!(!snapshot.has_unmapped_fallback_for(true));
    assert!(snapshot.has_unmapped_fallback_for(false));
    assert_eq!(*snapshot.unmapped_fallbacks(), vec![v6("2001:db8::99")]);
}

#[test]
fn concurrent_consumers_publish_once_per_stable_epoch_and_ttl() {
    let mut cache = UnderlaySnapshotCache::new();
    let now = 1_000_000 * MILLISECOND;
    let epoch = match cache.next_step(0, now) {
        SnapshotStep::Collect { epoch } => epoch,
        step => panic!("{step:?}"),
    };
    let first = cache
        .publish(snapshot_with_interface("en-test0", 4, v4(192, 0, 2, 10)), epoch, now)
        .unwrap();
    for _ in 0..32 {
        assert_eq!(cache.next_step(0, now), SnapshotStep::UseCached);
    }
    assert_eq!(cache.next_step(0, now + 4_999 * MILLISECOND), SnapshotStep::UseCached);

    let later = now + 5_000 * MILLISECOND;
    let epoch = match cache.next_step(0, later) {
        SnapshotStep::Collect { epoch } => epoch,
        step => panic!("{step:?}"),
    };
    let second = cache
        .publish(snapshot_with_interface("en-test1", 12, v4(198, 51, 100, 10)), epoch, later)
        .unwrap();
    assert_ne!(first, second);
}

#[test]
fn inflight_invalidation_discards_old_epoch_and_owner_cancellation_recovers() {
    let mut cache = UnderlaySnapshotCache::new();
    let now = 1_000_000 * MILLISECOND;
    let epoch = match cache.next_step(0, now) {
        SnapshotStep::Collect { epoch } => epoch,
        step => panic!("{step:?}"),
    };
    cache.invalidate();
    assert!(cache
        .publish(snapshot_with_interface("stale", 1, v4(192, 0, 2, 1)), epoch, now)
        .is_none());
    let epoch = match cache.next_step(1, now) {
        SnapshotStep::Collect { epoch } => epoch,
        step => panic!("{step:?}"),
    };
    let generation = cache
        .publish(snapshot_with_interface("current", 2, v4(192, 0, 2, 2)), epoch, now)
        .unwrap();
    let current = &cache.state.as_ref().unwrap().snapshot;
    assert_eq!(current.interface_for(&v4(192, 0, 2, 2)).unwrap().name, "current");
    assert_eq!(cache.next_step(2, now), SnapshotStep::GiveUp);

    cache.invalidate_generation(generation);
    assert!(cache.is_generation_invalidated(generation));
    assert!(!cache.is_fresh(now));
}

#[test]
fn interfaces_are_filtered_by_platform() {
    let plain = interface("en0", 1, &[v4(192, 0, 2, 1)]);
    assert!(filter_iface_linux(&plain, false));
    assert!(!filter_iface_linux(&plain, true));
    assert!(filter_iface_windows(&plain));
    assert!(filter_iface_bsd(&plain, true));
    assert!(!filter_iface_bsd(&plain, false));
    let down = HostInterface { is_lower_up: false, ..interface("en0", 1, &[v4(192, 0, 2, 1)]) };
    assert!(!filter_iface_linux(&down, false));
    let idle = interface("en0", 1, &[v4(127, 0, 0, 1)]);
    assert!(!filter_iface_linux(&idle, false));
    let lines = vec![
        "Hardware Port: Wi-Fi".to_owned(),
        "Device: en0".to_owned(),
        "Ethernet Address: 00:00:00:00:00:01".to_owned(),
        "Device: en7".to_owned(),
        "Virtual Interface".to_owned(),
    ];
    assert!(is_interface_physical(&lines, "en0"));
    assert!(!is_interface_physical(&lines, "en7"));
    assert!(!is_interface_physical(&lines, "en9"));
}

#[test]
fn local_and_public_addresses_are_collected() {
    let all = [interface("en0", 1, &[v4(192, 0, 2, 1), v6("fe80::1"), v6("2001:db8::1")])];
    let mut list = collect_local_ip_addrs(&all, &all, Some(bits4(v4(192, 0, 2, 7))), None);
    assert_eq!(
        list.interface_ipv4s,
        vec![bits4(v4(192, 0, 2, 1)), bits4(v4(192, 0, 2, 7))]
    );
    assert_eq!(list.interface_ipv6s, vec![bits6("2001:db8::1")]);
    assert_eq!(list.next_poll_secs(), 3);
    list.apply_public_ips(&vec![
        "not an address".to_owned(),
        "203.0.113.7".to_owned(),
        "2001:db8::7".to_owned(),
    ]);
    assert_eq!(list.public_ipv4, Some(bits4(v4(203, 0, 113, 7))));
    assert_eq!(list.public_ipv6, Some(bits6("2001:db8::7")));
    assert_eq!(list.next_poll_secs(), 60);
    assert!(!IpList::interfaces_are_stale(60));
    assert!(IpList::interfaces_are_stale(61));
}

#[test]
fn native_interface_inspection_matches_platform_ownership() {
    assert_eq!(
        native_interface_inspection_active(),
        easytier::build_features::NATIVE_INTERFACE_INSPECTION
    );
}

#[test]
fn parse_exclude_cidrs_accepts_cidrs_and_host_prefixes() {
    let parsed =
        parse_exclude_cidrs("198.18.0.0/15, 192.19.0.1/24, fc00::1/18, fdfe:dcba:9876::1/48")
            .unwrap();
    let rendered = parsed
        .iter()
        .map(|block| match *block {
            IpCidr::V4 { first4, length, .. } => {
                cidr::Ipv4Cidr::new(first4.into(), length).unwrap().to_string()
            }
            IpCidr::V6 { first6, length, .. } => {
                cidr::Ipv6Cidr::new(first6.into(), length).unwrap().to_string()
            }
        })
        .collect::<Vec<_>>();

    assert_eq!(
        rendered,
        vec![
            "198.18.0.0/15",
            "192.19.0.0/24",
            "fc00::/18",
            "fdfe:dcba:9876::/48"
        ]
    );
}

#[test]
fn parse_exclude_cidrs_rejects_invalid_items() {
    assert!(parse_exclude_cidrs("198.18.0.0/15,bad-cidr").is_err());
    assert!(validate_exclude_cidrs("198.18.0.0/15,bad-cidr").is_err());
    assert!(validate_exclude_cidrs("198.18.0.0/15").is_ok());
}

#[test]
fn builtin_ranges_are_the_documented_ones() {
    for text in BUILTIN_UNDERLAY_GUARD_CIDRS.split(',') {
        let block: cidr::IpInet = text.trim().parse().unwrap();
        match block {
            cidr::IpInet::V4(block) => {
                let first: u32 = block.first_address().into();
                let last: u32 = block.last_address().into();
                assert!(builtin_excludes_match(&IpAddress::V4(first)));
                assert!(builtin_excludes_match(&IpAddress::V4(last)));
                assert!(!builtin_excludes_match(&IpAddress::V4(last.wrapping_add(1))));
            }
            cidr::IpInet::V6(block) => {
                let first: u128 = block.first_address().into();
                let last: u128 = block.last_address().into();
                assert!(builtin_excludes_match(&IpAddress::V6(first)));
                assert!(builtin_excludes_match(&IpAddress::V6(last)));
                assert!(!builtin_excludes_match(&IpAddress::V6(last.wrapping_add(1))));
            }
        }
    }
}

#[test]
fn stale_preflight_refreshes_and_revalidates_at_most_once() {
    let stale = Err(Refusal::ProbeFailed { stale_interface: true });
    assert_eq!(next_recovery_step(0, &stale, true), RecoveryStep::Refresh);
    assert_eq!(next_recovery_step(1, &stale, true), RecoveryStep::Fail);
    assert_eq!(next_recovery_step(0, &stale, false), RecoveryStep::Fail);

    let ordinary = Err(Refusal::ProbeFailed { stale_interface: false });
    assert_eq!(next_recovery_step(0, &ordinary, true), RecoveryStep::Fail);
    assert_eq!(next_recovery_step(0, &Ok(()), true), RecoveryStep::Accept);
}

#[test]
fn preflight_bind_target_uses_snapshot_identity_or_explicit_wildcard() {
    let own = [interface("en-test0", 4, &[v4(192, 0, 2, 10), v6("2001:db8::10")])];
    let snapshot = build_underlay_snapshot(&own, &own, None, None);
    let resolved = || PreflightUdpBindTarget::Resolved {
        interface_name: "en-test0".to_owned(),
        interface_index: 4,
    };

    assert_eq!(
        select_preflight_udp_bind_target(at(v4(192, 0, 2, 10), 0), Some(&snapshot)).unwrap(),
        resolved()
    );
    assert_eq!(
        select_preflight_udp_bind_target(at(v6("2001:db8::10"), 0), Some(&snapshot)).unwrap(),
        resolved()
    );
    assert_eq!(
        select_preflight_udp_bind_target(at(v4(0, 0, 0, 0), 0), None).unwrap(),
        PreflightUdpBindTarget::Wildcard
    );
    assert_eq!(
        select_preflight_udp_bind_target(at(v6("::"), 0), None).unwrap(),
        PreflightUdpBindTarget::Wildcard
    );
    assert_eq!(
        select_preflight_udp_bind_target(at(v4(198, 51, 100, 10), 0), Some(&snapshot)),
        Err(Refusal::NoInterfaceIdentity)
    );

    let zero_index_snapshot = snapshot_with_interface("en-zero", 0, v4(198, 51, 100, 10));
    assert_eq!(
        select_preflight_udp_bind_target(
            at(v4(198, 51, 100, 10), 0),
            Some(&zero_index_snapshot)
        ),
        Err(Refusal::ZeroInterfaceIndex)
    );
}

#[test]
fn should_block_configured_and_runtime_addresses_when_enabled() {
    let mut flags = Flags::default();
    flags.underlay_candidate_guard = true;
    flags.underlay_exclude_cidrs = DEFAULT_UNDERLAY_EXCLUDE_CIDRS.to_string();
    let mut ctx = node(flags);
    ctx.set_ipv4(Some(inet4("10.44.0.9/16")));

    assert!(should_block_underlay_ip(&ctx, v4(198, 18, 0, 1)));
    assert!(should_block_underlay_ip(&ctx, v6("fdfe:dcba:9876::1")));
    assert!(should_block_underlay_ip(&ctx, v6("fd65:6173:7974::4")));
    assert!(should_block_underlay_ip(&ctx, v6("fc00::1")));
    assert!(should_block_underlay_ip(&ctx, v4(10, 44, 0, 9)));
    assert!(!should_block_underlay_ip(&ctx, v4(192, 168, 2, 160)));
}

#[test]
fn should_block_builtin_fake_ip_ranges_even_when_config_is_empty() {
    let mut flags = Flags::default();
    flags.underlay_candidate_guard = true;
    flags.underlay_exclude_cidrs.clear();
    let ctx = node(flags);

    assert!(should_block_underlay_ip(&ctx, v4(198, 18, 0, 1)));
    assert!(should_block_underlay_ip(&ctx, v4(192, 19, 0, 1)));
    assert!(should_block_underlay_ip(&ctx, v6("fdfe:dcba:9876::1")));
    assert!(should_block_underlay_ip(&ctx, v6("fc00::1")));
}

#[test]
fn configured_excludes_remain_additive_to_builtin_ranges() {
    let mut flags = Flags::default();
    flags.underlay_candidate_guard = true;
    flags.underlay_exclude_cidrs = "203.0.113.0/24".to_string();
    let ctx = node(flags);

    assert!(should_block_underlay_ip(&ctx, v4(198, 18, 0, 1)));
    assert!(should_block_underlay_ip(&ctx, v4(203, 0, 113, 9)));
    assert!(!should_block_underlay_ip(&ctx, v4(203, 0, 114, 9)));
}

#[test]
fn disabled_guard_keeps_new_filters_inactive() {
    let mut flags = Flags::default();
    flags.underlay_candidate_guard = false;
    flags.underlay_exclude_cidrs = DEFAULT_UNDERLAY_EXCLUDE_CIDRS.to_string();
    let mut ctx = node(flags);
    ctx.set_ipv4(Some(inet4("10.44.0.9/16")));

    assert!(!should_block_underlay_ip(&ctx, v4(198, 18, 0, 1)));
    assert!(!should_block_underlay_ip(&ctx, v4(10, 44, 0, 9)));
}

#[test]
fn validation_blocks_builtin_target_before_connect_probe() {
    let mut flags = Flags::default();
    flags.underlay_candidate_guard = true;
    flags.underlay_exclude_cidrs.clear();
    let mut ctx = node(flags);

    let ret = check_underlay_candidate(
        &mut ctx,
        at(v4(198, 18, 0, 1), 11010),
        IpScheme::Tcp,
        UnderlayBreakerScope::Generic,
        None,
        100,
    );
    assert!(matches!(ret, Err(Refusal::GuardedRemote)));
}

#[test]
fn validation_guard_false_allows_builtin_target() {
    let mut flags = Flags::default();
    flags.underlay_candidate_guard = false;
    flags.underlay_exclude_cidrs = DEFAULT_UNDERLAY_EXCLUDE_CIDRS.to_string();
    let mut ctx = node(flags);

    let ret = check_underlay_candidate(
        &mut ctx,
        at(v4(198, 18, 0, 1), 11010),
        IpScheme::Tcp,
        UnderlayBreakerScope::Generic,
        None,
        100,
    );
    assert!(matches!(ret, Ok(CandidateCheck::Accepted)));
}

#[test]
fn sources_are_judged_after_probing() {
    let mut ctx = node(Flags::default());
    let key = UnderlayBreakerKey::endpoint(
        at(v4(203, 0, 113, 1), 1),
        IpScheme::Udp,
        UnderlayBreakerScope::Direct,
    );
    assert_eq!(
        validate_connected_udp_source(&mut ctx, key, v4(192, 0, 2, 1), None, 5),
        Ok(())
    );
    assert_eq!(
        validate_connected_udp_source(&mut ctx, key, v4(198, 18, 0, 1), None, 5),
        Err(Refusal::GuardedSource)
    );
    assert!(suspicious_interface_name("utun3"));
    assert!(!suspicious_interface_name("en0"));
    assert_eq!(judge_probes(&vec![Err(Refusal::GuardedSource), Ok(())]), Ok(()));
    assert_eq!(
        judge_probes(&vec![Err(Refusal::GuardedSource)]),
        Err(Refusal::GuardedSource)
    );
    assert_eq!(
        wildcard_udp_bind_addr(at(v6("2001:db8::1"), 9)),
        at(v6("::"), 0)
    );
    assert!(prepare_underlay_attempt(
        &mut ctx,
        at(v4(203, 0, 113, 1), 1),
        IpScheme::Udp,
        UnderlayBreakerScope::Direct,
        Some(7),
        5
    )
    .is_ok());
    assert!(Refusal::GuardedRemote.message().contains("guarded"));
}

#[test]
fn device_sources_need_a_snapshot() {
    let mut flags = Flags::default();
    flags.bind_device = true;
    let ctx = node(flags);
    let remote = at(v4(203, 0, 113, 1), 1);
    assert!(bind_device_sources(&ctx, remote, None).is_err());
    let snapshot = snapshot_with_interface("en0", 3, v4(192, 0, 2, 1));
    assert_eq!(
        bind_device_sources(&ctx, remote, Some(&snapshot)).unwrap(),
        vec![at(v4(192, 0, 2, 1), 0)]
    );
    assert!(!snapshot_needs_recollection(&ctx, remote, &snapshot));
}

#[test]
fn unmapped_fallback_blocks_only_its_address_family() {
    let all = [interface("en-test0", 4, &[v4(192, 0, 2, 10)])];
    let snapshot = build_underlay_snapshot(
        &all,
        &all,
        Some(bits4(v4(192, 0, 2, 10))),
        Some(bits6("2001:db8::99")),
    );
    let ipv4 = build_resolved_bind_addrs(&snapshot, true, &vec![]).unwrap();
    assert_eq!(ipv4.len(), 1);
    assert_eq!(ipv4[0].addr, at(v4(192, 0, 2, 10), 0));
    assert_eq!(ipv4[0].interface_name.as_deref(), Some("en-test0"));
    assert_eq!(ipv4[0].interface_index, Some(4));
    assert_eq!(
        build_resolved_bind_addrs(&snapshot, false, &vec![]).err(),
        Some(Refusal::UnmappedFallback { is_ipv4: false })
    );
    assert!(bind_addrs_for_peer_connector(&node(Flags::default()), true, Some(&snapshot)).is_ok());
}

#[test]
fn only_typed_stale_local_bind_invalidates_generation_without_retry() {
    let mut cache = UnderlaySnapshotCache::new();
    let generation = cache
        .publish(snapshot_with_interface("en0", 1, v4(192, 0, 2, 1)), 0, 1)
        .unwrap();
    let connector = PreparedUnderlayConnector {
        preflight: None,
        resolved_addr: Some(at(v4(203, 0, 113, 1), 1)),
        snapshot_generation: Some(generation),
    };
    connector.after_failure(&TunnelError::IOError, &mut cache);
    assert!(!cache.is_generation_invalidated(generation));
    connector.after_failure(&TunnelError::LocalBind { stale_interface: false }, &mut cache);
    assert!(!cache.is_generation_invalidated(generation));
    connector.after_failure(&TunnelError::LocalBind { stale_interface: true }, &mut cache);
    assert!(cache.is_generation_invalidated(generation));
}

#[test]
fn next_attempt_recollects_and_rebuilds_resolved_targets() {
    let collect = |name: &str, index: u32, ip: IpAddress| {
        let all = [interface(name, index, &[ip])];
        build_underlay_snapshot(&all, &all, Some(bits4(ip)), None)
    };
    let mut cache = UnderlaySnapshotCache::new();
    let mut calls = 0;
    assert_eq!(cache.next_step(0, 1), SnapshotStep::Collect { epoch: 0 });
    calls += 1;
    let first = cache
        .publish(collect("en-old", 4, v4(192, 0, 2, 10)), 0, 1)
        .unwrap();
    cache.invalidate_generation(first);
    assert_eq!(cache.next_step(0, 1), SnapshotStep::Collect { epoch: 0 });
    calls += 1;
    let second = cache
        .publish(collect("en-new", 12, v4(198, 51, 100, 10)), 0, 1)
        .unwrap();

    assert_ne!(first, second);
    assert_eq!(calls, 2);
    let current = &cache.state.as_ref().unwrap().snapshot;
    let targets = build_resolved_bind_addrs(current, true, &vec![]).unwrap();
    assert_eq!(targets.len(), 1);
    assert_eq!(targets[0].interface_name.as_deref(), Some("en-new"));
    assert_eq!(targets[0].interface_index, Some(12));
    assert_eq!(targets[0].addr, at(v4(198, 51, 100, 10), 0));
}

#[test]
fn interface_addresses_have_the_length_of_their_netmask() {
    let length4 = |netmask: Option<u32>| {
        convert_windows_interface_addr(WindowsInterfaceAddr::V4 { ip: 0x0a2c_0001, netmask })
            .map(|addr| (addr.ip, addr.length))
    };
    let own = v4(10, 44, 0, 1);
    assert_eq!(length4(None), Some((own, 32)));
    assert_eq!(length4(Some(0xffff_ff00)), Some((own, 24)));
    assert_eq!(length4(Some(0)), Some((own, 0)));
    assert_eq!(length4(Some(0xff00_ff00)), None);
    let length6 = |netmask6: Option<u128>| {
        convert_windows_interface_addr(WindowsInterfaceAddr::V6 { ip6: 1, netmask6 })
            .map(|addr| (addr.ip, addr.length))
    };
    assert_eq!(length6(None), Some((IpAddress::V6(1), 128)));
    assert_eq!(length6(Some(u128::MAX << 80)), Some((IpAddress::V6(1), 48)));
    assert_eq!(length6(Some(1)), None);
}

#[test]
fn mobile_platforms_skip_snapshot_while_native_platforms_fail_closed() {
    assert!(resolved_bind_snapshot_for_platform(false, None)
        .unwrap()
        .is_none());

    let error = resolved_bind_snapshot_for_platform(true, None).unwrap_err();
    assert!(error
        .message()
        .contains("bind-device connector has no underlay interface snapshot"));
}

#[test]
fn ranked_hole_punch_only_upgrades_existing_peer() {
    assert!(should_attempt_ranked_hole_punch(false, false, false, false));
    assert!(!should_attempt_ranked_hole_punch(true, false, false, true));
    assert!(!should_attempt_ranked_hole_punch(true, true, true, true));
    assert!(!should_attempt_ranked_hole_punch(true, true, false, false));
    assert!(should_attempt_ranked_hole_punch(true, true, false, true));
}

fn check(ctx: &mut GlobalCtx, remote: SocketAddress) -> Result<(), Refusal> {
    check_underlay_candidate(
        ctx,
        remote,
        IpScheme::Tcp,
        UnderlayBreakerScope::Generic,
        None,
        100,
    )
    .map(|_| ())
}

#[test]
fn connector_rejects_easytier_managed_ipv6_destination() {
    let mut ctx = node(Flags::default());
    ctx.set_public_ipv6_routes(&vec![Ipv6Inet {
        address: bits6("2001:db8::2"),
        first: bits6("2001:db8::2"),
        last: bits6("2001:db8::2"),
    }]);
    assert_eq!(
        check(&mut ctx, at(v6("2001:db8::2"), 11010)),
        Err(Refusal::ManagedIpv6)
    );
}

#[test]
fn connector_rejects_configured_underlay_destination() {
    let mut flags = Flags::default();
    flags.underlay_candidate_guard = true;
    flags.underlay_exclude_cidrs = "203.0.113.0/24".to_string();
    let mut ctx = node(flags);

    assert_eq!(
        check(&mut ctx, at(v4(203, 0, 113, 10), 11010)),
        Err(Refusal::GuardedRemote)
    );
    assert_eq!(
        check(&mut ctx, at(v6("fdfe:dcba:9876::2"), 11010)),
        Err(Refusal::GuardedRemote)
    );
}

#[test]
fn connector_factory_ignores_runtime_loop_suppression_for_generic_clients() {
    let mut ctx = node(Flags::default());
    ctx.record_protocol_self_loop_at(IpScheme::Tcp, ProtocolLoopScope::Direct, 100);
    ctx.record_protocol_self_loop_at(IpScheme::Tcp, ProtocolLoopScope::Direct, 100);
    assert!(plan_connector(&ctx, "tcp://127.0.0.1:11010").is_ok());
}

#[test]
fn connector_factory_accepts_explicit_and_bbr_fallback_quic_brutal_urls() {
    let ctx = node(Flags::default());
    for url in [
        "quic-brutal://127.0.0.1:11013?tx_bps=100000000",
        "quic-brutal://127.0.0.1:11013",
    ] {
        assert!(matches!(
            plan_connector(&ctx, url),
            Ok(ConnectorPlan::Ip { scheme: IpScheme::QuicBrutal, .. })
        ));
    }
}

#[test]
fn urls_ask_for_connectors() {
    let ctx = node(Flags::default());
    assert_eq!(plan_connector(&ctx, "no url"), Err(ConnectorPlanError::InvalidUrl));
    assert_eq!(
        plan_connector(&ctx, "gopher://host"),
        Err(ConnectorPlanError::InvalidProtocol)
    );
    assert_eq!(plan_connector(&ctx, "txt:"), Err(ConnectorPlanError::EmptyHost));
    assert_eq!(plan_connector(&ctx, "txt://host"), Ok(ConnectorPlan::Dns));
    assert_eq!(plan_connector(&ctx, "ring://host"), Ok(ConnectorPlan::Ring));
    assert_eq!(plan_connector(&ctx, "https://host"), Ok(ConnectorPlan::Http));
    let stealthy = GlobalCtx::new(
        "net".to_owned(),
        Some("secret".to_owned()),
        None,
        Flags::default(),
    );
    let stealth_of = |ctx: &GlobalCtx, url: &str| match plan_connector(ctx, url) {
        Ok(ConnectorPlan::Ip { stealth, .. }) => stealth,
        plan => panic!("{plan:?}"),
    };
    assert!(!stealth_of(&ctx, "udp://host:1").enabled);
    assert!(stealth_of(&stealthy, "udp://host:1").enabled);
    assert!(stealth_of(&stealthy, "udp://host:1").prefer_with_legacy_fallback);
    assert!(stealth_of(&stealthy, "tcp://host:1").enabled);
    let mut udp_only = Flags::default();
    udp_only.stealth_protocols.clear();
    let stealthy =
        GlobalCtx::new("net".to_owned(), Some("secret".to_owned()), None, udp_only);
    assert!(stealth_of(&stealthy, "udp://host:1").enabled);
    assert!(!stealth_of(&stealthy, "tcp://host:1").enabled);
}

#[test]
fn addresses_are_tried_until_one_is_accepted() {
    let addrs = vec![
        at(v4(203, 0, 113, 1), 1),
        at(v6("2001:db8::1"), 1),
        at(v4(203, 0, 113, 2), 1),
    ];
    let mut run = AddressRun::start(&addrs, IpVersion::V4);
    assert_eq!(run.addrs.len(), 2);
    let refused = AttemptError::Refused(Refusal::GuardedRemote);
    assert_eq!(
        run.record(Err(refused)),
        ResolveStep::Failed(ResolveError::Attempt(refused))
    );

    let mut run = AddressRun::start(&addrs, IpVersion::Both);
    let mut seen = Vec::new();
    loop {
        match run.step() {
            ResolveStep::Attempt(addr) => seen.push(addr),
            step => panic!("{step:?}"),
        }
        if seen.len() == 3 {
            break;
        }
        assert!(matches!(run.record(Err(refused)), ResolveStep::Attempt(_)));
    }
    for addr in &addrs {
        assert!(seen.contains(addr));
    }
    let last = seen[2];
    assert_eq!(
        run.record(Ok(())),
        ResolveStep::Chosen { addr: last, ip_version: IpVersion::Both }
    );
    assert_eq!(
        AddressRun::start(&vec![], IpVersion::V6).step(),
        ResolveStep::Failed(ResolveError::NoDnsRecordFound(IpVersion::V6))
    );
}

#[test]
fn addresses_come_in_any_order() {
    let addrs: Vec<SocketAddress> = (0..32).map(|i| at(v4(203, 0, 113, i), 1)).collect();
    let shuffled = (0..8).any(|_| AddressRun::start(&addrs, IpVersion::Both).addrs != addrs);
    assert!(shuffled);
}

#[test]
fn lazy_background_p2p_requires_need_p2p() {
    let no_need_p2p = PeerFeatureFlag {
        need_p2p: false,
        ..Default::default()
    };
    let need_p2p = PeerFeatureFlag {
        need_p2p: true,
        ..Default::default()
    };

    assert!(should_background_p2p_with_peer(
        Some(&no_need_p2p),
        false,
        false,
        false,
        false
    ));
    assert!(!should_background_p2p_with_peer(
        Some(&no_need_p2p),
        false,
        true,
        false,
        false
    ));
    assert!(should_background_p2p_with_peer(
        Some(&need_p2p),
        false,
        true,
        false,
        false
    ));
}

#[test]
fn p2p_policy_respects_public_server_setting() {
    let public_server = PeerFeatureFlag {
        is_public_server: true,
        ..Default::default()
    };

    assert!(!should_try_p2p_with_peer(Some(&public_server), false, false, false));
    assert!(should_try_p2p_with_peer(Some(&public_server), true, false, false));
    assert!(!should_background_p2p_with_peer(
        Some(&public_server),
        false,
        false,
        false,
        false
    ));
    assert!(should_background_p2p_with_peer(
        Some(&public_server),
        true,
        false,
        false,
        false
    ));
}

#[test]
fn disable_p2p_only_allows_need_p2p_exceptions() {
    let normal_peer = PeerFeatureFlag::default();
    let need_peer = PeerFeatureFlag {
        need_p2p: true,
        ..Default::default()
    };
    let disable_peer = PeerFeatureFlag {
        disable_p2p: true,
        ..Default::default()
    };
    let disable_need_peer = PeerFeatureFlag {
        disable_p2p: true,
        need_p2p: true,
        ..Default::default()
    };

    assert!(should_try_p2p_with_peer(Some(&normal_peer), false, false, false));
    assert!(should_try_p2p_with_peer(None, false, false, false));
    assert!(!should_try_p2p_with_peer(None, false, true, false));
    assert!(!should_try_p2p_with_peer(Some(&normal_peer), false, true, false));
    assert!(should_try_p2p_with_peer(Some(&need_peer), false, true, false));
    assert!(!should_try_p2p_with_peer(Some(&disable_peer), false, false, false));
    assert!(should_try_p2p_with_peer(Some(&disable_peer), false, false, true));
    assert!(should_try_p2p_with_peer(Some(&disable_need_peer), false, true, true));
    assert!(!should_try_p2p_with_peer(Some(&disable_need_peer), false, true, false));
}
