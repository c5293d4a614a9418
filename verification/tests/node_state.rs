//! What a node knows of itself: keys, features, addresses, loops and the breaker.
use easytier::addr::{IpAddress, IpScheme, SocketAddress};
use easytier::build_features::{FEATURE_KCP, FEATURE_QUIC};
use easytier::config::{Flags, PeerFeatureFlag};
use easytier::global_ctx::{
    GeneratedKeyPair, GlobalCtx, GroupIdentity, RunningListener, SecureModeConfig,
    PROXY_PREPARE_ACK_VERSION,
};
use easytier::ip_range::{Ipv4Inet, Ipv6Inet};
use easytier::loop_suppression::{
    protocol_loop_slot_index, ProtocolLoopScope, PROTOCOL_LOOP_SUPPRESS_SECS,
};
use easytier::trusted_keys::{
    TrustedKeyMap, TrustedKeyMapManager, TrustedKeyMetadata, TrustedKeySource,
};
use easytier::underlay_breaker::{
    UnderlayBreakerKey, UnderlayBreakerScope, UnderlayBreakerStrikeKind,
    UNDERLAY_BREAKER_CAPACITY, UNDERLAY_BREAKER_HALF_OPEN_TIMEOUT_SECS,
    UNDERLAY_BREAKER_INITIAL_TTL_SECS, UNDERLAY_BREAKER_STRIKE_THRESHOLD,
};
use hmac::Mac;

fn v4(a: u8, b: u8, c: u8, d: u8) -> u32 {
    u32::from_be_bytes([a, b, c, d])
}

fn inet4(text: &str) -> Ipv4Inet {
    let inet: cidr::Ipv4Inet = text.parse().unwrap();
    Ipv4Inet {
        address: inet.address().into(),
        first: inet.first_address().into(),
        last: inet.last_address().into(),
    }
}

fn inet6(text: &str) -> Ipv6Inet {
    let inet: cidr::Ipv6Inet = text.parse().unwrap();
    Ipv6Inet {
        address: inet.address().into(),
        first: inet.first_address().into(),
        last: inet.last_address().into(),
    }
}

fn endpoint(a: u8, b: u8, c: u8, d: u8, port: u16) -> SocketAddress {
    SocketAddress::V4 { ipv4: v4(a, b, c, d), port }
}

fn node() -> GlobalCtx {
    GlobalCtx::new("default".to_owned(), None, None, Flags::default())
}

fn key_of_endpoint(last: u8, scheme: IpScheme, scope: UnderlayBreakerScope) -> UnderlayBreakerKey {
    UnderlayBreakerKey::endpoint(endpoint(198, 51, 100, last, 11010), scheme, scope)
}

fn is_gated_at(ctx: &mut GlobalCtx, key: UnderlayBreakerKey, now: u64) -> bool {
    match ctx.try_begin_underlay_attempt_at(&[key], now) {
        Ok(mut guard) => {
            guard.commit();
            ctx.release_underlay_preflight(guard);
            false
        }
        Err(gate) => {
            assert_eq!(gate.key, key);
            true
        }
    }
}

fn strike(ctx: &mut GlobalCtx, key: UnderlayBreakerKey, now: u64) -> bool {
    ctx.record_underlay_breaker_strike_at(key, UnderlayBreakerStrikeKind::Hard, now)
}

fn block(ctx: &mut GlobalCtx, key: UnderlayBreakerKey, now: u64) {
    for _ in 0..UNDERLAY_BREAKER_STRIKE_THRESHOLD {
        strike(ctx, key, now);
    }
}

#[test]
fn trusted_key_source_lookup_is_precise() {
    let mut ctx = node();
    let network_name = "net1";
    let pubkey = vec![1; 32];
    let mut keys = TrustedKeyMap::new();
    keys.insert(
        pubkey.clone(),
        TrustedKeyMetadata {
            source: TrustedKeySource::OspfCredential,
            expiry_unix: None,
        },
    );
    ctx.update_trusted_keys(keys, network_name);

    let now = 1_700_000_000;
    assert!(ctx.is_pubkey_trusted(&pubkey, network_name, now, false));
    assert!(!ctx.is_pubkey_trusted_with_source(
        &pubkey,
        network_name,
        TrustedKeySource::OspfNode,
        now,
    ));
    assert!(ctx.is_pubkey_trusted_with_source(
        &pubkey,
        network_name,
        TrustedKeySource::OspfCredential,
        now,
    ));
    assert!(!ctx.is_pubkey_trusted(&pubkey, "net2", now, false));
    assert!(ctx.is_pubkey_trusted(&[2; 32], "default", now, true));
    assert!(!ctx.is_pubkey_trusted(&[2; 32], "net2", now, true));
}

#[test]
fn trusted_keys_expire_and_are_listed_by_network() {
    let metadata = TrustedKeyMetadata {
        source: TrustedKeySource::OspfNode,
        expiry_unix: Some(100),
    };
    assert!(!metadata.is_expired_at(99));
    assert!(metadata.is_expired_at(101));
    assert!(metadata.is_expired());
    let lasting = TrustedKeyMetadata {
        source: TrustedKeySource::OspfNode,
        expiry_unix: None,
    };
    assert!(!lasting.is_expired());

    let mut keys = TrustedKeyMap::new();
    keys.insert(vec![1], metadata);
    keys.insert(vec![2], lasting);
    let mut manager = TrustedKeyMapManager::new();
    manager.update_trusted_keys("net", keys);
    assert!(manager.verify_trusted_key(&[1], "net", 50));
    assert!(!manager.verify_trusted_key(&[1], "net", 500));
    assert!(manager.verify_trusted_key(&[2], "net", 500));
    assert_eq!(manager.list_trusted_keys("net", 500).len(), 1);
    manager.remove_trusted_keys("net");
    assert!(!manager.verify_trusted_key(&[2], "net", 50));
    assert!(manager.list_trusted_keys("net", 50).is_empty());
}

#[test]
fn set_flags_keeps_derived_feature_flags_in_sync() {
    let mut ctx = node();
    let mut feature_flags = ctx.get_feature_flags();
    feature_flags.avoid_relay_data = true;
    feature_flags.is_public_server = true;
    ctx.set_base_advertised_feature_flags(feature_flags);

    let mut flags = Flags::default();
    flags.disable_kcp_input = true;
    flags.disable_relay_kcp = true;
    flags.disable_quic_input = true;
    flags.disable_relay_quic = true;
    flags.need_p2p = true;
    flags.disable_p2p = true;
    ctx.set_flags(flags);

    let feature_flags = ctx.get_feature_flags();
    assert!(!feature_flags.kcp_input);
    assert!(feature_flags.no_relay_kcp);
    assert!(!feature_flags.quic_input);
    assert!(feature_flags.no_relay_quic);
    assert!(feature_flags.need_p2p);
    assert!(feature_flags.disable_p2p);
    assert!(feature_flags.support_conn_list_sync);
    assert!(feature_flags.avoid_relay_data);
    assert!(feature_flags.is_public_server);
    assert!(!feature_flags.ipv6_public_addr_provider);
}

#[test]
fn proxy_capabilities_follow_compiled_features() {
    let feature_flags = node().get_feature_flags();

    assert_eq!(feature_flags.kcp_input, FEATURE_KCP);
    assert_eq!(feature_flags.quic_input, FEATURE_QUIC);
    assert_eq!(
        feature_flags.proxy_prepare_ack_version,
        if FEATURE_KCP || FEATURE_QUIC {
            PROXY_PREPARE_ACK_VERSION
        } else {
            0
        }
    );
}

#[test]
fn set_base_advertised_feature_flags_applies_current_values() {
    let mut ctx = node();
    let feature_flags = || PeerFeatureFlag {
        kcp_input: false,
        no_relay_kcp: true,
        quic_input: false,
        no_relay_quic: true,
        is_public_server: true,
        ..Default::default()
    };
    ctx.set_base_advertised_feature_flags(feature_flags());

    assert_eq!(ctx.get_feature_flags(), feature_flags());
}

#[test]
fn set_base_advertised_feature_flags_keeps_disable_relay_data_effective() {
    let mut ctx = node();
    let mut flags = Flags::default();
    flags.disable_relay_data = true;
    ctx.set_flags(flags);

    let mut feature_flags = ctx.get_feature_flags();
    feature_flags.avoid_relay_data = false;
    feature_flags.is_public_server = true;
    ctx.set_base_advertised_feature_flags(feature_flags);

    let advertised_feature_flags = ctx.get_feature_flags();
    assert!(advertised_feature_flags.avoid_relay_data);
    assert!(advertised_feature_flags.is_public_server);

    ctx.set_flags(Flags::default());

    let advertised_feature_flags = ctx.get_feature_flags();
    assert!(!advertised_feature_flags.avoid_relay_data);
    assert!(advertised_feature_flags.is_public_server);
}

#[test]
fn disable_relay_data_sets_avoid_relay_feature_flag() {
    let mut ctx = node();
    let banned = || {
        let mut flags = Flags::default();
        flags.disable_relay_data = true;
        flags
    };
    ctx.set_flags(banned());
    assert!(ctx.get_feature_flags().avoid_relay_data);
    ctx.set_flags(Flags::default());
    assert!(!ctx.get_feature_flags().avoid_relay_data);

    ctx.set_avoid_relay_data_preference(true);
    ctx.set_flags(banned());
    assert!(ctx.get_feature_flags().avoid_relay_data);
    ctx.set_flags(Flags::default());
    assert!(ctx.get_feature_flags().avoid_relay_data);
}

#[test]
fn should_deny_proxy_for_process_wide_rpc_port() {
    let ctx = node();
    let rpc_addr = endpoint(127, 0, 0, 1, 15888);
    let other_tcp_addr = endpoint(127, 0, 0, 1, 15889);

    assert!(ctx.should_deny_proxy(&rpc_addr, false, true, true, false));
    assert!(!ctx.should_deny_proxy(&rpc_addr, true, true, true, false));
    assert!(!ctx.should_deny_proxy(&other_tcp_addr, false, true, false, false));
}

#[test]
fn should_deny_proxy_for_third_party_listener_on_own_virtual_ip() {
    let mut ctx = node();
    ctx.set_ipv4(Some(inet4("127.0.0.1/8")));
    let foreign_addr = endpoint(127, 0, 0, 1, 40123);

    assert!(ctx.should_deny_proxy(&foreign_addr, false, true, false, true));
    assert!(!ctx.should_deny_proxy_with_local_virtual_occupied_guard(
        &foreign_addr,
        false,
        false,
        true,
        false,
        true,
    ));
}

#[test]
fn should_allow_proxy_for_free_port_on_own_virtual_ip() {
    let mut ctx = node();
    ctx.set_ipv4(Some(inet4("127.0.0.1/8")));
    assert!(!ctx.should_deny_proxy(&endpoint(127, 0, 0, 1, 40123), false, true, false, false));
}

#[test]
fn virtual_ipv6_and_public_ipv6_lease_are_stored_separately() {
    let mut ctx = node();
    ctx.set_ipv6(Some(inet6("fd00::1/64")));
    ctx.set_public_ipv6_lease(Some(inet6("2001:db8::2/64")));

    assert_eq!(ctx.get_ipv6().unwrap().address, inet6("fd00::1/64").address);
    assert_eq!(
        ctx.get_public_ipv6_lease().unwrap().address,
        inet6("2001:db8::2/64").address
    );
}

#[test]
fn public_ipv6_lease_is_treated_as_local_ip() {
    let mut ctx = node();
    let public_ipv6 = inet6("2001:db8::2/64");
    let address = public_ipv6.address;
    ctx.set_public_ipv6_lease(Some(public_ipv6));
    ctx.add_running_listener(RunningListener {
        url: "tcp://[2001:db8::2]:11010".to_owned(),
        port: Some(11010),
        is_udp: false,
    });

    let socket = SocketAddress::new(IpAddress::V6(address), 11010);
    assert!(ctx.is_ip_local_virtual_ip(&IpAddress::V6(address)));
    assert!(ctx.should_deny_proxy(&socket, false, false, false, false));
}

#[test]
fn protocol_loop_suppression_requires_repeated_hits_and_expires() {
    let mut ctx = node();
    let scheme = IpScheme::Udp;
    let scope = ProtocolLoopScope::Direct;

    assert!(!ctx.record_protocol_self_loop_at(scheme, scope, 100));
    assert!(!ctx.is_protocol_loop_suppressed_at(scheme, scope, 100));

    assert!(ctx.record_protocol_self_loop_at(scheme, scope, 110));
    assert!(ctx.is_protocol_loop_suppressed_at(scheme, scope, 111));

    assert!(!ctx.is_protocol_loop_suppressed_at(
        scheme,
        scope,
        110 + PROTOCOL_LOOP_SUPPRESS_SECS + 1,
    ));
}

#[test]
fn protocol_loop_suppression_is_scope_isolated() {
    let mut ctx = node();
    let scheme = IpScheme::Tcp;
    assert!(!ctx.record_protocol_self_loop_at(scheme, ProtocolLoopScope::Direct, 200));
    assert!(ctx.record_protocol_self_loop_at(scheme, ProtocolLoopScope::Direct, 201));
    assert!(ctx.is_protocol_loop_suppressed_at(scheme, ProtocolLoopScope::Direct, 202));
    assert!(!ctx.is_protocol_loop_suppressed_at(scheme, ProtocolLoopScope::HolePunch, 202));
    assert_ne!(
        protocol_loop_slot_index(scheme, ProtocolLoopScope::Direct),
        protocol_loop_slot_index(scheme, ProtocolLoopScope::HolePunch)
    );
}

#[test]
fn underlay_breaker_requires_repeated_hard_strikes_and_half_open_is_single_flight() {
    let mut ctx = node();
    let key = key_of_endpoint(1, IpScheme::Tcp, UnderlayBreakerScope::Generic);

    for _ in 0..(UNDERLAY_BREAKER_STRIKE_THRESHOLD - 1) {
        assert!(!strike(&mut ctx, key, 100));
    }
    assert!(!is_gated_at(&mut ctx, key, 100));

    let trigger_time = 100;
    assert!(strike(&mut ctx, key, trigger_time));
    assert!(is_gated_at(&mut ctx, key, trigger_time + 1));

    let expired = trigger_time + UNDERLAY_BREAKER_INITIAL_TTL_SECS;
    assert!(!is_gated_at(&mut ctx, key, expired + 1));
    assert!(is_gated_at(&mut ctx, key, expired + 2));

    assert!(strike(&mut ctx, key, expired + 3));
    assert!(is_gated_at(&mut ctx, key, expired + 4));
}

#[test]
fn underlay_breaker_batch_gate_is_atomic_for_misaligned_ttls() {
    let mut ctx = node();
    let peer_key = UnderlayBreakerKey::peer(42, IpScheme::Udp, UnderlayBreakerScope::Direct);
    let endpoint_key = key_of_endpoint(42, IpScheme::Udp, UnderlayBreakerScope::Direct);
    block(&mut ctx, peer_key, 100);
    let endpoint_block_start = 100 + UNDERLAY_BREAKER_INITIAL_TTL_SECS / 2;
    block(&mut ctx, endpoint_key, endpoint_block_start);

    let peer_blocked_until = 100 + UNDERLAY_BREAKER_INITIAL_TTL_SECS;
    let endpoint_blocked_until = endpoint_block_start + UNDERLAY_BREAKER_INITIAL_TTL_SECS;
    let between_time = peer_blocked_until + 1;
    assert!(between_time < endpoint_blocked_until, "test requires staggered TTLs");

    assert!(ctx
        .try_begin_underlay_attempt_at(&[peer_key, endpoint_key], between_time)
        .is_err());
    assert!(!ctx.breaker.entry(&peer_key).unwrap().half_open);

    let both_expired = endpoint_blocked_until + 1;
    let guard = ctx
        .try_begin_underlay_attempt_at(&[peer_key, endpoint_key], both_expired)
        .unwrap();
    let lease_id = guard.lease_id;
    assert_eq!(
        ctx.breaker.entry(&peer_key).unwrap().half_open_lease_id,
        Some(lease_id)
    );
    assert_eq!(
        ctx.breaker.entry(&endpoint_key).unwrap().half_open_lease_id,
        Some(lease_id)
    );
    ctx.release_underlay_preflight(guard);
}

#[test]
fn stale_underlay_preflight_guard_cannot_rollback_new_lease() {
    let mut ctx = node();
    let key = key_of_endpoint(43, IpScheme::Tcp, UnderlayBreakerScope::Generic);
    block(&mut ctx, key, 100);
    let blocked_until = 100 + UNDERLAY_BREAKER_INITIAL_TTL_SECS;
    let old_guard = ctx
        .try_begin_underlay_attempt_at(&[key], blocked_until + 1)
        .unwrap();
    strike(&mut ctx, key, blocked_until + 2);
    let reblocked_until = blocked_until + 2 + UNDERLAY_BREAKER_INITIAL_TTL_SECS * 2;
    let new_guard = ctx
        .try_begin_underlay_attempt_at(&[key], reblocked_until + 1)
        .unwrap();
    let new_lease_id = new_guard.lease_id;

    ctx.release_underlay_preflight(old_guard);
    assert_eq!(
        ctx.breaker.entry(&key).unwrap().half_open_lease_id,
        Some(new_lease_id)
    );
    ctx.release_underlay_preflight(new_guard);
    assert_eq!(ctx.breaker.entry(&key).unwrap().half_open_lease_id, None);
}

#[test]
fn cancelled_preflight_rolls_back_without_backoff_but_committed_timeout_reblocks() {
    let mut ctx = node();
    let key = key_of_endpoint(44, IpScheme::Tcp, UnderlayBreakerScope::Generic);
    block(&mut ctx, key, 100);
    let blocked_until = 100 + UNDERLAY_BREAKER_INITIAL_TTL_SECS;

    let cancelled = ctx
        .try_begin_underlay_attempt_at(&[key], blocked_until + 1)
        .unwrap();
    ctx.release_underlay_preflight(cancelled);
    let entry = ctx.breaker.entry(&key).unwrap();
    assert!(!entry.half_open);
    assert_eq!(entry.backoff_secs, UNDERLAY_BREAKER_INITIAL_TTL_SECS);

    let mut committed = ctx
        .try_begin_underlay_attempt_at(&[key], blocked_until + 1)
        .unwrap();
    committed.commit();
    ctx.release_underlay_preflight(committed);
    assert!(ctx
        .try_begin_underlay_attempt_at(&[key], blocked_until + 2)
        .is_err());
    let entry = ctx.breaker.entry(&key).unwrap();
    assert_eq!(entry.backoff_secs, UNDERLAY_BREAKER_INITIAL_TTL_SECS);
    assert!(entry.half_open);
    assert!(ctx
        .try_begin_underlay_attempt_at(
            &[key],
            blocked_until + UNDERLAY_BREAKER_HALF_OPEN_TIMEOUT_SECS + 2
        )
        .is_err());
    let entry = ctx.breaker.entry(&key).unwrap();
    assert_eq!(entry.backoff_secs, UNDERLAY_BREAKER_INITIAL_TTL_SECS * 2);
    assert!(!entry.half_open);
}

#[test]
fn underlay_breaker_soft_strike_does_not_gate() {
    let mut ctx = node();
    let key = key_of_endpoint(2, IpScheme::Udp, UnderlayBreakerScope::Direct);

    for now in 100..110 {
        assert!(!ctx.record_underlay_breaker_strike_at(key, UnderlayBreakerStrikeKind::Soft, now));
    }
    assert!(!is_gated_at(&mut ctx, key, 111));
}

#[test]
fn underlay_breaker_is_disabled_by_guard_flag() {
    let mut ctx = node();
    let mut flags = Flags::default();
    flags.underlay_candidate_guard = false;
    ctx.set_flags(flags);
    let key = key_of_endpoint(3, IpScheme::Tcp, UnderlayBreakerScope::Generic);

    assert!(!strike(&mut ctx, key, 100));
    assert!(!is_gated_at(&mut ctx, key, 101));
    assert!(!ctx.is_underlay_attempt_blocked_at(&[key], 101));
    assert_eq!(ctx.breaker.len(), 0);
}

#[test]
fn underlay_breaker_capacity_is_bounded() {
    let mut ctx = node();
    for idx in 0..(UNDERLAY_BREAKER_CAPACITY + 16) {
        let key = UnderlayBreakerKey::endpoint(
            endpoint(198, 51, (idx / 256) as u8, (idx % 256) as u8, 11010),
            IpScheme::Tcp,
            UnderlayBreakerScope::Generic,
        );
        ctx.record_underlay_breaker_strike_at(key, UnderlayBreakerStrikeKind::Soft, idx as u64);
    }

    assert!(ctx.breaker.len() <= UNDERLAY_BREAKER_CAPACITY);
}

fn key_pair(name: &str) -> SecureModeConfig {
    SecureModeConfig {
        enabled: true,
        local_private_key: Some(format!("{name} private")),
        local_public_key: Some(format!("{name} public")),
    }
}

fn generated(name: &str) -> GeneratedKeyPair {
    GeneratedKeyPair {
        private_key: format!("{name} private"),
        public_key: format!("{name} public"),
    }
}

#[test]
fn derived_secure_mode_is_lazy_and_tracks_stealth_conditions() {
    let mut ctx = node();

    assert!(ctx.get_effective_secure_mode(generated("unused")).is_none());
    assert!(ctx.derived_secure_mode.is_none());
    assert!(!ctx.needs_derived_secure_mode());
    assert!(!ctx.get_feature_flags().stealth_supported);

    ctx.network_secret = Some("secret".to_owned());
    assert!(ctx.needs_derived_secure_mode());
    let derived = ctx.get_effective_secure_mode(generated("first")).unwrap();
    assert!(derived.enabled);
    let private_key = derived.local_private_key.clone();
    assert_eq!(private_key.as_deref(), Some("first private"));
    assert!(ctx.secure_mode.is_none());
    assert!(ctx.derived_secure_mode.is_some());
    assert!(ctx.get_feature_flags().stealth_supported);

    let mut flags = Flags::default();
    flags.stealth_mode = false;
    ctx.set_flags(flags);
    assert!(ctx.get_effective_secure_mode(generated("second")).is_none());
    assert!(!ctx.get_feature_flags().stealth_supported);

    ctx.set_flags(Flags::default());
    let restored = ctx.get_effective_secure_mode(generated("third")).unwrap();
    assert_eq!(private_key, restored.local_private_key);
}

#[test]
fn explicit_disabled_secure_mode_suppresses_effective_secure_mode() {
    let disabled = SecureModeConfig {
        enabled: false,
        ..key_pair("own")
    };
    let mut ctx = GlobalCtx::new(
        "test".to_owned(),
        Some("secret".to_owned()),
        Some(disabled),
        Flags::default(),
    );

    assert!(ctx.get_effective_secure_mode(generated("unused")).is_none());
    assert!(ctx.get_secure_mode_for_tunnel(true, generated("unused")).is_none());
    assert!(!ctx.get_feature_flags().stealth_supported);
}

#[test]
fn generated_key_pairs_are_for_stealth_protected_tunnels() {
    let mut ctx = node();
    ctx.network_secret = Some("secret".to_owned());
    assert!(ctx.get_secure_mode_for_tunnel(false, generated("first")).is_none());
    assert!(ctx.derived_secure_mode.is_none());
    let config = ctx.get_secure_mode_for_tunnel(true, generated("second")).unwrap();
    assert!(config.enabled);
    assert_eq!(config.local_public_key.as_deref(), Some("second public"));
}

#[test]
fn set_flags_marks_runtime_stealth_change_explicit() {
    let mut ctx = GlobalCtx::new(
        "default".to_owned(),
        None,
        Some(key_pair("own")),
        Flags::default(),
    );
    ctx.network_secret = Some("secret".to_owned());
    ctx.set_flags(Flags::default());

    assert!(ctx.flags.stealth_mode);
    assert!(ctx.get_feature_flags().stealth_supported);
    assert!(ctx.get_secure_mode_for_tunnel(false, generated("unused")).is_some());
}

#[test]
fn the_secret_proof_is_a_keyed_hash_of_the_challenge() {
    assert!(node().get_secret_proof(b"challenge").is_none());
    let ctx = GlobalCtx::new(
        "default".to_owned(),
        Some("secret".to_owned()),
        None,
        Flags::default(),
    );
    let mut mac = hmac::Hmac::<sha2::Sha256>::new_from_slice(b"secret").unwrap();
    mac.update(b"easytier secret proof");
    mac.update(b"challenge");
    let expected = mac.finalize().into_bytes().to_vec();
    assert_eq!(ctx.get_secret_proof(b"challenge"), Some(expected));
    assert_ne!(
        ctx.get_secret_proof(b"challenge"),
        ctx.get_secret_proof(b"other")
    );
}

#[test]
fn keys_depend_on_the_secret() {
    let with_secret = |secret: &str| {
        GlobalCtx::new(
            "default".to_owned(),
            Some(secret.to_owned()),
            None,
            Flags::default(),
        )
    };
    assert_eq!(with_secret("a").get_128_key().len(), 16);
    assert_eq!(with_secret("a").get_256_key().len(), 32);
    assert_eq!(with_secret("a").get_128_key(), with_secret("a").get_128_key());
    assert_ne!(with_secret("a").get_128_key(), with_secret("b").get_128_key());
    assert_ne!(with_secret("a").get_256_key(), with_secret("b").get_256_key());
}

#[test]
fn networks_are_relayed_by_wildcard() {
    let mut flags = Flags::default();
    flags.relay_network_whitelist = "net1 team-*".to_owned();
    let ctx = GlobalCtx::new("default".to_owned(), None, None, flags);
    assert!(ctx.check_network_in_whitelist("net1"));
    assert!(ctx.check_network_in_whitelist("team-a"));
    assert!(!ctx.check_network_in_whitelist("net2"));
    assert!(node().check_network_in_whitelist("anything"));

    let mut flags = Flags::default();
    flags.relay_network_whitelist = "a?c *-x**y?".to_owned();
    let ctx = GlobalCtx::new("default".to_owned(), None, None, flags);
    for admitted in ["abc", "a?c", "-xyz", "n-x-xzyyz"] {
        assert!(ctx.check_network_in_whitelist(admitted), "{admitted}");
    }
    for refused in ["ac", "abbc", "Abc", "-xy", "xyz", ""] {
        assert!(!ctx.check_network_in_whitelist(refused), "{refused}");
    }
}

#[test]
fn groups_are_joined_by_name() {
    let group = |name: &str| GroupIdentity {
        group_name: name.to_owned(),
        group_secret: "s".to_owned(),
    };
    let declares = vec![group("a"), group("b"), group("c")];
    let members = vec!["c".to_owned(), "a".to_owned(), "x".to_owned()];
    assert_eq!(GlobalCtx::get_acl_groups(&members, &declares), vec![0, 2]);
}

#[test]
fn what_was_set_is_given_back() {
    let mut ctx = node();
    assert_eq!(ctx.get_network_name(), "default");
    assert!(ctx.get_ipv4().is_none());
    ctx.set_ipv4(Some(inet4("10.44.0.9/16")));
    assert_eq!(ctx.get_ipv4(), Some(inet4("10.44.0.9/16")));
    assert!(ctx.set_advertised_ipv6_public_addr_prefix(None) == false);
    assert!(ctx.get_advertised_ipv6_public_addr_prefix().is_none());
    let listener = || RunningListener {
        url: "tcp://0.0.0.0:11010".to_owned(),
        port: Some(11010),
        is_udp: false,
    };
    ctx.add_running_listener(listener());
    ctx.add_running_listener(listener());
    assert_eq!(ctx.get_running_listeners().len(), 1);
    assert!(ctx.set_ipv6_public_addr_provider_feature_flag(true));
    assert!(!ctx.set_ipv6_public_addr_provider_feature_flag(true));
    assert!(ctx.get_feature_flags().ipv6_public_addr_provider);
}

#[test]
fn managed_and_local_addresses_are_told_apart() {
    let mut ctx = node();
    ctx.set_ipv4(Some(inet4("10.44.0.9/16")));
    ctx.set_public_ipv6_routes(&vec![inet6("2001:db8::2/128")]);
    assert!(ctx.is_ip_in_same_network(&IpAddress::V4(v4(10, 44, 200, 1))));
    assert!(!ctx.is_ip_in_same_network(&IpAddress::V4(v4(10, 45, 0, 1))));
    assert!(ctx.is_ip_easytier_managed_ipv6(inet6("2001:db8::2/128").address));
    assert!(!ctx.is_ip_local_ipv6(inet6("2001:db8::2/128").address));
    assert!(!ctx.is_ip_easytier_managed_ipv6(inet6("2001:db8::3/128").address));
}
