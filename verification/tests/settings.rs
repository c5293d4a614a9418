//! Stealth protocols, transport priorities and what errors tell.
use easytier::addr::IpAddress;
use easytier::build_features::FEATURE_WEBSOCKET;
use easytier::config::{Flags, PeerFeatureFlag};
use easytier::error::{stale_interface_error, Error, TunnelError};
use easytier::stealth_registry::{
    peer_supports_protocol, protocol_enabled, StealthProtocol, StealthProtocolError,
    StealthProtocolSet,
};
use easytier::text::{lowercase, split, trim};
use easytier::transport_priority::{
    protocol_is_compiled, PreferenceKey, TransportPathClass, TransportPriority,
    TransportPriorityError, TransportPriorityScope, BUILTIN_TRANSPORT_ORDER,
};

fn v4(a: u8, b: u8, c: u8, d: u8) -> IpAddress {
    IpAddress::V4(u32::from_be_bytes([a, b, c, d]))
}

fn v6(text: &str) -> IpAddress {
    let inet: cidr::Ipv6Inet = format!("{text}/128").parse().unwrap();
    IpAddress::V6(inet.address().into())
}

#[test]
fn empty_configuration_is_udp_only_when_enabled() {
    let protocols = StealthProtocolSet::parse("").unwrap();
    assert!(protocols.effective_protocols(false).is_empty());
    assert_eq!(
        protocols.effective_protocols(true),
        vec![StealthProtocol::Udp]
    );
}

#[test]
fn explicit_protocols_are_strictly_validated() {
    let protocols = StealthProtocolSet::parse("udp,tcp,wss").unwrap();
    let mut expected = vec![StealthProtocol::Udp, StealthProtocol::Tcp];
    if StealthProtocol::Wss.is_implemented() {
        expected.push(StealthProtocol::Wss);
    }
    assert_eq!(protocols.effective_protocols(true), expected);
    assert_eq!(
        protocols.configured_protocols(),
        [
            StealthProtocol::Udp,
            StealthProtocol::Tcp,
            StealthProtocol::Wss
        ]
    );
    assert!(StealthProtocolSet::parse("udp,udp").is_err());
    assert!(StealthProtocolSet::parse("udp,unknown").is_err());
    assert!(StealthProtocolSet::parse("udp,").is_err());
}

#[test]
fn unimplemented_protocols_are_not_enabled_or_advertised() {
    let protocols = StealthProtocolSet::parse("ws,wss").unwrap();
    if FEATURE_WEBSOCKET {
        assert_eq!(protocols.effective_protocols(true).len(), 2);
        assert_eq!(protocols.capabilities(true).len(), 2);
    } else {
        assert!(protocols.effective_protocols(true).is_empty());
        assert!(protocols.capabilities(true).is_empty());
    }
}

#[test]
fn peer_capability_requires_matching_wire_version_and_level() {
    let protocol = StealthProtocol::Tcp;
    let mut capability = protocol.capability();
    let feature = PeerFeatureFlag {
        stealth_capabilities: vec![capability.clone()],
        ..Default::default()
    };
    assert!(peer_supports_protocol(&feature, protocol));

    capability.wire_version = 2;
    let feature = PeerFeatureFlag {
        stealth_capabilities: vec![capability],
        ..Default::default()
    };
    assert!(!peer_supports_protocol(&feature, protocol));

    capability.wire_version = 1;
    capability.level_mask = 0;
    let feature = PeerFeatureFlag {
        stealth_capabilities: vec![capability],
        ..Default::default()
    };
    assert!(!peer_supports_protocol(&feature, protocol));
    assert!(peer_supports_protocol(
        &PeerFeatureFlag {
            stealth_supported: true,
            ..Default::default()
        },
        StealthProtocol::Udp
    ));
}

#[test]
fn stealth_lists_name_what_is_wrong_with_them() {
    assert_eq!(
        StealthProtocolSet::parse("udp,udp").err(),
        Some(StealthProtocolError::DuplicateProtocol(StealthProtocol::Udp))
    );
    assert!(StealthProtocolSet::parse(" UDP , Tcp ").is_ok());
    let mut flags = Flags::default();
    assert!(protocol_enabled(&flags, StealthProtocol::Udp));
    assert!(protocol_enabled(&flags, StealthProtocol::Wss));
    flags.stealth_protocols.clear();
    assert!(protocol_enabled(&flags, StealthProtocol::Udp));
    assert!(!protocol_enabled(&flags, StealthProtocol::Tcp));
    flags.stealth_protocols = "tcp".to_owned();
    assert!(!protocol_enabled(&flags, StealthProtocol::Udp));
    assert!(protocol_enabled(&flags, StealthProtocol::Tcp));
    flags.stealth_mode = false;
    assert!(!protocol_enabled(&flags, StealthProtocol::Tcp));
}

#[test]
fn parses_and_layers_priority_rules() {
    let parsed = TransportPriority::parse(
        "global:udp,tcp;wan:quic,wss;lan:faketcp;10.44.0.3:tcp,quic;[fd00::3]:quic,tcp",
    )
    .unwrap();

    assert_eq!(
        parsed.order_for(false, Some(v4(10, 44, 0, 3))),
        ["tcp", "quic", "wss", "udp", "wg", "ws", "faketcp"]
    );
    assert_eq!(
        parsed.order_for(true, None),
        ["faketcp", "udp", "tcp", "wg", "quic", "ws", "wss"]
    );
    assert_eq!(
        parsed.order_for(false, Some(v6("fd00::3"))),
        ["quic", "tcp", "wss", "udp", "wg", "ws", "faketcp"]
    );
}

#[test]
fn rejects_ambiguous_or_invalid_rules() {
    for invalid in [
        "global:",
        "global:tcp,tcp",
        "global:madeup",
        "global:tcp;global:udp",
        "fd00::3:quic",
        "[10.44.0.3]:tcp",
        "unknown:tcp",
        "global:tcp;",
    ] {
        assert!(
            TransportPriority::parse(invalid).is_err(),
            "accepted invalid rule {invalid}"
        );
    }
}

#[test]
fn each_invalid_rule_has_its_own_error() {
    let error = |text: &str| TransportPriority::parse(text).err().unwrap();
    assert_eq!(error("global:tcp;"), TransportPriorityError::EmptyRule);
    assert_eq!(error("global"), TransportPriorityError::NoSeparator);
    assert_eq!(
        error("global:tcp;global:udp"),
        TransportPriorityError::DuplicateScope
    );
    assert!(TransportPriority::parse("").unwrap().is_empty());
    assert!(TransportPriority::parse("   ").unwrap().is_empty());
    let parsed = TransportPriority::parse("10.44.0.3:tcp").unwrap();
    assert!(parsed.has_virtual_ip_rule(v4(10, 44, 0, 3)));
    assert!(!parsed.has_virtual_ip_rule(v4(10, 44, 0, 4)));
    assert_eq!(
        easytier::transport_priority::parse_scope("wan"),
        Ok(TransportPriorityScope::Wan)
    );
}

#[test]
fn without_rules_the_builtin_order_stands() {
    let parsed = TransportPriority::parse("").unwrap();
    assert_eq!(parsed.order_for(true, None), BUILTIN_TRANSPORT_ORDER);
    assert!(protocol_is_compiled("tcp"));
    assert!(protocol_is_compiled("udp"));
    assert!(!protocol_is_compiled("madeup"));
}

#[test]
fn a_local_path_is_preferred_to_any_other() {
    let order = vec!["quic".to_owned(), "tcp".to_owned()];
    let lan_tcp = PreferenceKey::new(TransportPathClass::Lan, &order, "tcp");
    let wan_quic = PreferenceKey::new(TransportPathClass::Wan, &order, "quic");
    let wan_other = PreferenceKey::new(TransportPathClass::Wan, &order, "wg");
    assert_eq!(lan_tcp.rank, 1);
    assert_eq!(wan_other.rank, usize::MAX);
    assert!(lan_tcp.is_before(wan_quic));
    assert!(wan_quic.is_before(wan_other));
    assert!(!wan_quic.is_before(wan_quic));
}

#[test]
fn self_loop_signal_matches_only_self_connect_errors() {
    assert!(Error::WaitRespError("peer id conflict".to_owned()).is_self_loop_signal());
    assert!(
        Error::WaitRespError("peer id conflict, are you connecting to yourself?".to_owned())
            .is_self_loop_signal()
    );
    assert!(!Error::WaitRespError("wait handshake timeout".to_owned()).is_self_loop_signal());
    assert!(!Error::UrlInBlacklist.is_self_loop_signal());
}

#[test]
fn a_cause_can_tell_of_a_loop() {
    let chain = vec!["connect failed".to_owned(), "peer id conflict".to_owned()];
    assert!(Error::AnyhowError(chain).is_self_loop_signal());
    assert!(!Error::AnyhowError(vec!["connect failed".to_owned()]).is_self_loop_signal());
    assert!(stale_interface_error(&Error::TunnelError(
        TunnelError::LocalBind { stale_interface: true }
    )));
    assert!(!stale_interface_error(&Error::TunnelError(
        TunnelError::IOError
    )));
}

#[test]
fn texts_are_split_trimmed_and_made_small() {
    assert_eq!(split("a,,b", ','), ["a", "", "b"]);
    assert_eq!(trim(" \t x y\n"), "x y");
    assert_eq!(lowercase("QuIc-42\u{dc}"), "quic-42\u{dc}");
}
