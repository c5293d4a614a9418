//! The proxy for TCP connections and the choice of its transport.
use easytier::addr::{IpAddress, SocketAddress};
use easytier::config::Flags;
use easytier::global_ctx::GlobalCtx;
use easytier::ip_range::Ipv4Inet;
use easytier::prepared_store::{FlowKey, PreparedKey, PreparedProxyStore, PREPARED_TTL};
use easytier::proxy_failover::{
    parse_syn, CapabilitySnapshot, DeferredProxySelector, Dispatch, FlowDecision,
    NicPacketContext, NicPacketFilterAction, PrepareOutcome, PrepareTask, ProxyMark,
    ResolveAction, Route, PENDING_TTL, PREPARE_TIMEOUT,
};
use easytier::proxy_prepare::{
    after_final_ack, after_first_ack, frame_proxy_prepare_ack, normalize_local_proxy_destination,
    proxy_prepare_ack_length, requested_proxy_prepare_version, AckEvent, AckStep,
    ProxyPrepareAckStatus, ProxyPrepareError, ProxyPrepareFailureClass,
};
use easytier::proxy_status::{
    retain_latest_statuses, TcpProxyEntry, TcpProxyEntryState, MAX_STATUS_ENTRIES,
};
use easytier::tcp_proxy::{
    get_fake_local_ipv4, CidrLookup, ConnectDecision, HostFacts, NatDstEntry, NatDstTcpConnector,
    PeerPacketFacts, PeerPacketHeader, PeerPacketResult, TcpProxy, SYN_ENTRY_TTL,
};
use easytier::transport_health::{
    HealthKey, HealthTable, HealthTransition, ProxyTransport, TransportHealth,
    HALF_OPEN_INTERVAL, HEALTH_TTL,
};
use pnet::packet::ip::IpNextHeaderProtocols;
use pnet::packet::ipv4::{Ipv4Packet, MutableIpv4Packet};
use pnet::packet::tcp::{MutableTcpPacket, TcpFlags};
use pnet::packet::{MutablePacket, Packet};

const START: u64 = 1_000_000_000_000;

fn bits4(a: u8, b: u8, c: u8, d: u8) -> u32 {
    u32::from_be_bytes([a, b, c, d])
}

fn at4(a: u8, b: u8, c: u8, d: u8, port: u16) -> SocketAddress {
    SocketAddress::V4 { ipv4: bits4(a, b, c, d), port }
}

fn at6(text: &str, port: u16) -> SocketAddress {
    let inet: cidr::Ipv6Inet = format!("{text}/128").parse().unwrap();
    SocketAddress::new(IpAddress::V6(inet.address().into()), port)
}

fn inet4(text: &str) -> Ipv4Inet {
    let inet: cidr::Ipv4Inet = text.parse().unwrap();
    Ipv4Inet {
        address: inet.address().into(),
        first: inet.first_address().into(),
        last: inet.last_address().into(),
    }
}

fn node() -> GlobalCtx {
    GlobalCtx::new("default".to_owned(), None, None, Flags::default())
}

/// A connection request from 10.44.0.2:32000 to 10.44.0.3:443 that carries data.
fn tcp_syn(sequence: u32) -> Vec<u8> {
    let mut bytes = vec![0u8; 48];
    let mut ip = MutableIpv4Packet::new(&mut bytes).unwrap();
    ip.set_version(4);
    ip.set_header_length(5);
    ip.set_total_length(48);
    ip.set_next_level_protocol(IpNextHeaderProtocols::Tcp);
    ip.set_source("10.44.0.2".parse().unwrap());
    ip.set_destination("10.44.0.3".parse().unwrap());
    let mut tcp = MutableTcpPacket::new(ip.payload_mut()).unwrap();
    tcp.set_source(32000);
    tcp.set_destination(443);
    tcp.set_sequence(sequence);
    tcp.set_data_offset(6);
    tcp.set_flags(TcpFlags::SYN);
    tcp.packet_mut()[20..24].copy_from_slice(&[2, 4, 0x05, 0xb4]);
    tcp.packet_mut()[24..28].copy_from_slice(b"TFO!");
    bytes
}

fn flow() -> FlowKey {
    FlowKey { src: at4(10, 44, 0, 2, 32000), dst: at4(10, 44, 0, 3, 443) }
}

fn context(not_send_to_self: bool) -> NicPacketContext {
    NicPacketContext { ip_addr: IpAddress::V4(bits4(10, 44, 0, 3)), not_send_to_self }
}

fn route(peer: u32, quic: bool, kcp: bool, prepare_ack_version: u32) -> Option<Route> {
    Some(Route { peer, capabilities: CapabilitySnapshot { quic, kcp, prepare_ack_version } })
}

fn selector(transports: &[ProxyTransport]) -> DeferredProxySelector {
    DeferredProxySelector::new(77, transports.to_vec())
}

/// Hands a packet to the selector and tells what becomes of it.
fn filter(
    selector: &mut DeferredProxySelector,
    packet: &[u8],
    context: NicPacketContext,
    route: Option<Route>,
    now: u64,
) -> (NicPacketFilterAction, Option<ProxyMark>) {
    let result =
        selector.try_process_packet_from_nic(&node(), packet, context, false, route, now, 1);
    (result.action, result.mark)
}

/// Starts a flow and the preparing of its first stream.
fn start(
    selector: &mut DeferredProxySelector,
    packet: &[u8],
    context: NicPacketContext,
    route: Option<Route>,
    now: u64,
) -> PrepareTask {
    let result =
        selector.try_process_packet_from_nic(&node(), packet, context, false, route, now, 1);
    assert_eq!(result.action, NicPacketFilterAction::Consume);
    let (flow, entry) = result.started.unwrap();
    prepared(selector.begin(flow, entry, now))
}

fn prepared(action: ResolveAction) -> PrepareTask {
    match action {
        ResolveAction::Prepare { task, budget } => {
            assert!(budget <= PREPARE_TIMEOUT);
            task
        }
        action => panic!("{action:?}"),
    }
}

fn native(action: ResolveAction) -> Dispatch {
    match action {
        ResolveAction::SendNative { dispatch } => dispatch,
        action => panic!("{action:?}"),
    }
}

fn proxied(action: ResolveAction) -> (Dispatch, PreparedKey, u64) {
    match action {
        ResolveAction::SendProxy { dispatch, key, entry } => (dispatch, key, entry),
        action => panic!("{action:?}"),
    }
}

#[test]
fn proxy_prepare_version_negotiates_v1_with_newer_remote() {
    assert_eq!(requested_proxy_prepare_version(0), 0);
    assert_eq!(requested_proxy_prepare_version(1), 1);
    assert_eq!(requested_proxy_prepare_version(2), 1);
}

#[test]
fn proxy_status_output_is_bounded_and_newest_first() {
    let mut statuses = (0..MAX_STATUS_ENTRIES + 10)
        .map(|generation| TcpProxyEntry {
            start_time: (generation / 2) as u64,
            generation: generation as u64,
            ..Default::default()
        })
        .collect::<Vec<_>>();

    retain_latest_statuses(&mut statuses);

    assert_eq!(statuses.len(), MAX_STATUS_ENTRIES);
    assert_eq!(statuses[0].generation, (MAX_STATUS_ENTRIES + 9) as u64);
    assert!(statuses.windows(2).all(|pair| {
        pair[0].start_time > pair[1].start_time
            || (pair[0].start_time == pair[1].start_time
                && pair[0].generation >= pair[1].generation)
    }));
}

#[test]
fn local_proxy_destination_only_uses_family_loopback_without_tun() {
    let ipv4 = at4(10, 44, 0, 3, 443);
    let ipv6 = at6("fd00::3", 443);

    assert_eq!(normalize_local_proxy_destination(ipv4, false, true), ipv4);
    assert_eq!(normalize_local_proxy_destination(ipv4, true, false), ipv4);
    assert_eq!(
        normalize_local_proxy_destination(ipv4, true, true),
        at4(127, 0, 0, 1, 443)
    );
    assert_eq!(
        normalize_local_proxy_destination(ipv6, true, true),
        at6("::1", 443)
    );
}

const ACCEPTED: AckEvent = AckEvent::Status(ProxyPrepareAckStatus::Accepted);

#[test]
fn ready_ack_preserves_immediately_following_payload() {
    let payload = b"server-first-payload";
    let first = frame_proxy_prepare_ack(&[8, 1]).unwrap();
    let second = frame_proxy_prepare_ack(&[8, 2]).unwrap();
    let mut wire = first.clone();
    wire.extend_from_slice(&second);
    wire.extend_from_slice(payload);

    let length = proxy_prepare_ack_length(wire[0], wire[1]).unwrap();
    assert_eq!(&wire[2..2 + length], &[8, 1]);
    let rest = &wire[2 + length..];
    let length = proxy_prepare_ack_length(rest[0], rest[1]).unwrap();
    assert_eq!(&rest[2..2 + length], &[8, 2]);
    assert_eq!(&rest[2 + length..], payload);

    assert_eq!(after_first_ack(ACCEPTED, true), AckStep::AwaitFinal);
    assert_eq!(after_final_ack(AckEvent::Status(ProxyPrepareAckStatus::Ready)), Ok(()));
}

#[test]
fn ack_frames_are_bounded() {
    assert!(frame_proxy_prepare_ack(&[0; 64]).is_ok());
    assert!(frame_proxy_prepare_ack(&[0; 65]).is_err());
    assert_eq!(proxy_prepare_ack_length(0, 64).ok(), Some(64));
    assert!(proxy_prepare_ack_length(0, 65).is_err());
    assert!(proxy_prepare_ack_length(1, 0).is_err());
}

#[test]
fn timeout_after_accepted_is_ambiguous() {
    assert_eq!(after_first_ack(ACCEPTED, true), AckStep::AwaitFinal);
    assert_eq!(
        after_final_ack(AckEvent::TimedOut),
        Err(ProxyPrepareFailureClass::AmbiguousTimeout)
    );
}

#[test]
fn timeout_before_accepted_is_transport_failure() {
    assert_eq!(
        after_first_ack(AckEvent::TimedOut, true),
        AckStep::Failed(ProxyPrepareFailureClass::Transport)
    );
}

#[test]
fn explicit_prepare_failures_keep_their_health_classification() {
    for (status, expected) in [
        (ProxyPrepareAckStatus::DestinationFailed, ProxyPrepareFailureClass::Destination),
        (ProxyPrepareAckStatus::PolicyDenied, ProxyPrepareFailureClass::Policy),
        (ProxyPrepareAckStatus::BusinessTimeout, ProxyPrepareFailureClass::BusinessTimeout),
    ] {
        assert_eq!(after_first_ack(ACCEPTED, true), AckStep::AwaitFinal);
        assert_eq!(after_final_ack(AckEvent::Status(status)), Err(expected));
    }
}

#[test]
fn eof_after_accepted_is_transport_failure() {
    assert_eq!(after_first_ack(ACCEPTED, true), AckStep::AwaitFinal);
    assert_eq!(
        after_final_ack(AckEvent::Broken),
        Err(ProxyPrepareFailureClass::Transport)
    );
}

#[test]
fn errors_are_made_by_class() {
    let text = || "why".to_owned();
    assert_eq!(
        ProxyPrepareError::new(ProxyPrepareFailureClass::RouteStale, text()).class,
        ProxyPrepareFailureClass::RouteStale
    );
    assert_eq!(ProxyPrepareError::transport(text()).class, ProxyPrepareFailureClass::Transport);
    assert_eq!(
        ProxyPrepareError::destination(text()).class,
        ProxyPrepareFailureClass::Destination
    );
    assert_eq!(ProxyPrepareError::policy(text()).class, ProxyPrepareFailureClass::Policy);
    assert_eq!(
        ProxyPrepareError::business_timeout(text()).class,
        ProxyPrepareFailureClass::BusinessTimeout
    );
    let error = ProxyPrepareError::ambiguous_timeout(text());
    assert_eq!(error.class, ProxyPrepareFailureClass::AmbiguousTimeout);
    assert_eq!(error.source, "why");
}

#[test]
fn ambiguous_timeouts_are_scoped_soft_strikes() {
    let now = START;
    let mut health = TransportHealth::new(now);
    assert_eq!(health.record_ambiguous_timeout(now), HealthTransition::Unchanged);
    assert_eq!(health.consecutive_failures, 0);
    assert_eq!(health.ambiguous_timeout_strikes, 1);
    assert_eq!(health.record_ambiguous_timeout(now), HealthTransition::Unchanged);
    assert_eq!(health.consecutive_failures, 1);
    assert_eq!(health.ambiguous_timeout_strikes, 0);
    health.record_result(now, true);
    assert_eq!(health.consecutive_failures, 0);
    assert_eq!(health.ambiguous_timeout_strikes, 0);
}

#[test]
fn non_ambiguous_result_breaks_soft_strike_sequence() {
    let now = START;
    let mut health = TransportHealth::new(now);
    health.record_ambiguous_timeout(now);
    assert_eq!(health.ambiguous_timeout_strikes, 1);

    health.record_result(now, false);
    assert_eq!(health.consecutive_failures, 1);
    assert_eq!(health.ambiguous_timeout_strikes, 0);

    health.record_ambiguous_timeout(now);
    assert_eq!(health.consecutive_failures, 1);
    assert_eq!(health.ambiguous_timeout_strikes, 1);

    health.clear_ambiguous_timeout(now);
    assert_eq!(health.ambiguous_timeout_strikes, 0);
}

fn health_key(peer: u32, transport: ProxyTransport) -> HealthKey {
    HealthKey { peer, transport }
}

#[test]
fn ambiguous_strikes_do_not_cross_peer_or_transport_health_keys() {
    let mut table = HealthTable::new();
    table.record_ambiguous_timeout(health_key(9, ProxyTransport::Quic), START);
    table.record_ambiguous_timeout(health_key(9, ProxyTransport::Quic), START);

    let quic = table.get(&health_key(9, ProxyTransport::Quic)).unwrap();
    assert_eq!(quic.consecutive_failures, 1);
    assert!(table.get(&health_key(9, ProxyTransport::Kcp)).is_none());
    assert!(table.get(&health_key(10, ProxyTransport::Quic)).is_none());
    table.clear_ambiguous_timeout(health_key(9, ProxyTransport::Quic), START);
    assert_eq!(table.len(), 1);
}

#[test]
fn exact_local_virtual_ip_bypasses_proxy_without_creating_state() {
    let mut ctx = node();
    ctx.set_ipv4(Some(inet4("10.44.0.3/16")));
    let mut selector = selector(&[ProxyTransport::Quic]);

    let result = selector.try_process_packet_from_nic(
        &ctx,
        &tcp_syn(100),
        context(true),
        false,
        route(77, true, true, 1),
        START,
        1,
    );
    assert_eq!(result.action, NicPacketFilterAction::Continue);
    assert!(result.started.is_none());
    assert_eq!(selector.flows.len(), 0);
    assert!(selector.prepared.is_empty());
}

#[test]
fn self_peer_subnet_destination_still_uses_proxy() {
    let mut selector = selector(&[ProxyTransport::Quic]);
    let to = route(77, true, false, 0);
    let task = start(&mut selector, &tcp_syn(100), context(true), to, START);
    assert_eq!(task.round.peer, 77);
    proxied(selector.on_prepared(task, PrepareOutcome::Ready { stream: 5 }, to, START));
}

#[test]
fn prepared_stream_is_bound_to_generation_and_taken_once() {
    let mut store = PreparedProxyStore::new();
    let key = PreparedKey {
        flow: flow(),
        initial_sequence: 100,
        generation: 7,
        dst_peer_id: 9,
        transport: ProxyTransport::Quic,
    };
    store.insert(key, 5, START);

    assert!(store.claim_for_syn(flow(), ProxyTransport::Kcp, 100, START).is_none());
    assert!(store.claim_for_syn(flow(), ProxyTransport::Quic, 99, START).is_none());
    assert_eq!(store.claim_for_syn(flow(), ProxyTransport::Quic, 100, START), Some(5));
    assert!(store.claim_for_syn(flow(), ProxyTransport::Quic, 100, START).is_none());
}

#[test]
fn newer_prepared_generation_replaces_stale_stream() {
    let mut store = PreparedProxyStore::new();
    let old_key = PreparedKey {
        flow: flow(),
        initial_sequence: 100,
        generation: 7,
        dst_peer_id: 9,
        transport: ProxyTransport::Quic,
    };
    let new_key = PreparedKey { generation: 8, ..old_key };

    store.insert(old_key, 5, START);
    store.insert(new_key, 6, START);
    store.remove(old_key);

    assert_eq!(store.claim_for_syn(flow(), ProxyTransport::Quic, 100, START), Some(6));
    assert!(store.claim_for_syn(flow(), ProxyTransport::Quic, 100, START).is_none());
}

#[test]
fn prepared_streams_expire() {
    let mut store = PreparedProxyStore::new();
    let key = PreparedKey {
        flow: flow(),
        initial_sequence: 100,
        generation: 7,
        dst_peer_id: 9,
        transport: ProxyTransport::Quic,
    };
    store.insert(key, 5, START);
    assert_eq!(store.held_streams(), vec![5]);
    store.cleanup(START + PREPARED_TTL);
    assert!(store.is_empty());
}

#[test]
fn transport_health_degrades_and_recovers_through_half_open_probes() {
    let start = START;
    let mut health = TransportHealth::new(start);

    assert_eq!(health.record_result(start, false), HealthTransition::Unchanged);
    assert_eq!(health.record_result(start, false), HealthTransition::Unchanged);
    assert_eq!(health.record_result(start, false), HealthTransition::Degraded);
    assert!(!health.allows_attempt(start));
    assert!(!health.allows_attempt(start + HALF_OPEN_INTERVAL - 1_000_000));

    for probe in 1..=2 {
        let now = start + HALF_OPEN_INTERVAL * probe;
        assert!(health.allows_attempt(now));
        assert_eq!(health.record_result(now, true), HealthTransition::Unchanged);
        assert!(!health.allows_attempt(now));
    }

    let recovered_at = start + HALF_OPEN_INTERVAL * 3;
    assert!(health.allows_attempt(recovered_at));
    assert_eq!(health.record_result(recovered_at, true), HealthTransition::Recovered);
    assert!(health.allows_attempt(recovered_at));
    assert!(!health.degraded);
}

#[test]
fn failed_half_open_probe_resets_recovery_progress() {
    let start = START;
    let mut health = TransportHealth::new(start);
    for _ in 0..3 {
        health.record_result(start, false);
    }

    let first_probe = start + HALF_OPEN_INTERVAL;
    assert!(health.allows_attempt(first_probe));
    health.record_result(first_probe, true);
    assert_eq!(health.consecutive_successes, 1);

    let second_probe = first_probe + HALF_OPEN_INTERVAL;
    assert!(health.allows_attempt(second_probe));
    health.record_result(second_probe, false);
    assert_eq!(health.consecutive_successes, 0);
    assert!(health.degraded);
}

#[test]
fn stale_transport_health_is_evicted() {
    let mut table = HealthTable::new();
    table.enter(health_key(9, ProxyTransport::Quic), START);
    table.cleanup(START + HEALTH_TTL - 1);
    assert_eq!(table.len(), 1);
    table.cleanup(START + HEALTH_TTL);
    assert!(table.get(&health_key(9, ProxyTransport::Quic)).is_none());
}

#[test]
fn pending_retransmit_is_merged_and_proxy_dispatch_preserves_context_and_tfo() {
    let mut selector = selector(&[ProxyTransport::Quic]);
    let to = route(9, true, false, 0);
    let context = context(true);
    let original = tcp_syn(100);
    let task = start(&mut selector, &original, context, to, START);
    assert_eq!(task.transport, ProxyTransport::Quic);
    assert_eq!(task.round.peer, 9);
    let again =
        selector.try_process_packet_from_nic(&node(), &original, context, false, to, START, 1);
    assert_eq!(again.action, NicPacketFilterAction::Consume);
    assert!(again.started.is_none());

    let (dispatch, key, _) =
        proxied(selector.on_prepared(task, PrepareOutcome::Ready { stream: 5 }, to, START));
    let mark = ProxyMark { transport: ProxyTransport::Quic, peer_id: 77 };
    assert_eq!(dispatch.mark, Some(mark));
    assert_eq!(dispatch.context, context);
    assert_eq!(dispatch.payload, original);
    assert_eq!(key.dst_peer_id, 9);
    assert_eq!(key.initial_sequence, 100);

    assert_eq!(
        filter(&mut selector, &original, context, to, START),
        (NicPacketFilterAction::StopAndSend, Some(mark))
    );
    assert_eq!(
        selector.prepared.claim_for_syn(flow(), ProxyTransport::Quic, 100, START),
        Some(5)
    );
}

#[test]
fn failed_proxy_prepare_dispatches_unmodified_native_syn() {
    let mut selector = selector(&[ProxyTransport::Quic]);
    let to = route(9, true, false, 0);
    let context = context(false);
    let original = tcp_syn(101);
    let task = start(&mut selector, &original, context, to, START);
    let dispatch = native(selector.on_prepared(
        task,
        PrepareOutcome::Failed(ProxyPrepareFailureClass::Transport),
        to,
        START,
    ));
    assert_eq!(dispatch.mark, None);
    assert_eq!(dispatch.payload, original);
    assert_eq!(dispatch.context, context);

    let statuses = selector.list_statuses(START).statuses;
    assert_eq!(statuses.len(), 1);
    assert_eq!(statuses[0].requested_transport, "quic,native");
    assert_eq!(statuses[0].selected_transport, "native");
    assert_eq!(statuses[0].fallback_reason, "quic_prepare_failed");
    assert_eq!(statuses[0].consecutive_failures, 1);
}

#[test]
fn local_bypass_skips_the_deferred_selector_without_consuming_the_marker() {
    let mut selector = selector(&[ProxyTransport::Quic]);
    let result = selector.try_process_packet_from_nic(
        &node(),
        &tcp_syn(102),
        context(false),
        true,
        route(9, true, true, 1),
        START,
        1,
    );
    assert_eq!(result.action, NicPacketFilterAction::Continue);
    assert!(result.started.is_none());
    assert!(selector.list_statuses(START).statuses.is_empty());
}

#[test]
fn cleanup_converts_expired_pending_flow_to_cached_native_decision() {
    let mut selector = selector(&[ProxyTransport::Quic]);
    let to = route(9, true, false, 0);
    let context = context(true);
    let original = tcp_syn(105);
    let (key, _) = parse_syn(&original).unwrap();
    let task = start(&mut selector, &original, context, to, START);

    let later = START + PENDING_TTL;
    let injected = selector.cleanup_flows(later);
    assert_eq!(injected.len(), 1);
    assert_eq!(injected[0].flow, key);
    assert_eq!(injected[0].dispatch.payload, original);
    assert_eq!(injected[0].dispatch.context, context);
    let i = selector.flows.position(&key).unwrap();
    assert_eq!(
        selector.flows.value_at(i).decision,
        FlowDecision::Native,
        "expired pending decision must remain cached"
    );

    assert_eq!(
        filter(&mut selector, &original, context, to, later),
        (NicPacketFilterAction::StopAndSend, None)
    );
    assert!(selector.cleanup_flows(later).is_empty());
    assert!(matches!(
        selector.on_prepared(task, PrepareOutcome::Ready { stream: 5 }, to, later),
        ResolveAction::Stop
    ));
}

#[test]
fn policy_failure_does_not_degrade_transport_health() {
    let mut selector = selector(&[ProxyTransport::Quic]);
    let to = route(9, true, false, 0);
    let task = start(&mut selector, &tcp_syn(104), context(false), to, START);
    native(selector.on_prepared(
        task,
        PrepareOutcome::Failed(ProxyPrepareFailureClass::Policy),
        to,
        START,
    ));
    let statuses = selector.list_statuses(START).statuses;
    assert_eq!(statuses[0].selected_transport, "native");
    assert_eq!(statuses[0].consecutive_failures, 0);
    assert!(!statuses[0].transport_degraded);
}

#[test]
fn quic_failure_falls_back_to_kcp_and_caches_kcp_decision() {
    let mut selector = selector(&[ProxyTransport::Kcp, ProxyTransport::Quic]);
    let to = route(9, true, true, 0);
    let context = context(false);
    let packet = tcp_syn(150);
    let quic = start(&mut selector, &packet, context, to, START);
    assert_eq!((quic.transport, quic.round.peer), (ProxyTransport::Quic, 9));
    let kcp = prepared(selector.on_prepared(
        quic,
        PrepareOutcome::Failed(ProxyPrepareFailureClass::Transport),
        to,
        START,
    ));
    assert_eq!((kcp.transport, kcp.round.peer), (ProxyTransport::Kcp, 9));
    let (dispatch, _, _) =
        proxied(selector.on_prepared(kcp, PrepareOutcome::Ready { stream: 5 }, to, START));
    let mark = ProxyMark { transport: ProxyTransport::Kcp, peer_id: 77 };
    assert_eq!(dispatch.mark, Some(mark));

    assert_eq!(
        filter(&mut selector, &packet, context, to, START),
        (NicPacketFilterAction::StopAndSend, Some(mark))
    );
    let statuses = selector.list_statuses(START).statuses;
    assert_eq!(statuses[0].requested_transport, "quic,kcp,native");
    assert_eq!(statuses[0].selected_transport, "kcp");
    assert_eq!(statuses[0].fallback_reason, "quic_prepare_failed");
}

#[test]
fn new_syn_sequence_cancels_old_generation_without_late_dispatch() {
    let mut selector = selector(&[ProxyTransport::Quic]);
    let to = route(9, true, false, 0);
    let context = context(true);
    let stale = start(&mut selector, &tcp_syn(200), context, to, START);
    let fresh = start(&mut selector, &tcp_syn(201), context, to, START);
    assert!(matches!(
        selector.on_prepared(stale, PrepareOutcome::Ready { stream: 5 }, to, START),
        ResolveAction::Stop
    ));
    let (dispatch, _, _) =
        proxied(selector.on_prepared(fresh, PrepareOutcome::Ready { stream: 6 }, to, START));
    assert_eq!(parse_syn(&dispatch.payload).unwrap().1, 201);
    let statuses = selector.list_statuses(START).statuses;
    assert_eq!(statuses.len(), 1);
    assert_eq!(statuses[0].selected_transport, "quic");
}

#[test]
fn route_change_after_ready_discards_stale_success() {
    let mut selector = selector(&[ProxyTransport::Quic]);
    let first = route(9, true, false, 0);
    let second = route(10, true, false, 0);
    let task = start(&mut selector, &tcp_syn(102), context(false), first, START);
    assert_eq!(task.round.peer, 9);
    let task =
        prepared(selector.on_prepared(task, PrepareOutcome::Ready { stream: 5 }, second, START));
    assert_eq!(task.round.peer, 10);
    proxied(selector.on_prepared(task, PrepareOutcome::Ready { stream: 6 }, second, START));

    let statuses = selector.list_statuses(START).statuses;
    assert_eq!(statuses[0].dst_peer_id, 10);
    assert_eq!(statuses[0].selected_transport, "quic");
    assert!(statuses[0].generation >= 2);
}

fn route_change_wins_over(class: ProxyPrepareFailureClass, sequence: u32) {
    let mut selector = selector(&[ProxyTransport::Quic]);
    let first = route(9, true, false, 1);
    let second = route(10, true, false, 1);
    let task = start(&mut selector, &tcp_syn(sequence), context(false), first, START);
    let task =
        prepared(selector.on_prepared(task, PrepareOutcome::Failed(class), second, START));
    proxied(selector.on_prepared(task, PrepareOutcome::Ready { stream: 6 }, second, START));

    let stale_health = selector.health.get(&health_key(9, ProxyTransport::Quic)).unwrap();
    assert_eq!(stale_health.consecutive_failures, 0);
    assert_eq!(stale_health.ambiguous_timeout_strikes, 0);
    let statuses = selector.list_statuses(START).statuses;
    assert_eq!(statuses[0].dst_peer_id, 10);
    assert_eq!(statuses[0].selected_transport, "quic");
}

#[test]
fn route_change_while_waiting_for_ready_wins_over_ambiguous_timeout() {
    route_change_wins_over(ProxyPrepareFailureClass::AmbiguousTimeout, 106);
}

#[test]
fn route_change_while_waiting_for_accepted_wins_over_transport_failure() {
    route_change_wins_over(ProxyPrepareFailureClass::Transport, 107);
}

#[test]
fn third_route_change_falls_back_to_native_on_current_peer() {
    let mut selector = selector(&[ProxyTransport::Quic]);
    let mut task =
        start(&mut selector, &tcp_syn(103), context(false), route(9, true, false, 0), START);
    let mut calls = vec![task.round.peer];
    for peer in [10, 11] {
        task = prepared(selector.on_prepared(
            task,
            PrepareOutcome::Ready { stream: 5 },
            route(peer, true, false, 0),
            START,
        ));
        calls.push(task.round.peer);
    }
    native(selector.on_prepared(
        task,
        PrepareOutcome::Ready { stream: 5 },
        route(12, true, false, 0),
        START,
    ));

    assert_eq!(calls, [9, 10, 11]);
    let statuses = selector.list_statuses(START).statuses;
    assert_eq!(statuses[0].selected_transport, "native");
    assert_eq!(statuses[0].fallback_reason, "route_restart_limit");
    assert_eq!(statuses[0].dst_peer_id, 12);
}

#[test]
fn flows_without_a_peer_or_a_transport_go_on_natively() {
    let mut lost = selector(&[ProxyTransport::Quic]);
    let to = route(9, true, false, 0);
    let task = start(&mut lost, &tcp_syn(1), context(false), to, START);
    native(lost.on_prepared(task, PrepareOutcome::Ready { stream: 5 }, None, START));
    assert_eq!(lost.list_statuses(START).statuses[0].fallback_reason, "route_missing");

    let mut slow = selector(&[ProxyTransport::Quic]);
    let task = start(&mut slow, &tcp_syn(1), context(false), to, START);
    native(slow.on_prepared(task, PrepareOutcome::TimedOut, to, START));
    assert_eq!(
        slow.list_statuses(START).statuses[0].fallback_reason,
        "quic_prepare_timeout"
    );

    let mut undelivered = selector(&[ProxyTransport::Quic]);
    let task = start(&mut undelivered, &tcp_syn(1), context(false), to, START);
    let (_, key, entry) =
        proxied(undelivered.on_prepared(task, PrepareOutcome::Ready { stream: 5 }, to, START));
    native(undelivered.on_dispatch_failed(key, entry, START));
    assert!(undelivered.prepared.is_empty());

    let mut bare = selector(&[ProxyTransport::Quic]);
    assert_eq!(
        filter(&mut bare, &tcp_syn(1), context(false), route(9, false, true, 0), START).0,
        NicPacketFilterAction::Continue
    );
}

#[test]
fn parses_only_initial_tcp_syn_and_preserves_flow_key() {
    let mut bytes = vec![0u8; 40];
    let mut ip = MutableIpv4Packet::new(&mut bytes).unwrap();
    ip.set_version(4);
    ip.set_header_length(5);
    ip.set_total_length(40);
    ip.set_next_level_protocol(IpNextHeaderProtocols::Tcp);
    ip.set_source("10.44.0.2".parse().unwrap());
    ip.set_destination("10.44.0.3".parse().unwrap());
    let mut tcp = MutableTcpPacket::new(ip.payload_mut()).unwrap();
    tcp.set_source(32000);
    tcp.set_destination(443);
    tcp.set_sequence(99);
    tcp.set_data_offset(5);
    tcp.set_flags(TcpFlags::SYN);

    assert_eq!(parse_syn(&bytes), Some((flow(), 99)));
    bytes[33] = TcpFlags::SYN | TcpFlags::ACK;
    assert_eq!(parse_syn(&bytes), None);
    bytes[33] = TcpFlags::SYN;
    bytes[9] = 17;
    assert_eq!(parse_syn(&bytes), None);
    assert_eq!(parse_syn(&bytes[..10]), None);
}

#[test]
fn fake_local_ipv4_uses_unicast_host_address() {
    let local = inet4("10.144.144.1/24");
    let fake = get_fake_local_ipv4(&local);

    assert_eq!(fake, bits4(10, 144, 144, 2));
    assert_ne!(fake, local.first);
    assert_ne!(fake, local.last);
    assert_ne!(fake, local.address);
}

#[test]
fn fake_local_ipv4_handles_small_subnets() {
    assert_eq!(get_fake_local_ipv4(&inet4("10.0.0.1/30")), bits4(10, 0, 0, 2));
    assert_eq!(get_fake_local_ipv4(&inet4("10.0.0.0/31")), bits4(10, 0, 0, 1));
    let slash_32 = inet4("10.0.0.1/32");
    assert_eq!(get_fake_local_ipv4(&slash_32), slash_32.address);
}

#[test]
fn native_nat_entry_wins_over_fake_local_fallback() {
    let local = inet4("10.144.144.3/24");
    let observed_dst = at4(10, 144, 144, 1, 28761);
    assert_eq!(observed_dst.ip(), IpAddress::V4(get_fake_local_ipv4(&local)));

    let target = at4(10, 1, 2, 4, 23457);
    let mut proxy = TcpProxy::new(1, NatDstTcpConnector);
    let native_entry =
        NatDstEntry::new(1, observed_dst, target, target, None, None, START, 1);
    let wrapped_src = SocketAddress::new(IpAddress::V4(local.address), observed_dst.port());
    let wrapped_entry =
        NatDstEntry::new(2, wrapped_src, target, target, None, None, START, 1);
    proxy.next_id = 3;
    proxy.syn_map.insert(observed_dst, native_entry);
    proxy.syn_map.insert(wrapped_src, wrapped_entry);

    let (entry, key, transformed) =
        proxy.find_nat_entry_for_nic(observed_dst, &local, true).unwrap();
    assert_eq!(entry, native_entry);
    assert_eq!(key, observed_dst);
    assert!(!transformed);
    let (entry, key) = proxy.find_syn_entry_for_accept(observed_dst, Some(&local)).unwrap();
    assert_eq!(entry, native_entry);
    assert_eq!(key, observed_dst);

    proxy.syn_map.remove(&observed_dst);
    let (entry, key, transformed) =
        proxy.find_nat_entry_for_nic(observed_dst, &local, true).unwrap();
    assert_eq!(entry, wrapped_entry);
    assert_eq!(key, wrapped_src);
    assert!(transformed);
    let (entry, key) = proxy.find_syn_entry_for_accept(observed_dst, Some(&local)).unwrap();
    assert_eq!(entry, wrapped_entry);
    assert_eq!(key, wrapped_src);
}

/// The sum of the words of some bytes, folded into sixteen bits.
fn folded_words(bytes: &[u8], start: u32) -> u32 {
    let mut sum = start;
    for word in bytes.chunks(2) {
        sum += (word[0] as u32) * 0x100 + word.get(1).copied().unwrap_or(0) as u32;
    }
    while sum >= 0x1_0000 {
        sum = sum / 0x1_0000 + sum % 0x1_0000;
    }
    sum
}

/// With its checksum in place, everything that is summed up comes to all ones.
fn checksums_hold(bytes: &[u8]) -> bool {
    let ip = Ipv4Packet::new(bytes).unwrap();
    let segment = ip.payload();
    let pseudo_header = folded_words(&bytes[12..20], 6 + segment.len() as u32);
    folded_words(&bytes[..20], 0) == 0xffff && folded_words(segment, pseudo_header) == 0xffff
}

#[test]
fn proxied_connections_are_readdressed_both_ways() {
    let mut ctx = node();
    ctx.set_ipv4(Some(inet4("10.44.0.3/24")));
    let mut proxy = TcpProxy::new(1, NatDstTcpConnector);
    proxy.listen_on(false, 5555);
    let mut store = PreparedProxyStore::new();
    let facts = PeerPacketFacts {
        header: PeerPacketHeader {
            is_data: true,
            no_proxy: false,
            exit_node: false,
            deferred_proxy: false,
        },
        cidr: CidrLookup { is_empty: false, real_dst: Some(bits4(10, 1, 2, 4)) },
        now: START,
        now_unix: 7,
    };
    let mut packet = tcp_syn(100);
    let result = proxy.try_handle_peer_packet(&ctx, &mut packet, facts, &mut store);
    assert_eq!(result, PeerPacketResult::Readdressed { opens_connection: true });
    let fields = easytier::packet::parse_tcp_packet(&packet).unwrap();
    assert_eq!(fields.dst(), at4(10, 44, 0, 3, 5555));
    assert!(checksums_hold(&packet));
    assert_eq!(packet[10..12], [0xa6, 0x6c]);
    assert_eq!(packet[36..38], [0x4d, 0x47]);

    let id = proxy.accept(&ctx, fields.src()).unwrap();
    assert!(proxy.is_tcp_proxy_connection(at4(10, 44, 0, 2, 32000)));
    let host = HostFacts {
        dst_is_local_phy_ip: false,
        is_protected_tcp_port: false,
        local_port_occupied: false,
    };
    assert_eq!(
        proxy.connect_to_nat_dst(&ctx, id, host),
        ConnectDecision::Connect {
            src: at4(10, 44, 0, 2, 32000),
            nat_dst: at4(10, 1, 2, 4, 443),
            claimed_stream: None,
        }
    );
    proxy.on_connected(id, true);
    let entries = proxy.list_proxy_entries();
    assert_eq!(entries.len(), 1);
    assert_eq!(entries[0].state, TcpProxyEntryState::Connected);
    assert_eq!(entries[0].dst, Some(at4(10, 1, 2, 4, 443)));

    let mut answer = tcp_syn(1);
    {
        let mut ip = MutableIpv4Packet::new(&mut answer).unwrap();
        ip.set_source("10.44.0.3".parse().unwrap());
        ip.set_destination("10.44.0.2".parse().unwrap());
        let mut tcp = MutableTcpPacket::new(ip.payload_mut()).unwrap();
        tcp.set_source(5555);
        tcp.set_destination(32000);
        tcp.set_flags(TcpFlags::SYN | TcpFlags::ACK);
    }
    assert!(proxy.try_process_packet_from_nic(&ctx, &mut answer, true).is_none());
    assert!(proxy.try_process_packet_from_nic(&ctx, &mut answer, false).is_some());
    let fields = easytier::packet::parse_tcp_packet(&answer).unwrap();
    assert_eq!(fields.src(), at4(10, 44, 0, 3, 443));
    assert_eq!(fields.dst(), at4(10, 44, 0, 2, 32000));
    assert!(checksums_hold(&answer));

    proxy.remove_entry_from_all_conn_map(id);
    assert!(proxy.list_proxy_entries().is_empty());
    assert_eq!(proxy.connect_to_nat_dst(&ctx, id, host), ConnectDecision::Gone);
}

#[test]
fn the_own_network_stack_is_used_where_there_is_no_other() {
    type Proxy = TcpProxy<NatDstTcpConnector>;
    assert!(!Proxy::uses_smoltcp(false, false, false));
    assert!(Proxy::uses_smoltcp(true, false, false));
    assert!(Proxy::uses_smoltcp(false, true, false));
    assert!(Proxy::uses_smoltcp(false, false, true));
    let mut proxy = TcpProxy::new(1, NatDstTcpConnector);
    proxy.listen_on(true, 5555);
    assert!(proxy.is_smoltcp_enabled());
    assert_eq!(proxy.get_local_port(), 8899);
    proxy.listen_on(false, 5555);
    assert!(!proxy.is_smoltcp_enabled());
    assert_eq!(proxy.get_local_port(), 5555);
}

#[test]
fn unanswered_requests_are_forgotten() {
    let mut ctx = node();
    ctx.set_ipv4(Some(inet4("10.44.0.3/24")));
    let mut proxy = TcpProxy::new(1, NatDstTcpConnector);
    assert!(proxy.is_smoltcp_enabled());
    proxy.enable_smoltcp = false;
    let src = at4(10, 44, 0, 2, 32000);
    let own = at4(10, 44, 0, 3, 22);
    proxy.next_id = 1;
    proxy.syn_map.insert(src, NatDstEntry::new(0, src, own, own, None, None, START, 1));
    proxy.clean_syn_map(START + SYN_ENTRY_TTL);
    assert!(proxy.is_tcp_proxy_connection(src));
    proxy.clean_syn_map(START + SYN_ENTRY_TTL + 1);
    assert!(proxy.accept(&ctx, src).is_none());
    assert_eq!(proxy.get_local_ip(&ctx), Some(bits4(10, 44, 0, 3)));
    proxy.enable_smoltcp = true;
    assert_eq!(proxy.get_local_ip(&ctx), Some(bits4(192, 88, 99, 254)));
    assert_eq!(
        proxy.get_local_inet(&ctx),
        Some(inet4("192.88.99.254/24"))
    );
}
