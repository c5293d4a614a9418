//! Waiting times, endpoint cooldowns and the guard against punch storms.
use easytier::addr::{IpScheme, PeerId, SocketAddress};
use easytier::hole_punch;
use easytier::p2p_endpoint_retry::{
    P2pEndpointAttempt, P2pEndpointCooldown, P2pEndpointKey, P2pEndpointRetryTable,
};
use easytier::punch_storm::{PunchBurstTrace, PunchStormGuard};
use easytier::retry_backoff::{half_jitter_bounds, BackOff};

const SECOND: u64 = 1_000_000_000;

fn endpoint(a: u8, b: u8, c: u8, d: u8, port: u16) -> SocketAddress {
    SocketAddress::V4 { ipv4: u32::from_be_bytes([a, b, c, d]), port }
}

#[test]
fn sequence_saturates_and_reset_restarts_it() {
    let mut backoff = BackOff::new(vec![1_000, 10_000, 30_000]);
    assert_eq!(backoff.next_backoff(), 1_000);
    assert_eq!(backoff.next_backoff(), 10_000);
    assert!(backoff.is_saturated());
    assert_eq!(backoff.next_backoff(), 30_000);
    assert_eq!(backoff.next_backoff(), 30_000);
    backoff.reset();
    assert_eq!(backoff.next_backoff(), 1_000);
}

#[test]
fn shared_jitter_stays_within_direct_connector_bounds() {
    for _ in 0..128 {
        let delay = BackOff::with_half_jitter(10_000);
        assert!((5_000..15_000).contains(&delay));
    }
    assert_eq!(BackOff::with_half_jitter(1), 1);
}

#[test]
fn jittered_delays_differ() {
    let first = BackOff::with_half_jitter(1_000_000_000);
    assert!((0..16).any(|_| BackOff::with_half_jitter(1_000_000_000) != first));
    assert_eq!(half_jitter_bounds(10_000), Some((5_000, 15_000)));
    assert_eq!(half_jitter_bounds(3), Some((2, 4)));
    assert_eq!(half_jitter_bounds(0), None);
    let mut backoff = BackOff::new(vec![10, 20]);
    assert!((5..15).contains(&backoff.next_backoff_with_jitter()));
    assert!((10..30).contains(&backoff.next_backoff_with_jitter()));
}

#[test]
fn rollback_repeats_the_last_delay() {
    let mut backoff = BackOff::new(vec![1, 2, 3]);
    assert_eq!(backoff.next_backoff(), 1);
    backoff.rollback();
    assert_eq!(backoff.next_backoff(), 1);
    backoff.rollback();
    backoff.rollback();
    assert_eq!(backoff.next_backoff(), 1);

    let mut punch = hole_punch::BackOff::new(vec![10, 20]);
    assert_eq!(punch.next_backoff(), 10);
    assert_eq!(punch.next_backoff(), 20);
    assert_eq!(punch.next_backoff(), 20);
    punch.rollback();
    assert_eq!(punch.next_backoff(), 10);
}

fn key(peer_id: PeerId, scheme: IpScheme, octet: u8, port: u16) -> P2pEndpointKey {
    P2pEndpointKey::new(peer_id, scheme, endpoint(203, 0, 113, octet, port))
}

#[test]
fn endpoint_backoff_is_capped_at_ten_minutes() {
    let mut table = P2pEndpointRetryTable::with_limits(1, 8);
    let key = key(7, IpScheme::Udp, 1, 11010);
    let expected = [60_000, 120_000, 240_000, 480_000, 600_000, 600_000];
    let mut now = 1_000;

    for (index, expected_cooldown) in expected.into_iter().enumerate() {
        let attempt = table.begin_at(key, now).unwrap();
        let update = table.failed_at(attempt, now).unwrap();
        assert_eq!(update.stage(), (index + 1).min(5) as u8);
        assert_eq!(update.cooldown(), expected_cooldown);
        assert_eq!(
            table.begin_at(key, now + expected_cooldown - 1),
            Err(P2pEndpointCooldown {
                stage: (index + 1).min(5) as u8,
                remaining_millis: 1,
            })
        );
        now += expected_cooldown;
    }
}

#[test]
fn peer_scheme_ip_and_port_are_independent_keys() {
    let mut table = P2pEndpointRetryTable::with_limits(4, 8);
    let blocked = key(7, IpScheme::Udp, 1, 11010);
    let attempt = table.begin_at(blocked, 0).unwrap();
    table.failed_at(attempt, 0).unwrap();

    assert!(table.begin_at(blocked, 1).is_err());
    assert!(table.begin_at(key(8, IpScheme::Udp, 1, 11010), 1).is_ok());
    assert!(table.begin_at(key(7, IpScheme::Tcp, 1, 11010), 1).is_ok());
    assert!(table.begin_at(key(7, IpScheme::Udp, 2, 11010), 1).is_ok());
    assert!(table.begin_at(key(7, IpScheme::Udp, 1, 11011), 1).is_ok());
}

#[test]
fn success_clears_cooldown_and_old_failure_cannot_restore_it() {
    let mut table = P2pEndpointRetryTable::with_limits(1, 8);
    let key = key(7, IpScheme::Udp, 1, 11010);
    let first = table.begin_at(key, 0).unwrap();
    let concurrent = table.begin_at(key, 0).unwrap();
    let stale = table.begin_at(key, 0).unwrap();

    table.failed_at(first, 0).unwrap();
    table.succeeded(concurrent);
    assert!(table.begin_at(key, 1).is_ok());

    assert_eq!(table.failed_at(stale, 2), None);
    assert!(table.begin_at(key, 2).is_ok());
}

#[test]
fn concurrent_failures_with_one_revision_only_advance_once() {
    let mut table = P2pEndpointRetryTable::with_limits(1, 8);
    let key = key(7, IpScheme::Udp, 1, 11010);
    let first = table.begin_at(key, 0).unwrap();
    let second = table.begin_at(key, 0).unwrap();

    assert_eq!(table.failed_at(first, 0).unwrap().stage(), 1);
    assert_eq!(table.failed_at(second, 0), None);

    let next = table.begin_at(key, 60_000).unwrap();
    assert_eq!(table.failed_at(next, 60_000).unwrap().stage(), 2);
}

#[test]
fn settled_attempts_stay_settled_whatever_comes_between() {
    let mut table = P2pEndpointRetryTable::with_limits(1, 2);
    let endpoint = key(7, IpScheme::Udp, 1, 11010);
    let first = table.begin_at(endpoint, 0).unwrap();
    let second = table.begin_at(endpoint, 1).unwrap();
    assert_eq!(table.failed_at(first, 2).unwrap().stage(), 1);
    // The endpoint is forgotten for the sake of others, and asked for again.
    table.begin_at(key(8, IpScheme::Udp, 1, 11010), 3).unwrap();
    table.begin_at(key(9, IpScheme::Udp, 1, 11010), 4).unwrap();
    let third = table.begin_at(endpoint, 5).unwrap();
    assert_eq!(table.failed_at(second, 6), None);
    table.succeeded(third);
    assert_eq!(table.failed_at(third, 7), None);
    assert!(table.begin_at(endpoint, 8).is_ok());
    assert_eq!(table.failed_at(second, 9), None);
    assert_eq!(table.failed_at(third, 9), None);
}

#[test]
fn protocol_subattempts_share_one_revision_and_settle_once() {
    let mut table = P2pEndpointRetryTable::with_limits(1, 8);
    let key = key(7, IpScheme::Udp, 1, 11010);

    let cone_subattempt = table.begin_at(key, 0).unwrap();
    let symmetric_subattempt = table.begin_at(key, 1).unwrap();
    assert_eq!(
        cone_subattempt.observed_revision,
        symmetric_subattempt.observed_revision
    );
    assert_eq!(table.failed_at(symmetric_subattempt, 2).unwrap().stage(), 1);
    assert_eq!(table.failed_at(cone_subattempt, 3), None);
}

#[test]
fn abandoned_attempt_does_not_create_a_cooldown() {
    let mut table = P2pEndpointRetryTable::with_limits(1, 8);
    let key = key(7, IpScheme::Udp, 1, 11010);

    let _cancelled_or_no_work = table.begin_at(key, 0).unwrap();
    assert!(table.begin_at(key, 1).is_ok());
    assert!(table.begin_at(key, 60_000).is_ok());
}

#[test]
fn table_capacity_is_hard_and_oldest_entry_is_evicted() {
    let mut table = P2pEndpointRetryTable::with_limits(1, 2);
    let first_key = key(1, IpScheme::Udp, 1, 11010);
    let second_key = key(2, IpScheme::Udp, 2, 11010);
    let third_key = key(3, IpScheme::Udp, 3, 11010);

    table.begin_at(first_key, 1).unwrap();
    table.begin_at(second_key, 2).unwrap();
    table.begin_at(third_key, 3).unwrap();

    assert_eq!(table.len(), 2);
    assert!(table.entry(&first_key).is_none());
    assert!(table.entry(&second_key).is_some());
    assert!(table.entry(&third_key).is_some());
}

#[test]
fn disabled_table_is_stateless_and_reenable_starts_clean() {
    let mut table = P2pEndpointRetryTable::with_limits(1, 8);
    let key = key(7, IpScheme::Udp, 1, 11010);

    let attempt = table.begin_at(key, 0).unwrap();
    table.failed_at(attempt, 0).unwrap();
    assert!(table.begin_at(key, 1).is_err());

    table.set_disabled(true);
    assert_eq!(table.len(), 0);
    let bypassed: P2pEndpointAttempt = table.begin_at(key, 1).unwrap();
    assert_eq!(table.failed_at(bypassed, 1), None);
    assert!(table.begin_at(key, 1).is_ok());
    assert_eq!(table.len(), 0);

    table.set_disabled(false);
    let fresh = table.begin_at(key, 1).unwrap();
    assert_eq!(table.failed_at(fresh, 1).unwrap().stage(), 1);
    assert!(table.begin_at(key, 2).is_err());
}

fn failed_trace(target: SocketAddress, attempts: usize) -> PunchBurstTrace {
    let mut trace = PunchBurstTrace::default();
    trace.observe_target(target);
    trace.add_attempts(attempts);
    trace
}

#[test]
fn failed_attempt_threshold_silences_only_the_next_burst() {
    let now = 1_000 * SECOND;
    let mut guard = PunchStormGuard::new(now);
    let target = endpoint(192, 0, 2, 1, 11010);

    assert!(!guard.record_failed_burst(now, &failed_trace(target, 10)));
    assert!(!guard.is_target_silenced(now, true, target));

    let trigger = now + SECOND;
    assert!(guard.record_failed_burst(trigger, &failed_trace(target, 1)));
    assert!(guard.is_target_silenced(trigger, true, target));
    assert!(!guard.is_target_silenced(trigger + 60 * SECOND, true, target));
}

#[test]
fn failed_attempt_count_saturates_and_endpoint_churn_keeps_fixed_state() {
    let now = 1_000 * SECOND;
    let mut guard = PunchStormGuard::new(now);
    let first = endpoint(192, 0, 2, 1, 11010);
    let second = endpoint(198, 51, 100, 2, 65000);

    assert!(guard.record_failed_burst(now, &failed_trace(first, usize::MAX)));
    assert!(!guard.record_failed_burst(now, &failed_trace(second, 1)));
    assert!(!guard.is_target_silenced(now, true, second));
    assert!(guard.record_failed_burst(now, &failed_trace(second, usize::MAX)));
    assert!(size_of::<PunchStormGuard>() <= 64);
}

#[test]
fn expired_window_discards_old_failures() {
    let now = 1_000 * SECOND;
    let mut guard = PunchStormGuard::new(now);
    let target = endpoint(192, 0, 2, 1, 11010);

    assert!(!guard.record_failed_burst(now, &failed_trace(target, 10)));
    assert!(!guard.record_failed_burst(now + 10 * SECOND, &failed_trace(target, 1)));
    assert!(!guard.is_target_silenced(now + 10 * SECOND, true, target));
}

#[test]
fn a_new_target_never_inherits_the_old_targets_failures() {
    let now = 1_000 * SECOND;
    let mut guard = PunchStormGuard::new(now);
    let old = endpoint(192, 0, 2, 1, 11010);
    let new = endpoint(198, 51, 100, 2, 11010);

    assert!(guard.record_failed_burst(now, &failed_trace(old, 11)));
    let mut trace = PunchBurstTrace::default();
    assert!(!trace.begin_target(&mut guard, now + SECOND / 2, true, old));
    assert!(trace.is_suppressed());
    assert!(trace.begin_target(&mut guard, now + SECOND / 2, true, new));
    assert!(!trace.is_suppressed());
    assert!(!guard.record_failed_burst(now + SECOND, &failed_trace(new, 1)));
    assert!(!guard.is_target_silenced(now + SECOND, true, new));

    let mut trace = PunchBurstTrace::default();
    trace.observe_target(old);
    trace.add_attempts(10);
    trace.observe_target(new);
    trace.add_attempts(1);
    assert_eq!(trace.failed_attempts(), 1);
}

#[test]
fn success_and_loss_of_live_peer_reset_the_guard() {
    let now = 1_000 * SECOND;
    let mut guard = PunchStormGuard::new(now);
    let target = endpoint(192, 0, 2, 1, 11010);
    assert!(guard.record_failed_burst(now, &failed_trace(target, 11)));

    guard.record_success(now + SECOND);
    assert!(!guard.is_target_silenced(now + SECOND, true, target));

    assert!(guard.record_failed_burst(now + 2 * SECOND, &failed_trace(target, 11)));
    assert!(!guard.is_target_silenced(now + 2 * SECOND, false, target));
    assert!(!guard.is_target_silenced(now + 2 * SECOND, true, target));
}

#[test]
fn empty_or_cancelled_burst_does_not_change_the_guard() {
    let now = 1_000 * SECOND;
    let mut guard = PunchStormGuard::new(now);
    let trace = PunchBurstTrace::default();

    assert!(!guard.record_failed_burst(now, &trace));
    assert!(!guard.is_target_silenced(now, true, endpoint(192, 0, 2, 1, 11010)));
}
