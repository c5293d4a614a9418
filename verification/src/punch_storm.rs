//! Silences hole punching towards a target that keeps failing while a live connection exists.
//!
//! Times are nanoseconds of a monotonic clock.
use vstd::prelude::*;

use crate::addr::SocketAddress;

verus! {

pub const FAILURE_LIMIT: u8 = 10;

pub const FAILURE_WINDOW: u64 = 10_000_000_000;

pub const SILENCE_DURATION: u64 = 60_000_000_000;

/// The address and port of a target. The flow label and the scope of an IPv6 target are not
/// part of it.
#[derive(Clone, Copy, Debug, PartialEq, Eq, Structural)]
pub struct PunchTargetKey {
    pub ip_high: u64,
    pub ip_low: u64,
    pub port: u16,
    pub is_ipv6: bool,
}

impl PunchTargetKey {
    pub open spec fn of(target: SocketAddress) -> PunchTargetKey {
        match target {
            SocketAddress::V4 { ipv4, port } => PunchTargetKey {
                ip_high: 0,
                ip_low: ipv4 as u64,
                port,
                is_ipv6: false,
            },
            SocketAddress::V6 { ipv6, port, .. } => PunchTargetKey {
                ip_high: (ipv6 / 0x1_0000_0000_0000_0000) as u64,
                ip_low: (ipv6 % 0x1_0000_0000_0000_0000) as u64,
                port,
                is_ipv6: true,
            },
        }
    }

    pub fn new(target: SocketAddress) -> (r: PunchTargetKey)
        ensures
            r == PunchTargetKey::of(target),
    {
        match target {
            SocketAddress::V4 { ipv4, port } => PunchTargetKey {
                ip_high: 0,
                ip_low: ipv4 as u64,
                port,
                is_ipv6: false,
            },
            SocketAddress::V6 { ipv6, port, .. } => PunchTargetKey {
                ip_high: (ipv6 / 0x1_0000_0000_0000_0000) as u64,
                ip_low: (ipv6 % 0x1_0000_0000_0000_0000) as u64,
                port,
                is_ipv6: true,
            },
        }
    }
}

/// Two targets have the same key exactly when their address and their port agree.
pub proof fn law_target_key_is_exact(a: SocketAddress, b: SocketAddress)
    ensures
        PunchTargetKey::of(a) == PunchTargetKey::of(b) <==> a.spec_ip() == b.spec_ip()
            && a.spec_port() == b.spec_port(),
{
}

/// What one burst of punch packets did: its target and how many attempts failed.
#[derive(Debug)]
pub struct PunchBurstTrace {
    pub target: Option<SocketAddress>,
    pub failed_attempts: u8,
    pub suppressed: bool,
}

impl Default for PunchBurstTrace {
    fn default() -> (r: Self)
        ensures
            r.target is None,
            r.failed_attempts == 0,
            !r.suppressed,
    {
        PunchBurstTrace { target: None, failed_attempts: 0, suppressed: false }
    }
}

/// `a + b`, but no more than one above the limit.
pub open spec fn bounded_failures(a: int, b: int) -> int {
    if a + b > FAILURE_LIMIT + 1 {
        FAILURE_LIMIT + 1
    } else {
        a + b
    }
}

impl PunchBurstTrace {
    pub open spec fn wf(self) -> bool {
        self.failed_attempts <= FAILURE_LIMIT + 1
    }

    /// The trace once it follows `target`: failures are kept for the same target only.
    pub open spec fn following(self, target: SocketAddress) -> PunchBurstTrace {
        PunchBurstTrace {
            target: Some(target),
            failed_attempts: if self.target is Some && self.target->0 != target {
                0
            } else {
                self.failed_attempts
            },
            suppressed: false,
        }
    }

    pub fn observe_target(&mut self, target: SocketAddress)
        ensures
            *final(self) == old(self).following(target),
            old(self).wf() ==> final(self).wf(),
    {
        if let Some(current) = self.target {
            if current != target {
                self.failed_attempts = 0;
            }
        }
        self.target = Some(target);
        self.suppressed = false;
    }

    pub fn add_attempts(&mut self, attempts: usize)
        requires
            old(self).wf(),
        ensures
            final(self).wf(),
            final(self).target == old(self).target,
            final(self).suppressed == old(self).suppressed,
            final(self).failed_attempts == bounded_failures(
                old(self).failed_attempts as int,
                attempts as int,
            ),
    {
        let most: u8 = FAILURE_LIMIT + 1;
        let added: u8 = if attempts > most as usize {
            most
        } else {
            attempts as u8
        };
        let total: u8 = self.failed_attempts + added;
        self.failed_attempts = if total > most {
            most
        } else {
            total
        };
    }

    pub fn failed_attempts(&self) -> (r: u8)
        ensures
            r == self.failed_attempts,
    {
        self.failed_attempts
    }

    pub fn target(&self) -> (r: Option<SocketAddress>)
        ensures
            r == self.target,
    {
        self.target
    }

    /// Starts a burst at `target`; tells whether it may be sent.
    pub fn begin_target(
        &mut self,
        guard: &mut PunchStormGuard,
        now: u64,
        has_live_peer: bool,
        target: SocketAddress,
    ) -> (r: bool)
        ensures
            *final(guard) == old(guard).after_asking(now, has_live_peer, target),
            r == !old(guard).silences(now, has_live_peer, target),
            *final(self) == (PunchBurstTrace {
                suppressed: !r,
                ..old(self).following(target)
            }),
    {
        self.observe_target(target);
        self.suppressed = guard.is_target_silenced(now, has_live_peer, target);
        !self.suppressed
    }

    pub fn is_suppressed(&self) -> (r: bool)
        ensures
            r == self.suppressed,
    {
        self.suppressed
    }
}

/// The failures towards the latest target, and until when it is silenced.
#[derive(Debug)]
pub struct PunchStormGuard {
    pub window_started_at: u64,
    pub block_until: Option<u64>,
    pub last_target_key: Option<PunchTargetKey>,
    pub failed_attempts: u8,
}

impl PunchStormGuard {
    pub open spec fn wf(self) -> bool {
        self.failed_attempts <= FAILURE_LIMIT + 1
    }

    /// A guard that knows of no target.
    pub open spec fn clean(now: u64) -> PunchStormGuard {
        PunchStormGuard {
            window_started_at: now,
            block_until: None,
            last_target_key: None,
            failed_attempts: 0,
        }
    }

    /// The target is silenced: it is the latest one, its silence has not run out, and a live
    /// connection makes punching unnecessary.
    pub open spec fn silences(self, now: u64, has_live_peer: bool, target: SocketAddress) -> bool {
        &&& has_live_peer
        &&& self.last_target_key == Some(PunchTargetKey::of(target))
        &&& self.block_until is Some
        &&& now < self.block_until->0
    }

    /// The guard after it was asked about `target`.
    pub open spec fn after_asking(
        self,
        now: u64,
        has_live_peer: bool,
        target: SocketAddress,
    ) -> PunchStormGuard {
        if has_live_peer && self.last_target_key == Some(PunchTargetKey::of(target)) && (
        self.block_until is None || now < self.block_until->0) {
            self
        } else {
            PunchStormGuard::clean(now)
        }
    }

    /// The failures that still count when a burst at `target` fails.
    pub open spec fn carried_failures(self, now: u64, target: SocketAddress) -> int {
        if self.last_target_key != Some(PunchTargetKey::of(target)) || now - self.window_started_at
            >= FAILURE_WINDOW {
            0
        } else {
            self.failed_attempts as int
        }
    }

    pub fn new(now: u64) -> (r: Self)
        ensures
            r == PunchStormGuard::clean(now),
            r.wf(),
    {
        PunchStormGuard {
            window_started_at: now,
            block_until: None,
            last_target_key: None,
            failed_attempts: 0,
        }
    }

    pub fn is_target_silenced(&mut self, now: u64, has_live_peer: bool, target: SocketAddress) -> (r:
        bool)
        ensures
            r == old(self).silences(now, has_live_peer, target),
            *final(self) == old(self).after_asking(now, has_live_peer, target),
            old(self).wf() ==> final(self).wf(),
    {
        if !has_live_peer {
            self.reset(now);
            return false;
        }
        let target_key = PunchTargetKey::new(target);
        let same = match self.last_target_key {
            Some(key) => key == target_key,
            None => false,
        };
        if !same {
            self.reset(now);
            return false;
        }
        match self.block_until {
            None => false,
            Some(block_until) => {
                if now < block_until {
                    true
                } else {
                    self.reset(now);
                    false
                }
            },
        }
    }

    pub fn record_success(&mut self, now: u64)
        ensures
            *final(self) == PunchStormGuard::clean(now),
            final(self).wf(),
    {
        self.reset(now);
    }

    pub fn failed_attempts_in_window(&self) -> (r: u8)
        ensures
            r == self.failed_attempts,
    {
        self.failed_attempts
    }

    /// Counts the failures of a burst; tells whether the target is silenced from now on.
    pub fn record_failed_burst(&mut self, now: u64, trace: &PunchBurstTrace) -> (r: bool)
        requires
            old(self).wf(),
            trace.wf(),
            now + SILENCE_DURATION <= u64::MAX,
        ensures
            final(self).wf(),
            (trace.target is None || trace.failed_attempts == 0) ==> !r && *final(self) == *old(
                self,
            ),
            (trace.target is Some && trace.failed_attempts != 0) ==> ({
                let target = trace.target->0;
                let same = old(self).last_target_key == Some(PunchTargetKey::of(target));
                let carried = old(self).carried_failures(now, target);
                let total = bounded_failures(carried, trace.failed_attempts as int);
                &&& r == (total > FAILURE_LIMIT)
                &&& final(self).last_target_key == Some(PunchTargetKey::of(target))
                &&& final(self).failed_attempts == total
                &&& final(self).window_started_at == (if same && now - old(self).window_started_at
                    < FAILURE_WINDOW {
                    old(self).window_started_at
                } else {
                    now
                })
                &&& final(self).block_until == (if r {
                    Some((now + SILENCE_DURATION) as u64)
                } else if same {
                    old(self).block_until
                } else {
                    None
                })
            }),
    {
        let target = match trace.target() {
            Some(target) => target,
            None => {
                return false;
            },
        };
        if trace.failed_attempts() == 0 {
            return false;
        }
        let target_key = PunchTargetKey::new(target);
        let same = match self.last_target_key {
            Some(key) => key == target_key,
            None => false,
        };
        if !same {
            self.reset(now);
        } else if now.saturating_sub(self.window_started_at) >= FAILURE_WINDOW {
            self.reset_window(now);
        }
        self.last_target_key = Some(target_key);
        let total: u8 = self.failed_attempts + trace.failed_attempts();
        self.failed_attempts = if total > FAILURE_LIMIT + 1 {
            FAILURE_LIMIT + 1
        } else {
            total
        };
        if self.failed_attempts <= FAILURE_LIMIT {
            return false;
        }
        self.block_until = Some(now + SILENCE_DURATION);
        true
    }

    fn reset_window(&mut self, now: u64)
        ensures
            final(self).window_started_at == now,
            final(self).failed_attempts == 0,
            final(self).block_until == old(self).block_until,
            final(self).last_target_key == old(self).last_target_key,
    {
        self.window_started_at = now;
        self.failed_attempts = 0;
    }

    fn reset(&mut self, now: u64)
        ensures
            *final(self) == PunchStormGuard::clean(now),
    {
        self.reset_window(now);
        self.block_until = None;
        self.last_target_key = None;
    }
}

/// While a target is silenced, asking about any other target, or asking without a live
/// connection, is answered with "not silenced", and nothing of the silence is left.
pub proof fn law_silence_is_for_one_target(
    guard: PunchStormGuard,
    now: u64,
    later: u64,
    silenced: SocketAddress,
    other: SocketAddress,
    has_live_peer: bool,
)
    requires
        guard.silences(now, true, silenced),
        !has_live_peer || PunchTargetKey::of(other) != PunchTargetKey::of(silenced),
    ensures
        !guard.silences(now, has_live_peer, other),
        !guard.after_asking(now, has_live_peer, other).silences(later, true, silenced),
{
}

/// A silence ends by itself: once its time has come the target may be punched, and it stays
/// allowed until new failures are recorded.
pub proof fn law_silence_expires(
    guard: PunchStormGuard,
    now: u64,
    later: u64,
    target: SocketAddress,
)
    requires
        guard.block_until is Some ==> now >= guard.block_until->0,
    ensures
        !guard.silences(now, true, target),
        !guard.after_asking(now, true, target).silences(later, true, target),
{
}

/// A target is silenced only while a live connection makes punching unnecessary, only if it is the latest
/// one, and only until its silence has run out. Asking about any other target, without such a connection
/// or after the silence forgets all failures.
pub proof fn law_when_a_target_is_silenced(
    guard: PunchStormGuard,
    now: u64,
    has_live_peer: bool,
    target: SocketAddress,
)
    ensures
        ({
            let latest = guard.last_target_key == Some(PunchTargetKey::of(target));
            let over = guard.block_until is Some && now >= guard.block_until->0;
            let after = guard.after_asking(now, has_live_peer, target);
            &&& guard.silences(now, has_live_peer, target) <==> has_live_peer && latest
                && guard.block_until is Some && !over
            &&& has_live_peer && latest && !over ==> after == guard
            &&& !has_live_peer || !latest || over ==> after.failed_attempts == 0 && after.block_until is None
                && after.last_target_key is None && after.window_started_at == now
            &&& guard.silences(now, has_live_peer, target) ==> after.silences(now, has_live_peer, target)
        }),
{
}

/// Failures count together if they are at the same target and within ten seconds of the first, and no more
/// than eleven are counted.
pub proof fn law_failures_that_count(guard: PunchStormGuard, now: u64, target: SocketAddress, a: int, b: int)
    requires
        0 <= a,
        0 <= b,
    ensures
        guard.last_target_key != Some(PunchTargetKey::of(target)) ==> guard.carried_failures(now, target)
            == 0,
        now >= guard.window_started_at + 10_000_000_000 ==> guard.carried_failures(now, target) == 0,
        guard.last_target_key == Some(PunchTargetKey::of(target)) && now < guard.window_started_at
            + 10_000_000_000 ==> guard.carried_failures(now, target) == guard.failed_attempts,
        a + b <= 11 ==> bounded_failures(a, b) == a + b,
        a + b > 11 ==> bounded_failures(a, b) == 11,
{
}

/// A trace that follows another target starts without failures, and one that follows the same target keeps
/// them.
pub proof fn law_traces_follow_one_target(trace: PunchBurstTrace, target: SocketAddress)
    ensures
        trace.following(target).target == Some(target),
        trace.target == Some(target) ==> trace.following(target).failed_attempts == trace.failed_attempts,
        trace.target is Some && trace.target->0 != target ==> trace.following(target).failed_attempts == 0,
        trace.target is None ==> trace.following(target).failed_attempts == trace.failed_attempts,
        !trace.following(target).suppressed,
{
}

/// A burst without failures changes nothing. Once there were more than ten failures at a target within ten
/// seconds, it is silenced for a minute; failures at another target, or longer ago, do not count.
pub proof fn law_failed_bursts_add_up(
    guard: &mut PunchStormGuard,
    now: u64,
    trace: &PunchBurstTrace,
    r: bool,
)
    requires
        old(guard).wf(),
        trace.wf(),
        now + 60_000_000_000 <= u64::MAX,
        call_ensures(PunchStormGuard::record_failed_burst, (guard, now, trace), r),
    ensures
        trace.target is None || trace.failed_attempts == 0 ==> !r && *final(guard) == *old(guard),
        trace.target is Some && trace.failed_attempts != 0 ==> ({
            let same = old(guard).last_target_key == Some(PunchTargetKey::of(trace.target->0));
            let recent = same && now < old(guard).window_started_at + 10_000_000_000;
            &&& recent ==> (r <==> old(guard).failed_attempts + trace.failed_attempts > 10)
            &&& !recent ==> (r <==> trace.failed_attempts > 10)
            &&& !recent ==> final(guard).window_started_at == now && final(guard).failed_attempts
                == trace.failed_attempts
            &&& recent ==> final(guard).window_started_at == old(guard).window_started_at
            &&& recent && !r ==> final(guard).failed_attempts == old(guard).failed_attempts
                + trace.failed_attempts
            &&& final(guard).last_target_key == Some(PunchTargetKey::of(trace.target->0))
            &&& r ==> final(guard).block_until is Some && final(guard).block_until->0 == now
                + 60_000_000_000
            &&& !r && same ==> final(guard).block_until == old(guard).block_until
            &&& !r && !same ==> final(guard).block_until is None
        }),
{
}

} // verus!
