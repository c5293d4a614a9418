//! How well the proxy transports to each peer have been doing. A transport that keeps failing is
//! left alone, tried now and then, and used again once it has worked several times in a row.
//! Times are in nanoseconds.
use vstd::prelude::*;

use crate::addr::PeerId;
use crate::indexed_table::{IndexKey, IndexedTable};
use crate::keyed_table::TableKey;

verus! {

/// The time between two tries of a degraded transport.
pub const HALF_OPEN_INTERVAL: u64 = 30_000_000_000;

/// The number of transports that are remembered.
pub const MAX_HEALTH_ENTRIES: usize = 4096;

/// The time after which a transport that was not used is forgotten.
pub const HEALTH_TTL: u64 = 600_000_000_000;

/// A transport that wraps proxied flows.
#[derive(Clone, Copy, Debug, PartialEq, Eq, Structural)]
pub enum ProxyTransport {
    Quic,
    Kcp,
}

impl ProxyTransport {
    /// The number that stands for the transport in an index.
    pub open spec fn word(self) -> u64 {
        match self {
            ProxyTransport::Quic => 1,
            ProxyTransport::Kcp => 2,
        }
    }

    pub fn to_word(self) -> (r: u64)
        ensures
            r == self.word(),
    {
        match self {
            ProxyTransport::Quic => 1,
            ProxyTransport::Kcp => 2,
        }
    }
}

#[derive(Clone, Copy, Debug, PartialEq, Eq, Structural)]
pub enum HealthTransition {
    Unchanged,
    Degraded,
    Recovered,
}

/// How a transport to a peer has been doing.
#[derive(Clone, Copy, Debug, PartialEq, Eq, Structural)]
pub struct TransportHealth {
    pub consecutive_failures: u8,
    pub consecutive_successes: u8,
    pub ambiguous_timeout_strikes: u32,
    pub degraded: bool,
    pub last_probe: Option<u64>,
    pub updated_at: u64,
}

/// The time from `since` to `now`, zero if `since` lies ahead.
pub open spec fn time_since(now: u64, since: u64) -> int {
    if now >= since {
        now - since
    } else {
        0
    }
}

pub open spec fn counted_up(count: u8) -> u8 {
    if count == u8::MAX {
        u8::MAX
    } else {
        (count + 1) as u8
    }
}

pub open spec fn strikes_up(count: u32) -> u32 {
    if count == u32::MAX {
        u32::MAX
    } else {
        (count + 1) as u32
    }
}

impl TransportHealth {
    /// A transport of which nothing is known.
    pub open spec fn fresh(now: u64) -> Self {
        TransportHealth {
            consecutive_failures: 0,
            consecutive_successes: 0,
            ambiguous_timeout_strikes: 0,
            degraded: false,
            last_probe: None,
            updated_at: now,
        }
    }

    pub fn new(now: u64) -> (r: Self)
        ensures
            r == Self::fresh(now),
    {
        TransportHealth {
            consecutive_failures: 0,
            consecutive_successes: 0,
            ambiguous_timeout_strikes: 0,
            degraded: false,
            last_probe: None,
            updated_at: now,
        }
    }

    /// The transport may be tried.
    pub open spec fn allows(self, now: u64) -> bool {
        !self.degraded || self.last_probe is None || time_since(now, self.last_probe->0)
            >= HALF_OPEN_INTERVAL
    }

    /// The health after it was asked whether the transport may be tried.
    pub open spec fn asked(self, now: u64) -> Self {
        TransportHealth {
            last_probe: if self.degraded && self.allows(now) {
                Some(now)
            } else {
                self.last_probe
            },
            updated_at: now,
            ..self
        }
    }

    /// Tells whether the transport may be tried. For a degraded one that counts as a try.
    pub fn allows_attempt(&mut self, now: u64) -> (r: bool)
        ensures
            r == old(self).allows(now),
            *final(self) == old(self).asked(now),
    {
        self.updated_at = now;
        if !self.degraded {
            return true;
        }
        let due = match self.last_probe {
            None => true,
            Some(last) => now.saturating_sub(last) >= HALF_OPEN_INTERVAL,
        };
        if due {
            self.last_probe = Some(now);
        }
        due
    }

    /// The health after the transport worked.
    pub open spec fn succeeded(self, now: u64) -> Self {
        let base = TransportHealth {
            consecutive_failures: 0,
            ambiguous_timeout_strikes: 0,
            updated_at: now,
            ..self
        };
        if !self.degraded {
            base
        } else if counted_up(self.consecutive_successes) >= 3 {
            TransportHealth { degraded: false, consecutive_successes: 0, last_probe: None, ..base }
        } else {
            TransportHealth {
                consecutive_successes: counted_up(self.consecutive_successes),
                ..base
            }
        }
    }

    /// The health after a failure that is the transport's own.
    pub open spec fn failed_hard(self, now: u64) -> Self {
        let base = TransportHealth {
            consecutive_successes: 0,
            consecutive_failures: counted_up(self.consecutive_failures),
            updated_at: now,
            ..self
        };
        if base.consecutive_failures >= 3 && !self.degraded {
            TransportHealth { degraded: true, last_probe: Some(now), ..base }
        } else {
            base
        }
    }

    /// The health after the transport failed plainly.
    pub open spec fn failed(self, now: u64) -> Self {
        TransportHealth { ambiguous_timeout_strikes: 0, ..self }.failed_hard(now)
    }

    /// The health after a timeout of which it is not clear whose fault it was. Two of them in a
    /// row count as a failure.
    pub open spec fn timed_out(self, now: u64) -> Self {
        if strikes_up(self.ambiguous_timeout_strikes) < 2 {
            TransportHealth {
                consecutive_successes: 0,
                ambiguous_timeout_strikes: strikes_up(self.ambiguous_timeout_strikes),
                updated_at: now,
                ..self
            }
        } else {
            TransportHealth { ambiguous_timeout_strikes: 0, ..self }.failed_hard(now)
        }
    }

    /// The health after something failed that is not the transport's.
    pub open spec fn cleared(self, now: u64) -> Self {
        TransportHealth { ambiguous_timeout_strikes: 0, updated_at: now, ..self }
    }

    /// What changed between two states of the health.
    pub open spec fn transition(self, after: Self) -> HealthTransition {
        if !self.degraded && after.degraded {
            HealthTransition::Degraded
        } else if self.degraded && !after.degraded {
            HealthTransition::Recovered
        } else {
            HealthTransition::Unchanged
        }
    }

    pub fn record_result(&mut self, now: u64, success: bool) -> (r: HealthTransition)
        ensures
            *final(self) == (if success {
                old(self).succeeded(now)
            } else {
                old(self).failed(now)
            }),
            r == old(self).transition(*final(self)),
    {
        self.updated_at = now;
        if success {
            self.consecutive_failures = 0;
            self.ambiguous_timeout_strikes = 0;
            if self.degraded {
                self.consecutive_successes = self.consecutive_successes.saturating_add(1);
                if self.consecutive_successes >= 3 {
                    self.degraded = false;
                    self.consecutive_successes = 0;
                    self.last_probe = None;
                    return HealthTransition::Recovered;
                }
            }
            return HealthTransition::Unchanged;
        }
        self.ambiguous_timeout_strikes = 0;
        self.record_hard_failure(now)
    }

    pub fn record_hard_failure(&mut self, now: u64) -> (r: HealthTransition)
        ensures
            *final(self) == old(self).failed_hard(now),
            r == old(self).transition(*final(self)),
    {
        self.updated_at = now;
        self.consecutive_successes = 0;
        self.consecutive_failures = self.consecutive_failures.saturating_add(1);
        if self.consecutive_failures >= 3 && !self.degraded {
            self.degraded = true;
            self.last_probe = Some(now);
            return HealthTransition::Degraded;
        }
        HealthTransition::Unchanged
    }

    pub fn record_ambiguous_timeout(&mut self, now: u64) -> (r: HealthTransition)
        ensures
            *final(self) == old(self).timed_out(now),
            r == old(self).transition(*final(self)),
    {
        self.updated_at = now;
        self.consecutive_successes = 0;
        self.ambiguous_timeout_strikes = self.ambiguous_timeout_strikes.saturating_add(1);
        if self.ambiguous_timeout_strikes < 2 {
            return HealthTransition::Unchanged;
        }
        self.ambiguous_timeout_strikes = 0;
        self.record_hard_failure(now)
    }

    pub fn clear_ambiguous_timeout(&mut self, now: u64)
        ensures
            *final(self) == old(self).cleared(now),
    {
        self.updated_at = now;
        self.ambiguous_timeout_strikes = 0;
    }
}

/// Three failures in a row degrade a transport; a degraded one is left alone until the interval
/// has passed, and a failed try sets back what it had recovered.
pub proof fn law_repeated_failures_degrade(health: TransportHealth, t1: u64, t2: u64, t3: u64, now: u64)
    requires
        !health.degraded,
        health.consecutive_failures == 0,
    ensures
        !health.failed(t1).degraded,
        !health.failed(t1).failed(t2).degraded,
        health.failed(t1).failed(t2).failed(t3).degraded,
        health.failed(t1).failed(t2).failed(t3).allows(now) <==> time_since(now, t3)
            >= HALF_OPEN_INTERVAL,
{
}

/// Three successes in a row bring a degraded transport back, fewer do not, and a failure between
/// them starts the count anew.
pub proof fn law_repeated_successes_recover(health: TransportHealth, t1: u64, t2: u64, t3: u64)
    requires
        health.degraded,
        health.consecutive_successes == 0,
    ensures
        health.succeeded(t1).degraded,
        health.succeeded(t1).succeeded(t2).degraded,
        !health.succeeded(t1).succeeded(t2).succeeded(t3).degraded,
        health.succeeded(t1).succeeded(t2).failed(t3).degraded,
        health.succeeded(t1).succeeded(t2).failed(t3).consecutive_successes == 0,
{
}

/// A single ambiguous timeout is no failure, two in a row are one, and anything clear between them
/// starts the count anew.
pub proof fn law_ambiguous_timeouts_are_soft(health: TransportHealth, t1: u64, t2: u64, t3: u64)
    requires
        health.ambiguous_timeout_strikes == 0,
        health.consecutive_failures < u8::MAX,
    ensures
        health.timed_out(t1).consecutive_failures == health.consecutive_failures,
        health.timed_out(t1).degraded == health.degraded,
        health.timed_out(t1).timed_out(t2).consecutive_failures == health.consecutive_failures + 1,
        health.timed_out(t1).cleared(t2).timed_out(t3).consecutive_failures
            == health.consecutive_failures,
{
}

/// The transport of a peer.
#[derive(Clone, Copy, Debug, PartialEq, Eq, Structural)]
pub struct HealthKey {
    pub peer: PeerId,
    pub transport: ProxyTransport,
}

impl TableKey for HealthKey {
    fn same(&self, other: &Self) -> (r: bool) {
        *self == *other
    }
}

impl IndexKey for HealthKey {
    open spec fn words(self) -> Seq<u64> {
        seq![self.peer as u64, self.transport.word()]
    }

    fn to_words(&self) -> (r: Vec<u64>) {
        let mut r: Vec<u64> = Vec::new();
        r.push(self.peer as u64);
        r.push(self.transport.to_word());
        assert(r@ =~= self.words());
        r
    }

    proof fn lemma_words(a: Self, b: Self) {
        if a.words() == b.words() {
            let s = a.words();
            let t = b.words();
            assert(s[0] == t[0] && s[1] == t[1]);
        }
    }
}

pub type HealthEntries = Map<HealthKey, TransportHealth>;

/// The entries without those that have not been used for long.
pub open spec fn unexpired(entries: HealthEntries, now: u64) -> HealthEntries {
    entries.restrict(
        Set::new(
            |key: HealthKey|
                entries.contains_key(key) && time_since(now, entries[key].updated_at) < HEALTH_TTL,
        ),
    )
}

/// `key` is an entry that was updated no later than any other.
pub open spec fn least_recent(entries: HealthEntries, key: HealthKey) -> bool {
    entries.contains_key(key) && forall|other: HealthKey| #[trigger]
        entries.contains_key(other) ==> entries[key].updated_at <= entries[other].updated_at
}

/// `after` is what is left of `before` once room for one entry has been made: expired entries go,
/// and if that is not enough, one that was updated least recently.
pub open spec fn tidied(before: HealthEntries, now: u64, after: HealthEntries) -> bool {
    let live = unexpired(before, now);
    if live.len() < MAX_HEALTH_ENTRIES {
        after == live
    } else {
        exists|key: HealthKey| #[trigger] least_recent(live, key) && after == live.remove(key)
    }
}

/// `after` holds an entry for `key`: the one of `before`, or a fresh one for which room was made.
pub open spec fn entered(
    before: HealthEntries,
    key: HealthKey,
    now: u64,
    after: HealthEntries,
) -> bool {
    if before.contains_key(key) {
        after == before
    } else {
        exists|room: HealthEntries| #[trigger]
            tidied(before, now, room) && after == room.insert(key, TransportHealth::fresh(now))
    }
}

/// The health of the transports of all peers.
pub struct HealthTable {
    entries: IndexedTable<HealthKey, TransportHealth>,
}

impl View for HealthTable {
    type V = HealthEntries;

    closed spec fn view(&self) -> HealthEntries {
        self.entries@
    }
}

impl HealthTable {
    pub closed spec fn wf(&self) -> bool {
        self.entries.wf() && self.entries@.len() <= MAX_HEALTH_ENTRIES
    }

    /// No more entries are held than the limit allows.
    pub proof fn law_health_is_bounded(&self)
        requires
            self.wf(),
        ensures
            self@.dom().finite(),
            self@.len() <= MAX_HEALTH_ENTRIES,
    {
        self.entries.lemma_view();
    }

    pub fn new() -> (r: Self)
        ensures
            r.wf(),
            r@ == HealthEntries::empty(),
    {
        let entries = IndexedTable::new();
        proof {
            entries.lemma_view();
        }
        HealthTable { entries }
    }

    pub fn len(&self) -> (r: usize)
        requires
            self.wf(),
        ensures
            r == self@.len(),
    {
        self.entries.len()
    }

    pub fn get(&self, key: &HealthKey) -> (r: Option<TransportHealth>)
        requires
            self.wf(),
        ensures
            r == (if self@.contains_key(*key) {
                Some(self@[*key])
            } else {
                None
            }),
    {
        self.entries.get(key)
    }

    /// Forgets what has not been used for long.
    fn drop_expired(&mut self, now: u64)
        requires
            old(self).wf(),
        ensures
            final(self).wf(),
            final(self)@ == unexpired(old(self)@, now),
    {
        let ghost before = self@;
        let mut i: usize = self.entries.len();
        proof {
            self.entries.lemma_view();
        }
        while i > 0
            invariant
                self.entries.wf(),
                self.entries@.len() <= MAX_HEALTH_ENTRIES,
                i <= self.entries.pairs().len(),
                before.dom().finite(),
                self@ == self.entries@,
                forall|k: HealthKey| #[trigger]
                    self@.contains_key(k) ==> before.contains_key(k) && self@[k] == before[k],
                forall|k: HealthKey| #[trigger]
                    before.contains_key(k) && !self@.contains_key(k) ==> time_since(
                        now,
                        before[k].updated_at,
                    ) >= HEALTH_TTL,
                forall|j: int|
                    i <= j < self.entries.pairs().len() ==> time_since(
                        now,
                        (#[trigger] self.entries.pairs()[j]).1.updated_at,
                    ) < HEALTH_TTL,
            decreases i,
        {
            i -= 1;
            let pair = self.entries.at(i);
            if now.saturating_sub(pair.1.updated_at) >= HEALTH_TTL {
                let ghost earlier = *self;
                proof {
                    self.entries.lemma_view();
                }
                let removed = self.entries.remove_at(i);
                proof {
                    self.entries.lemma_view();
                    assert forall|j: int| i <= j < self.entries.pairs().len() implies time_since(
                        now,
                        (#[trigger] self.entries.pairs()[j]).1.updated_at,
                    ) < HEALTH_TTL by {
                        assert(self.entries.pairs()[j] == earlier.entries.pairs()[j + 1]);
                    }
                }
            }
        }
        proof {
            self.entries.lemma_view();
            assert forall|k: HealthKey| #[trigger] self@.contains_key(k) implies time_since(
                now,
                self@[k].updated_at,
            ) < HEALTH_TTL by {
                let j = choose|j: int|
                    0 <= j < self.entries.pairs().len() && (#[trigger] self.entries.pairs()[j]).0
                        == k;
                assert(self@[k] == self.entries.pairs()[j].1);
            }
            assert(self@ =~= unexpired(before, now));
        }
    }

    /// The place of an entry that was updated least recently.
    fn oldest(&self) -> (r: usize)
        requires
            self.wf(),
            self.entries.pairs().len() > 0,
        ensures
            r < self.entries.pairs().len(),
            least_recent(self@, self.entries.pairs()[r as int].0),
    {
        let mut best: usize = 0;
        let mut i: usize = 1;
        while i < self.entries.len()
            invariant
                self.wf(),
                best < i <= self.entries.pairs().len(),
                forall|j: int|
                    0 <= j < i ==> self.entries.pairs()[best as int].1.updated_at <= (
                    #[trigger] self.entries.pairs()[j]).1.updated_at,
            decreases self.entries.pairs().len() - i,
        {
            if self.entries.at(i).1.updated_at < self.entries.at(best).1.updated_at {
                best = i;
            }
            i += 1;
        }
        proof {
            self.entries.lemma_view();
            let key = self.entries.pairs()[best as int].0;
            assert forall|other: HealthKey| #[trigger] self@.contains_key(other) implies self@[key].updated_at
                <= self@[other].updated_at by {
                let j = choose|j: int|
                    0 <= j < self.entries.pairs().len() && (#[trigger] self.entries.pairs()[j]).0
                        == other;
                assert(self@[other] == self.entries.pairs()[j].1);
            }
        }
        best
    }

    /// Makes room for an entry.
    pub fn cleanup(&mut self, now: u64)
        requires
            old(self).wf(),
        ensures
            final(self).wf(),
            tidied(old(self)@, now, final(self)@),
            final(self)@.len() < MAX_HEALTH_ENTRIES,
    {
        self.drop_expired(now);
        if self.entries.len() < MAX_HEALTH_ENTRIES {
            return;
        }
        proof {
            self.entries.lemma_view();
        }
        let place = self.oldest();
        let ghost live = self@;
        let removed = self.entries.remove_at(place);
        proof {
            self.entries.lemma_view();
            assert(least_recent(live, removed.0));
        }
    }

    /// Sees to it that there is an entry for `key`.
    pub fn enter(&mut self, key: HealthKey, now: u64)
        requires
            old(self).wf(),
        ensures
            final(self).wf(),
            entered(old(self)@, key, now, final(self)@),
            final(self)@.contains_key(key),
    {
        if self.entries.contains_key(&key) {
            return;
        }
        self.cleanup(now);
        let ghost room = self@;
        proof {
            self.entries.lemma_view();
            assert(tidied(old(self)@, now, room));
        }
        self.entries.insert(key, TransportHealth::new(now));
        proof {
            self.entries.lemma_view();
        }
    }

    fn store(&mut self, key: HealthKey, health: TransportHealth)
        requires
            old(self).wf(),
            old(self)@.contains_key(key),
        ensures
            final(self).wf(),
            final(self)@ == old(self)@.insert(key, health),
    {
        proof {
            self.entries.lemma_view();
        }
        self.entries.insert(key, health);
        proof {
            self.entries.lemma_view();
        }
    }

    /// Tells whether a transport may be tried.
    pub fn health_allows(&mut self, key: HealthKey, now: u64) -> (r: bool)
        requires
            old(self).wf(),
        ensures
            final(self).wf(),
            asked_of(old(self)@, key, now, r, final(self)@),
    {
        self.enter(key, now);
        let ghost with = self@;
        let mut health = match self.entries.get(&key) {
            Some(health) => health,
            None => TransportHealth::new(now),
        };
        let allowed = health.allows_attempt(now);
        self.store(key, health);
        proof {
            assert(entered(old(self)@, key, now, with));
        }
        allowed
    }

    pub fn record_prepare_result(&mut self, key: HealthKey, success: bool, now: u64) -> (r:
        HealthTransition)
        requires
            old(self).wf(),
        ensures
            final(self).wf(),
            recorded_of(
                old(self)@,
                key,
                now,
                if success {
                    HealthEvent::Success
                } else {
                    HealthEvent::Failure
                },
                r,
                final(self)@,
            ),
    {
        self.enter(key, now);
        let ghost with = self@;
        let mut health = match self.entries.get(&key) {
            Some(health) => health,
            None => TransportHealth::new(now),
        };
        let transition = health.record_result(now, success);
        self.store(key, health);
        proof {
            assert(entered(old(self)@, key, now, with));
        }
        transition
    }

    pub fn record_ambiguous_timeout(&mut self, key: HealthKey, now: u64) -> (r: HealthTransition)
        requires
            old(self).wf(),
        ensures
            final(self).wf(),
            recorded_of(old(self)@, key, now, HealthEvent::AmbiguousTimeout, r, final(self)@),
    {
        self.enter(key, now);
        let ghost with = self@;
        let mut health = match self.entries.get(&key) {
            Some(health) => health,
            None => TransportHealth::new(now),
        };
        let transition = health.record_ambiguous_timeout(now);
        self.store(key, health);
        proof {
            assert(entered(old(self)@, key, now, with));
        }
        transition
    }

    pub fn clear_ambiguous_timeout(&mut self, key: HealthKey, now: u64)
        requires
            old(self).wf(),
        ensures
            final(self).wf(),
            final(self)@ == cleared_of(old(self)@, key, now),
    {
        match self.entries.get(&key) {
            None => {},
            Some(found) => {
                let mut health = found;
                health.clear_ambiguous_timeout(now);
                self.store(key, health);
            },
        }
    }
}

/// What a transport did.
#[derive(Clone, Copy, Debug, PartialEq, Eq, Structural)]
pub enum HealthEvent {
    Success,
    Failure,
    AmbiguousTimeout,
}

impl TransportHealth {
    pub open spec fn after(self, event: HealthEvent, now: u64) -> Self {
        match event {
            HealthEvent::Success => self.succeeded(now),
            HealthEvent::Failure => self.failed(now),
            HealthEvent::AmbiguousTimeout => self.timed_out(now),
        }
    }
}

/// `after` are the entries after it was asked whether a transport may be tried.
pub open spec fn asked_of(
    before: HealthEntries,
    key: HealthKey,
    now: u64,
    allowed: bool,
    after: HealthEntries,
) -> bool {
    exists|with: HealthEntries| #[trigger]
        entered(before, key, now, with) && allowed == with[key].allows(now) && after == with.insert(
            key,
            with[key].asked(now),
        )
}

/// `after` are the entries after a transport did something.
pub open spec fn recorded_of(
    before: HealthEntries,
    key: HealthKey,
    now: u64,
    event: HealthEvent,
    transition: HealthTransition,
    after: HealthEntries,
) -> bool {
    exists|with: HealthEntries| #[trigger]
        entered(before, key, now, with) && transition == with[key].transition(
            with[key].after(event, now),
        ) && after == with.insert(key, with[key].after(event, now))
}

/// The entries after something failed that is not the transport's. Nothing is entered for it.
pub open spec fn cleared_of(before: HealthEntries, key: HealthKey, now: u64) -> HealthEntries {
    if before.contains_key(key) {
        before.insert(key, before[key].cleared(now))
    } else {
        before
    }
}

/// What one transport of one peer does leaves the health of every other that is still held as it
/// was.
pub proof fn law_health_is_kept_per_transport(
    before: HealthEntries,
    key: HealthKey,
    now: u64,
    event: HealthEvent,
    transition: HealthTransition,
    after: HealthEntries,
    other: HealthKey,
)
    requires
        recorded_of(before, key, now, event, transition, after),
        other != key,
        after.contains_key(other),
    ensures
        before.contains_key(other),
        after[other] == before[other],
{
}

/// A transport that is not degraded may always be tried; a degraded one may be tried thirty seconds after
/// its last try, not earlier, and asking then counts as a try, so that asking again at once is refused.
pub proof fn law_degraded_transports_are_tried_now_and_then(health: TransportHealth, now: u64, later: u64)
    requires
        now <= later,
    ensures
        !health.degraded ==> health.allows(now),
        health.degraded && health.last_probe is Some ==> (health.allows(now) <==> now
            >= health.last_probe->0 + 30_000_000_000),
        health.degraded && health.last_probe is None ==> health.allows(now),
        health.degraded && health.allows(now) ==> (health.asked(now).allows(later) <==> later >= now
            + 30_000_000_000),
        health.degraded && !health.allows(now) ==> health.asked(now).last_probe == health.last_probe,
        !health.degraded ==> health.asked(now).last_probe == health.last_probe,
        health.asked(now).degraded == health.degraded,
        health.asked(now).consecutive_failures == health.consecutive_failures,
        health.asked(now).consecutive_successes == health.consecutive_successes,
        health.asked(now).ambiguous_timeout_strikes == health.ambiguous_timeout_strikes,
        health.asked(now).updated_at == now,
{
}

/// A failure is counted and ends a run of successes; a success ends a run of failures. Only the third
/// failure in a row degrades a transport, and only the third success in a row of a degraded one brings
/// it back; what happens to a transport is when it was last used.
pub proof fn law_runs_are_counted(health: TransportHealth, now: u64)
    ensures
        health.consecutive_failures < u8::MAX ==> health.failed(now).consecutive_failures
            == health.consecutive_failures + 1,
        health.failed(now).consecutive_successes == 0,
        health.failed(now).ambiguous_timeout_strikes == 0,
        health.failed(now).updated_at == now,
        !health.degraded ==> (health.failed(now).degraded <==> health.consecutive_failures >= 2),
        !health.degraded && health.failed(now).degraded ==> health.failed(now).last_probe == Some(now),
        health.degraded ==> health.failed(now).degraded && health.failed(now).last_probe
            == health.last_probe,
        health.succeeded(now).consecutive_failures == 0,
        health.succeeded(now).ambiguous_timeout_strikes == 0,
        health.succeeded(now).updated_at == now,
        health.degraded ==> (health.succeeded(now).degraded <==> health.consecutive_successes < 2),
        !health.degraded ==> !health.succeeded(now).degraded
            && health.succeeded(now).consecutive_successes == health.consecutive_successes,
        health.succeeded(now).degraded ==> health.succeeded(now).consecutive_successes
            == health.consecutive_successes + 1,
        health.ambiguous_timeout_strikes == 0 ==> health.timed_out(now).ambiguous_timeout_strikes == 1
            && health.timed_out(now).consecutive_successes == 0 && health.timed_out(now).degraded
            == health.degraded,
        health.ambiguous_timeout_strikes >= 1 ==> health.timed_out(now) == health.failed(now),
        health.cleared(now).ambiguous_timeout_strikes == 0 && health.cleared(now).consecutive_failures
            == health.consecutive_failures && health.cleared(now).degraded == health.degraded
            && health.cleared(now).consecutive_successes == health.consecutive_successes
            && health.cleared(now).last_probe == health.last_probe,
{
}

/// What is told of a change is whether the transport became degraded or recovered.
pub proof fn law_transitions_tell_what_changed(before: TransportHealth, after: TransportHealth)
    ensures
        before.transition(after) is Degraded <==> !before.degraded && after.degraded,
        before.transition(after) is Recovered <==> before.degraded && !after.degraded,
        before.transition(after) is Unchanged <==> before.degraded == after.degraded,
{
}

/// A transport of which nothing is known may be tried and has no failures behind it.
pub proof fn law_unknown_transports_are_healthy(
    before: HealthEntries,
    key: HealthKey,
    now: u64,
    allowed: bool,
    after: HealthEntries,
)
    requires
        !before.contains_key(key),
        asked_of(before, key, now, allowed, after),
    ensures
        allowed,
        after.contains_key(key),
        !after[key].degraded,
        after[key].consecutive_failures == 0,
        after[key].updated_at == now,
{
}

/// What happens to a transport is entered for that one, and counts from what was known of it.
pub proof fn law_events_are_entered(
    before: HealthEntries,
    key: HealthKey,
    now: u64,
    event: HealthEvent,
    transition: HealthTransition,
    after: HealthEntries,
)
    requires
        recorded_of(before, key, now, event, transition, after),
    ensures
        after.contains_key(key),
        before.contains_key(key) ==> ({
            &&& event is Success ==> after[key] == before[key].succeeded(now)
            &&& event is Failure ==> after[key] == before[key].failed(now)
            &&& event is AmbiguousTimeout ==> after[key] == before[key].timed_out(now)
            &&& after.dom() == before.dom()
            &&& transition is Degraded <==> !before[key].degraded && after[key].degraded
        }),
        !before.contains_key(key) ==> !after[key].degraded && after[key].consecutive_failures == (if event
            is Failure {
            1int
        } else {
            0
        }),
{
    if before.contains_key(key) {
        assert(after.dom() =~= before.dom());
    }
}

/// A transport is forgotten ten minutes after it was last used, not earlier; only where the limit is
/// reached one more is, and no other was used less recently.
pub proof fn law_unused_transports_are_forgotten(
    before: HealthEntries,
    now: u64,
    after: HealthEntries,
    key: HealthKey,
)
    requires
        tidied(before, now, after),
    ensures
        after.contains_key(key) ==> before.contains_key(key) && after[key] == before[key] && now
            < before[key].updated_at + 600_000_000_000,
        before.contains_key(key) && now < before[key].updated_at + 600_000_000_000
            && !after.contains_key(key) ==> unexpired(before, now).len() >= 4096 && forall|
            other: HealthKey,
        | #[trigger]
            after.contains_key(other) ==> before[key].updated_at <= after[other].updated_at,
{
    let live = unexpired(before, now);
    if live.len() >= MAX_HEALTH_ENTRIES {
        let gone = choose|gone: HealthKey| #[trigger] least_recent(live, gone) && after == live.remove(gone);
        if before.contains_key(key) && now < before[key].updated_at + 600_000_000_000
            && !after.contains_key(key) {
            assert(live.contains_key(key));
            assert(gone == key);
            assert forall|other: HealthKey| #[trigger] after.contains_key(other) implies before[key].updated_at
                <= after[other].updated_at by {
                assert(live.contains_key(other));
            }
        }
    } else {
        assert(after == live);
    }
}

/// Something that is not the transport's fault takes back a doubtful timeout of that transport, and
/// changes nothing else; nothing is entered for it.
pub proof fn law_clearing_changes_one(before: HealthEntries, key: HealthKey, now: u64, other: HealthKey)
    ensures
        cleared_of(before, key, now).dom() == before.dom(),
        other != key && before.contains_key(other) ==> cleared_of(before, key, now)[other]
            == before[other],
        before.contains_key(key) ==> cleared_of(before, key, now)[key].ambiguous_timeout_strikes == 0
            && cleared_of(before, key, now)[key].degraded == before[key].degraded,
{
    assert(cleared_of(before, key, now).dom() =~= before.dom());
}

/// A transport that is not degraded becomes so just by a failure that is the third in a row or later, and a
/// degraded one recovers just by the third success in a row; the answer tells of either.
pub proof fn law_results_degrade_and_recover(
    health: &mut TransportHealth,
    now: u64,
    success: bool,
    r: HealthTransition,
)
    requires
        call_ensures(TransportHealth::record_result, (health, now, success), r),
    ensures
        r is Degraded <==> !old(health).degraded && !success && old(health).consecutive_failures >= 2,
        r is Recovered <==> old(health).degraded && success && old(health).consecutive_successes >= 2,
        final(health).degraded <==> r is Degraded || (old(health).degraded && r !is Recovered),
        success ==> final(health).consecutive_failures == 0,
        !success ==> final(health).consecutive_successes == 0,
        !success && old(health).consecutive_failures < 255 ==> final(health).consecutive_failures
            == old(health).consecutive_failures + 1,
        final(health).updated_at == now,
{
}

} // verus!
