//! A circuit breaker for connection attempts that loop back through the overlay.
//!
//! A key that collects hard strikes is blocked for a while. After that one attempt at a time may
//! probe it (the key is half open); a failed or overdue probe blocks it again, for longer.
//! Times are seconds; zero stands for "never".
use vstd::prelude::*;

use crate::addr::{IpScheme, PeerId, SocketAddress};
use crate::keyed_table::{KeyedTable, TableKey};

verus! {

pub const UNDERLAY_BREAKER_CAPACITY: usize = 4096;

pub const UNDERLAY_BREAKER_STRIKE_THRESHOLD: u8 = 100;

pub const UNDERLAY_BREAKER_STRIKE_WINDOW_SECS: u64 = 10;

pub const UNDERLAY_BREAKER_INITIAL_TTL_SECS: u64 = 30;

pub const UNDERLAY_BREAKER_MAX_TTL_SECS: u64 = 300;

pub const UNDERLAY_BREAKER_SOFT_TTL_SECS: u64 = 30;

pub const UNDERLAY_BREAKER_HALF_OPEN_TIMEOUT_SECS: u64 = 30;

/// The kind of work that makes the attempt.
#[derive(Clone, Copy, Debug, PartialEq, Eq, Hash, Structural)]
pub enum UnderlayBreakerScope {
    Direct,
    HolePunch,
    Generic,
    ProxyPrepare,
}

/// What a strike is held against: an endpoint or a peer, over one transport in one scope.
#[derive(Clone, Copy, Debug, PartialEq, Eq, Hash, Structural)]
pub enum UnderlayBreakerKey {
    Endpoint { remote_addr: SocketAddress, scheme: IpScheme, scope: UnderlayBreakerScope },
    Peer { peer_id: PeerId, scheme: IpScheme, scope: UnderlayBreakerScope },
}

impl TableKey for UnderlayBreakerKey {
    fn same(&self, other: &Self) -> (r: bool) {
        *self == *other
    }
}

impl UnderlayBreakerKey {
    pub fn endpoint(remote_addr: SocketAddress, scheme: IpScheme, scope: UnderlayBreakerScope) -> (r:
        Self)
        ensures
            r == (UnderlayBreakerKey::Endpoint { remote_addr, scheme, scope }),
    {
        UnderlayBreakerKey::Endpoint { remote_addr, scheme, scope }
    }

    pub fn peer(peer_id: PeerId, scheme: IpScheme, scope: UnderlayBreakerScope) -> (r: Self)
        ensures
            r == (UnderlayBreakerKey::Peer { peer_id, scheme, scope }),
    {
        UnderlayBreakerKey::Peer { peer_id, scheme, scope }
    }

    pub open spec fn spec_scheme(self) -> IpScheme {
        match self {
            UnderlayBreakerKey::Endpoint { scheme, .. } => scheme,
            UnderlayBreakerKey::Peer { scheme, .. } => scheme,
        }
    }

    pub open spec fn spec_scope(self) -> UnderlayBreakerScope {
        match self {
            UnderlayBreakerKey::Endpoint { scope, .. } => scope,
            UnderlayBreakerKey::Peer { scope, .. } => scope,
        }
    }

    pub fn remote_addr(&self) -> (r: Option<SocketAddress>)
        ensures
            r == (match *self {
                UnderlayBreakerKey::Endpoint { remote_addr, .. } => Some(remote_addr),
                UnderlayBreakerKey::Peer { .. } => None,
            }),
    {
        match self {
            UnderlayBreakerKey::Endpoint { remote_addr, .. } => Some(*remote_addr),
            UnderlayBreakerKey::Peer { .. } => None,
        }
    }

    pub fn peer_id(&self) -> (r: Option<PeerId>)
        ensures
            r == (match *self {
                UnderlayBreakerKey::Endpoint { .. } => None,
                UnderlayBreakerKey::Peer { peer_id, .. } => Some(peer_id),
            }),
    {
        match self {
            UnderlayBreakerKey::Endpoint { .. } => None,
            UnderlayBreakerKey::Peer { peer_id, .. } => Some(*peer_id),
        }
    }

    pub fn scheme(&self) -> (r: IpScheme)
        ensures
            r == self.spec_scheme(),
    {
        match self {
            UnderlayBreakerKey::Endpoint { scheme, .. } => *scheme,
            UnderlayBreakerKey::Peer { scheme, .. } => *scheme,
        }
    }

    pub fn scope(&self) -> (r: UnderlayBreakerScope)
        ensures
            r == self.spec_scope(),
    {
        match self {
            UnderlayBreakerKey::Endpoint { scope, .. } => *scope,
            UnderlayBreakerKey::Peer { scope, .. } => *scope,
        }
    }
}

/// Hard strikes count towards a block; soft ones are only remembered.
#[derive(Clone, Copy, Debug, PartialEq, Eq, Structural)]
pub enum UnderlayBreakerStrikeKind {
    Hard,
    Soft,
}

/// What is known of a key.
#[derive(Clone, Copy, Debug)]
pub struct UnderlayBreakerEntry {
    pub hard_strikes: u8,
    pub soft_strikes: u16,
    pub first_hard_at_secs: u64,
    pub blocked_until_secs: u64,
    pub backoff_secs: u64,
    pub half_open: bool,
    pub half_open_at_secs: u64,
    pub half_open_lease_id: Option<u64>,
    pub updated_at_secs: u64,
}

/// The key whose block or probe stands in the way of an attempt.
#[derive(Clone, Copy, Debug, PartialEq, Eq, Structural)]
pub struct UnderlayBreakerGateError {
    pub key: UnderlayBreakerKey,
}

/// The time from `since` to `now`, zero if `now` is earlier.
pub open spec fn elapsed(now: u64, since: u64) -> int {
    if now >= since {
        now - since
    } else {
        0
    }
}

impl UnderlayBreakerEntry {
    pub open spec fn fresh() -> Self {
        UnderlayBreakerEntry {
            hard_strikes: 0,
            soft_strikes: 0,
            first_hard_at_secs: 0,
            blocked_until_secs: 0,
            backoff_secs: 0,
            half_open: false,
            half_open_at_secs: 0,
            half_open_lease_id: None,
            updated_at_secs: 0,
        }
    }

    /// The entry still matters at time `now`.
    pub open spec fn live(self, now: u64) -> bool {
        ||| self.blocked_until_secs != 0 && (now <= self.blocked_until_secs || elapsed(
            now,
            self.blocked_until_secs,
        ) <= UNDERLAY_BREAKER_MAX_TTL_SECS || (self.half_open && elapsed(now, self.half_open_at_secs)
            <= UNDERLAY_BREAKER_HALF_OPEN_TIMEOUT_SECS))
        ||| self.first_hard_at_secs != 0 && elapsed(now, self.first_hard_at_secs)
            <= UNDERLAY_BREAKER_STRIKE_WINDOW_SECS
        ||| self.soft_strikes != 0 && elapsed(now, self.updated_at_secs)
            <= UNDERLAY_BREAKER_SOFT_TTL_SECS
    }

    /// How long the next block lasts: thirty seconds at first, then twice as long as the last
    /// one, up to five minutes.
    pub open spec fn next_ttl(self) -> u64 {
        if self.backoff_secs == 0 {
            UNDERLAY_BREAKER_INITIAL_TTL_SECS
        } else if self.backoff_secs * 2 > UNDERLAY_BREAKER_MAX_TTL_SECS {
            UNDERLAY_BREAKER_MAX_TTL_SECS
        } else {
            (self.backoff_secs * 2) as u64
        }
    }

    /// The entry once it is blocked at time `now`.
    pub open spec fn blocked(self, now: u64) -> Self {
        let ttl = self.next_ttl();
        UnderlayBreakerEntry {
            hard_strikes: 0,
            soft_strikes: self.soft_strikes,
            first_hard_at_secs: 0,
            blocked_until_secs: if now + ttl > u64::MAX {
                u64::MAX
            } else {
                (now + ttl) as u64
            },
            backoff_secs: ttl,
            half_open: false,
            half_open_at_secs: 0,
            half_open_lease_id: None,
            updated_at_secs: now,
        }
    }

    /// The entry at time `now`: a probe that is overdue blocks it again.
    pub open spec fn settled(self, now: u64) -> Self {
        if self.half_open && elapsed(now, self.half_open_at_secs)
            > UNDERLAY_BREAKER_HALF_OPEN_TIMEOUT_SECS {
            self.blocked(now)
        } else {
            self
        }
    }

    /// The entry stands in the way of an attempt.
    pub open spec fn gates(self, now: u64) -> bool {
        self.blocked_until_secs != 0 && (now < self.blocked_until_secs || self.half_open)
    }

    /// The entry while the attempt with lease `lease_id` probes it.
    pub open spec fn probing(self, now: u64, lease_id: u64) -> Self {
        UnderlayBreakerEntry {
            half_open: true,
            half_open_at_secs: now,
            half_open_lease_id: Some(lease_id),
            updated_at_secs: now,
            ..self
        }
    }

    /// The entry after the probe with lease `lease_id` was called off.
    pub open spec fn called_off(self, lease_id: u64) -> Self {
        if self.half_open_lease_id == Some(lease_id) {
            UnderlayBreakerEntry {
                half_open: false,
                half_open_at_secs: 0,
                half_open_lease_id: None,
                ..self
            }
        } else {
            self
        }
    }

    /// The hard strikes once one more has been counted at time `now`.
    pub open spec fn counted(self, now: u64) -> Self {
        if self.first_hard_at_secs == 0 || elapsed(now, self.first_hard_at_secs)
            > UNDERLAY_BREAKER_STRIKE_WINDOW_SECS {
            UnderlayBreakerEntry { first_hard_at_secs: now, hard_strikes: 1, ..self }
        } else {
            UnderlayBreakerEntry {
                hard_strikes: if self.hard_strikes == u8::MAX {
                    u8::MAX
                } else {
                    (self.hard_strikes + 1) as u8
                },
                ..self
            }
        }
    }

    /// A hard strike at time `now` blocks the key.
    pub open spec fn hard_strike_blocks(self, now: u64) -> bool {
        self.half_open || self.counted(now).hard_strikes >= UNDERLAY_BREAKER_STRIKE_THRESHOLD
    }

    /// The entry after a strike.
    pub open spec fn struck(self, kind: UnderlayBreakerStrikeKind, now: u64) -> Self {
        let entry = UnderlayBreakerEntry { updated_at_secs: now, ..self };
        match kind {
            UnderlayBreakerStrikeKind::Soft => UnderlayBreakerEntry {
                soft_strikes: if self.soft_strikes == u16::MAX {
                    u16::MAX
                } else {
                    (self.soft_strikes + 1) as u16
                },
                ..entry
            },
            UnderlayBreakerStrikeKind::Hard => if entry.hard_strike_blocks(now) {
                if entry.half_open {
                    entry.blocked(now)
                } else {
                    entry.counted(now).blocked(now)
                }
            } else {
                entry.counted(now)
            },
        }
    }

    fn is_live(&self, now_secs: u64) -> (r: bool)
        ensures
            r == self.live(now_secs),
    {
        if self.blocked_until_secs != 0 {
            if now_secs <= self.blocked_until_secs {
                return true;
            }
            if now_secs.saturating_sub(self.blocked_until_secs) <= UNDERLAY_BREAKER_MAX_TTL_SECS {
                return true;
            }
            if self.half_open && now_secs.saturating_sub(self.half_open_at_secs)
                <= UNDERLAY_BREAKER_HALF_OPEN_TIMEOUT_SECS {
                return true;
            }
        }
        if self.first_hard_at_secs != 0 && now_secs.saturating_sub(self.first_hard_at_secs)
            <= UNDERLAY_BREAKER_STRIKE_WINDOW_SECS {
            return true;
        }
        self.soft_strikes != 0 && now_secs.saturating_sub(self.updated_at_secs)
            <= UNDERLAY_BREAKER_SOFT_TTL_SECS
    }

    /// Blocks the key; tells for how long.
    fn block(&mut self, now_secs: u64) -> (r: u64)
        ensures
            *final(self) == old(self).blocked(now_secs),
            r == old(self).next_ttl(),
    {
        let ttl: u64 = if self.backoff_secs == 0 {
            UNDERLAY_BREAKER_INITIAL_TTL_SECS
        } else if self.backoff_secs > UNDERLAY_BREAKER_MAX_TTL_SECS / 2 {
            UNDERLAY_BREAKER_MAX_TTL_SECS
        } else {
            self.backoff_secs * 2
        };
        self.backoff_secs = ttl;
        self.blocked_until_secs = now_secs.saturating_add(ttl);
        self.hard_strikes = 0;
        self.first_hard_at_secs = 0;
        self.half_open = false;
        self.half_open_at_secs = 0;
        self.half_open_lease_id = None;
        self.updated_at_secs = now_secs;
        ttl
    }

    fn settle_half_open_timeout(&mut self, now_secs: u64)
        ensures
            *final(self) == old(self).settled(now_secs),
    {
        if !self.half_open || now_secs.saturating_sub(self.half_open_at_secs)
            <= UNDERLAY_BREAKER_HALF_OPEN_TIMEOUT_SECS {
            return;
        }
        self.block(now_secs);
    }

    /// Takes a strike; tells whether it blocked the key.
    fn strike(&mut self, kind: UnderlayBreakerStrikeKind, now_secs: u64) -> (r: bool)
        ensures
            *final(self) == old(self).struck(kind, now_secs),
            r == (kind == UnderlayBreakerStrikeKind::Hard && old(self).hard_strike_blocks(now_secs)),
    {
        self.updated_at_secs = now_secs;
        match kind {
            UnderlayBreakerStrikeKind::Soft => {
                self.soft_strikes = self.soft_strikes.saturating_add(1);
                false
            },
            UnderlayBreakerStrikeKind::Hard => {
                if self.half_open {
                    self.block(now_secs);
                    return true;
                }
                if self.first_hard_at_secs == 0 || now_secs.saturating_sub(self.first_hard_at_secs)
                    > UNDERLAY_BREAKER_STRIKE_WINDOW_SECS {
                    self.first_hard_at_secs = now_secs;
                    self.hard_strikes = 1;
                } else {
                    self.hard_strikes = self.hard_strikes.saturating_add(1);
                }
                if self.hard_strikes >= UNDERLAY_BREAKER_STRIKE_THRESHOLD {
                    self.block(now_secs);
                    true
                } else {
                    false
                }
            },
        }
    }
}

/// What the breaker knows of its keys.
pub type BreakerEntries = Map<UnderlayBreakerKey, UnderlayBreakerEntry>;

/// The entries that still matter at time `now`.
pub open spec fn pruned(entries: BreakerEntries, now: u64) -> BreakerEntries {
    Map::new(
        |k: UnderlayBreakerKey| entries.contains_key(k) && entries[k].live(now),
        |k: UnderlayBreakerKey| entries[k],
    )
}

/// The entries with those of `keys` brought up to time `now`.
pub open spec fn settled_entries(
    entries: BreakerEntries,
    keys: Seq<UnderlayBreakerKey>,
    now: u64,
) -> BreakerEntries {
    entries.map_entries(
        |k: UnderlayBreakerKey, e: UnderlayBreakerEntry|
            if keys.contains(k) {
                e.settled(now)
            } else {
                e
            },
    )
}

/// What an attempt on `keys` at time `now` is judged by.
pub open spec fn entries_for_attempt(
    entries: BreakerEntries,
    keys: Seq<UnderlayBreakerKey>,
    now: u64,
) -> BreakerEntries {
    pruned(settled_entries(entries, keys, now), now)
}

/// `after` has room for `key`: where the key is new and the breaker is full, one of the entries
/// that were updated the longest ago has left.
pub open spec fn has_room_for(
    before: BreakerEntries,
    key: UnderlayBreakerKey,
    after: BreakerEntries,
) -> bool {
    if before.contains_key(key) || before.len() < UNDERLAY_BREAKER_CAPACITY {
        after == before
    } else {
        exists|oldest: UnderlayBreakerKey| #[trigger]
            before.contains_key(oldest) && after == before.remove(oldest) && forall|
                k: UnderlayBreakerKey,
            |
                before.contains_key(k) ==> before[oldest].updated_at_secs
                    <= #[trigger] before[k].updated_at_secs
    }
}

/// An attempt on `keys` has to probe `key`: the key is known and was blocked.
pub open spec fn needs_probe(entries: BreakerEntries, key: UnderlayBreakerKey) -> bool {
    entries.contains_key(key) && entries[key].blocked_until_secs != 0
}

/// The keys that an attempt probes, without repetitions and in order.
pub open spec fn probed_keys(
    entries: BreakerEntries,
    keys: Seq<UnderlayBreakerKey>,
) -> Seq<UnderlayBreakerKey>
    decreases keys.len(),
{
    if keys.len() == 0 {
        Seq::empty()
    } else {
        let front = probed_keys(entries, keys.drop_last());
        if needs_probe(entries, keys.last()) && !front.contains(keys.last()) {
            front.push(keys.last())
        } else {
            front
        }
    }
}

/// The entries while an attempt with lease `lease_id` probes its keys.
pub open spec fn probing_entries(
    entries: BreakerEntries,
    keys: Seq<UnderlayBreakerKey>,
    now: u64,
    lease_id: u64,
) -> BreakerEntries {
    entries.map_entries(
        |k: UnderlayBreakerKey, e: UnderlayBreakerEntry|
            if keys.contains(k) && e.blocked_until_secs != 0 {
                e.probing(now, lease_id)
            } else {
                e
            },
    )
}

/// The entries after an attempt with lease `lease_id` called its probes off.
pub open spec fn called_off_entries(
    entries: BreakerEntries,
    keys: Seq<UnderlayBreakerKey>,
    lease_id: u64,
) -> BreakerEntries {
    entries.map_entries(
        |k: UnderlayBreakerKey, e: UnderlayBreakerEntry|
            if keys.contains(k) {
                e.called_off(lease_id)
            } else {
                e
            },
    )
}

/// The lease that follows `lease_id`: the next number, zero left out.
pub open spec fn lease_after(lease_id: u64) -> u64 {
    if lease_id == u64::MAX {
        1
    } else {
        (lease_id + 1) as u64
    }
}

/// `key` is the first of `keys` that stands in the way.
pub open spec fn first_gate(
    entries: BreakerEntries,
    keys: Seq<UnderlayBreakerKey>,
    now: u64,
    key: UnderlayBreakerKey,
) -> bool {
    exists|i: int|
        0 <= i < keys.len() && #[trigger] keys[i] == key && entries.contains_key(key)
            && entries[key].gates(now) && forall|j: int|
            0 <= j < i ==> !(entries.contains_key(#[trigger] keys[j]) && entries[keys[j]].gates(now))
}

/// One of `keys` stands in the way.
pub open spec fn any_gate(entries: BreakerEntries, keys: Seq<UnderlayBreakerKey>, now: u64) -> bool {
    exists|i: int|
        0 <= i < keys.len() && entries.contains_key(#[trigger] keys[i]) && entries[keys[i]].gates(
            now,
        )
}

/// Permission to make an attempt: its lease and the keys that it probes. Until it is committed
/// it can be called off. Lease zero belongs to an attempt that is not tracked.
#[derive(Debug)]
pub struct UnderlayPreflightGuard {
    pub lease_id: u64,
    pub acquired_half_open_keys: Vec<UnderlayBreakerKey>,
    pub committed: bool,
}

impl UnderlayPreflightGuard {
    pub fn new(lease_id: u64, acquired_half_open_keys: Vec<UnderlayBreakerKey>) -> (r: Self)
        ensures
            r.lease_id == lease_id,
            r.acquired_half_open_keys == acquired_half_open_keys,
            !r.committed,
    {
        UnderlayPreflightGuard { lease_id, acquired_half_open_keys, committed: false }
    }

    /// Marks the attempt as made: it can no longer be called off.
    pub fn commit(&mut self)
        requires
            !old(self).committed,
        ensures
            final(self).committed,
            final(self).lease_id == old(self).lease_id,
            final(self).acquired_half_open_keys == old(self).acquired_half_open_keys,
    {
        self.committed = true;
    }
}

/// The breaker.
pub struct UnderlayBreaker {
    entries: KeyedTable<UnderlayBreakerKey, UnderlayBreakerEntry>,
    last_lease_id: u64,
}

impl View for UnderlayBreaker {
    type V = BreakerEntries;

    closed spec fn view(&self) -> BreakerEntries {
        self.entries@
    }
}

impl UnderlayBreaker {
    pub closed spec fn wf(&self) -> bool {
        &&& self.entries.wf()
        &&& self.entries@.len() <= UNDERLAY_BREAKER_CAPACITY
    }

    /// The lease given out last.
    pub closed spec fn lease(&self) -> u64 {
        self.last_lease_id
    }

    /// A strike answers `r` and leaves `after`.
    pub open spec fn strikes(
        &self,
        key: UnderlayBreakerKey,
        kind: UnderlayBreakerStrikeKind,
        now: u64,
        r: bool,
        after: UnderlayBreaker,
    ) -> bool {
        let entries = pruned(self@, now);
        let entry = if entries.contains_key(key) {
            entries[key]
        } else {
            UnderlayBreakerEntry::fresh()
        };
        &&& r == (kind == UnderlayBreakerStrikeKind::Hard && entry.hard_strike_blocks(now))
        &&& after.lease() == self.lease()
        &&& exists|room: BreakerEntries| #[trigger]
            has_room_for(entries, key, room) && after@ == room.insert(key, entry.struck(kind, now))
    }

    /// Asking to make an attempt on `keys` answers `r` and leaves `after`.
    pub open spec fn begins(
        &self,
        keys: Seq<UnderlayBreakerKey>,
        now: u64,
        r: Result<UnderlayPreflightGuard, UnderlayBreakerGateError>,
        after: UnderlayBreaker,
    ) -> bool {
        let entries = entries_for_attempt(self@, keys, now);
        match r {
            Err(gate) => {
                &&& first_gate(entries, keys, now, gate.key)
                &&& after@ == entries
                &&& after.lease() == self.lease()
            },
            Ok(guard) => {
                &&& !any_gate(entries, keys, now)
                &&& guard.lease_id == lease_after(self.lease())
                &&& guard.acquired_half_open_keys@ == probed_keys(entries, keys)
                &&& !guard.committed
                &&& after@ == probing_entries(entries, keys, now, guard.lease_id)
                &&& after.lease() == guard.lease_id
            },
        }
    }

    /// The breaker never holds more keys than its capacity.
    pub proof fn law_capacity_is_bounded(&self)
        requires
            self.wf(),
        ensures
            self@.dom().finite(),
            self@.len() <= UNDERLAY_BREAKER_CAPACITY,
    {
        self.entries.lemma_view();
    }

    pub fn new() -> (r: Self)
        ensures
            r.wf(),
            r@ == BreakerEntries::empty(),
            r.lease() == 0,
    {
        UnderlayBreaker { entries: KeyedTable::new(), last_lease_id: 0 }
    }

    pub fn len(&self) -> (r: usize)
        requires
            self.wf(),
        ensures
            r == self@.len(),
            r <= UNDERLAY_BREAKER_CAPACITY,
    {
        self.entries.len()
    }

    /// What is known of a key.
    pub fn entry(&self, key: &UnderlayBreakerKey) -> (r: Option<UnderlayBreakerEntry>)
        requires
            self.wf(),
        ensures
            r == (if self@.contains_key(*key) {
                Some(self@[*key])
            } else {
                None
            }),
    {
        self.entries.get(key)
    }

    /// Forgets the entries that no longer matter.
    fn prune(&mut self, now_secs: u64)
        requires
            old(self).wf(),
        ensures
            final(self).wf(),
            final(self)@ == pruned(old(self)@, now_secs),
            final(self).lease() == old(self).lease(),
    {
        let mut i: usize = 0;
        while i < self.entries.len()
            invariant
                self.wf(),
                old(self).wf(),
                self.last_lease_id == old(self).last_lease_id,
                i <= self.entries.pairs().len(),
                forall|j: int| 0 <= j < i ==> (#[trigger] self.entries.pairs()[j]).1.live(now_secs),
                forall|k: UnderlayBreakerKey| #[trigger]
                    self@.contains_key(k) ==> old(self)@.contains_key(k) && self@[k] == old(
                        self,
                    )@[k],
                forall|k: UnderlayBreakerKey| #[trigger]
                    old(self)@.contains_key(k) && old(self)@[k].live(now_secs) ==> self@.contains_key(
                        k,
                    ),
            decreases self.entries.pairs().len() - i,
        {
            proof {
                self.entries.lemma_view();
            }
            let pair = self.entries.at(i);
            if pair.1.is_live(now_secs) {
                i += 1;
            } else {
                let ghost before = self.entries;
                let ghost whole = *self;
                self.entries.remove_at(i);
                proof {
                    self.entries.lemma_view();
                    assert(self@ == whole@.remove(pair.0));
                    assert forall|k: UnderlayBreakerKey| #[trigger] self@.contains_key(k) implies old(
                        self,
                    )@.contains_key(k) && self@[k] == old(self)@[k] by {
                        assert(whole@.contains_key(k));
                    }
                    assert forall|j: int| 0 <= j < i implies (
                    #[trigger] self.entries.pairs()[j]).1.live(now_secs) by {
                        assert(self.entries.pairs()[j] == before.pairs()[j]);
                    }
                }
            }
        }
        proof {
            self.entries.lemma_view();
            assert forall|k: UnderlayBreakerKey| #[trigger] self@.contains_key(k) implies self@[k].live(
                now_secs,
            ) by {
                let j = choose|j: int|
                    0 <= j < self.entries.pairs().len() && (#[trigger] self.entries.pairs()[j]).0
                        == k;
                assert(self@[k] == self.entries.pairs()[j].1);
            }
            assert(self@ =~= pruned(old(self)@, now_secs));
        }
    }

    /// Makes room for a key that is new to a full breaker.
    fn evict_if_full(&mut self, key: &UnderlayBreakerKey)
        requires
            old(self).wf(),
        ensures
            final(self).wf(),
            has_room_for(old(self)@, *key, final(self)@),
            final(self)@.contains_key(*key) || final(self)@.len() < UNDERLAY_BREAKER_CAPACITY,
            final(self).lease() == old(self).lease(),
    {
        proof {
            self.entries.lemma_view();
        }
        if self.entries.contains_key(key) || self.entries.len() < UNDERLAY_BREAKER_CAPACITY {
            return;
        }
        let count: usize = self.entries.len();
        let mut oldest: usize = 0;
        let mut i: usize = 1;
        while i < count
            invariant
                count == self.entries.pairs().len(),
                self.wf(),
                oldest < i <= count,
                self.entries == old(self).entries,
                self.last_lease_id == old(self).last_lease_id,
                forall|j: int|
                    0 <= j < i ==> self.entries.pairs()[oldest as int].1.updated_at_secs <= (
                    #[trigger] self.entries.pairs()[j]).1.updated_at_secs,
            decreases count - i,
        {
            if self.entries.at(i).1.updated_at_secs < self.entries.at(oldest).1.updated_at_secs {
                oldest = i;
            }
            i += 1;
        }
        let pair = self.entries.remove_at(oldest);
        proof {
            self.entries.lemma_view();
            let before = old(self).entries;
            before.lemma_view();
            assert forall|k: UnderlayBreakerKey| before@.contains_key(k) implies before@[pair.0].updated_at_secs
                <= #[trigger] before@[k].updated_at_secs by {
                let j = choose|j: int|
                    0 <= j < before.pairs().len() && (#[trigger] before.pairs()[j]).0 == k;
                assert(before@[before.pairs()[j].0] == before.pairs()[j].1);
            }
            assert(before@.contains_key(pair.0));
        }
    }

    /// Takes a strike against `key`; tells whether it blocked the key.
    pub fn record_strike_at(
        &mut self,
        key: UnderlayBreakerKey,
        kind: UnderlayBreakerStrikeKind,
        now_secs: u64,
    ) -> (r: bool)
        requires
            old(self).wf(),
        ensures
            final(self).wf(),
            old(self).strikes(key, kind, now_secs, r, *final(self)),
    {
        self.prune(now_secs);
        let ghost entries = self@;
        self.evict_if_full(&key);
        let ghost room = self@;
        proof {
            self.entries.lemma_view();
        }
        let mut entry = match self.entries.get(&key) {
            Some(entry) => entry,
            None => UnderlayBreakerEntry {
                hard_strikes: 0,
                soft_strikes: 0,
                first_hard_at_secs: 0,
                blocked_until_secs: 0,
                backoff_secs: 0,
                half_open: false,
                half_open_at_secs: 0,
                half_open_lease_id: None,
                updated_at_secs: 0,
            },
        };
        let blocked = entry.strike(kind, now_secs);
        self.entries.insert(key, entry);
        proof {
            assert(has_room_for(entries, key, room));
            self.entries.lemma_view();
        }
        blocked
    }

    /// Brings the entries of `keys` up to time `now_secs` and forgets what no longer matters.
    fn refresh(&mut self, keys: &[UnderlayBreakerKey], now_secs: u64)
        requires
            old(self).wf(),
        ensures
            final(self).wf(),
            final(self)@ == entries_for_attempt(old(self)@, keys@, now_secs),
            final(self).lease() == old(self).lease(),
    {
        let mut i: usize = 0;
        assert(self@ =~= settled_entries(old(self)@, keys@.take(0), now_secs));
        while i < keys.len()
            invariant
                i <= keys@.len(),
                self.wf(),
                self.last_lease_id == old(self).last_lease_id,
                self@ == settled_entries(old(self)@, keys@.take(i as int), now_secs),
            decreases keys@.len() - i,
        {
            let key = keys[i];
            proof {
                self.entries.lemma_view();
                assert(keys@.take(i as int + 1) =~= keys@.take(i as int).push(key));
                assert forall|k: UnderlayBreakerKey| keys@.take(i as int + 1).contains(k) <==> keys@.take(
                    i as int,
                ).contains(k) || k == key by {
                    if keys@.take(i as int).contains(k) {
                        let j = choose|j: int|
                            0 <= j < keys@.take(i as int).len() && keys@.take(i as int)[j] == k;
                        assert(keys@.take(i as int + 1)[j] == k);
                    }
                    if k == key {
                        assert(keys@.take(i as int + 1)[i as int] == k);
                    }
                }
            }
            if let Some(found) = self.entries.get(&key) {
                let mut entry = found;
                entry.settle_half_open_timeout(now_secs);
                self.entries.insert(key, entry);
                proof {
                    self.entries.lemma_view();
                }
            }
            i += 1;
            assert(self@ =~= settled_entries(old(self)@, keys@.take(i as int), now_secs));
        }
        assert(keys@.take(keys@.len() as int) =~= keys@);
        self.prune(now_secs);
    }

    /// Asks to make an attempt on `keys`. Either no key stands in the way, and all those that
    /// were blocked become half open under one lease, or nothing is acquired.
    pub fn try_begin_at(&mut self, keys: &[UnderlayBreakerKey], now_secs: u64) -> (r: Result<
        UnderlayPreflightGuard,
        UnderlayBreakerGateError,
    >)
        requires
            old(self).wf(),
        ensures
            final(self).wf(),
            old(self).begins(keys@, now_secs, r, *final(self)),
    {
        self.refresh(keys, now_secs);
        let ghost entries = self@;
        if let Some(i) = self.gate_position(keys, now_secs) {
            return Err(UnderlayBreakerGateError { key: keys[i] });
        }
        let next: u64 = self.last_lease_id.wrapping_add(1);
        let lease_id: u64 = if next != 0 {
            next
        } else {
            1
        };
        self.last_lease_id = lease_id;
        let mut acquired: Vec<UnderlayBreakerKey> = Vec::new();
        let mut i: usize = 0;
        assert(self@ =~= probing_entries(entries, keys@.take(0), now_secs, lease_id));
        assert(keys@.take(0) =~= Seq::<UnderlayBreakerKey>::empty());
        while i < keys.len()
            invariant
                i <= keys@.len(),
                self.wf(),
                self.last_lease_id == lease_id,
                self@ == probing_entries(entries, keys@.take(i as int), now_secs, lease_id),
                acquired@ == probed_keys(entries, keys@.take(i as int)),
                forall|k: UnderlayBreakerKey|
                    #[trigger] acquired@.contains(k) <==> keys@.take(i as int).contains(k)
                        && needs_probe(entries, k),
            decreases keys@.len() - i,
        {
            let key = keys[i];
            let ghost earlier = keys@.take(i as int);
            proof {
                self.entries.lemma_view();
                assert(keys@.take(i as int + 1) =~= earlier.push(key));
                assert(keys@.take(i as int + 1).drop_last() =~= earlier);
                assert forall|k: UnderlayBreakerKey| keys@.take(i as int + 1).contains(k)
                    <==> earlier.contains(k) || k == key by {
                    if earlier.contains(k) {
                        let j = choose|j: int| 0 <= j < earlier.len() && earlier[j] == k;
                        assert(keys@.take(i as int + 1)[j] == k);
                    }
                    if k == key {
                        assert(keys@.take(i as int + 1)[i as int] == k);
                    }
                }
            }
            let ghost acquired_before = acquired@;
            if let Some(found) = self.entries.get(&key) {
                if found.blocked_until_secs != 0 {
                    let mut entry = found;
                    entry.half_open = true;
                    entry.half_open_at_secs = now_secs;
                    entry.half_open_lease_id = Some(lease_id);
                    entry.updated_at_secs = now_secs;
                    self.entries.insert(key, entry);
                    if !Self::holds(&acquired, &key) {
                        acquired.push(key);
                        proof {
                            assert forall|k: UnderlayBreakerKey| #[trigger]
                                acquired@.contains(k) <==> acquired_before.contains(k) || k == key by {
                                if acquired_before.contains(k) {
                                    let j = choose|j: int|
                                        0 <= j < acquired_before.len() && acquired_before[j] == k;
                                    assert(acquired@[j] == k);
                                }
                                if k == key {
                                    assert(acquired@[acquired_before.len() as int] == k);
                                }
                            }
                        }
                    }
                    proof {
                        self.entries.lemma_view();
                    }
                }
            }
            i += 1;
            assert(self@ =~= probing_entries(entries, keys@.take(i as int), now_secs, lease_id));
        }
        assert(keys@.take(keys@.len() as int) =~= keys@);
        Ok(UnderlayPreflightGuard::new(lease_id, acquired))
    }

    /// The place of the first key that stands in the way.
    fn gate_position(&self, keys: &[UnderlayBreakerKey], now_secs: u64) -> (r: Option<usize>)
        requires
            self.wf(),
        ensures
            match r {
                Some(i) => i < keys@.len() && first_gate(
                    self@,
                    keys@,
                    now_secs,
                    keys@[i as int],
                ) && any_gate(self@, keys@, now_secs),
                None => !any_gate(self@, keys@, now_secs),
            },
    {
        let mut i: usize = 0;
        while i < keys.len()
            invariant
                i <= keys@.len(),
                self.wf(),
                forall|j: int|
                    0 <= j < i ==> !(self@.contains_key(#[trigger] keys@[j])
                        && self@[keys@[j]].gates(now_secs)),
            decreases keys@.len() - i,
        {
            if let Some(entry) = self.entries.get(&keys[i]) {
                if entry.blocked_until_secs != 0 && (now_secs < entry.blocked_until_secs
                    || entry.half_open) {
                    assert(keys@[i as int] == keys[i as int]);
                    return Some(i);
                }
            }
            i += 1;
        }
        None
    }

    fn holds(keys: &Vec<UnderlayBreakerKey>, key: &UnderlayBreakerKey) -> (r: bool)
        ensures
            r == keys@.contains(*key),
    {
        let mut i: usize = 0;
        while i < keys.len()
            invariant
                i <= keys@.len(),
                forall|j: int| 0 <= j < i ==> keys@[j] != *key,
            decreases keys@.len() - i,
        {
            if keys[i] == *key {
                return true;
            }
            i += 1;
        }
        false
    }

    /// Tells whether one of `keys` stands in the way, without acquiring anything.
    pub fn is_attempt_blocked_at(&mut self, keys: &[UnderlayBreakerKey], now_secs: u64) -> (r: bool)
        requires
            old(self).wf(),
        ensures
            final(self).wf(),
            final(self)@ == entries_for_attempt(old(self)@, keys@, now_secs),
            final(self).lease() == old(self).lease(),
            r == any_gate(final(self)@, keys@, now_secs),
    {
        self.refresh(keys, now_secs);
        match self.gate_position(keys, now_secs) {
            Some(_) => true,
            None => false,
        }
    }

    /// Calls the probes of a lease off. Keys that another lease probes by now are left alone.
    pub fn rollback_preflight(&mut self, lease_id: u64, keys: &[UnderlayBreakerKey])
        requires
            old(self).wf(),
        ensures
            final(self).wf(),
            final(self)@ == called_off_entries(old(self)@, keys@, lease_id),
            final(self).lease() == old(self).lease(),
    {
        let mut i: usize = 0;
        assert(self@ =~= called_off_entries(old(self)@, keys@.take(0), lease_id));
        while i < keys.len()
            invariant
                i <= keys@.len(),
                self.wf(),
                self.last_lease_id == old(self).last_lease_id,
                self@ == called_off_entries(old(self)@, keys@.take(i as int), lease_id),
            decreases keys@.len() - i,
        {
            let key = keys[i];
            proof {
                self.entries.lemma_view();
                let earlier = keys@.take(i as int);
                assert(keys@.take(i as int + 1) =~= earlier.push(key));
                assert forall|k: UnderlayBreakerKey| keys@.take(i as int + 1).contains(k)
                    <==> earlier.contains(k) || k == key by {
                    if earlier.contains(k) {
                        let j = choose|j: int| 0 <= j < earlier.len() && earlier[j] == k;
                        assert(keys@.take(i as int + 1)[j] == k);
                    }
                    if k == key {
                        assert(keys@.take(i as int + 1)[i as int] == k);
                    }
                }
            }
            if let Some(found) = self.entries.get(&key) {
                let ours = match found.half_open_lease_id {
                    Some(lease) => lease == lease_id,
                    None => false,
                };
                if ours {
                    let mut entry = found;
                    entry.half_open = false;
                    entry.half_open_at_secs = 0;
                    entry.half_open_lease_id = None;
                    self.entries.insert(key, entry);
                    proof {
                        self.entries.lemma_view();
                    }
                }
            }
            i += 1;
            assert(self@ =~= called_off_entries(old(self)@, keys@.take(i as int), lease_id));
        }
        assert(keys@.take(keys@.len() as int) =~= keys@);
    }

    /// Gives a permission back. An attempt that was never made leaves no probe behind.
    pub fn release(&mut self, guard: UnderlayPreflightGuard)
        requires
            old(self).wf(),
        ensures
            final(self).wf(),
            final(self).lease() == old(self).lease(),
            final(self)@ == (if guard.committed || guard.lease_id == 0 {
                old(self)@
            } else {
                called_off_entries(old(self)@, guard.acquired_half_open_keys@, guard.lease_id)
            }),
    {
        if !guard.committed && guard.lease_id != 0 {
            self.rollback_preflight(guard.lease_id, guard.acquired_half_open_keys.as_slice());
        }
    }

    /// Forgets a key after a successful connection.
    pub fn clear(&mut self, key: &UnderlayBreakerKey)
        requires
            old(self).wf(),
        ensures
            final(self).wf(),
            final(self)@ == old(self)@.remove(*key),
            final(self).lease() == old(self).lease(),
    {
        proof {
            self.entries.lemma_view();
        }
        self.entries.remove(key);
        proof {
            self.entries.lemma_view();
        }
    }
}

/// An attempt that is refused acquires nothing: no key becomes half open by it.
pub proof fn law_refused_attempt_acquires_nothing(
    entries: BreakerEntries,
    keys: Seq<UnderlayBreakerKey>,
    now: u64,
    key: UnderlayBreakerKey,
)
    requires
        entries_for_attempt(entries, keys, now).contains_key(key),
        entries_for_attempt(entries, keys, now)[key].half_open,
    ensures
        entries.contains_key(key),
        entries_for_attempt(entries, keys, now)[key] == entries[key],
{
}

/// A granted attempt probes its blocked keys alone: until its probe is over, called off or
/// overdue, every other attempt on one of them is refused.
pub proof fn law_half_open_is_single_flight(
    entries: BreakerEntries,
    keys: Seq<UnderlayBreakerKey>,
    now: u64,
    lease_id: u64,
    other_keys: Seq<UnderlayBreakerKey>,
    later: u64,
    i: int,
)
    requires
        0 <= i < other_keys.len(),
        keys.contains(other_keys[i]),
        needs_probe(entries, other_keys[i]),
        now <= later <= now + UNDERLAY_BREAKER_HALF_OPEN_TIMEOUT_SECS,
    ensures
        any_gate(
            entries_for_attempt(probing_entries(entries, keys, now, lease_id), other_keys, later),
            other_keys,
            later,
        ),
{
    let probing = probing_entries(entries, keys, now, lease_id);
    let key = other_keys[i];
    assert(probing.contains_key(key));
    assert(probing[key] == entries[key].probing(now, lease_id));
    let settled = settled_entries(probing, other_keys, later);
    assert(settled.contains_key(key));
    assert(settled[key] == probing[key]);
    assert(pruned(settled, later).contains_key(key));
}

/// A probe that is overdue blocks its key again, and for longer, up to five minutes.
pub proof fn law_overdue_probe_blocks_again(entry: UnderlayBreakerEntry, now: u64)
    requires
        entry.half_open,
        elapsed(now, entry.half_open_at_secs) > UNDERLAY_BREAKER_HALF_OPEN_TIMEOUT_SECS,
        now < u64::MAX,
    ensures
        entry.settled(now).gates(now),
        !entry.settled(now).half_open,
        UNDERLAY_BREAKER_INITIAL_TTL_SECS <= entry.settled(now).backoff_secs || entry.backoff_secs
            != 0,
        entry.settled(now).backoff_secs <= UNDERLAY_BREAKER_MAX_TTL_SECS,
        entry.backoff_secs <= UNDERLAY_BREAKER_MAX_TTL_SECS ==> entry.settled(now).backoff_secs
            >= entry.backoff_secs,
{
}

/// Calling a granted attempt off takes its probes back: every entry is as the attempt found it,
/// but for the time of its last update, and no backoff has grown.
pub proof fn law_calling_off_undoes_the_probes(
    entries: BreakerEntries,
    keys: Seq<UnderlayBreakerKey>,
    acquired: Seq<UnderlayBreakerKey>,
    now: u64,
    lease_id: u64,
    key: UnderlayBreakerKey,
)
    requires
        entries.contains_key(key),
        acquired == probed_keys(entries, keys),
        entries[key].half_open_lease_id is None,
        !entries[key].half_open,
        entries[key].half_open_at_secs == 0,
    ensures
        ({
            let after = called_off_entries(
                probing_entries(entries, keys, now, lease_id),
                acquired,
                lease_id,
            );
            &&& after.contains_key(key)
            &&& (UnderlayBreakerEntry {
                updated_at_secs: entries[key].updated_at_secs,
                ..after[key]
            }) == entries[key]
        }),
{
    lemma_probed_keys(entries, keys, key);
    let probing = probing_entries(entries, keys, now, lease_id);
    assert(probing.contains_key(key));
    assert(called_off_entries(probing, acquired, lease_id).contains_key(key));
}

/// The probed keys are those of the attempt that need a probe.
pub proof fn lemma_probed_keys(
    entries: BreakerEntries,
    keys: Seq<UnderlayBreakerKey>,
    key: UnderlayBreakerKey,
)
    ensures
        probed_keys(entries, keys).contains(key) <==> keys.contains(key) && needs_probe(
            entries,
            key,
        ),
    decreases keys.len(),
{
    if keys.len() > 0 {
        let front = keys.drop_last();
        lemma_probed_keys(entries, front, key);
        lemma_probed_keys(entries, front, keys.last());
        let before = probed_keys(entries, front);
        let after = probed_keys(entries, keys);
        assert(keys.contains(key) <==> front.contains(key) || key == keys.last()) by {
            if front.contains(key) {
                let j = choose|j: int| 0 <= j < front.len() && front[j] == key;
                assert(keys[j] == key);
            }
            if key == keys.last() {
                assert(keys[keys.len() - 1] == key);
            }
            if keys.contains(key) {
                let j = choose|j: int| 0 <= j < keys.len() && keys[j] == key;
                if j < front.len() {
                    assert(front[j] == key);
                }
            }
        }
        if needs_probe(entries, keys.last()) && !before.contains(keys.last()) {
            assert(after == before.push(keys.last()));
            if before.contains(key) {
                let j = choose|j: int| 0 <= j < before.len() && before[j] == key;
                assert(after[j] == key);
            }
            if key == keys.last() {
                assert(after[before.len() as int] == key);
            }
        }
    }
}

/// A permission that is given back late takes nothing from the lease that probes the key now.
pub proof fn law_stale_lease_cannot_call_off_a_newer_one(
    entries: BreakerEntries,
    keys: Seq<UnderlayBreakerKey>,
    stale: u64,
    key: UnderlayBreakerKey,
)
    requires
        entries.contains_key(key),
        entries[key].half_open_lease_id != Some(stale),
    ensures
        called_off_entries(entries, keys, stale).contains_key(key),
        called_off_entries(entries, keys, stale)[key] == entries[key],
{
}

/// Soft strikes never block: whatever an attempt may do before one, it may do after it.
pub proof fn law_soft_strike_never_gates(entry: UnderlayBreakerEntry, struck_at: u64, now: u64)
    ensures
        entry.struck(UnderlayBreakerStrikeKind::Soft, struck_at).gates(now) == entry.gates(now),
{
}

/// A key that is not half open needs as many hard strikes within the window as the threshold
/// says; one strike fewer leaves it open.
pub proof fn law_block_needs_repeated_hard_strikes(entry: UnderlayBreakerEntry, now: u64)
    requires
        !entry.half_open,
        entry.hard_strikes + 1 < UNDERLAY_BREAKER_STRIKE_THRESHOLD,
    ensures
        !entry.hard_strike_blocks(now),
        entry.struck(UnderlayBreakerStrikeKind::Hard, now).blocked_until_secs
            == entry.blocked_until_secs,
{
}

/// The first block lasts thirty seconds, each further one twice as long as the one before, and none longer
/// than five minutes. A blocked key has no strikes left and is not being probed.
pub proof fn law_blocks_grow(entry: UnderlayBreakerEntry, now: u64)
    requires
        entry.backoff_secs <= 300,
        now + 300 <= u64::MAX,
    ensures
        entry.backoff_secs == 0 ==> entry.blocked(now).backoff_secs == 30,
        0 < entry.backoff_secs <= 150 ==> entry.blocked(now).backoff_secs == 2 * entry.backoff_secs,
        entry.backoff_secs > 150 ==> entry.blocked(now).backoff_secs == 300,
        entry.blocked(now).blocked_until_secs == now + entry.blocked(now).backoff_secs,
        entry.blocked(now).hard_strikes == 0 && entry.blocked(now).first_hard_at_secs == 0,
        !entry.blocked(now).half_open && entry.blocked(now).half_open_lease_id is None,
        entry.blocked(now).soft_strikes == entry.soft_strikes,
        entry.blocked(now).updated_at_secs == now,
{
}

/// A key stands in the way until its block is over, and then while it is being probed; a key that was never
/// blocked never does.
pub proof fn law_when_a_key_gates(entry: UnderlayBreakerEntry, now: u64, lease_id: u64)
    ensures
        entry.blocked_until_secs == 0 ==> !entry.gates(now),
        entry.blocked_until_secs > now ==> entry.gates(now),
        entry.blocked_until_secs != 0 && entry.blocked_until_secs <= now ==> (entry.gates(now)
            <==> entry.half_open),
        entry.blocked_until_secs != 0 ==> entry.probing(now, lease_id).gates(now),
        entry.probing(now, lease_id).half_open_lease_id == Some(lease_id),
        entry.probing(now, lease_id).half_open_at_secs == now,
        entry.probing(now, lease_id).blocked_until_secs == entry.blocked_until_secs,
        entry.probing(now, lease_id).backoff_secs == entry.backoff_secs,
{
}

/// A probe is overdue after thirty seconds, and only then blocks its key again.
pub proof fn law_when_a_probe_is_overdue(entry: UnderlayBreakerEntry, now: u64)
    ensures
        !entry.half_open ==> entry.settled(now) == entry,
        now <= entry.half_open_at_secs + 30 ==> entry.settled(now) == entry,
        entry.half_open && now > entry.half_open_at_secs + 30 ==> entry.settled(now) == entry.blocked(now),
{
}

/// Hard strikes count within ten seconds of the first; a later one starts a new count. A hundred of them
/// block a key, and during a probe a single one does. Soft strikes are counted and block nothing.
pub proof fn law_hard_strikes_are_counted(entry: UnderlayBreakerEntry, now: u64)
    ensures
        entry.first_hard_at_secs == 0 || now > entry.first_hard_at_secs + 10 ==> entry.counted(
            now,
        ).hard_strikes == 1 && entry.counted(now).first_hard_at_secs == now,
        entry.first_hard_at_secs != 0 && now <= entry.first_hard_at_secs + 10 && entry.hard_strikes
            < u8::MAX ==> entry.counted(now).hard_strikes == entry.hard_strikes + 1 && entry.counted(
            now,
        ).first_hard_at_secs == entry.first_hard_at_secs,
        entry.half_open ==> entry.hard_strike_blocks(now),
        !entry.half_open ==> (entry.hard_strike_blocks(now) <==> entry.counted(now).hard_strikes >= 100),
        entry.hard_strike_blocks(now) ==> {
            let struck = entry.struck(UnderlayBreakerStrikeKind::Hard, now);
            struck.blocked_until_secs >= now && !struck.half_open && struck.hard_strikes == 0
                && struck.backoff_secs == entry.next_ttl()
        },
        !entry.hard_strike_blocks(now) ==> {
            let struck = entry.struck(UnderlayBreakerStrikeKind::Hard, now);
            struck.blocked_until_secs == entry.blocked_until_secs && struck.hard_strikes
                == entry.counted(now).hard_strikes && struck.half_open == entry.half_open
        },
        ({
            let soft = entry.struck(UnderlayBreakerStrikeKind::Soft, now);
            &&& soft.hard_strikes == entry.hard_strikes && soft.blocked_until_secs
                == entry.blocked_until_secs && soft.half_open == entry.half_open
            &&& entry.soft_strikes < u16::MAX ==> soft.soft_strikes == entry.soft_strikes + 1
            &&& soft.updated_at_secs == now
        }),
{
}

/// An entry is forgotten once nothing of it matters: five minutes after its block was over, ten seconds
/// after its first hard strike and thirty after its last soft one; never while a key is blocked.
pub proof fn law_when_entries_are_forgotten(entry: UnderlayBreakerEntry, now: u64)
    ensures
        entry.blocked_until_secs != 0 && now <= entry.blocked_until_secs + 300 ==> entry.live(now),
        entry.first_hard_at_secs != 0 && now <= entry.first_hard_at_secs + 10 ==> entry.live(now),
        entry.soft_strikes != 0 && now <= entry.updated_at_secs + 30 ==> entry.live(now),
        entry.blocked_until_secs != 0 && entry.half_open && now <= entry.half_open_at_secs + 30
            ==> entry.live(now),
        (entry.blocked_until_secs == 0 || (now > entry.blocked_until_secs + 300 && (!entry.half_open || now
            > entry.half_open_at_secs + 30))) && (entry.first_hard_at_secs == 0 || now
            > entry.first_hard_at_secs + 10) && (entry.soft_strikes == 0 || now > entry.updated_at_secs
            + 30) ==> !entry.live(now),
        entry.gates(now) && now < entry.blocked_until_secs ==> entry.live(now),
{
}

/// A strike is for its key: it is entered there, on top of what still matters of it; and what is known of
/// another key either stays as it was or is gone.
pub proof fn law_strikes_are_for_their_key(
    before: UnderlayBreaker,
    key: UnderlayBreakerKey,
    kind: UnderlayBreakerStrikeKind,
    now: u64,
    r: bool,
    after: UnderlayBreaker,
    other: UnderlayBreakerKey,
)
    requires
        before.strikes(key, kind, now, r, after),
        other != key,
    ensures
        after@.contains_key(key),
        before@.contains_key(key) && before@[key].live(now) ==> after@[key] == before@[key].struck(
            kind,
            now,
        ),
        !before@.contains_key(key) && kind == UnderlayBreakerStrikeKind::Hard ==> after@[key].hard_strikes
            == 1 && !r,
        kind == UnderlayBreakerStrikeKind::Soft ==> !r,
        after@.contains_key(other) ==> before@.contains_key(other) && after@[other] == before@[other],
        before@.contains_key(other) && before@[other].live(now) && !after@.contains_key(other)
            ==> pruned(before@, now).len() >= 4096,
        after.lease() == before.lease(),
{
    let entries = pruned(before@, now);
    if before@.contains_key(other) && before@[other].live(now) {
        assert(entries.contains_key(other));
    }
}

/// An attempt is refused if and only if one of its keys stands in the way, and what is told is the first of
/// them. One that is granted has a lease of its own, which is not zero, and probes its keys that were
/// blocked.
pub proof fn law_attempts_are_refused_for_a_key(
    before: UnderlayBreaker,
    keys: Seq<UnderlayBreakerKey>,
    now: u64,
    r: Result<UnderlayPreflightGuard, UnderlayBreakerGateError>,
    after: UnderlayBreaker,
    key: UnderlayBreakerKey,
)
    requires
        before.begins(keys, now, r, after),
    ensures
        r is Err <==> any_gate(entries_for_attempt(before@, keys, now), keys, now),
        r matches Err(gate) ==> keys.contains(gate.key) && after@[gate.key].gates(now),
        r matches Ok(guard) ==> {
            &&& guard.lease_id != 0 && guard.lease_id != before.lease()
            &&& after.lease() == guard.lease_id
            &&& guard.acquired_half_open_keys@.contains(key) ==> keys.contains(key)
            &&& guard.acquired_half_open_keys@.contains(key) <==> keys.contains(key)
                && after@.contains_key(key) && after@[key].blocked_until_secs != 0
            &&& guard.acquired_half_open_keys@.contains(key) ==> after@[key].half_open
                && after@[key].half_open_lease_id == Some(guard.lease_id)
            &&& !guard.committed
        },
{
    let entries = entries_for_attempt(before@, keys, now);
    match r {
        Err(gate) => {
            let i = choose|i: int|
                0 <= i < keys.len() && #[trigger] keys[i] == gate.key && entries.contains_key(gate.key)
                    && entries[gate.key].gates(now) && forall|j: int|
                    0 <= j < i ==> !(entries.contains_key(#[trigger] keys[j]) && entries[keys[j]].gates(
                        now,
                    ));
            assert(entries.contains_key(keys[i]) && entries[keys[i]].gates(now));
        },
        Ok(guard) => {
            lemma_probed_keys(entries, keys, key);
            let probing = probing_entries(entries, keys, now, guard.lease_id);
            assert(probing.contains_key(key) <==> entries.contains_key(key));
        },
    }
}

/// Room is made only where the breaker is full, by one entry than which none was updated longer ago.
pub proof fn law_room_is_made_by_the_oldest(
    before: BreakerEntries,
    key: UnderlayBreakerKey,
    after: BreakerEntries,
    gone: UnderlayBreakerKey,
    other: UnderlayBreakerKey,
)
    requires
        has_room_for(before, key, after),
        before.contains_key(gone),
        !after.contains_key(gone),
    ensures
        before.len() >= 4096,
        !before.contains_key(key),
        before.contains_key(other) ==> before[gone].updated_at_secs <= before[other].updated_at_secs,
        other != gone && before.contains_key(other) ==> after.contains_key(other) && after[other]
            == before[other],
{
    let oldest = choose|oldest: UnderlayBreakerKey| #[trigger]
        before.contains_key(oldest) && after == before.remove(oldest) && forall|k: UnderlayBreakerKey|
            before.contains_key(k) ==> before[oldest].updated_at_secs
                <= #[trigger] before[k].updated_at_secs;
    assert(oldest == gone);
    if before.contains_key(other) {
        assert(before[oldest].updated_at_secs <= before[other].updated_at_secs);
    }
}

} // verus!
