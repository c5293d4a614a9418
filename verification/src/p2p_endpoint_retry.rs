//! Bounded failure memory for automatic peer-to-peer work.
//!
//! Times are milliseconds since the table was made.
use vstd::bytes::*;
use vstd::prelude::*;
use vstd::std_specs::hash::DefaultHasherAdditionalSpecFns;
use std::hash::{DefaultHasher, Hasher};

use crate::addr::{IpScheme, PeerId, SocketAddress};
use crate::keyed_table::{KeyedTable, TableKey};

verus! {

pub const P2P_ENDPOINT_RETRY_SHARDS: usize = 64;

pub const P2P_ENDPOINT_RETRY_SHARD_CAPACITY: usize = 1024;

/// The cooldown after the first failure in a row, the second, and so on.
pub open spec fn cooldown_of_stage(stage: int) -> u64 {
    if stage <= 0 {
        60_000
    } else if stage == 1 {
        120_000
    } else if stage == 2 {
        240_000
    } else if stage == 3 {
        480_000
    } else {
        600_000
    }
}

fn cooldown_millis(stage: u8) -> (r: u64)
    ensures
        r == cooldown_of_stage(stage as int),
{
    if stage == 0 {
        60_000
    } else if stage == 1 {
        120_000
    } else if stage == 2 {
        240_000
    } else if stage == 3 {
        480_000
    } else {
        600_000
    }
}

/// A peer, a transport and the endpoint at which the peer is tried.
#[derive(Clone, Copy, Debug, PartialEq, Eq, Hash, Structural)]
pub struct P2pEndpointKey {
    pub peer_id: PeerId,
    pub scheme: IpScheme,
    pub remote_addr: SocketAddress,
}

impl TableKey for P2pEndpointKey {
    fn same(&self, other: &Self) -> (r: bool) {
        *self == *other
    }
}

impl P2pEndpointKey {
    pub fn new(peer_id: PeerId, scheme: IpScheme, remote_addr: SocketAddress) -> (r: Self)
        ensures
            r == (P2pEndpointKey { peer_id, scheme, remote_addr }),
    {
        P2pEndpointKey { peer_id, scheme, remote_addr }
    }

    pub fn peer_id(self) -> (r: PeerId)
        ensures
            r == self.peer_id,
    {
        self.peer_id
    }

    pub fn scheme(self) -> (r: IpScheme)
        ensures
            r == self.scheme,
    {
        self.scheme
    }

    pub fn remote_addr(self) -> (r: SocketAddress)
        ensures
            r == self.remote_addr,
    {
        self.remote_addr
    }

    /// The byte strings that are hashed for the key.
    pub open spec fn hashed_bytes(self) -> Seq<Seq<u8>> {
        let head = seq![
            spec_u32_to_le_bytes(self.peer_id),
            spec_u32_to_le_bytes(self.scheme.rank() as u32),
            spec_u16_to_le_bytes(self.remote_addr.spec_port()),
        ];
        match self.remote_addr {
            SocketAddress::V4 { ipv4, .. } => head.push(spec_u32_to_le_bytes(ipv4)),
            SocketAddress::V6 { ipv6, flowinfo, scope_id, .. } => head.push(
                spec_u128_to_le_bytes(ipv6),
            ).push(spec_u32_to_le_bytes(flowinfo)).push(spec_u32_to_le_bytes(scope_id)),
        }
    }

    fn hash_value(&self) -> (r: u64)
        ensures
            r == DefaultHasher::spec_finish(self.hashed_bytes()),
    {
        let mut hasher = DefaultHasher::new();
        hasher.write(u32_to_le_bytes(self.peer_id).as_slice());
        hasher.write(u32_to_le_bytes(self.scheme.index() as u32).as_slice());
        hasher.write(u16_to_le_bytes(self.remote_addr.port()).as_slice());
        match self.remote_addr {
            SocketAddress::V4 { ipv4, .. } => {
                hasher.write(u32_to_le_bytes(ipv4).as_slice());
            },
            SocketAddress::V6 { ipv6, flowinfo, scope_id, .. } => {
                hasher.write(u128_to_le_bytes(ipv6).as_slice());
                hasher.write(u32_to_le_bytes(flowinfo).as_slice());
                hasher.write(u32_to_le_bytes(scope_id).as_slice());
            },
        }
        assert(hasher@ =~= self.hashed_bytes());
        hasher.finish()
    }
}

/// What is remembered of an endpoint.
#[derive(Clone, Copy, Debug)]
pub struct P2pEndpointRetryEntry {
    pub failure_stage: Option<u8>,
    pub blocked_until_millis: u64,
    pub revision: u64,
    pub last_touched_millis: u64,
}

impl P2pEndpointRetryEntry {
    /// The stage is one of the five, an endpoint is blocked only after a failure, and zero is
    /// never a revision.
    pub open spec fn wf(self) -> bool {
        &&& self.failure_stage is Some ==> self.failure_stage->0 < 5
        &&& self.blocked_until_millis > 0 ==> self.failure_stage is Some
        &&& self.revision != 0
    }

    /// The stage that the next failure brings.
    pub open spec fn next_stage(self) -> int {
        match self.failure_stage {
            None => 0,
            Some(stage) => if stage + 1 < 4 {
                stage + 1
            } else {
                4
            },
        }
    }
}

/// Permission to try an endpoint, with the revision of what was known then. Revision zero
/// belongs to an attempt that is not tracked.
#[derive(Clone, Copy, Debug, PartialEq, Eq, Structural)]
pub struct P2pEndpointAttempt {
    pub key: P2pEndpointKey,
    pub observed_revision: u64,
}

impl P2pEndpointAttempt {
    pub fn key(&self) -> (r: P2pEndpointKey)
        ensures
            r == self.key,
    {
        self.key
    }
}

/// Why an endpoint may not be tried: its stage, counted from one, and the time left.
#[derive(Clone, Copy, Debug, PartialEq, Eq, Structural)]
pub struct P2pEndpointCooldown {
    pub stage: u8,
    pub remaining_millis: u64,
}

impl P2pEndpointCooldown {
    pub fn stage(self) -> (r: u8)
        ensures
            r == self.stage,
    {
        self.stage
    }

    pub fn remaining(self) -> (r: u64)
        ensures
            r == self.remaining_millis,
    {
        self.remaining_millis
    }
}

/// What a failure led to: the stage, counted from one, and the cooldown.
#[derive(Clone, Copy, Debug, PartialEq, Eq, Structural)]
pub struct P2pEndpointFailureUpdate {
    pub stage: u8,
    pub cooldown_millis: u64,
}

impl P2pEndpointFailureUpdate {
    pub fn stage(self) -> (r: u8)
        ensures
            r == self.stage,
    {
        self.stage
    }

    pub fn cooldown(self) -> (r: u64)
        ensures
            r == self.cooldown_millis,
    {
        self.cooldown_millis
    }
}

/// The table as a mathematical value.
pub ghost struct RetryState {
    pub shards: Seq<Map<P2pEndpointKey, P2pEndpointRetryEntry>>,
    pub capacity: nat,
    pub disabled: bool,
    pub last_revision: u64,
}

/// The shard of `key` in a table of `count` shards.
pub open spec fn shard_of(key: P2pEndpointKey, count: int) -> int {
    ((DefaultHasher::spec_finish(key.hashed_bytes()) as usize) & ((count - 1) as usize)) as int
}

/// The revision that follows `revision`: the next number, zero left out.
pub open spec fn revision_after(revision: u64) -> u64 {
    if revision == u64::MAX {
        1
    } else {
        (revision + 1) as u64
    }
}

/// `after` is `before` with room for one more entry: a full shard loses one of the entries
/// touched the longest ago.
pub open spec fn makes_room(
    before: Map<P2pEndpointKey, P2pEndpointRetryEntry>,
    capacity: nat,
    after: Map<P2pEndpointKey, P2pEndpointRetryEntry>,
) -> bool {
    if before.len() < capacity {
        after == before
    } else {
        exists|oldest: P2pEndpointKey| #[trigger]
            before.contains_key(oldest) && after == before.remove(oldest) && forall|
                k: P2pEndpointKey,
            |
                before.contains_key(k) ==> before[oldest].last_touched_millis
                    <= #[trigger] before[k].last_touched_millis
    }
}

/// The number of entries in some shards.
pub open spec fn entries_in(shards: Seq<Map<P2pEndpointKey, P2pEndpointRetryEntry>>) -> nat
    decreases shards.len(),
{
    if shards.len() == 0 {
        0
    } else {
        entries_in(shards.drop_last()) + shards.last().len()
    }
}

proof fn lemma_entries_grow(shards: Seq<Map<P2pEndpointKey, P2pEndpointRetryEntry>>, n: int)
    requires
        0 <= n <= shards.len(),
    ensures
        entries_in(shards.take(n)) <= entries_in(shards),
    decreases shards.len() - n,
{
    if n < shards.len() {
        lemma_entries_grow(shards, n + 1);
        assert(shards.take(n + 1).drop_last() =~= shards.take(n));
    } else {
        assert(shards.take(n) =~= shards);
    }
}

impl RetryState {
    pub open spec fn wf(self) -> bool {
        &&& self.shards.len() > 0
        &&& self.shards.len() <= usize::MAX
        &&& self.capacity > 0
        &&& forall|i: int| #![trigger self.shards[i]]
            0 <= i < self.shards.len() ==> {
                &&& self.shards[i].dom().finite()
                &&& self.shards[i].len() <= self.capacity
                &&& forall|k: P2pEndpointKey| #[trigger]
                    self.shards[i].contains_key(k) ==> self.shards[i][k].wf() && shard_of(
                        k,
                        self.shards.len() as int,
                    ) == i
            }
    }

    /// The shard that holds what is known of `key`.
    pub open spec fn home(self, key: P2pEndpointKey) -> Map<P2pEndpointKey, P2pEndpointRetryEntry> {
        self.shards[shard_of(key, self.shards.len() as int)]
    }

    /// What is known of `key`.
    pub open spec fn known(self, key: P2pEndpointKey) -> Option<P2pEndpointRetryEntry> {
        if self.home(key).contains_key(key) {
            Some(self.home(key)[key])
        } else {
            None
        }
    }

    /// The same table with another content of the shard of `key`.
    pub open spec fn with_home(
        self,
        key: P2pEndpointKey,
        content: Map<P2pEndpointKey, P2pEndpointRetryEntry>,
    ) -> RetryState {
        RetryState {
            shards: self.shards.update(shard_of(key, self.shards.len() as int), content),
            ..self
        }
    }

    /// Asking at time `now` to try `key` answers `r` and leaves `after`.
    pub open spec fn begins(
        self,
        key: P2pEndpointKey,
        now: u64,
        r: Result<P2pEndpointAttempt, P2pEndpointCooldown>,
        after: RetryState,
    ) -> bool {
        if self.disabled {
            r == Ok::<P2pEndpointAttempt, P2pEndpointCooldown>(
                P2pEndpointAttempt { key, observed_revision: 0 },
            ) && after == self
        } else {
            match self.known(key) {
                Some(entry) => {
                    &&& after == self.with_home(
                        key,
                        self.home(key).insert(
                            key,
                            P2pEndpointRetryEntry { last_touched_millis: now, ..entry },
                        ),
                    )
                    &&& r == (if now < entry.blocked_until_millis {
                        Err(
                            P2pEndpointCooldown {
                                stage: (entry.failure_stage->0 + 1) as u8,
                                remaining_millis: (entry.blocked_until_millis - now) as u64,
                            },
                        )
                    } else {
                        Ok(P2pEndpointAttempt { key, observed_revision: entry.revision })
                    })
                },
                None => {
                    let revision = revision_after(self.last_revision);
                    let fresh = P2pEndpointRetryEntry {
                        failure_stage: None,
                        blocked_until_millis: 0,
                        revision,
                        last_touched_millis: now,
                    };
                    &&& r == Ok::<P2pEndpointAttempt, P2pEndpointCooldown>(
                        P2pEndpointAttempt { key, observed_revision: revision },
                    )
                    &&& exists|room: Map<P2pEndpointKey, P2pEndpointRetryEntry>| #[trigger]
                        makes_room(self.home(key), self.capacity, room) && after == (RetryState {
                            last_revision: revision,
                            ..self.with_home(key, room.insert(key, fresh))
                        })
                },
            }
        }
    }

    /// Reporting at time `now` that `attempt` failed answers `r` and leaves `after`.
    pub open spec fn fails(
        self,
        attempt: P2pEndpointAttempt,
        now: u64,
        r: Option<P2pEndpointFailureUpdate>,
        after: RetryState,
    ) -> bool {
        let known = self.known(attempt.key);
        if attempt.observed_revision == 0 || self.disabled || known is None || known->0.revision
            != attempt.observed_revision {
            r is None && after == self
        } else {
            let stage = known->0.next_stage();
            let cooldown = cooldown_of_stage(stage);
            let revision = revision_after(self.last_revision);
            let entry = P2pEndpointRetryEntry {
                failure_stage: Some(stage as u8),
                blocked_until_millis: if now + cooldown > u64::MAX {
                    u64::MAX
                } else {
                    (now + cooldown) as u64
                },
                revision,
                last_touched_millis: now,
            };
            &&& r == Some(
                P2pEndpointFailureUpdate { stage: (stage + 1) as u8, cooldown_millis: cooldown },
            )
            &&& after == (RetryState {
                last_revision: revision,
                ..self.with_home(attempt.key, self.home(attempt.key).insert(attempt.key, entry))
            })
        }
    }

    /// The table after `attempt` succeeded.
    pub open spec fn after_success(self, attempt: P2pEndpointAttempt) -> RetryState {
        if attempt.observed_revision == 0 {
            self
        } else {
            self.with_home(attempt.key, self.home(attempt.key).remove(attempt.key))
        }
    }

    /// The table after it was switched off or on.
    pub open spec fn switched(self, disabled: bool) -> RetryState {
        RetryState {
            disabled,
            shards: if disabled {
                Seq::new(self.shards.len(), |i: int| Map::empty())
            } else {
                self.shards
            },
            ..self
        }
    }
}

/// The failure memory: a fixed number of shards of bounded size.
pub struct P2pEndpointRetryTable {
    shards: Vec<KeyedTable<P2pEndpointKey, P2pEndpointRetryEntry>>,
    shard_capacity: usize,
    disabled: bool,
    last_revision: u64,
}

impl View for P2pEndpointRetryTable {
    type V = RetryState;

    closed spec fn view(&self) -> RetryState {
        RetryState {
            shards: Seq::new(self.shards@.len(), |i: int| self.shards@[i]@),
            capacity: self.shard_capacity as nat,
            disabled: self.disabled,
            last_revision: self.last_revision,
        }
    }
}

impl Default for P2pEndpointRetryTable {
    fn default() -> (r: Self)
        ensures
            r.wf(),
            r@.shards == Seq::new(
                P2P_ENDPOINT_RETRY_SHARDS as nat,
                |i: int| Map::<P2pEndpointKey, P2pEndpointRetryEntry>::empty(),
            ),
            r@.capacity == P2P_ENDPOINT_RETRY_SHARD_CAPACITY,
            !r@.disabled,
            r@.last_revision == 0,
    {
        Self::new(false)
    }
}

impl P2pEndpointRetryTable {
    pub closed spec fn wf(&self) -> bool {
        &&& self@.wf()
        &&& forall|i: int| 0 <= i < self.shards@.len() ==> (#[trigger] self.shards@[i]).wf()
    }

    /// The capacity is hard: a table never holds more endpoints than its shards have room for.
    pub proof fn law_capacity_is_hard(&self)
        requires
            self.wf(),
        ensures
            self@.wf(),
            forall|i: int|
                0 <= i < self@.shards.len() ==> #[trigger] self@.shards[i].len() <= self@.capacity,
    {
    }

    pub fn new(disabled: bool) -> (r: Self)
        ensures
            r.wf(),
            r@.shards == Seq::new(
                P2P_ENDPOINT_RETRY_SHARDS as nat,
                |i: int| Map::<P2pEndpointKey, P2pEndpointRetryEntry>::empty(),
            ),
            r@.capacity == P2P_ENDPOINT_RETRY_SHARD_CAPACITY,
            r@.disabled == disabled,
            r@.last_revision == 0,
    {
        assert(64usize & 63usize == 0) by (bit_vector);
        Self::with_limits_and_disabled(
            P2P_ENDPOINT_RETRY_SHARDS,
            P2P_ENDPOINT_RETRY_SHARD_CAPACITY,
            disabled,
        )
    }

    pub fn with_limits(shard_count: usize, shard_capacity: usize) -> (r: Self)
        requires
            shard_count > 0,
            shard_count & ((shard_count - 1) as usize) == 0,
            shard_capacity > 0,
        ensures
            r.wf(),
            r@.shards == Seq::new(
                shard_count as nat,
                |i: int| Map::<P2pEndpointKey, P2pEndpointRetryEntry>::empty(),
            ),
            r@.capacity == shard_capacity,
            !r@.disabled,
            r@.last_revision == 0,
    {
        Self::with_limits_and_disabled(shard_count, shard_capacity, false)
    }

    /// A table of `shard_count` empty shards; the count is a power of two.
    pub fn with_limits_and_disabled(
        shard_count: usize,
        shard_capacity: usize,
        disabled: bool,
    ) -> (r: Self)
        requires
            shard_count > 0,
            shard_count & ((shard_count - 1) as usize) == 0,
            shard_capacity > 0,
        ensures
            r.wf(),
            r@.shards == Seq::new(
                shard_count as nat,
                |i: int| Map::<P2pEndpointKey, P2pEndpointRetryEntry>::empty(),
            ),
            r@.capacity == shard_capacity,
            r@.disabled == disabled,
            r@.last_revision == 0,
    {
        let shards = Self::with_count(shard_count);
        let r = P2pEndpointRetryTable { shards, shard_capacity, disabled, last_revision: 0 };
        assert(r@.shards =~= Seq::new(
            shard_count as nat,
            |i: int| Map::<P2pEndpointKey, P2pEndpointRetryEntry>::empty(),
        ));
        r
    }

    /// Switches the memory off or on. Switching it off forgets everything, so that switching it
    /// on again starts from an empty table.
    pub fn set_disabled(&mut self, disabled: bool)
        requires
            old(self).wf(),
        ensures
            final(self).wf(),
            final(self)@ == old(self)@.switched(disabled),
    {
        self.disabled = disabled;
        if disabled {
            let count: usize = self.shards.len();
            let emptied = Self::with_count(count);
            self.shards = emptied;
        }
        proof {
            assert(self@.shards =~= old(self)@.switched(disabled).shards);
        }
    }

    fn with_count(count: usize) -> (r: Vec<KeyedTable<P2pEndpointKey, P2pEndpointRetryEntry>>)
        ensures
            r@.len() == count,
            forall|j: int|
                0 <= j < count ==> (#[trigger] r@[j]).wf() && r@[j]@ == Map::<
                    P2pEndpointKey,
                    P2pEndpointRetryEntry,
                >::empty(),
    {
        let mut shards: Vec<KeyedTable<P2pEndpointKey, P2pEndpointRetryEntry>> = Vec::new();
        let mut i: usize = 0;
        while i < count
            invariant
                i <= count,
                shards@.len() == i,
                forall|j: int|
                    0 <= j < i ==> (#[trigger] shards@[j]).wf() && shards@[j]@ == Map::<
                        P2pEndpointKey,
                        P2pEndpointRetryEntry,
                    >::empty(),
            decreases count - i,
        {
            shards.push(KeyedTable::new());
            i += 1;
        }
        shards
    }

    pub fn is_disabled(&self) -> (r: bool)
        ensures
            r == self@.disabled,
    {
        self.disabled
    }

    /// What is known of an endpoint.
    pub fn entry(&self, key: &P2pEndpointKey) -> (r: Option<P2pEndpointRetryEntry>)
        requires
            self.wf(),
        ensures
            r == self@.known(*key),
    {
        let index = self.shard_index(key);
        self.shards[index].get(key)
    }

    /// The number of endpoints of which something is known.
    pub fn len(&self) -> (r: usize)
        requires
            self.wf(),
            entries_in(self@.shards) <= usize::MAX,
        ensures
            r == entries_in(self@.shards),
    {
        let mut total: usize = 0;
        let mut i: usize = 0;
        assert(self@.shards.take(0) =~= Seq::<
            Map<P2pEndpointKey, P2pEndpointRetryEntry>,
        >::empty());
        while i < self.shards.len()
            invariant
                self.wf(),
                i <= self.shards@.len(),
                self@.shards.len() == self.shards@.len(),
                entries_in(self@.shards) <= usize::MAX,
                total == entries_in(self@.shards.take(i as int)),
            decreases self.shards@.len() - i,
        {
            proof {
                let next = self@.shards.take(i as int + 1);
                assert(next.drop_last() =~= self@.shards.take(i as int));
                assert(next.last() == self.shards@[i as int]@);
                lemma_entries_grow(self@.shards, i as int + 1);
            }
            total = total + self.shards[i].len();
            i += 1;
        }
        assert(self@.shards.take(self@.shards.len() as int) =~= self@.shards);
        total
    }

    fn next_revision(&mut self) -> (r: u64)
        requires
            old(self).wf(),
        ensures
            final(self).wf(),
            final(self)@ == (RetryState { last_revision: r, ..old(self)@ }),
            r == revision_after(old(self)@.last_revision),
            final(self).shards == old(self).shards,
    {
        let next: u64 = self.last_revision.wrapping_add(1);
        let revision: u64 = if next != 0 {
            next
        } else {
            1
        };
        self.last_revision = revision;
        assert(self@.shards =~= old(self)@.shards);
        revision
    }

    fn shard_index(&self, key: &P2pEndpointKey) -> (r: usize)
        requires
            self.wf(),
        ensures
            r == shard_of(*key, self@.shards.len() as int),
            r < self@.shards.len(),
    {
        let hash: usize = key.hash_value() as usize;
        let mask: usize = self.shards.len() - 1;
        assert(hash & mask <= mask) by (bit_vector);
        hash & mask
    }

    /// Takes one of the entries touched the longest ago out of a full shard.
    fn evict_oldest_if_full(
        shard: &mut KeyedTable<P2pEndpointKey, P2pEndpointRetryEntry>,
        shard_capacity: usize,
    )
        requires
            old(shard).wf(),
            shard_capacity > 0,
        ensures
            final(shard).wf(),
            makes_room(old(shard)@, shard_capacity as nat, final(shard)@),
    {
        if shard.len() < shard_capacity {
            return;
        }
        let count: usize = shard.len();
        let mut oldest: usize = 0;
        let mut i: usize = 1;
        while i < count
            invariant
                count == shard.pairs().len(),
                shard.wf(),
                oldest < i <= count,
                forall|j: int|
                    0 <= j < i ==> shard.pairs()[oldest as int].1.last_touched_millis <= (
                    #[trigger] shard.pairs()[j]).1.last_touched_millis,
            decreases count - i,
        {
            if shard.at(i).1.last_touched_millis < shard.at(oldest).1.last_touched_millis {
                oldest = i;
            }
            i += 1;
        }
        proof {
            old(shard).lemma_view();
        }
        let pair = shard.remove_at(oldest);
        proof {
            assert forall|k: P2pEndpointKey| old(shard)@.contains_key(k) implies old(
                shard,
            )@[pair.0].last_touched_millis <= #[trigger] old(shard)@[k].last_touched_millis by {
                let j = choose|j: int|
                    0 <= j < old(shard).pairs().len() && (#[trigger] old(shard).pairs()[j]).0 == k;
                assert(old(shard)@[old(shard).pairs()[j].0] == old(shard).pairs()[j].1);
            }
            assert(old(shard)@.contains_key(pair.0));
        }
    }

    /// Asks at time `now_millis` to try an endpoint.
    pub fn begin_at(&mut self, key: P2pEndpointKey, now_millis: u64) -> (r: Result<
        P2pEndpointAttempt,
        P2pEndpointCooldown,
    >)
        requires
            old(self).wf(),
        ensures
            final(self).wf(),
            old(self)@.begins(key, now_millis, r, final(self)@),
    {
        if self.is_disabled() {
            return Ok(P2pEndpointAttempt { key, observed_revision: 0 });
        }
        let index: usize = self.shard_index(&key);
        let mut shard: KeyedTable<P2pEndpointKey, P2pEndpointRetryEntry> = KeyedTable::new();
        let ghost home = self@.home(key);
        proof {
            assert(self@.shards[index as int] == self.shards@[index as int]@);
            self.shards@[index as int].lemma_view();
        }
        let found = self.shards[index].get(&key);
        if let Some(entry) = found {
            let touched = P2pEndpointRetryEntry { last_touched_millis: now_millis, ..entry };
            let blocked = now_millis < entry.blocked_until_millis;
            self.update_entry(index, key, touched);
            if blocked {
                let stage: u8 = match entry.failure_stage {
                    Some(stage) => stage,
                    None => 0,
                };
                return Err(
                    P2pEndpointCooldown {
                        stage: stage + 1,
                        remaining_millis: entry.blocked_until_millis - now_millis,
                    },
                );
            }
            return Ok(P2pEndpointAttempt { key, observed_revision: entry.revision });
        }
        std::mem::swap(&mut shard, &mut self.shards[index]);
        Self::evict_oldest_if_full(&mut shard, self.shard_capacity);
        let ghost room = shard@;
        let next: u64 = self.last_revision.wrapping_add(1);
        let revision: u64 = if next != 0 {
            next
        } else {
            1
        };
        shard.push_new(
            key,
            P2pEndpointRetryEntry {
                failure_stage: None,
                blocked_until_millis: 0,
                revision,
                last_touched_millis: now_millis,
            },
        );
        self.last_revision = revision;
        self.shards.set(index, shard);
        proof {
            assert(makes_room(home, self.shard_capacity as nat, room));
            let fresh = P2pEndpointRetryEntry {
                failure_stage: None,
                blocked_until_millis: 0,
                revision,
                last_touched_millis: now_millis,
            };
            assert(self@.shards =~= old(self)@.shards.update(index as int, room.insert(key, fresh)));
        }
        Ok(P2pEndpointAttempt { key, observed_revision: revision })
    }

    /// Stores `entry` under `key` in the shard at `index`.
    fn update_entry(&mut self, index: usize, key: P2pEndpointKey, entry: P2pEndpointRetryEntry)
        requires
            old(self).wf(),
            index < old(self).shards@.len(),
            index == shard_of(key, old(self)@.shards.len() as int),
            old(self)@.home(key).contains_key(key),
            entry.wf(),
        ensures
            final(self).wf(),
            final(self)@ == old(self)@.with_home(key, old(self)@.home(key).insert(key, entry)),
    {
        let mut shard: KeyedTable<P2pEndpointKey, P2pEndpointRetryEntry> = KeyedTable::new();
        std::mem::swap(&mut shard, &mut self.shards[index]);
        shard.insert(key, entry);
        self.shards.set(index, shard);
        proof {
            let after = old(self)@.home(key).insert(key, entry);
            assert(self@.shards =~= old(self)@.shards.update(index as int, after));
            assert(self@.shards[index as int] == after);
        }
    }

    /// Reports at time `now_millis` that an attempt failed. Only the first report for a
    /// revision counts.
    pub fn failed_at(&mut self, attempt: P2pEndpointAttempt, now_millis: u64) -> (r: Option<
        P2pEndpointFailureUpdate,
    >)
        requires
            old(self).wf(),
        ensures
            final(self).wf(),
            old(self)@.fails(attempt, now_millis, r, final(self)@),
    {
        if attempt.observed_revision == 0 || self.is_disabled() {
            return None;
        }
        let index: usize = self.shard_index(&attempt.key);
        proof {
            assert(self@.shards[index as int] == self.shards@[index as int]@);
        }
        let entry = match self.shards[index].get(&attempt.key) {
            Some(entry) => entry,
            None => {
                return None;
            },
        };
        if entry.revision != attempt.observed_revision {
            return None;
        }
        let stage_index: u8 = match entry.failure_stage {
            None => 0,
            Some(stage) => if stage + 1 < 4 {
                stage + 1
            } else {
                4
            },
        };
        let cooldown: u64 = cooldown_millis(stage_index);
        let revision: u64 = self.next_revision();
        self.update_entry(
            index,
            attempt.key,
            P2pEndpointRetryEntry {
                failure_stage: Some(stage_index),
                blocked_until_millis: now_millis.saturating_add(cooldown),
                revision,
                last_touched_millis: now_millis,
            },
        );
        Some(P2pEndpointFailureUpdate { stage: stage_index + 1, cooldown_millis: cooldown })
    }

    /// Reports that an attempt succeeded: what was known of the endpoint is forgotten.
    pub fn succeeded(&mut self, attempt: P2pEndpointAttempt)
        requires
            old(self).wf(),
        ensures
            final(self).wf(),
            final(self)@ == old(self)@.after_success(attempt),
    {
        if attempt.observed_revision == 0 {
            return;
        }
        let index: usize = self.shard_index(&attempt.key);
        let mut shard: KeyedTable<P2pEndpointKey, P2pEndpointRetryEntry> = KeyedTable::new();
        std::mem::swap(&mut shard, &mut self.shards[index]);
        shard.remove(&attempt.key);
        self.shards.set(index, shard);
        proof {
            let after = old(self)@.home(attempt.key).remove(attempt.key);
            assert(self@.shards =~= old(self)@.shards.update(index as int, after));
            assert(self@.shards[index as int] == after);
        }
    }
}

/// A counted failure blocks the endpoint for exactly the cooldown that it answers with: until
/// then every request is refused with the time that is left, and from then on it is granted.
pub proof fn law_failure_blocks_for_its_cooldown(
    state: RetryState,
    attempt: P2pEndpointAttempt,
    now: u64,
    update: P2pEndpointFailureUpdate,
    failed: RetryState,
    later: u64,
    answer: Result<P2pEndpointAttempt, P2pEndpointCooldown>,
    asked: RetryState,
)
    requires
        state.wf(),
        state.fails(attempt, now, Some(update), failed),
        now + update.cooldown_millis <= u64::MAX,
        failed.begins(attempt.key, later, answer, asked),
    ensures
        later < now + update.cooldown_millis ==> answer == Err::<
            P2pEndpointAttempt,
            P2pEndpointCooldown,
        >(
            P2pEndpointCooldown {
                stage: update.stage,
                remaining_millis: (now + update.cooldown_millis - later) as u64,
            },
        ),
        later >= now + update.cooldown_millis ==> answer is Ok,
{
    lemma_shard_in_range(attempt.key, state.shards.len() as int);
}

/// Failures in a row go through the stages one by one and stay on the fifth, with ten minutes.
pub proof fn law_stage_grows_to_its_cap(
    state: RetryState,
    attempt: P2pEndpointAttempt,
    now: u64,
    update: P2pEndpointFailureUpdate,
    failed: RetryState,
)
    requires
        state.wf(),
        state.fails(attempt, now, Some(update), failed),
    ensures
        1 <= update.stage <= 5,
        update.cooldown_millis <= 600_000,
        state.known(attempt.key)->0.failure_stage is None ==> update.stage == 1,
        state.known(attempt.key)->0.failure_stage is Some ==> update.stage == (if state.known(
            attempt.key,
        )->0.failure_stage->0 + 2 < 5 {
            state.known(attempt.key)->0.failure_stage->0 + 2
        } else {
            5
        }),
        failed.known(attempt.key)->0.failure_stage == Some((update.stage - 1) as u8),
{
    lemma_shard_in_range(attempt.key, state.shards.len() as int);
}

/// Of several attempts that saw the same revision, only the first reported failure counts.
pub proof fn law_one_failure_per_revision(
    state: RetryState,
    first: P2pEndpointAttempt,
    second: P2pEndpointAttempt,
    now: u64,
    later: u64,
    update: P2pEndpointFailureUpdate,
    failed: RetryState,
    answer: Option<P2pEndpointFailureUpdate>,
    after: RetryState,
)
    requires
        state.wf(),
        first.key == second.key,
        first.observed_revision == second.observed_revision,
        revision_after(state.last_revision) != first.observed_revision,
        state.fails(first, now, Some(update), failed),
        failed.fails(second, later, answer, after),
    ensures
        answer is None,
        after == failed,
{
    lemma_shard_in_range(first.key, state.shards.len() as int);
}

/// A call of the table, with its answer.
pub ghost enum RetryCall {
    Begin {
        key: P2pEndpointKey,
        now: u64,
        answer: Result<P2pEndpointAttempt, P2pEndpointCooldown>,
    },
    Fail { attempt: P2pEndpointAttempt, now: u64, update: Option<P2pEndpointFailureUpdate> },
    Succeed { attempt: P2pEndpointAttempt },
    Switch { disabled: bool },
}

impl RetryCall {
    /// The call grants the attempt.
    pub open spec fn grants(self, attempt: P2pEndpointAttempt) -> bool {
        self matches RetryCall::Begin { key, answer, .. } && answer == Ok::<
            P2pEndpointAttempt,
            P2pEndpointCooldown,
        >(attempt) && attempt.key == key
    }

    /// The call settles what is known of an endpoint: a failure that counts, or the success of an
    /// attempt that is tracked.
    pub open spec fn settles(self, key: P2pEndpointKey) -> bool {
        match self {
            RetryCall::Fail { attempt, update, .. } => attempt.key == key && update is Some,
            RetryCall::Succeed { attempt } => attempt.key == key && attempt.observed_revision != 0,
            _ => false,
        }
    }
}

impl RetryState {
    /// The call leaves `after`.
    pub open spec fn takes(self, call: RetryCall, after: RetryState) -> bool {
        match call {
            RetryCall::Begin { key, now, answer } => self.begins(key, now, answer, after),
            RetryCall::Fail { attempt, now, update } => self.fails(attempt, now, update, after),
            RetryCall::Succeed { attempt } => after == self.after_success(attempt),
            RetryCall::Switch { disabled } => after == self.switched(disabled),
        }
    }

    /// No endpoint has a revision that was not handed out yet.
    pub open spec fn numbered(self) -> bool {
        forall|k: P2pEndpointKey|
            (#[trigger] self.known(k)) is Some ==> self.known(k)->0.revision <= self.last_revision
    }

    /// Nothing is known of the endpoint that an attempt with such a revision could have seen.
    pub open spec fn outdates(self, key: P2pEndpointKey, revision: u64) -> bool {
        self.known(key) is Some ==> self.known(key)->0.revision > revision
    }
}

/// The states of a table before, between and after some calls.
pub open spec fn runs_through(states: Seq<RetryState>, calls: Seq<RetryCall>) -> bool {
    &&& states.len() == calls.len() + 1
    &&& forall|i: int| 0 <= i < calls.len() ==> #[trigger] states[i].takes(calls[i], states[i + 1])
}

/// What one call does to what is known of any endpoint.
proof fn lemma_known_after(state: RetryState, call: RetryCall, after: RetryState, k: P2pEndpointKey)
    requires
        0 < state.shards.len() <= usize::MAX,
        state.last_revision < u64::MAX,
        state.takes(call, after),
    ensures
        after.shards.len() == state.shards.len(),
        after.last_revision >= state.last_revision,
        after.known(k) is Some ==> (state.known(k) is Some && after.known(k)->0.revision
            == state.known(k)->0.revision) || (after.known(k)->0.revision == after.last_revision
            && after.last_revision > state.last_revision),
        call.settles(k) ==> after.outdates(k, state.last_revision),
        forall|attempt: P2pEndpointAttempt| #[trigger]
            call.grants(attempt) && attempt.key == k && attempt.observed_revision != 0
                ==> attempt.observed_revision == after.last_revision || (state.known(k) is Some
                && attempt.observed_revision == state.known(k)->0.revision),
{
    lemma_shard_in_range(k, state.shards.len() as int);
    match call {
        RetryCall::Begin { key, now, answer } => {
            lemma_shard_in_range(key, state.shards.len() as int);
            if !state.disabled && state.known(key) is None {
                let room = choose|room: Map<P2pEndpointKey, P2pEndpointRetryEntry>|
                    #[trigger] makes_room(state.home(key), state.capacity, room) && after == (
                    RetryState {
                        last_revision: revision_after(state.last_revision),
                        ..state.with_home(
                            key,
                            room.insert(
                                key,
                                P2pEndpointRetryEntry {
                                    failure_stage: None,
                                    blocked_until_millis: 0,
                                    revision: revision_after(state.last_revision),
                                    last_touched_millis: now,
                                },
                            ),
                        )
                    });
                assert(room.submap_of(state.home(key)));
                if k != key && after.known(k) is Some && shard_of(k, state.shards.len() as int)
                    == shard_of(key, state.shards.len() as int) {
                    assert(room.contains_key(k));
                    assert(state.home(key).contains_key(k));
                }
            }
        },
        RetryCall::Fail { attempt, .. } => {
            lemma_shard_in_range(attempt.key, state.shards.len() as int);
        },
        RetryCall::Succeed { attempt } => {
            lemma_shard_in_range(attempt.key, state.shards.len() as int);
        },
        RetryCall::Switch { .. } => {},
    }
}

/// Along a run revisions only grow, so that what outdates an attempt goes on outdating it.
proof fn lemma_run(
    states: Seq<RetryState>,
    calls: Seq<RetryCall>,
    from: int,
    to: int,
    key: P2pEndpointKey,
    revision: u64,
)
    requires
        runs_through(states, calls),
        0 <= from <= to < states.len(),
        forall|i: int| 0 <= i < states.len() ==> (#[trigger] states[i]).last_revision < u64::MAX,
        0 < states[from].shards.len() <= usize::MAX,
        states[from].numbered(),
    ensures
        states[to].shards.len() == states[from].shards.len(),
        states[to].numbered(),
        states[to].last_revision >= states[from].last_revision,
        revision <= states[from].last_revision && states[from].outdates(key, revision)
            ==> states[to].outdates(key, revision),
    decreases to - from,
{
    if from < to {
        lemma_run(states, calls, from, to - 1, key, revision);
        let state = states[to - 1];
        let after = states[to];
        assert(states[to - 1].takes(calls[to - 1], states[to - 1 + 1]));
        assert forall|k: P2pEndpointKey| (#[trigger] after.known(k)) is Some implies after.known(
            k,
        )->0.revision <= after.last_revision by {
            lemma_known_after(state, calls[to - 1], after, k);
            assert(state.known(k) is Some ==> state.known(k)->0.revision <= state.last_revision);
        }
        lemma_known_after(state, calls[to - 1], after, key);
    }
}

/// One observed revision is settled at most once. Once an endpoint is settled by a failure that
/// counts or by a success, the failure of any attempt that was granted before counts no more and
/// changes nothing, whatever calls stand between. In particular a stage advances once for all
/// attempts that saw it, and an old failure does not bring back a cooldown that was cleared. The
/// revisions are taken not to have wrapped around.
pub proof fn law_settled_attempts_stay_settled(
    states: Seq<RetryState>,
    calls: Seq<RetryCall>,
    granted: int,
    settled: int,
    late: int,
    attempt: P2pEndpointAttempt,
)
    requires
        runs_through(states, calls),
        states[0].wf(),
        states[0].numbered(),
        forall|i: int| 0 <= i < states.len() ==> (#[trigger] states[i]).last_revision < u64::MAX,
        0 <= granted < settled < late < calls.len(),
        calls[granted].grants(attempt),
        calls[settled].settles(attempt.key),
        calls[late] is Fail,
        calls[late]->Fail_attempt == attempt,
    ensures
        calls[late]->update is None,
        states[late + 1] == states[late],
{
    let key = attempt.key;
    lemma_run(states, calls, 0, granted, key, 0);
    lemma_run(states, calls, 0, granted + 1, key, 0);
    lemma_run(states, calls, granted + 1, settled, key, 0);
    assert(states[granted].takes(calls[granted], states[granted + 1]));
    lemma_known_after(states[granted], calls[granted], states[granted + 1], key);
    assert(states[granted].known(key) is Some ==> states[granted].known(key)->0.revision
        <= states[granted].last_revision);
    assert(attempt.observed_revision <= states[settled].last_revision);
    assert(states[settled].takes(calls[settled], states[settled + 1]));
    lemma_known_after(states[settled], calls[settled], states[settled + 1], key);
    lemma_run(states, calls, settled, settled + 1, key, 0);
    lemma_run(states, calls, settled + 1, late, key, states[settled].last_revision);
    assert(states[late].takes(calls[late], states[late + 1]));
    lemma_shard_in_range(key, states[late].shards.len() as int);
}

/// A table that holds nothing holds no revision that was not handed out.
pub proof fn law_new_table_is_numbered(table: P2pEndpointRetryTable)
    requires
        table@.shards.len() > 0,
        table@.shards.len() <= usize::MAX,
        forall|i: int|
            0 <= i < table@.shards.len() ==> #[trigger] table@.shards[i] == Map::<
                P2pEndpointKey,
                P2pEndpointRetryEntry,
            >::empty(),
    ensures
        table@.numbered(),
{
    assert forall|k: P2pEndpointKey| (#[trigger] table@.known(k)) is Some implies table@.known(
        k,
    )->0.revision <= table@.last_revision by {
        lemma_shard_in_range(k, table@.shards.len() as int);
    }
}

/// A success clears the endpoint: the next request is granted, and the failure of an attempt
/// that was granted before the success no longer counts.
pub proof fn law_success_clears_the_endpoint(
    state: RetryState,
    attempt: P2pEndpointAttempt,
    stale: P2pEndpointAttempt,
    now: u64,
    answer: Result<P2pEndpointAttempt, P2pEndpointCooldown>,
    asked: RetryState,
    stale_answer: Option<P2pEndpointFailureUpdate>,
    after: RetryState,
)
    requires
        state.wf(),
        attempt.observed_revision != 0,
        stale.key == attempt.key,
        state.after_success(attempt).begins(attempt.key, now, answer, asked),
        state.after_success(attempt).fails(stale, now, stale_answer, after),
    ensures
        answer is Ok,
        stale_answer is None,
        after == state.after_success(attempt),
{
    lemma_shard_in_range(attempt.key, state.shards.len() as int);
}

/// What is reported of one endpoint changes nothing for another one: peer, transport, address
/// and port each tell endpoints apart.
pub proof fn law_endpoints_are_independent(
    state: RetryState,
    attempt: P2pEndpointAttempt,
    now: u64,
    answer: Option<P2pEndpointFailureUpdate>,
    failed: RetryState,
    other: P2pEndpointKey,
)
    requires
        state.wf(),
        other != attempt.key,
        state.fails(attempt, now, answer, failed),
    ensures
        failed.known(other) == state.known(other),
        state.after_success(attempt).known(other) == state.known(other),
{
    lemma_shard_in_range(attempt.key, state.shards.len() as int);
    lemma_shard_in_range(other, state.shards.len() as int);
}

/// A disabled table grants every request, counts no failure and remembers nothing; switching
/// it on again starts from an empty table.
pub proof fn law_disabled_table_is_stateless(
    state: RetryState,
    key: P2pEndpointKey,
    now: u64,
    answer: Result<P2pEndpointAttempt, P2pEndpointCooldown>,
    asked: RetryState,
    attempt: P2pEndpointAttempt,
    failure: Option<P2pEndpointFailureUpdate>,
    failed: RetryState,
)
    requires
        state.wf(),
        state.switched(true).begins(key, now, answer, asked),
        state.switched(true).fails(attempt, now, failure, failed),
    ensures
        answer is Ok,
        failure is None,
        asked == state.switched(true),
        failed == state.switched(true),
        state.switched(true).switched(false).known(key) is None,
{
    lemma_shard_in_range(key, state.shards.len() as int);
}

/// A key belongs to one of the shards.
pub proof fn lemma_shard_in_range(key: P2pEndpointKey, count: int)
    requires
        0 < count <= usize::MAX,
    ensures
        0 <= shard_of(key, count) < count,
{
    let hash = DefaultHasher::spec_finish(key.hashed_bytes()) as usize;
    let mask = (count - 1) as usize;
    assert(hash & mask <= mask) by (bit_vector);
}

/// The first cooldown is a minute, each further one twice as long as the one before, and none longer than
/// ten minutes.
pub proof fn law_cooldowns_double(stage: int)
    requires
        0 <= stage,
    ensures
        cooldown_of_stage(0) == 60_000,
        2 * cooldown_of_stage(stage) <= 600_000 ==> cooldown_of_stage(stage + 1) == 2 * cooldown_of_stage(
            stage,
        ),
        2 * cooldown_of_stage(stage) > 600_000 ==> cooldown_of_stage(stage + 1) == 600_000,
        60_000 <= cooldown_of_stage(stage) <= 600_000,
{
}

/// The revision that follows is another one and never zero.
pub proof fn law_revisions_go_on(revision: u64)
    ensures
        revision_after(revision) != 0,
        revision_after(revision) != revision,
        revision < u64::MAX ==> revision_after(revision) == revision + 1,
{
}

/// The next failure of an endpoint brings the next stage, up to the fifth.
pub proof fn law_stages_follow(entry: P2pEndpointRetryEntry)
    requires
        entry.wf(),
    ensures
        entry.failure_stage is None ==> entry.next_stage() == 0,
        entry.failure_stage is Some && entry.failure_stage->0 < 4 ==> entry.next_stage()
            == entry.failure_stage->0 + 1,
        entry.failure_stage is Some && entry.failure_stage->0 >= 4 ==> entry.next_stage() == 4,
{
}

/// An endpoint is refused just while its cooldown lasts, and what is told is the time that is left of it;
/// an endpoint of which nothing is known is granted, with a revision of its own.
pub proof fn law_when_an_endpoint_is_refused(
    state: RetryState,
    key: P2pEndpointKey,
    now: u64,
    answer: Result<P2pEndpointAttempt, P2pEndpointCooldown>,
    after: RetryState,
)
    requires
        state.wf(),
        !state.disabled,
        state.begins(key, now, answer, after),
    ensures
        answer is Err <==> state.known(key) is Some && now < state.known(key)->0.blocked_until_millis,
        answer matches Err(cooldown) ==> now + cooldown.remaining_millis == state.known(
            key,
        )->0.blocked_until_millis && cooldown.remaining_millis > 0 && cooldown.stage == state.known(
            key,
        )->0.failure_stage->0 + 1,
        answer matches Ok(attempt) ==> attempt.key == key && attempt.observed_revision != 0 && after.known(
            key,
        ) is Some && after.known(key)->0.revision == attempt.observed_revision,
        after.known(key) is Some && after.known(key)->0.last_touched_millis == now,
        state.known(key) is Some ==> after.known(key)->0.blocked_until_millis == state.known(
            key,
        )->0.blocked_until_millis && after.known(key)->0.failure_stage == state.known(
            key,
        )->0.failure_stage && after.known(key)->0.revision == state.known(key)->0.revision,
{
    lemma_shard_in_range(key, state.shards.len() as int);
    let entry = state.known(key);
    if entry is Some {
        let place = shard_of(key, state.shards.len() as int);
        assert(state.shards[place][key].wf());
    }
}

/// Room is made only in a shard that is full, by one entry than which none was touched longer ago.
pub proof fn law_room_is_made_by_the_oldest(
    before: Map<P2pEndpointKey, P2pEndpointRetryEntry>,
    capacity: nat,
    after: Map<P2pEndpointKey, P2pEndpointRetryEntry>,
    gone: P2pEndpointKey,
    other: P2pEndpointKey,
)
    requires
        makes_room(before, capacity, after),
        before.contains_key(gone),
        !after.contains_key(gone),
    ensures
        before.len() >= capacity,
        before.contains_key(other) ==> before[gone].last_touched_millis
            <= before[other].last_touched_millis,
        other != gone && before.contains_key(other) ==> after.contains_key(other) && after[other]
            == before[other],
{
    let oldest = choose|oldest: P2pEndpointKey| #[trigger]
        before.contains_key(oldest) && after == before.remove(oldest) && forall|k: P2pEndpointKey|
            before.contains_key(k) ==> before[oldest].last_touched_millis
                <= #[trigger] before[k].last_touched_millis;
    assert(oldest == gone);
    if before.contains_key(other) {
        assert(before[oldest].last_touched_millis <= before[other].last_touched_millis);
    }
}

/// The number of entries is that of all shards together: one more entry in one shard is one more.
pub proof fn law_entries_are_counted(
    shards: Seq<Map<P2pEndpointKey, P2pEndpointRetryEntry>>,
    more: Map<P2pEndpointKey, P2pEndpointRetryEntry>,
)
    ensures
        entries_in(Seq::empty()) == 0,
        entries_in(shards.push(more)) == entries_in(shards) + more.len(),
{
    assert(shards.push(more).drop_last() =~= shards);
}

} // verus!
