//! Stops using a transport for a while after repeated connections of the node to itself.
//!
//! Times are seconds.
use vstd::prelude::*;

use crate::addr::IpScheme;

verus! {

pub const PROTOCOL_LOOP_TRACKED_SCHEMES: usize = 8;

pub const PROTOCOL_LOOP_SCOPE_COUNT: usize = 2;

pub const PROTOCOL_LOOP_STATE_SLOTS: usize = 16;

pub const PROTOCOL_LOOP_STRIKE_THRESHOLD: u8 = 2;

pub const PROTOCOL_LOOP_STRIKE_WINDOW_SECS: u64 = 30;

pub const PROTOCOL_LOOP_SUPPRESS_SECS: u64 = 300;

/// The kind of work that found a loop.
#[derive(Clone, Copy, Debug, PartialEq, Eq, Structural)]
pub enum ProtocolLoopScope {
    Direct,
    HolePunch,
}

impl ProtocolLoopScope {
    pub open spec fn rank(self) -> int {
        match self {
            ProtocolLoopScope::Direct => 0,
            ProtocolLoopScope::HolePunch => 1,
        }
    }

    pub fn index(self) -> (r: usize)
        ensures
            r == self.rank(),
    {
        match self {
            ProtocolLoopScope::Direct => 0,
            ProtocolLoopScope::HolePunch => 1,
        }
    }
}

/// What is known of the loops of one transport in one scope. Zero stands for "never".
#[derive(Clone, Copy, Debug)]
pub struct ProtocolLoopSuppressionSlot {
    pub strike_count: u8,
    pub first_hit_at_secs: u64,
    pub suppressed_until_secs: u64,
}

impl ProtocolLoopSuppressionSlot {
    pub open spec fn empty() -> Self {
        ProtocolLoopSuppressionSlot {
            strike_count: 0,
            first_hit_at_secs: 0,
            suppressed_until_secs: 0,
        }
    }

    /// The slot at time `now`: a suppression that has run out is forgotten.
    pub open spec fn current(self, now: u64) -> Self {
        if self.suppressed_until_secs != 0 && now >= self.suppressed_until_secs {
            Self::empty()
        } else {
            self
        }
    }

    pub open spec fn suppresses(self, now: u64) -> bool {
        self.current(now).suppressed_until_secs != 0
    }

    /// The hit falls into the window that an earlier hit opened.
    pub open spec fn in_window(self, now: u64) -> bool {
        self.first_hit_at_secs != 0 && now - self.first_hit_at_secs
            <= PROTOCOL_LOOP_STRIKE_WINDOW_SECS
    }

    /// The slot after a loop was found at time `now`.
    pub open spec fn after_hit(self, now: u64) -> Self {
        let slot = self.current(now);
        if slot.suppressed_until_secs != 0 {
            ProtocolLoopSuppressionSlot {
                suppressed_until_secs: (now + PROTOCOL_LOOP_SUPPRESS_SECS) as u64,
                ..slot
            }
        } else if slot.in_window(now) {
            let strikes = if slot.strike_count == u8::MAX {
                u8::MAX
            } else {
                (slot.strike_count + 1) as u8
            };
            ProtocolLoopSuppressionSlot {
                strike_count: strikes,
                first_hit_at_secs: slot.first_hit_at_secs,
                suppressed_until_secs: if strikes >= PROTOCOL_LOOP_STRIKE_THRESHOLD {
                    (now + PROTOCOL_LOOP_SUPPRESS_SECS) as u64
                } else {
                    0
                },
            }
        } else {
            ProtocolLoopSuppressionSlot {
                strike_count: 1,
                first_hit_at_secs: now,
                suppressed_until_secs: 0,
            }
        }
    }

    fn clear_expired(&mut self, now_secs: u64)
        ensures
            *final(self) == old(self).current(now_secs),
    {
        if self.suppressed_until_secs != 0 && now_secs >= self.suppressed_until_secs {
            *self =
            ProtocolLoopSuppressionSlot {
                strike_count: 0,
                first_hit_at_secs: 0,
                suppressed_until_secs: 0,
            };
        }
    }

    fn hit(&mut self, now_secs: u64) -> (r: bool)
        requires
            now_secs + PROTOCOL_LOOP_SUPPRESS_SECS <= u64::MAX,
        ensures
            *final(self) == old(self).after_hit(now_secs),
            r == (final(self).suppressed_until_secs != 0),
    {
        self.clear_expired(now_secs);
        if self.suppressed_until_secs != 0 {
            self.suppressed_until_secs = now_secs + PROTOCOL_LOOP_SUPPRESS_SECS;
            return true;
        }
        if self.first_hit_at_secs == 0 || now_secs.saturating_sub(self.first_hit_at_secs)
            > PROTOCOL_LOOP_STRIKE_WINDOW_SECS {
            self.first_hit_at_secs = now_secs;
            self.strike_count = 1;
        } else {
            self.strike_count = self.strike_count.saturating_add(1);
        }
        if self.strike_count >= PROTOCOL_LOOP_STRIKE_THRESHOLD {
            self.suppressed_until_secs = now_secs + PROTOCOL_LOOP_SUPPRESS_SECS;
            true
        } else {
            false
        }
    }
}

/// The place of the slot of a transport and a scope.
pub open spec fn slot_of(scheme: IpScheme, scope: ProtocolLoopScope) -> int {
    scheme.rank() * 2 + scope.rank()
}

pub fn protocol_loop_slot_index(scheme: IpScheme, scope: ProtocolLoopScope) -> (r: usize)
    ensures
        r == slot_of(scheme, scope),
        r < PROTOCOL_LOOP_STATE_SLOTS,
{
    scheme.index() * PROTOCOL_LOOP_SCOPE_COUNT + scope.index()
}

/// One slot for each transport and scope.
#[derive(Debug)]
pub struct ProtocolLoopSuppression {
    slots: Vec<ProtocolLoopSuppressionSlot>,
}

impl View for ProtocolLoopSuppression {
    type V = Seq<ProtocolLoopSuppressionSlot>;

    closed spec fn view(&self) -> Seq<ProtocolLoopSuppressionSlot> {
        self.slots@
    }
}

impl ProtocolLoopSuppression {
    pub open spec fn wf(&self) -> bool {
        self@.len() == PROTOCOL_LOOP_STATE_SLOTS
    }

    pub fn new() -> (r: Self)
        ensures
            r.wf(),
            forall|i: int|
                0 <= i < r@.len() ==> #[trigger] r@[i] == ProtocolLoopSuppressionSlot::empty(),
    {
        let mut slots: Vec<ProtocolLoopSuppressionSlot> = Vec::new();
        let mut i: usize = 0;
        while i < PROTOCOL_LOOP_STATE_SLOTS
            invariant
                i <= PROTOCOL_LOOP_STATE_SLOTS,
                slots@.len() == i,
                forall|j: int|
                    0 <= j < i ==> #[trigger] slots@[j] == ProtocolLoopSuppressionSlot::empty(),
            decreases PROTOCOL_LOOP_STATE_SLOTS - i,
        {
            slots.push(
                ProtocolLoopSuppressionSlot {
                    strike_count: 0,
                    first_hit_at_secs: 0,
                    suppressed_until_secs: 0,
                },
            );
            i += 1;
        }
        ProtocolLoopSuppression { slots }
    }

    /// Records that a connection over `scheme` led back to this node; tells whether the
    /// transport is suppressed from now on.
    pub fn record_at(&mut self, scheme: IpScheme, scope: ProtocolLoopScope, now_secs: u64) -> (r: bool)
        requires
            old(self).wf(),
            now_secs + PROTOCOL_LOOP_SUPPRESS_SECS <= u64::MAX,
        ensures
            final(self).wf(),
            final(self)@ == old(self)@.update(
                slot_of(scheme, scope),
                old(self)@[slot_of(scheme, scope)].after_hit(now_secs),
            ),
            r == final(self)@[slot_of(scheme, scope)].suppresses(now_secs),
    {
        let index: usize = protocol_loop_slot_index(scheme, scope);
        let mut slot = self.slots[index];
        let suppressed = slot.hit(now_secs);
        self.slots.set(index, slot);
        suppressed
    }

    pub fn is_suppressed_at(&mut self, scheme: IpScheme, scope: ProtocolLoopScope, now_secs: u64) -> (r:
        bool)
        requires
            old(self).wf(),
        ensures
            final(self).wf(),
            final(self)@ == old(self)@.update(
                slot_of(scheme, scope),
                old(self)@[slot_of(scheme, scope)].current(now_secs),
            ),
            r == old(self)@[slot_of(scheme, scope)].suppresses(now_secs),
    {
        let index: usize = protocol_loop_slot_index(scheme, scope);
        let mut slot = self.slots[index];
        slot.clear_expired(now_secs);
        let suppressed = slot.suppressed_until_secs != 0;
        self.slots.set(index, slot);
        suppressed
    }
}

/// Transports and scopes never share a slot: a loop found in one is not held against another.
pub proof fn law_loop_scopes_are_isolated(
    scheme: IpScheme,
    scope: ProtocolLoopScope,
    other_scheme: IpScheme,
    other_scope: ProtocolLoopScope,
)
    ensures
        0 <= slot_of(scheme, scope) < PROTOCOL_LOOP_STATE_SLOTS,
        slot_of(scheme, scope) == slot_of(other_scheme, other_scope) <==> scheme == other_scheme
            && scope == other_scope,
{
}

/// One hit never suppresses a transport that was not suppressed; a second one within the window
/// does, for exactly the suppression time; every later hit extends the suppression.
pub proof fn law_repeated_loops_suppress_and_expire(
    slot: ProtocolLoopSuppressionSlot,
    first: u64,
    second: u64,
    later: u64,
)
    requires
        !slot.suppresses(first),
        !slot.current(first).in_window(first),
        0 < first <= second <= first + PROTOCOL_LOOP_STRIKE_WINDOW_SECS,
        second + PROTOCOL_LOOP_SUPPRESS_SECS <= u64::MAX,
    ensures
        !slot.after_hit(first).suppresses(first),
        slot.after_hit(first).after_hit(second).suppresses(later) <==> later < second
            + PROTOCOL_LOOP_SUPPRESS_SECS,
{
}

/// Two loops within half a minute suppress a transport for five minutes; a loop that is found while it is
/// suppressed starts the five minutes anew; and a loop that is found later than half a minute after the
/// first counts as a first one.
pub proof fn law_times_of_suppression(slot: ProtocolLoopSuppressionSlot, now: u64, later: u64)
    requires
        0 < now,
        now + 300 <= u64::MAX,
        slot.first_hit_at_secs <= now,
    ensures
        slot.suppresses(now) <==> now < slot.suppressed_until_secs,
        slot.suppresses(now) ==> slot.after_hit(now).suppressed_until_secs == now + 300,
        !slot.suppresses(now) && slot.suppressed_until_secs == 0 && slot.first_hit_at_secs != 0 && now
            <= slot.first_hit_at_secs + 30 && slot.strike_count >= 1 ==> slot.after_hit(
            now,
        ).suppressed_until_secs == now + 300,
        !slot.suppresses(now) && (slot.first_hit_at_secs == 0 || now > slot.first_hit_at_secs + 30
            || slot.suppressed_until_secs != 0) ==> slot.after_hit(now).suppressed_until_secs == 0
            && slot.after_hit(now).strike_count == 1 && slot.after_hit(now).first_hit_at_secs == now,
        slot.suppressed_until_secs != 0 && now >= slot.suppressed_until_secs ==> slot.current(now)
            == ProtocolLoopSuppressionSlot::empty(),
        slot.after_hit(now).suppresses(later) <==> later < slot.after_hit(now).suppressed_until_secs,
{
}

} // verus!
