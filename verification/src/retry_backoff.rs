//! A retry schedule that walks through its delays and stays on the last one.
use vstd::prelude::*;
use rand::Rng as _;

verus! {

/// Delays in milliseconds and the place of the next one.
#[derive(Debug)]
pub struct BackOff {
    backoffs_ms: Vec<u64>,
    current_idx: usize,
}

/// The place after `position` in a schedule of `len` delays.
pub open spec fn next_position(position: int, len: int) -> int {
    if position + 1 < len {
        position + 1
    } else {
        len - 1
    }
}

/// The place before `position`.
pub open spec fn previous_position(position: int) -> int {
    if position > 0 {
        position - 1
    } else {
        0
    }
}

/// The place reached from `position` after `steps` delays.
pub open spec fn position_after(position: int, len: int, steps: nat) -> int
    decreases steps,
{
    if steps == 0 {
        position
    } else {
        next_position(position_after(position, len, (steps - 1) as nat), len)
    }
}

/// Stepping reaches every later place in turn and then stays on the last one.
pub proof fn law_schedule_saturates(position: int, len: int, steps: nat)
    requires
        0 <= position < len,
    ensures
        position_after(position, len, steps) == (if position + steps < len {
            position + steps
        } else {
            len - 1
        }),
    decreases steps,
{
    if steps > 0 {
        law_schedule_saturates(position, len, (steps - 1) as nat);
    }
}

/// A rollback undoes a step that did not start on the last delay.
pub proof fn law_rollback_undoes_step(position: int, len: int)
    requires
        0 <= position,
        position + 1 < len,
    ensures
        previous_position(next_position(position, len)) == position,
{
}

/// The delays that a jittered delay of `backoff_ms` is drawn from: half of it to either side,
/// the upper end left out. A delay too short to halve is kept.
pub open spec fn half_jitter_range(backoff_ms: u64) -> Option<(u64, u64)> {
    if backoff_ms / 2 == 0 {
        None
    } else {
        Some(((backoff_ms - backoff_ms / 2) as u64, (backoff_ms + backoff_ms / 2) as u64))
    }
}

/// `delay` is a possible outcome of adding jitter to `backoff_ms`.
pub open spec fn is_half_jittered(backoff_ms: u64, delay: u64) -> bool {
    match half_jitter_range(backoff_ms) {
        None => delay == backoff_ms,
        Some((low, high)) => low <= delay < high,
    }
}

/// The half-open range that a jittered delay is drawn from, if one is drawn.
pub fn half_jitter_bounds(backoff_ms: u64) -> (r: Option<(u64, u64)>)
    requires
        backoff_ms + backoff_ms / 2 <= u64::MAX,
    ensures
        r == half_jitter_range(backoff_ms),
{
    let delta: u64 = backoff_ms / 2;
    if delta == 0 {
        None
    } else {
        Some((backoff_ms - delta, backoff_ms + delta))
    }
}

/// Draws a number with `rand::Rng::gen_range` from the operating system's generator. What is
/// claimed of it: the number lies in the half-open range.
#[verifier::external_body]
pub(crate) fn draw_between(low: u64, high: u64) -> (r: u64)
    requires
        low < high,
    ensures
        low <= r < high,
{
    rand::rngs::OsRng.gen_range(low..high)
}

impl BackOff {
    /// The delays, first to last.
    pub closed spec fn schedule(&self) -> Seq<u64> {
        self.backoffs_ms@
    }

    /// The place of the next delay.
    pub closed spec fn position(&self) -> int {
        self.current_idx as int
    }

    pub open spec fn wf(&self) -> bool {
        0 <= self.position() < self.schedule().len()
    }

    pub fn new(backoffs_ms: Vec<u64>) -> (r: Self)
        requires
            backoffs_ms@.len() > 0,
        ensures
            r.wf(),
            r.schedule() == backoffs_ms@,
            r.position() == 0,
    {
        BackOff { backoffs_ms, current_idx: 0 }
    }

    pub fn next_backoff(&mut self) -> (r: u64)
        requires
            old(self).wf(),
        ensures
            final(self).wf(),
            final(self).schedule() == old(self).schedule(),
            r == old(self).schedule()[old(self).position()],
            final(self).position() == next_position(
                old(self).position(),
                old(self).schedule().len() as int,
            ),
    {
        let backoff: u64 = self.backoffs_ms[self.current_idx];
        let last: usize = self.backoffs_ms.len() - 1;
        self.current_idx = if self.current_idx < last {
            self.current_idx + 1
        } else {
            last
        };
        backoff
    }

    pub fn next_backoff_with_jitter(&mut self) -> (r: u64)
        requires
            old(self).wf(),
            ({
                let delay = old(self).schedule()[old(self).position()];
                delay + delay / 2 <= u64::MAX
            }),
        ensures
            final(self).wf(),
            final(self).schedule() == old(self).schedule(),
            is_half_jittered(old(self).schedule()[old(self).position()], r),
            final(self).position() == next_position(
                old(self).position(),
                old(self).schedule().len() as int,
            ),
    {
        let backoff: u64 = self.next_backoff();
        Self::with_half_jitter(backoff)
    }

    pub fn with_half_jitter(backoff_ms: u64) -> (r: u64)
        requires
            backoff_ms + backoff_ms / 2 <= u64::MAX,
        ensures
            is_half_jittered(backoff_ms, r),
    {
        match half_jitter_bounds(backoff_ms) {
            None => backoff_ms,
            Some((low, high)) => draw_between(low, high),
        }
    }

    pub fn reset(&mut self)
        requires
            old(self).wf(),
        ensures
            final(self).wf(),
            final(self).schedule() == old(self).schedule(),
            final(self).position() == 0,
    {
        self.current_idx = 0;
    }

    pub fn rollback(&mut self)
        requires
            old(self).wf(),
        ensures
            final(self).wf(),
            final(self).schedule() == old(self).schedule(),
            final(self).position() == previous_position(old(self).position()),
    {
        self.current_idx = self.current_idx.saturating_sub(1);
    }

    pub fn is_saturated(&self) -> (r: bool)
        requires
            self.wf(),
        ensures
            r == (self.position() == self.schedule().len() - 1),
    {
        self.current_idx == self.backoffs_ms.len() - 1
    }
}

/// A jittered delay is at least half of the delay and less than one and a half of it, and the range lies
/// evenly around the delay; a delay of less than two is kept.
pub proof fn law_jitter_stays_near(backoff_ms: u64, delay: u64)
    requires
        backoff_ms + backoff_ms / 2 <= u64::MAX,
    ensures
        backoff_ms < 2 ==> (is_half_jittered(backoff_ms, delay) <==> delay == backoff_ms),
        backoff_ms >= 2 && is_half_jittered(backoff_ms, delay) ==> backoff_ms <= 2 * delay && 2 * delay < 3
            * backoff_ms,
        backoff_ms >= 2 ==> is_half_jittered(backoff_ms, backoff_ms),
        half_jitter_range(backoff_ms) matches Some((low, high)) ==> low + high == 2 * backoff_ms && high
            - low == 2 * (backoff_ms / 2),
{
}

/// Each step goes one place on, up to the last place, and each step back one place back, down to the first.
pub proof fn law_steps_are_single(position: int, len: int)
    requires
        0 <= position < len,
    ensures
        position < len - 1 ==> next_position(position, len) == position + 1,
        position == len - 1 ==> next_position(position, len) == position,
        position > 0 ==> previous_position(position) == position - 1,
        position == 0 ==> previous_position(position) == 0,
{
}

} // verus!
