//! Which stream to try next for a channel.
//!
//! One logical channel can have several URLs. A source that failed a minute ago is a
//! bad bet right now, and one that failed last week is not. **No source is ever
//! banned**: failure buys a cooling-off period, proportional to how many failures in a
//! row and capped, after which the source returns to its place in line.

use vstd::prelude::*;

verus! {

/// Each consecutive failure adds this much cooling-off.
pub const COOLDOWN_STEP_SECS: i64 = 60;
/// However bad it gets, a source is retried at least this often.
pub const MAX_COOLDOWN_SECS: i64 = 360;

/// What is known about one source's recent behaviour.
#[derive(Debug, Clone, Copy, PartialEq, Eq, Default)]
pub struct Health {
    /// The provider's or the viewer's preferred order. Lower is better.
    pub priority: i64,
    pub fail_count: u32,
    pub last_ok_at: Option<i64>,
    pub last_fail_at: Option<i64>,
}

/// Worked since it last failed (or never failed and has worked).
pub open spec fn spec_recovered(h: Health) -> bool {
    match (h.last_ok_at, h.last_fail_at) {
        (Some(ok), Some(fail)) => ok >= fail,
        (Some(_), None) => true,
        _ => false,
    }
}

/// One step per consecutive failure, capped; nothing once recovered.
pub open spec fn spec_cooldown(h: Health) -> int {
    if spec_recovered(h) || h.fail_count == 0 {
        0
    } else if h.fail_count * COOLDOWN_STEP_SECS < MAX_COOLDOWN_SECS {
        h.fail_count * COOLDOWN_STEP_SECS
    } else {
        MAX_COOLDOWN_SECS as int
    }
}

/// Still inside the cooling-off period after the latest failure. A failure stamped in
/// the future (a clock that went backwards) does not count.
pub open spec fn spec_cooling_down(h: Health, now: int) -> bool {
    match h.last_fail_at {
        None => false,
        Some(failed_at) => !spec_recovered(h) && now >= failed_at && now - failed_at
            < spec_cooldown(h),
    }
}

impl Health {
    /// True when the source has worked since the last time it failed.
    pub fn recovered(&self) -> (r: bool)
        ensures
            r == spec_recovered(*self),
    {
        match (self.last_ok_at, self.last_fail_at) {
            (Some(ok), Some(fail)) => ok >= fail,
            (Some(_), None) => true,
            _ => false,
        }
    }

    /// How long this source stays out of favour after its latest failure.
    pub fn cooldown_secs(&self) -> (r: i64)
        ensures
            r == spec_cooldown(*self),
    {
        if self.recovered() || self.fail_count == 0 {
            return 0;
        }
        let total: i64 = (self.fail_count as i64) * COOLDOWN_STEP_SECS;
        if total < MAX_COOLDOWN_SECS {
            total
        } else {
            MAX_COOLDOWN_SECS
        }
    }

    /// Whether the cooling-off period is still running at `now`.
    pub fn cooling_down(&self, now: i64) -> (r: bool)
        ensures
            r == spec_cooling_down(*self, now as int),
    {
        let failed_at = match self.last_fail_at {
            Some(t) => t,
            None => {
                return false;
            },
        };
        if self.recovered() {
            return false;
        }
        // A clock that went backwards should not freeze a source out for ever.
        now >= failed_at && (now as i128) - (failed_at as i128) < (self.cooldown_secs() as i128)
    }
}

/// Sort key for one source, smallest first: cooling-down sources last, then by
/// priority, then by how often they have failed.
pub open spec fn spec_rank(h: Health, now: int) -> (u8, i64, u32) {
    (if spec_cooling_down(h, now) {
        1u8
    } else {
        0u8
    }, h.priority, h.fail_count)
}

/// Sort key for one source, smallest first.
///
/// Cooling-down sources sort last rather than being removed, so the list always offers
/// every URL the channel has.
pub fn rank(health: &Health, now: i64) -> (r: (u8, i64, u32))
    ensures
        r == spec_rank(*health, now as int),
{
    (if health.cooling_down(now) {
        1u8
    } else {
        0u8
    }, health.priority, health.fail_count)
}

/// A failure is never permanent: however many times a source has failed, once the
/// longest cooling-off period has passed it is back in its place.
pub proof fn lemma_failure_is_never_permanent(h: Health, now: int)
    requires
        h.last_fail_at matches Some(t) ==> now >= t + MAX_COOLDOWN_SECS,
    ensures
        !spec_cooling_down(h, now),
        spec_rank(h, now).0 == 0,
{
}

/// Working once clears the record: a source that worked since its last failure is
/// never cooling down and owes no cooldown.
pub proof fn lemma_recovery_clears(h: Health, now: int)
    requires
        spec_recovered(h),
    ensures
        spec_cooldown(h) == 0,
        !spec_cooling_down(h, now),
{
}

/// The cooling-off period grows with each failure and never exceeds the cap.
pub proof fn lemma_cooldown_is_bounded(h: Health)
    ensures
        0 <= spec_cooldown(h) <= MAX_COOLDOWN_SECS,
{
}

} // verus!
