//! Wall-clock budget of a search.

use vstd::prelude::*;
use std::time::Instant;

verus! {

/// `std::time::Instant`, a reading of the monotonic clock. Its contents are
/// not looked into.
#[verifier::external_type_specification]
#[verifier::external_body]
pub struct ExInstant(std::time::Instant);

/// When a search has to stop.
#[derive(Clone, Copy, Debug)]
pub enum Deadline {
    /// The search runs to its full depth.
    Never,
    /// The search stops once the clock has reached this instant.
    At(Instant),
}

/// Reads the monotonic clock with `Instant::now`. Nothing is known of the
/// result.
#[verifier::external_body]
fn now() -> Instant {
    Instant::now()
}

/// Nanoseconds from `from` to `to` by `Instant::saturating_duration_since`:
/// zero when `to` is not later than `from`. Nothing is claimed of the
/// result.
#[verifier::external_body]
fn nanos_between(from: &Instant, to: &Instant) -> u128 {
    to.saturating_duration_since(*from).as_nanos()
}

/// A point in time from which the time spent can be measured.
pub struct Stopwatch {
    started: Instant,
}

impl Stopwatch {
    /// Starts measuring.
    pub fn start() -> Stopwatch {
        Stopwatch { started: now() }
    }

    /// Nanoseconds since the start.
    pub fn spent(&self) -> u128 {
        let current = now();
        nanos_between(&self.started, &current)
    }
}

impl Deadline {
    /// Nanoseconds left until the deadline, zero once it has passed, and
    /// `None` when there is no deadline.
    pub fn left(&self) -> (left: Option<u128>)
        ensures
            left is None <==> *self is Never,
    {
        match self {
            Deadline::Never => None,
            Deadline::At(end) => {
                let current = now();
                Some(nanos_between(&current, end))
            },
        }
    }

    /// Whether the deadline has passed. A search without deadline is never
    /// out of time.
    pub fn expired(&self) -> (gone: bool)
        ensures
            *self is Never ==> !gone,
    {
        out_of_time(self.left())
    }

    /// Whether another iteration should not be started after one that took
    /// `spent` nanoseconds: what `too_slow` says of the time left, if any.
    pub fn too_close(&self, spent: u128) -> (stop: bool)
        ensures
            *self is Never ==> !stop,
            *self is At ==> exists|left: u128| stop == #[trigger] too_slow(spent, left),
    {
        let left: Option<u128> = self.left();
        let stop: bool = too_slow_for_another(spent, left);
        proof {
            if left is Some {
                assert(stop == too_slow(spent, left->0));
            }
        }
        stop
    }
}

/// Whether an iteration four times as long as the last one, which took
/// `spent`, would not end before a deadline that is `left` away.
pub open spec fn too_slow(spent: u128, left: u128) -> bool {
    4 * spent >= left
}

/// Whether no time is left: `left` is the time until the deadline, if there
/// is a deadline.
pub fn out_of_time(left: Option<u128>) -> (gone: bool)
    ensures
        gone == (left == Some(0u128)),
{
    match left {
        Some(nanos) => nanos == 0,
        None => false,
    }
}

/// Whether an iteration four times as long as the last one, which took
/// `spent`, would not end before the deadline, which is `left` away.
pub fn too_slow_for_another(spent: u128, left: Option<u128>) -> (stop: bool)
    ensures
        stop == match left {
            Some(nanos) => too_slow(spent, nanos),
            None => false,
        },
{
    match left {
        Some(nanos) => match spent.checked_mul(4) {
            Some(needed) => needed >= nanos,
            None => true,
        },
        None => false,
    }
}

/// Time allotted to one move, in milliseconds: a twentieth of the time on
/// the clock plus the increment, and at least one second.
pub open spec fn budget_ms(time_ms: int, increment_ms: int) -> int {
    if time_ms / 20 + increment_ms >= 1000 {
        time_ms / 20 + increment_ms
    } else {
        1000
    }
}

/// Time allotted to one move, in milliseconds.
pub fn think_time_ms(time_ms: u64, increment_ms: u64) -> (budget: u64)
    requires
        time_ms / 20 + increment_ms <= u64::MAX,
    ensures
        budget == budget_ms(time_ms as int, increment_ms as int),
{
    let share: u64 = time_ms / 20 + increment_ms;
    if share >= 1000 {
        share
    } else {
        1000
    }
}

} // verus!
