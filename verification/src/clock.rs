//! Time, in nanoseconds.
//!
//! The protocols read the clock and wait; they never look inside an instant.
//! A reading is the number of nanoseconds since a [`Clock`] was started, and
//! every timeout is a number of nanoseconds.
use std::time::{Duration, Instant};
use vstd::prelude::*;

verus! {

pub const MILLISECOND: u64 = 1_000_000;

pub const SECOND: u64 = 1_000_000_000;

/// `std::time::Instant`, carried opaquely.
#[verifier::external_type_specification]
#[verifier::external_body]
pub struct ExInstant(Instant);

/// The duration that `Duration::from_nanos` makes of `nanos`.
pub uninterp spec fn nanos_duration(nanos: u64) -> Duration;

/// Calls `Duration::from_nanos`. Taken on trust: the duration depends on the
/// number of nanoseconds alone.
#[verifier::external_body]
pub(crate) fn duration_from_nanos(nanos: u64) -> (span: Duration)
    ensures
        span == nanos_duration(nanos),
{
    Duration::from_nanos(nanos)
}

/// Every number of nanoseconds that `Instant::elapsed` may come to for `start`,
/// whenever it is asked.
pub uninterp spec fn elapsed_answers(start: Instant) -> Set<u64>;

/// Calls `Instant::now`. Nothing is claimed of the instant.
#[verifier::external_body]
fn instant_now() -> (now: Instant) {
    Instant::now()
}

/// Calls `Instant::elapsed` and gives the time since `start` in nanoseconds.
/// Taken on trust: it is one of the times that may have passed since `start`.
/// Which one, and even that it grows from one call to the next, is left open.
#[verifier::external_body]
fn nanos_since(start: &Instant) -> (nanos: u64)
    ensures
        elapsed_answers(*start).contains(nanos),
{
    start.elapsed().as_nanos() as u64
}

/// A clock that counts from the moment it was started.
pub struct Clock {
    start: Instant,
    /// What was read off this clock, for proofs.
    readings: Ghost<Seq<u64>>,
}

impl Clock {
    /// What was read off this clock so far, in order.
    pub closed spec fn readings(&self) -> Seq<u64> {
        self.readings@
    }

    /// Whether this many nanoseconds may have passed since the clock was
    /// started.
    pub closed spec fn may_read(&self, nanos: u64) -> bool {
        elapsed_answers(self.start).contains(nanos)
    }

    /// A clock that starts now, and that nobody has read yet.
    pub fn start() -> (clock: Clock)
        ensures
            clock.readings() == Seq::<u64>::empty(),
    {
        Clock { start: instant_now(), readings: Ghost(Seq::empty()) }
    }

    /// Nanoseconds since the clock was started.
    pub fn now(&mut self) -> (nanos: u64)
        ensures
            old(self).may_read(nanos),
            final(self).readings() == old(self).readings().push(nanos),
            forall|n: u64| #[trigger] final(self).may_read(n) == old(self).may_read(n),
    {
        let nanos: u64 = nanos_since(&self.start);
        self.readings = Ghost(self.readings@.push(nanos));
        nanos
    }
}

/// The instant `timeout` after `now`, as late as a clock can read.
pub open spec fn deadline_after(now: u64, timeout: u64) -> u64 {
    if now + timeout > u64::MAX {
        u64::MAX
    } else {
        (now + timeout) as u64
    }
}

/// What is left at `now` of a wait that ends at `deadline`; nothing once the
/// deadline has passed.
pub open spec fn time_left(deadline: u64, now: u64) -> Option<u64> {
    if now <= deadline {
        Some((deadline - now) as u64)
    } else {
        None
    }
}

/// How long ago `then` was at `now`.
pub open spec fn time_since(then: u64, now: u64) -> u64 {
    if then <= now {
        (now - then) as u64
    } else {
        0
    }
}

pub fn deadline(now: u64, timeout: u64) -> (at: u64)
    ensures
        at == deadline_after(now, timeout),
{
    now.saturating_add(timeout)
}

pub fn remaining(deadline: u64, now: u64) -> (left: Option<u64>)
    ensures
        left == time_left(deadline, now),
{
    deadline.checked_sub(now)
}

pub fn since(then: u64, now: u64) -> (elapsed: u64)
    ensures
        elapsed == time_since(then, now),
{
    now.saturating_sub(then)
}

} // verus!
