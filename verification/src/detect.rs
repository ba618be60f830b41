//! Keeping a lock on where the peer's code sits in the camera's picture.
//!
//! A full-frame scan is the fallback, not the steady state: once the region is
//! known, every later frame is decoded from a rectified crop of it. What is
//! kept here is when the lock holds and when it is given up; the geometry of
//! the region is the program's.
use vstd::prelude::*;

verus! {

/// Consecutive misses inside the locked region before falling back to a full
/// frame scan. Kept small: at a 150 ms dwell only a handful of frames cover
/// each displayed code, so a stale lock costs chunks quickly.
pub const MAX_MISSES: u32 = 2;

/// The state of the lock.
#[derive(Clone, Copy, Debug, PartialEq, Eq, Structural)]
pub struct Tracker {
    /// Whether the peer's screen is currently being tracked.
    pub held: bool,
    /// Misses in a row inside the tracked region.
    pub misses: u32,
}

/// What to do with a camera frame after its tracked region was read.
#[derive(Clone, Copy, Debug, PartialEq, Eq, Structural)]
pub enum AfterRegion {
    /// Something decoded: the frame is done, and the region follows it.
    Decoded,
    /// Nothing decoded: the frame is given up, the region is kept.
    Missed,
    /// The lock is stale: scan the whole frame.
    ScanFrame,
}

impl Tracker {
    /// What holds of every lock: it is given up before the misses add up.
    pub open spec fn ok(self) -> bool {
        self.misses < MAX_MISSES
    }

    /// The lock after its region was read, and what to do next.
    pub open spec fn region_read(self, decoded: bool) -> (Tracker, AfterRegion) {
        if decoded {
            (Tracker { misses: 0, ..self }, AfterRegion::Decoded)
        } else if self.misses + 1 < MAX_MISSES {
            (Tracker { misses: (self.misses + 1) as u32, ..self }, AfterRegion::Missed)
        } else {
            (Tracker { held: false, misses: 0 }, AfterRegion::ScanFrame)
        }
    }

    pub fn new() -> (tracker: Tracker)
        ensures
            tracker == (Tracker { held: false, misses: 0 }),
            tracker.ok(),
    {
        Tracker { held: false, misses: 0 }
    }

    /// Whether the peer's screen is currently being tracked.
    pub fn locked(&self) -> (locked: bool)
        ensures
            locked == self.held,
    {
        self.held
    }

    /// Takes note of a read of the tracked region.
    pub fn read_region(&mut self, decoded: bool) -> (next: AfterRegion)
        requires
            old(self).ok(),
        ensures
            (*final(self), next) == old(self).region_read(decoded),
            final(self).ok(),
    {
        if decoded {
            self.misses = 0;
            return AfterRegion::Decoded;
        }
        self.misses = self.misses + 1;
        if self.misses < MAX_MISSES {
            return AfterRegion::Missed;
        }
        self.held = false;
        self.misses = 0;
        AfterRegion::ScanFrame
    }

    /// Takes note of a scan of a whole frame that found a code; `placed` says
    /// whether the decoder could tell where it is.
    pub fn read_frame(&mut self, placed: bool)
        ensures
            *final(self) == (Tracker { held: placed, ..*old(self) }),
    {
        self.held = placed;
    }

    /// Takes note of a scan for several codes that found at least one; a
    /// region that is already tracked is kept when the first of them cannot be
    /// placed.
    pub fn read_many(&mut self, placed: bool)
        ensures
            *final(self) == (Tracker { held: placed || old(self).held, misses: 0 }),
            final(self).ok(),
    {
        self.held = placed || self.held;
        self.misses = 0;
    }
}

/// A lock survives a single miss, does not survive a run of them, and a read
/// in between starts the count again.
pub proof fn law_lock_is_dropped_after_a_short_run_of_misses(tracker: Tracker)
    requires
        tracker.held,
        tracker.misses == 0,
    ensures
        ({
            let (once, first) = tracker.region_read(false);
            let (twice, second) = once.region_read(false);
            let (again, _) = once.region_read(true);
            &&& once.held && first == AfterRegion::Missed
            &&& !twice.held && second == AfterRegion::ScanFrame
            &&& again == tracker
        }),
{
}

/// A read of the tracked region keeps the lock and forgives earlier misses. The
/// first miss keeps it too; the second in a row gives it up, and the whole frame
/// is scanned.
pub proof fn law_what_a_read_does_to_the_lock(tracker: Tracker)
    requires
        tracker.ok(),
    ensures
        tracker.misses <= 1,
        tracker.region_read(true) == (
            Tracker { held: tracker.held, misses: 0 },
            AfterRegion::Decoded,
        ),
        tracker.misses == 0 ==> tracker.region_read(false) == (
            Tracker { held: tracker.held, misses: 1 },
            AfterRegion::Missed,
        ),
        tracker.misses == 1 ==> tracker.region_read(false) == (
            Tracker { held: false, misses: 0 },
            AfterRegion::ScanFrame,
        ),
{
}

} // verus!
