//! Turning the presentation times a phone stamps its frames with into times
//! of the host's clock.
//!
//! The first frame is anchored to the host's clock as it arrives, and every
//! later one keeps its distance from the frames before it, so the spacing the
//! phone gave its frames survives whatever delays the USB link adds. A jump
//! in the presentation times, as when the phone restarts its stream, anchors
//! the clock anew.

use vstd::prelude::*;

verus! {

/// How far apart two presentation times may be, in microseconds, before the
/// second counts as the start of a new stream.
pub const PTS_DISCONTINUITY_US: u64 = 5000000;

/// The distance between two presentation times.
pub open spec fn distance(a: u64, b: u64) -> int {
    if a >= b {
        a - b
    } else {
        b - a
    }
}

pub struct Clock {
    anchored: bool,
    first_pts_us: u64,
    previous_pts_us: u64,
    anchor_ns: u64,
}

impl Clock {
    #[verifier::type_invariant]
    spec fn well_formed(self) -> bool {
        self.anchored ==> self.first_pts_us <= self.previous_pts_us
    }

    /// Whether a frame has anchored the clock yet.
    pub closed spec fn is_anchored(self) -> bool {
        self.anchored
    }

    /// The presentation time of the latest frame, in microseconds.
    pub closed spec fn previous(self) -> u64 {
        self.previous_pts_us
    }

    /// The host time the latest frame was given, in nanoseconds.
    pub closed spec fn latest(self) -> int {
        self.anchor_ns + (self.previous_pts_us - self.first_pts_us) * 1000
    }

    /// Whether a frame presented at `pts_us` anchors the clock anew: it is
    /// the first, or too far from the latest.
    pub open spec fn reanchors(self, pts_us: u64) -> bool {
        !self.is_anchored() || distance(pts_us, self.previous()) > PTS_DISCONTINUITY_US
    }

    /// The host time of a frame presented at `pts_us`, the clock being
    /// anchored and the frame close enough to the latest: as far from the
    /// latest host time as the frame is from the latest frame.
    pub open spec fn follows(self, pts_us: u64) -> int {
        self.latest() + (pts_us - self.previous()) * 1000
    }

    /// Whether a frame presented at `pts_us` gets a host time a `u64` can
    /// hold: it anchors the clock anew, or its time follows within range.
    pub fn can_follow(&self, pts_us: u64) -> (r: bool)
        ensures
            r == (self.reanchors(pts_us) || 0 <= self.follows(pts_us) <= u64::MAX),
    {
        proof {
            use_type_invariant(self);
        }
        let distance = if pts_us >= self.previous_pts_us {
            pts_us - self.previous_pts_us
        } else {
            self.previous_pts_us - pts_us
        };
        if !self.anchored || distance > PTS_DISCONTINUITY_US {
            return true;
        }
        let latest: i128 = self.anchor_ns as i128 + (self.previous_pts_us - self.first_pts_us) as i128 * 1000;
        let follows: i128 = latest + (pts_us as i128 - self.previous_pts_us as i128) * 1000;
        0 <= follows && follows <= 0xffff_ffff_ffff_ffffi128
    }

    /// A clock no frame has anchored yet.
    pub fn new() -> (r: Clock)
        ensures
            !r.is_anchored(),
    {
        Clock { anchored: false, first_pts_us: 0, previous_pts_us: 0, anchor_ns: 0 }
    }

    /// The host time, in nanoseconds, to show a frame presented at `pts_us`
    /// at. `now_ns` reads the host's clock, and is only called when the
    /// frame anchors the clock.
    pub fn timestamp<F: FnOnce() -> u64>(&mut self, pts_us: u64, now_ns: F) -> (r: u64)
        requires
            old(self).reanchors(pts_us) ==> call_requires(now_ns, ()),
            !old(self).reanchors(pts_us) ==> 0 <= old(self).follows(pts_us) <= u64::MAX,
        ensures
            old(self).reanchors(pts_us) ==> call_ensures(now_ns, (), r),
            !old(self).reanchors(pts_us) ==> r == old(self).follows(pts_us),
            final(self).is_anchored(),
            final(self).previous() == pts_us,
            final(self).latest() == r,
    {
        proof {
            use_type_invariant(&*self);
        }
        let distance = if pts_us >= self.previous_pts_us {
            pts_us - self.previous_pts_us
        } else {
            self.previous_pts_us - pts_us
        };
        if !self.anchored || distance > PTS_DISCONTINUITY_US {
            let now = now_ns();
            *self = Clock { anchored: true, first_pts_us: pts_us, previous_pts_us: pts_us, anchor_ns: now };
        } else if pts_us < self.first_pts_us {
            let anchor_ns = self.anchor_ns - (self.first_pts_us - pts_us) * 1000;
            *self = Clock { anchored: true, first_pts_us: pts_us, previous_pts_us: pts_us, anchor_ns };
        } else {
            self.previous_pts_us = pts_us;
        }
        self.anchor_ns + (pts_us - self.first_pts_us) * 1000
    }
}

impl Default for Clock {
    fn default() -> (r: Clock)
        ensures
            !r.is_anchored(),
    {
        Clock::new()
    }
}

/// Frames that follow one another closely keep their spacing: once a frame
/// presented at `p1` was given the host time `t1` (which leaves the clock
/// anchored, at `p1` and `t1`), the next frame, presented at `p2` no more
/// than the discontinuity away, does not anchor the clock anew and gets the
/// host time as far from `t1` as `p2` is from `p1`.
pub proof fn lemma_spacing_is_kept(clock: Clock, p1: u64, t1: int, p2: u64)
    requires
        clock.is_anchored(),
        clock.previous() == p1,
        clock.latest() == t1,
        distance(p2, p1) <= PTS_DISCONTINUITY_US,
    ensures
        !clock.reanchors(p2),
        clock.follows(p2) == t1 + (p2 - p1) * 1000,
{
}

} // verus!
