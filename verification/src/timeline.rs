//! The playback timeline: speed (a quarter to four times, in thousandths),
//! pause and resume, seeking and clearing, and the visibility and progress of
//! a barrage at the current engine time. Times are in milliseconds.
use vstd::prelude::*;

use std::time::Instant;

use crate::clock::{clock_now, duration_since, whole_millis};
use crate::math::{clamp, min};

verus! {

/// Slowest playback speed, in thousandths.
pub const MIN_SPEED: u32 = 250;

/// Fastest playback speed, in thousandths.
pub const MAX_SPEED: u32 = 4000;

/// Normal playback speed, in thousandths.
pub const NORMAL_SPEED: u32 = 1000;

/// The playback clock of the engine.
pub struct TimelineController {
    speed: u32,
    paused: bool,
    engine_time_ms: u64,
    last_update: Instant,
    pause_engine_time_ms: u64,
    base_time_ms: u64,
    total_wall_time_ms: u64,
    total_engine_time_ms: u64,
}

/// Statistics of a timeline.
#[derive(Debug, Clone, Copy, PartialEq, Eq, Structural)]
pub struct TimelineStats {
    /// Current engine time in milliseconds.
    pub engine_time_ms: u64,
    /// Playback speed in thousandths.
    pub speed: u32,
    pub paused: bool,
    /// Wall time played, pauses excluded, in milliseconds.
    pub total_wall_time_ms: u64,
    /// Engine time played, in milliseconds.
    pub total_engine_time_ms: u64,
}

/// The abstract state of a timeline (the clock reading of the last update
/// left out).
pub struct TimelineView {
    pub speed: u32,
    pub paused: bool,
    pub engine_time_ms: u64,
    pub pause_engine_time_ms: u64,
    pub base_time_ms: u64,
    pub total_wall_time_ms: u64,
    pub total_engine_time_ms: u64,
}

impl View for TimelineController {
    type V = TimelineView;

    closed spec fn view(&self) -> TimelineView {
        TimelineView {
            speed: self.speed,
            paused: self.paused,
            engine_time_ms: self.engine_time_ms,
            pause_engine_time_ms: self.pause_engine_time_ms,
            base_time_ms: self.base_time_ms,
            total_wall_time_ms: self.total_wall_time_ms,
            total_engine_time_ms: self.total_engine_time_ms,
        }
    }
}

/// Engine milliseconds for `wall_ms` wall milliseconds at `speed`
/// (thousandths), rounded down and bounded to `u64::MAX`.
pub open spec fn engine_delta(wall_ms: u64, speed: u32) -> u64 {
    min(wall_ms * speed / 1000, u64::MAX as int) as u64
}

/// A speed request (thousandths) bounded to the supported range.
pub open spec fn bounded_speed(speed: i64) -> u32 {
    clamp(speed as int, MIN_SPEED as int, MAX_SPEED as int) as u32
}

impl TimelineView {
    /// The speed lies in the supported range.
    pub open spec fn wf(self) -> bool {
        MIN_SPEED <= self.speed <= MAX_SPEED
    }

    /// A timeline at time zero, playing at normal speed.
    pub open spec fn initial() -> TimelineView {
        TimelineView {
            speed: NORMAL_SPEED,
            paused: false,
            engine_time_ms: 0,
            pause_engine_time_ms: 0,
            base_time_ms: 0,
            total_wall_time_ms: 0,
            total_engine_time_ms: 0,
        }
    }

    /// The timeline after `wall_ms` wall milliseconds of play; a paused one
    /// does not move.
    pub open spec fn advanced(self, wall_ms: u64) -> TimelineView {
        if self.paused {
            self
        } else {
            let d = engine_delta(wall_ms, self.speed);
            TimelineView {
                engine_time_ms: (self.engine_time_ms + d) as u64,
                total_wall_time_ms: (self.total_wall_time_ms + wall_ms) as u64,
                total_engine_time_ms: (self.total_engine_time_ms + d) as u64,
                ..self
            }
        }
    }

    /// The playing timeline after the clock measured `wall_ms` wall
    /// milliseconds; the counters stop at `u64::MAX`.
    pub open spec fn clocked(self, wall_ms: u64) -> TimelineView {
        let d = engine_delta(wall_ms, self.speed);
        TimelineView {
            engine_time_ms: min(self.engine_time_ms + d, u64::MAX as int) as u64,
            total_wall_time_ms: min(self.total_wall_time_ms + wall_ms, u64::MAX as int) as u64,
            total_engine_time_ms: min(self.total_engine_time_ms + d, u64::MAX as int) as u64,
            ..self
        }
    }

    /// Whether `wall_ms` more milliseconds of play fit the counters.
    pub open spec fn can_advance(self, wall_ms: u64) -> bool {
        self.paused || {
            let d = engine_delta(wall_ms, self.speed);
            &&& self.engine_time_ms + d <= u64::MAX
            &&& self.total_wall_time_ms + wall_ms <= u64::MAX
            &&& self.total_engine_time_ms + d <= u64::MAX
        }
    }

    /// The timeline after a pause: a playing one stops and remembers its time.
    pub open spec fn paused_view(self) -> TimelineView {
        if self.paused {
            self
        } else {
            TimelineView { paused: true, pause_engine_time_ms: self.engine_time_ms, ..self }
        }
    }

    /// The timeline after a resume.
    pub open spec fn resumed_view(self) -> TimelineView {
        TimelineView { paused: false, ..self }
    }

    /// The timeline after a seek to `time_ms`.
    pub open spec fn sought(self, time_ms: u64) -> TimelineView {
        TimelineView {
            engine_time_ms: time_ms,
            base_time_ms: time_ms,
            pause_engine_time_ms: if self.paused {
                time_ms
            } else {
                self.pause_engine_time_ms
            },
            ..self
        }
    }

    /// Whether a barrage created at `created_ms` that lives `duration_ms` is
    /// shown: always while paused, else while its age is below its duration.
    pub open spec fn shows(self, created_ms: u64, duration_ms: u32) -> bool {
        self.paused || (if self.engine_time_ms >= created_ms {
            self.engine_time_ms - created_ms
        } else {
            0
        }) < duration_ms
    }

    /// Life progress (thousandths, 0..=1000) of a barrage created at
    /// `created_ms` that lives `duration_ms`.
    pub open spec fn progress(self, created_ms: u64, duration_ms: u32) -> u32 {
        if duration_ms == 0 {
            1000
        } else {
            let age: int = if self.engine_time_ms >= created_ms {
                self.engine_time_ms - created_ms
            } else {
                0
            };
            min(age * 1000 / duration_ms as int, 1000) as u32
        }
    }
}

impl TimelineController {
    /// A timeline at time zero, playing at normal speed.
    pub fn new() -> (r: Self)
        ensures
            r@ == TimelineView::initial(),
            r@.wf(),
    {
        TimelineController {
            speed: NORMAL_SPEED,
            paused: false,
            engine_time_ms: 0,
            last_update: clock_now(),
            pause_engine_time_ms: 0,
            base_time_ms: 0,
            total_wall_time_ms: 0,
            total_engine_time_ms: 0,
        }
    }

    /// A timeline at time zero playing at `speed` (thousandths), bounded to
    /// the supported range.
    pub fn with_speed(speed: i64) -> (r: Self)
        ensures
            r@ == (TimelineView { speed: bounded_speed(speed), ..TimelineView::initial() }),
            r@.wf(),
    {
        let mut ctrl = Self::new();
        ctrl.set_speed(speed);
        ctrl
    }

    /// Reads the clock and plays the wall time elapsed since the last update
    /// or resume; returns the engine milliseconds played (zero while paused).
    /// The counters stop at `u64::MAX`.
    pub fn update(&mut self) -> (r: u64)
        requires
            old(self)@.wf(),
        ensures
            final(self)@.wf(),
            old(self)@.paused ==> r == 0 && final(self)@ == old(self)@,
            !old(self)@.paused ==> exists|wall_ms: u64|
                r == engine_delta(wall_ms, old(self)@.speed) && final(self)@
                    == #[trigger] old(self)@.clocked(wall_ms),
    {
        if self.paused {
            return 0;
        }
        let now = clock_now();
        let elapsed = duration_since(&now, &self.last_update);
        let wall_ms = #[verifier::truncate] (whole_millis(&elapsed) as u64);
        self.last_update = now;
        let d = Self::scaled(wall_ms, self.speed);
        self.engine_time_ms = self.engine_time_ms.saturating_add(d);
        self.total_wall_time_ms = self.total_wall_time_ms.saturating_add(wall_ms);
        self.total_engine_time_ms = self.total_engine_time_ms.saturating_add(d);
        assert(self@ == old(self)@.clocked(wall_ms));
        d
    }

    /// Engine milliseconds for `wall_ms` wall milliseconds at `speed`.
    fn scaled(wall_ms: u64, speed: u32) -> (r: u64)
        requires
            speed <= MAX_SPEED,
        ensures
            r == engine_delta(wall_ms, speed),
    {
        assert(wall_ms * speed <= 0xFFFF_FFFF_FFFF_FFFF * 4000) by (nonlinear_arith)
            requires
                speed <= 4000,
        ;
        let e: u128 = wall_ms as u128 * speed as u128 / 1000;
        if e > u64::MAX as u128 {
            u64::MAX
        } else {
            e as u64
        }
    }

    /// Whether `wall_delta_ms` wall milliseconds can be played without any
    /// time counter overflowing.
    pub fn can_advance_by(&self, wall_delta_ms: u64) -> (r: bool)
        requires
            self@.wf(),
        ensures
            r == self@.can_advance(wall_delta_ms),
    {
        if self.paused {
            return true;
        }
        let d = Self::scaled(wall_delta_ms, self.speed);
        self.engine_time_ms as u128 + d as u128 <= u64::MAX as u128 && self.total_wall_time_ms as u128
            + wall_delta_ms as u128 <= u64::MAX as u128 && self.total_engine_time_ms as u128 + d as u128
            <= u64::MAX as u128
    }

    /// Plays `wall_delta_ms` wall milliseconds (nothing while paused) and
    /// returns the engine milliseconds played.
    pub fn advance_by(&mut self, wall_delta_ms: u64) -> (r: u64)
        requires
            old(self)@.wf(),
            old(self)@.can_advance(wall_delta_ms),
        ensures
            final(self)@.wf(),
            final(self)@ == old(self)@.advanced(wall_delta_ms),
            r == if old(self)@.paused {
                0
            } else {
                engine_delta(wall_delta_ms, old(self)@.speed)
            },
    {
        if self.paused {
            return 0;
        }
        let d = Self::scaled(wall_delta_ms, self.speed);
        self.engine_time_ms = self.engine_time_ms + d;
        self.total_wall_time_ms = self.total_wall_time_ms + wall_delta_ms;
        self.total_engine_time_ms = self.total_engine_time_ms + d;
        d
    }

    /// Pauses playback; the engine time at the pause is remembered.
    pub fn pause(&mut self)
        ensures
            final(self)@ == old(self)@.paused_view(),
    {
        if !self.paused {
            self.paused = true;
            self.pause_engine_time_ms = self.engine_time_ms;
        }
    }

    /// Resumes playback; the wall time spent paused is not played.
    pub fn resume(&mut self)
        ensures
            final(self)@ == old(self)@.resumed_view(),
    {
        if self.paused {
            self.paused = false;
            self.last_update = clock_now();
        }
    }

    /// Pauses a playing timeline, resumes a paused one.
    pub fn toggle_pause(&mut self)
        ensures
            final(self)@ == if old(self)@.paused {
                old(self)@.resumed_view()
            } else {
                old(self)@.paused_view()
            },
    {
        if self.paused {
            self.resume();
        } else {
            self.pause();
        }
    }

    /// Jumps to engine time `time_ms`.
    pub fn seek(&mut self, time_ms: u64)
        ensures
            final(self)@ == old(self)@.sought(time_ms),
    {
        self.engine_time_ms = time_ms;
        self.base_time_ms = time_ms;
        self.last_update = clock_now();
        if self.paused {
            self.pause_engine_time_ms = time_ms;
        }
    }

    /// Back to time zero, playing at normal speed, statistics cleared.
    pub fn clear(&mut self)
        ensures
            final(self)@ == TimelineView::initial(),
    {
        self.engine_time_ms = 0;
        self.base_time_ms = 0;
        self.pause_engine_time_ms = 0;
        self.total_wall_time_ms = 0;
        self.total_engine_time_ms = 0;
        self.paused = false;
        self.speed = NORMAL_SPEED;
        self.last_update = clock_now();
    }

    /// Sets the playback speed (thousandths), bounded to 250..=4000.
    pub fn set_speed(&mut self, speed: i64)
        ensures
            final(self)@ == (TimelineView { speed: bounded_speed(speed), ..old(self)@ }),
            final(self)@.wf(),
    {
        self.speed = if speed < MIN_SPEED as i64 {
            MIN_SPEED
        } else if speed > MAX_SPEED as i64 {
            MAX_SPEED
        } else {
            speed as u32
        };
    }

    /// The playback speed in thousandths.
    pub fn speed(&self) -> (r: u32)
        ensures
            r == self@.speed,
    {
        self.speed
    }

    /// The engine time in milliseconds.
    pub fn engine_time_ms(&self) -> (r: u64)
        ensures
            r == self@.engine_time_ms,
    {
        self.engine_time_ms
    }

    /// Whether playback is paused.
    pub fn is_paused(&self) -> (r: bool)
        ensures
            r == self@.paused,
    {
        self.paused
    }

    /// `(engine time, speed in thousandths, playing)`.
    pub fn get_state(&self) -> (r: (u64, u32, bool))
        ensures
            r == (self@.engine_time_ms, self@.speed, !self@.paused),
    {
        (self.engine_time_ms, self.speed, !self.paused)
    }

    /// Whether a barrage created at `created_ms` that lives `duration_ms` is
    /// shown now: always while paused, else while its age is below its
    /// duration.
    pub fn is_barrage_visible(&self, created_ms: u64, duration_ms: u32) -> (r: bool)
        ensures
            r == self@.shows(created_ms, duration_ms),
    {
        if self.paused {
            return true;
        }
        let elapsed = self.engine_time_ms.saturating_sub(created_ms);
        elapsed < duration_ms as u64
    }

    /// Life progress in thousandths (0..=1000) of a barrage created at
    /// `created_ms` that lives `duration_ms`; 1000 for a zero duration.
    pub fn get_barrage_progress(&self, created_ms: u64, duration_ms: u32) -> (r: u32)
        ensures
            r == self@.progress(created_ms, duration_ms),
    {
        if duration_ms == 0 {
            return 1000;
        }
        let elapsed = self.engine_time_ms.saturating_sub(created_ms);
        let p: u128 = elapsed as u128 * 1000 / duration_ms as u128;
        if p > 1000 {
            1000
        } else {
            p as u32
        }
    }

    /// The statistics of the timeline.
    pub fn get_stats(&self) -> (r: TimelineStats)
        ensures
            r == (TimelineStats {
                engine_time_ms: self@.engine_time_ms,
                speed: self@.speed,
                paused: self@.paused,
                total_wall_time_ms: self@.total_wall_time_ms,
                total_engine_time_ms: self@.total_engine_time_ms,
            }),
    {
        TimelineStats {
            engine_time_ms: self.engine_time_ms,
            speed: self.speed,
            paused: self.paused,
            total_wall_time_ms: self.total_wall_time_ms,
            total_engine_time_ms: self.total_engine_time_ms,
        }
    }
}

impl Default for TimelineController {
    fn default() -> (r: Self)
        ensures
            r@ == TimelineView::initial(),
    {
        Self::new()
    }
}

/// While paused, playing time moves nothing.
pub proof fn law_paused_timeline_stands_still(v: TimelineView, wall_ms: u64)
    requires
        v.paused,
    ensures
        v.advanced(wall_ms) == v,
        v.can_advance(wall_ms),
{
}

/// Pausing and resuming a playing timeline keeps its time, speed and
/// counters.
pub proof fn law_pause_then_resume_keeps_time(v: TimelineView)
    requires
        !v.paused,
    ensures
        v.paused_view().resumed_view() == (TimelineView {
            pause_engine_time_ms: v.engine_time_ms,
            ..v
        }),
{
}

/// Playing in two steps at normal speed plays their sum.
pub proof fn law_normal_speed_plays_wall_time(v: TimelineView, a: u64, b: u64)
    requires
        !v.paused,
        v.speed == NORMAL_SPEED,
        v.can_advance(a),
        v.advanced(a).can_advance(b),
    ensures
        v.advanced(a).advanced(b).engine_time_ms == v.engine_time_ms + a + b,
{
    assert(a * 1000 / 1000 == a) by (nonlinear_arith);
    assert(b * 1000 / 1000 == b) by (nonlinear_arith);
    assert(engine_delta(a, NORMAL_SPEED) == a);
    assert(engine_delta(b, NORMAL_SPEED) == b);
}

/// A seek sets the engine time, playing or paused.
pub proof fn law_seek_sets_time(v: TimelineView, t: u64)
    ensures
        v.sought(t).engine_time_ms == t,
        v.sought(t).paused == v.paused,
        v.sought(t).speed == v.speed,
{
}

} // verus!
