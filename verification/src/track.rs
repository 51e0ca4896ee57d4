//! The track manager: places barrages on tracks, applies each track's
//! congestion strategy, moves barrages every frame, retires the expired or
//! off-screen ones and lets queued barrages in when room frees up.
//!
//! Positions are in thousandths of a pixel, scroll speeds in thousandths of a
//! pixel per second.
use vstd::prelude::*;

use std::collections::VecDeque;

use crate::barrage::{slot_alive, BarrageObject, BarrageObjectPool, PoolView};
use crate::config::{BarrageTrackConfig, CongestionStrategy, TrackMode};
use crate::math::{clamp, max, min};

verus! {

/// A barrage waiting for room on a full track.
#[derive(Debug, Clone, Copy, PartialEq, Eq, Structural)]
pub struct PendingBarrage {
    /// Slot of the barrage in the object pool.
    pub pool_idx: usize,
    /// Engine time when it was queued, in milliseconds.
    pub enqueue_time_ms: u64,
}

/// Result of a collision prediction.
#[derive(Debug, Clone, Copy, PartialEq, Eq, Structural)]
pub struct CollisionResult {
    pub will_collide: bool,
    pub collision_time_ms: u64,
}

/// One track at run time.
#[derive(Debug, Clone)]
pub struct Track {
    pub mode: TrackMode,
    pub congestion_strategy: CongestionStrategy,
    /// Pool slots of the barrages shown on this track.
    pub active_barrages: Vec<usize>,
    /// Barrages waiting for room, oldest first.
    pub pending_queue: VecDeque<PendingBarrage>,
    pub max_concurrent: u32,
    pub track_height: u32,
    pub spacing: u32,
    /// Scroll speed in thousandths of a pixel per second.
    pub scroll_speed: u32,
    /// Vertical position of the track in thousandths of a pixel.
    pub next_y: i64,
}

/// The abstract state of a track.
pub struct TrackView {
    pub mode: TrackMode,
    pub congestion_strategy: CongestionStrategy,
    pub active: Seq<usize>,
    pub pending: Seq<PendingBarrage>,
    pub max_concurrent: u32,
    pub track_height: u32,
    pub spacing: u32,
    pub scroll_speed: u32,
    pub next_y: i64,
}

impl View for Track {
    type V = TrackView;

    open spec fn view(&self) -> TrackView {
        TrackView {
            mode: self.mode,
            congestion_strategy: self.congestion_strategy,
            active: self.active_barrages@,
            pending: self.pending_queue@,
            max_concurrent: self.max_concurrent,
            track_height: self.track_height,
            spacing: self.spacing,
            scroll_speed: self.scroll_speed,
            next_y: self.next_y,
        }
    }
}

impl Track {
    /// Creates an empty track that queues barrages when full.
    pub fn new(
        mode: TrackMode,
        max_concurrent: u32,
        track_height: u32,
        spacing: u32,
        scroll_speed: u32,
        y_position: i64,
    ) -> (r: Self)
        ensures
            r@ == (TrackView {
                mode,
                congestion_strategy: CongestionStrategy::Queue,
                active: Seq::empty(),
                pending: Seq::empty(),
                max_concurrent,
                track_height,
                spacing,
                scroll_speed,
                next_y: y_position,
            }),
    {
        Track {
            mode,
            congestion_strategy: CongestionStrategy::Queue,
            active_barrages: Vec::with_capacity(max_concurrent as usize),
            pending_queue: VecDeque::new(),
            max_concurrent,
            track_height,
            spacing,
            scroll_speed,
            next_y: y_position,
        }
    }

    /// Whether the track shows as many barrages as it may.
    pub fn is_full(&self) -> (r: bool)
        ensures
            r == (self@.active.len() >= self@.max_concurrent),
    {
        self.active_barrages.len() >= self.max_concurrent as usize
    }
}

/// The abstract state of a track manager.
pub struct TrackManagerView {
    pub tracks: Seq<TrackView>,
    pub canvas_width: u32,
    pub canvas_height: u32,
    pub allow_overlap: bool,
}

/// Manages every track and dispatches barrages to them.
pub struct TrackManager {
    pub tracks: Vec<Track>,
    canvas_width: u32,
    canvas_height: u32,
    allow_overlap: bool,
}

impl View for TrackManager {
    type V = TrackManagerView;

    closed spec fn view(&self) -> TrackManagerView {
        TrackManagerView {
            tracks: self.tracks@.map_values(|t: Track| t@),
            canvas_width: self.canvas_width,
            canvas_height: self.canvas_height,
            allow_overlap: self.allow_overlap,
        }
    }
}

/// Mode of the `i`-th of uniformly created tracks: scroll, top, bottom,
/// reverse, and again.
pub open spec fn cycled_mode(i: int) -> TrackMode {
    if i % 4 == 0 {
        TrackMode::Scroll
    } else if i % 4 == 1 {
        TrackMode::Top
    } else if i % 4 == 2 {
        TrackMode::Bottom
    } else {
        TrackMode::Reverse
    }
}

/// Vertical position (thousandths of a pixel) of the `i`-th track of height
/// `height` on a canvas `canvas_height` pixels high.
pub open spec fn track_y(i: int, height: u32, canvas_height: u32) -> i64 {
    (min(i * height, canvas_height - height) * 1000) as i64
}

/// Height of uniformly created tracks.
pub open spec fn uniform_track_height(count: u32, canvas_height: u32, default_height: u32) -> u32 {
    max(min(canvas_height as int / count as int, default_height as int), 20) as u32
}

/// How `add_barrage` treats a barrage on a track.
pub enum Admission {
    Shown,
    Queued,
    Dropped,
}

/// A track with room shows the barrage; a full one queues or drops it.
pub open spec fn admission(t: TrackView) -> Admission {
    if t.active.len() >= t.max_concurrent {
        match t.congestion_strategy {
            CongestionStrategy::Queue => Admission::Queued,
            CongestionStrategy::Drop => Admission::Dropped,
        }
    } else {
        Admission::Shown
    }
}

/// A barrage placed at the entry point of a track.
pub open spec fn placed(
    o: BarrageObject,
    mode: TrackMode,
    scroll_speed: u32,
    canvas_width: u32,
    track_index: u32,
    y: i64,
) -> BarrageObject {
    let (x, speed_x): (i64, i64) = match mode {
        TrackMode::Scroll => ((canvas_width * 1000) as i64, -scroll_speed as i64),
        TrackMode::Top | TrackMode::Bottom => ((canvas_width * 500) as i64, 0),
        TrackMode::Reverse => (-(o.width * 1000) as i64, scroll_speed as i64),
    };
    BarrageObject {
        start_x: x,
        x: x,
        speed_x: speed_x,
        speed_y: 0,
        track_index: track_index,
        y: y,
        start_y: y,
        ..o
    }
}

/// The pool with the barrage of slot `idx`, if any, placed on a track.
pub open spec fn pool_with_placed(
    pool: PoolView,
    idx: usize,
    t: TrackView,
    canvas_width: u32,
    track_index: u32,
) -> PoolView {
    if idx < pool.slots.len() && pool.slots[idx as int] is Some {
        PoolView {
            slots: pool.slots.update(
                idx as int,
                Some(
                    placed(
                        pool.slots[idx as int]->0,
                        t.mode,
                        t.scroll_speed,
                        canvas_width,
                        track_index,
                        t.next_y,
                    ),
                ),
            ),
            ..pool
        }
    } else {
        pool
    }
}

/// The track manager, the pool and the outcome (`true` for `Ok`) of
/// `add_barrage`: an unknown track changes nothing and fails; otherwise the
/// barrage is placed at the track's entry point and shown, queued or
/// dropped (its slot freed) as `admission` says.
pub open spec fn barrage_added(
    v: TrackManagerView,
    pool: PoolView,
    pool_idx: usize,
    track_index: u32,
    now: u64,
) -> (TrackManagerView, PoolView, bool) {
    if track_index >= v.tracks.len() {
        (v, pool, false)
    } else {
        let t = v.tracks[track_index as int];
        let p = pool_with_placed(pool, pool_idx, t, v.canvas_width, track_index);
        match admission(t) {
            Admission::Shown => (
                TrackManagerView {
                    tracks: v.tracks.update(
                        track_index as int,
                        TrackView { active: t.active.push(pool_idx), ..t },
                    ),
                    ..v
                },
                p,
                true,
            ),
            Admission::Queued => (
                TrackManagerView {
                    tracks: v.tracks.update(
                        track_index as int,
                        TrackView {
                            pending: t.pending.push(
                                PendingBarrage { pool_idx, enqueue_time_ms: now },
                            ),
                            ..t
                        },
                    ),
                    ..v
                },
                p,
                true,
            ),
            Admission::Dropped => (v, p.deallocated(pool_idx), false),
        }
    }
}

/// The tracks `TrackManager::new` lays out.
pub open spec fn uniform_layout(
    track_count: u32,
    canvas_width: u32,
    canvas_height: u32,
    allow_overlap: bool,
    default_track_height: u32,
    default_spacing: u32,
    default_scroll_speed: u32,
) -> TrackManagerView {
    let n = clamp(track_count as int, 1, 100);
    let th = uniform_track_height(n as u32, canvas_height, default_track_height);
    TrackManagerView {
        tracks: Seq::new(
            n as nat,
            |i: int|
                TrackView {
                    mode: cycled_mode(i),
                    congestion_strategy: CongestionStrategy::Queue,
                    active: Seq::empty(),
                    pending: Seq::empty(),
                    max_concurrent: 10,
                    track_height: th,
                    spacing: default_spacing,
                    scroll_speed: default_scroll_speed,
                    next_y: track_y(i, th, canvas_height),
                },
        ),
        canvas_width,
        canvas_height,
        allow_overlap,
    }
}

/// The tracks `TrackManager::new_with_configs` lays out.
pub open spec fn configured_layout(
    configs: Seq<BarrageTrackConfig>,
    canvas_width: u32,
    canvas_height: u32,
    allow_overlap: bool,
) -> TrackManagerView {
    TrackManagerView {
        tracks: Seq::new(
            configs.len(),
            |i: int|
                TrackView {
                    mode: configs[i].mode,
                    congestion_strategy: configs[i].congestion_strategy,
                    active: Seq::empty(),
                    pending: Seq::empty(),
                    max_concurrent: configs[i].max_concurrent,
                    track_height: configs[i].track_height,
                    spacing: configs[i].spacing,
                    scroll_speed: configs[i].scroll_speed,
                    next_y: track_y(i, configs[i].track_height, canvas_height),
                },
        ),
        canvas_width,
        canvas_height,
        allow_overlap,
    }
}

/// Whether a barrage on a track of the given mode has left the visible area
/// (for fixed tracks: has expired).
pub open spec fn out_of_bounds(o: BarrageObject, mode: TrackMode, canvas_width: u32) -> bool {
    match mode {
        TrackMode::Scroll => o.x + o.width * 1000 < -50_000,
        TrackMode::Top | TrackMode::Bottom => !o.alive,
        TrackMode::Reverse => o.x > canvas_width * 1000 + 50_000,
    }
}

/// Moves the barrages of the first `n` active entries of a track, in order,
/// and collects the slots to retire: slots without a barrage, expired
/// barrages and barrages out of bounds.
pub open spec fn scanned(
    slots: Seq<Option<BarrageObject>>,
    active: Seq<usize>,
    n: int,
    mode: TrackMode,
    canvas_width: u32,
    delta_ms: u64,
    mult: u32,
) -> (Seq<Option<BarrageObject>>, Seq<usize>)
    decreases n,
{
    if n <= 0 {
        (slots, Seq::empty())
    } else {
        let (s, rm) = scanned(slots, active, n - 1, mode, canvas_width, delta_ms, mult);
        let idx = active[n - 1];
        if idx < s.len() && s[idx as int] is Some {
            let o = s[idx as int]->0.updated(delta_ms, mult);
            (
                s.update(idx as int, Some(o)),
                if !o.alive || out_of_bounds(o, mode, canvas_width) {
                    rm.push(idx)
                } else {
                    rm
                },
            )
        } else {
            (s, rm.push(idx))
        }
    }
}

/// Position of the first `x` among the first `n` entries, or `n`.
pub open spec fn first_pos(s: Seq<usize>, x: usize, n: int) -> int
    decreases n,
{
    if n <= 0 {
        0
    } else {
        let p = first_pos(s, x, n - 1);
        if p < n - 1 {
            p
        } else if s[n - 1] == x {
            n - 1
        } else {
            n
        }
    }
}

/// `s` with its first `x`, if any, replaced by its last entry and shortened
/// by one.
pub open spec fn swap_removed(s: Seq<usize>, x: usize) -> Seq<usize> {
    let p = first_pos(s, x, s.len() as int);
    if p < s.len() {
        s.update(p, s.last()).drop_last()
    } else {
        s
    }
}

/// The active list and the pool after retiring the first `n` entries of `rm`:
/// each is swap-removed from the list and its slot freed.
pub open spec fn retired(active: Seq<usize>, pool: PoolView, rm: Seq<usize>, n: int) -> (
    Seq<usize>,
    PoolView,
)
    decreases n,
{
    if n <= 0 {
        (active, pool)
    } else {
        let (a, p) = retired(active, pool, rm, n - 1);
        (swap_removed(a, rm[n - 1]), p.deallocated(rm[n - 1]))
    }
}

/// Moves queued barrages, oldest first, onto a track while it has room; a
/// queued barrage whose slot holds no live barrage is discarded.
pub open spec fn dispatched(
    active: Seq<usize>,
    pending: Seq<PendingBarrage>,
    max_concurrent: u32,
    slots: Seq<Option<BarrageObject>>,
) -> (Seq<usize>, Seq<PendingBarrage>)
    decreases pending.len(),
{
    if pending.len() == 0 || active.len() >= max_concurrent {
        (active, pending)
    } else {
        let p = pending[0];
        let a = if p.pool_idx < slots.len() && slot_alive(slots[p.pool_idx as int]) {
            active.push(p.pool_idx)
        } else {
            active
        };
        dispatched(a, pending.drop_first(), max_concurrent, slots)
    }
}

/// One frame of one track: move, retire, then let queued barrages in.
pub open spec fn track_frame(
    t: TrackView,
    pool: PoolView,
    canvas_width: u32,
    delta_ms: u64,
    mult: u32,
) -> (TrackView, PoolView) {
    let (slots1, rm) = scanned(
        pool.slots,
        t.active,
        t.active.len() as int,
        t.mode,
        canvas_width,
        delta_ms,
        mult,
    );
    let pool1 = PoolView { slots: slots1, ..pool };
    let (active2, pool2) = retired(t.active, pool1, rm, rm.len() as int);
    let (active3, pending3) = dispatched(active2, t.pending, t.max_concurrent, pool2.slots);
    (TrackView { active: active3, pending: pending3, ..t }, pool2)
}

/// One frame of the first `n` tracks, in order.
pub open spec fn frame(
    tracks: Seq<TrackView>,
    pool: PoolView,
    n: int,
    canvas_width: u32,
    delta_ms: u64,
    mult: u32,
) -> (Seq<TrackView>, PoolView)
    decreases n,
{
    if n <= 0 {
        (tracks, pool)
    } else {
        let (ts, p) = frame(tracks, pool, n - 1, canvas_width, delta_ms, mult);
        let (t, p2) = track_frame(ts[n - 1], p, canvas_width, delta_ms, mult);
        (ts.update(n - 1, t), p2)
    }
}

/// The pool after freeing the first `n` slots of `idxs`, in order.
pub open spec fn deallocated_all(pool: PoolView, idxs: Seq<usize>, n: int) -> PoolView
    decreases n,
{
    if n <= 0 {
        pool
    } else {
        deallocated_all(pool, idxs, n - 1).deallocated(idxs[n - 1])
    }
}

/// The pool after freeing, track by track, the active slots of the first
/// `n` tracks.
pub open spec fn freed_tracks(pool: PoolView, tracks: Seq<TrackView>, n: int) -> PoolView
    decreases n,
{
    if n <= 0 {
        pool
    } else {
        let a = tracks[n - 1].active;
        deallocated_all(freed_tracks(pool, tracks, n - 1), a, a.len() as int)
    }
}

/// Freeing the tracks' slots keeps the number of slots and the growth step.
pub proof fn lemma_freed_tracks_shape(pool: PoolView, tracks: Seq<TrackView>, n: int)
    ensures
        freed_tracks(pool, tracks, n).slots.len() == pool.slots.len(),
        freed_tracks(pool, tracks, n).grow_step == pool.grow_step,
    decreases n,
{
    if n > 0 {
        lemma_freed_tracks_shape(pool, tracks, n - 1);
        let a = tracks[n - 1].active;
        lemma_deallocated_all_shape(freed_tracks(pool, tracks, n - 1), a, a.len() as int);
    }
}

/// Freeing slots keeps the number of slots and the growth step.
pub proof fn lemma_deallocated_all_shape(pool: PoolView, idxs: Seq<usize>, n: int)
    ensures
        deallocated_all(pool, idxs, n).slots.len() == pool.slots.len(),
        deallocated_all(pool, idxs, n).grow_step == pool.grow_step,
    decreases n,
{
    if n > 0 {
        lemma_deallocated_all_shape(pool, idxs, n - 1);
    }
}

/// Barrages held in the slots named by the first `n` entries of `active`.
pub open spec fn present_in(slots: Seq<Option<BarrageObject>>, active: Seq<usize>, n: int) -> Seq<
    BarrageObject,
>
    decreases n,
{
    if n <= 0 {
        Seq::empty()
    } else {
        let idx = active[n - 1];
        if idx < slots.len() && slots[idx as int] is Some {
            present_in(slots, active, n - 1).push(slots[idx as int]->0)
        } else {
            present_in(slots, active, n - 1)
        }
    }
}

/// Live barrages held in the slots named by the first `n` entries of `active`.
pub open spec fn alive_present_in(
    slots: Seq<Option<BarrageObject>>,
    active: Seq<usize>,
    n: int,
) -> Seq<BarrageObject>
    decreases n,
{
    if n <= 0 {
        Seq::empty()
    } else {
        let idx = active[n - 1];
        if idx < slots.len() && slot_alive(slots[idx as int]) {
            alive_present_in(slots, active, n - 1).push(slots[idx as int]->0)
        } else {
            alive_present_in(slots, active, n - 1)
        }
    }
}

/// A track with nothing shown and nothing queued.
pub open spec fn emptied(t: TrackView) -> TrackView {
    TrackView { active: Seq::empty(), pending: Seq::empty(), ..t }
}

/// Live barrages of the first `n` tracks, track by track, each track in the
/// order of its active list.
pub open spec fn all_alive(slots: Seq<Option<BarrageObject>>, tracks: Seq<TrackView>, n: int) -> Seq<
    BarrageObject,
>
    decreases n,
{
    if n <= 0 {
        Seq::empty()
    } else {
        let a = tracks[n - 1].active;
        all_alive(slots, tracks, n - 1) + alive_present_in(slots, a, a.len() as int)
    }
}

/// Room left for ages: every live barrage younger than `u32::MAX`
/// milliseconds can age by this much.
pub const AGE_ROOM: u64 = 0xFFFF_FFFF_0000_0000;

/// Every live barrage can live another `delta_ms` without its age overflowing.
pub open spec fn ages_fit(slots: Seq<Option<BarrageObject>>, delta_ms: u64) -> bool {
    forall|i: int|
        0 <= i < slots.len() && #[trigger] slot_alive(slots[i]) ==> slots[i]->0.elapsed_ms
            + delta_ms <= u64::MAX
}

impl TrackManager {
    /// Creates `clamp(track_count, 1, 100)` queueing tracks of up to ten
    /// barrages each, cycling through the four modes, stacked from the top.
    pub fn new(
        track_count: u32,
        canvas_width: u32,
        canvas_height: u32,
        allow_overlap: bool,
        default_track_height: u32,
        default_spacing: u32,
        default_scroll_speed: u32,
    ) -> (r: Self)
        ensures
            r@ == uniform_layout(
                track_count,
                canvas_width,
                canvas_height,
                allow_overlap,
                default_track_height,
                default_spacing,
                default_scroll_speed,
            ),
            r@.tracks.len() == clamp(track_count as int, 1, 100),
            r@.canvas_width == canvas_width,
            r@.canvas_height == canvas_height,
            r@.allow_overlap == allow_overlap,
            forall|i: int|
                0 <= i < r@.tracks.len() ==> #[trigger] r@.tracks[i] == (TrackView {
                    mode: cycled_mode(i),
                    congestion_strategy: CongestionStrategy::Queue,
                    active: Seq::empty(),
                    pending: Seq::empty(),
                    max_concurrent: 10,
                    track_height: uniform_track_height(
                        clamp(track_count as int, 1, 100) as u32,
                        canvas_height,
                        default_track_height,
                    ),
                    spacing: default_spacing,
                    scroll_speed: default_scroll_speed,
                    next_y: track_y(
                        i,
                        uniform_track_height(
                            clamp(track_count as int, 1, 100) as u32,
                            canvas_height,
                            default_track_height,
                        ),
                        canvas_height,
                    ),
                }),
    {
        let count: u32 = if track_count < 1 {
            1
        } else if track_count > 100 {
            100
        } else {
            track_count
        };
        let per_track = canvas_height / count;
        let h0 = if per_track < default_track_height {
            per_track
        } else {
            default_track_height
        };
        let track_height: u32 = if h0 < 20 {
            20
        } else {
            h0
        };
        let ghost th = uniform_track_height(count, canvas_height, default_track_height);
        assert(track_height == th);
        let mut tracks: Vec<Track> = Vec::with_capacity(count as usize);
        let mut i: u32 = 0;
        while i < count
            invariant
                1 <= count <= 100,
                count == clamp(track_count as int, 1, 100),
                track_height == th,
                0 <= i <= count,
                tracks@.len() == i,
                forall|k: int|
                    0 <= k < i ==> #[trigger] tracks@[k]@ == (TrackView {
                        mode: cycled_mode(k),
                        congestion_strategy: CongestionStrategy::Queue,
                        active: Seq::empty(),
                        pending: Seq::empty(),
                        max_concurrent: 10,
                        track_height: th,
                        spacing: default_spacing,
                        scroll_speed: default_scroll_speed,
                        next_y: track_y(k, th, canvas_height),
                    }),
            decreases count - i,
        {
            let mode = if i % 4 == 0 {
                TrackMode::Scroll
            } else if i % 4 == 1 {
                TrackMode::Top
            } else if i % 4 == 2 {
                TrackMode::Bottom
            } else {
                TrackMode::Reverse
            };
            assert(i as i64 * track_height as i64 <= 100 * 0xffff_ffff) by (nonlinear_arith)
                requires
                    i < 100,
            ;
            let stacked: i64 = i as i64 * track_height as i64;
            let lowest: i64 = canvas_height as i64 - track_height as i64;
            let y: i64 = if stacked < lowest {
                stacked
            } else {
                lowest
            };
            tracks.push(
                Track::new(mode, 10, track_height, default_spacing, default_scroll_speed, y * 1000),
            );
            i = i + 1;
        }
        let r = TrackManager { tracks, canvas_width, canvas_height, allow_overlap };
        assert forall|k: int| 0 <= k < r@.tracks.len() implies #[trigger] r@.tracks[k]
            == tracks@[k]@ by {}
        assert(r@.tracks =~= uniform_layout(
            track_count,
            canvas_width,
            canvas_height,
            allow_overlap,
            default_track_height,
            default_spacing,
            default_scroll_speed,
        ).tracks);
        r
    }

    /// Creates one track per configuration, stacked from the top.
    pub fn new_with_configs(
        configs: &[BarrageTrackConfig],
        canvas_width: u32,
        canvas_height: u32,
        allow_overlap: bool,
    ) -> (r: Self)
        ensures
            r@ == configured_layout(configs@, canvas_width, canvas_height, allow_overlap),
            r@.tracks.len() == configs@.len(),
            r@.canvas_width == canvas_width,
            r@.canvas_height == canvas_height,
            r@.allow_overlap == allow_overlap,
            forall|i: int|
                0 <= i < r@.tracks.len() ==> #[trigger] r@.tracks[i] == (TrackView {
                    mode: configs@[i].mode,
                    congestion_strategy: configs@[i].congestion_strategy,
                    active: Seq::empty(),
                    pending: Seq::empty(),
                    max_concurrent: configs@[i].max_concurrent,
                    track_height: configs@[i].track_height,
                    spacing: configs@[i].spacing,
                    scroll_speed: configs@[i].scroll_speed,
                    next_y: track_y(i, configs@[i].track_height, canvas_height),
                }),
    {
        let n = configs.len();
        let mut tracks: Vec<Track> = Vec::with_capacity(if n < 100 {
            n
        } else {
            100
        });
        let mut i: usize = 0;
        while i < n
            invariant
                n == configs@.len(),
                0 <= i <= n,
                tracks@.len() == i,
                forall|k: int|
                    0 <= k < i ==> #[trigger] tracks@[k]@ == (TrackView {
                        mode: configs@[k].mode,
                        congestion_strategy: configs@[k].congestion_strategy,
                        active: Seq::empty(),
                        pending: Seq::empty(),
                        max_concurrent: configs@[k].max_concurrent,
                        track_height: configs@[k].track_height,
                        spacing: configs@[k].spacing,
                        scroll_speed: configs@[k].scroll_speed,
                        next_y: track_y(k, configs@[k].track_height, canvas_height),
                    }),
            decreases n - i,
        {
            let cfg = configs[i];
            assert(i as i128 * cfg.track_height as i128 <= 0xffff_ffff_ffff_ffff * 0xffff_ffff)
                by (nonlinear_arith);
            let stacked: i128 = i as i128 * cfg.track_height as i128;
            let lowest: i128 = canvas_height as i128 - cfg.track_height as i128;
            let y: i128 = if stacked < lowest {
                stacked
            } else {
                lowest
            };
            let mut track = Track::new(
                cfg.mode,
                cfg.max_concurrent,
                cfg.track_height,
                cfg.spacing,
                cfg.scroll_speed,
                (y * 1000) as i64,
            );
            track.congestion_strategy = cfg.congestion_strategy;
            tracks.push(track);
            i = i + 1;
        }
        let r = TrackManager { tracks, canvas_width, canvas_height, allow_overlap };
        assert forall|k: int| 0 <= k < r@.tracks.len() implies #[trigger] r@.tracks[k]
            == tracks@[k]@ by {}
        assert(r@.tracks =~= configured_layout(configs@, canvas_width, canvas_height, allow_overlap).tracks);
        r
    }

    /// Places the barrage of slot `pool_idx` on track `track_index`.
    ///
    /// The barrage, if the slot holds one, is first put at the track's entry
    /// point. A track with room then shows it; a full track queues it
    /// (`Ok`) or drops it and frees its slot (`Err`), as its congestion
    /// strategy says. An unknown track index is an error that changes nothing.
    pub fn add_barrage(
        &mut self,
        pool: &mut BarrageObjectPool,
        pool_idx: usize,
        track_index: u32,
        current_time_ms: u64,
    ) -> (r: Result<(), ()>)
        requires
            old(pool)@.wf(),
        ensures
            final(pool)@.wf(),
            (final(self)@, final(pool)@, r is Ok) == barrage_added(
                old(self)@,
                old(pool)@,
                pool_idx,
                track_index,
                current_time_ms,
            ),
            final(self)@.canvas_width == old(self)@.canvas_width,
            final(self)@.canvas_height == old(self)@.canvas_height,
            final(self)@.allow_overlap == old(self)@.allow_overlap,
            track_index >= old(self)@.tracks.len() ==> {
                &&& r is Err
                &&& final(self)@ == old(self)@
                &&& final(pool)@ == old(pool)@
            },
            track_index < old(self)@.tracks.len() ==> {
                let t = old(self)@.tracks[track_index as int];
                let p = pool_with_placed(
                    old(pool)@,
                    pool_idx,
                    t,
                    old(self)@.canvas_width,
                    track_index,
                );
                match admission(t) {
                    Admission::Shown => {
                        &&& r is Ok
                        &&& final(pool)@ == p
                        &&& final(self)@.tracks == old(self)@.tracks.update(
                            track_index as int,
                            TrackView { active: t.active.push(pool_idx), ..t },
                        )
                    },
                    Admission::Queued => {
                        &&& r is Ok
                        &&& final(pool)@ == p
                        &&& final(self)@.tracks == old(self)@.tracks.update(
                            track_index as int,
                            TrackView {
                                pending: t.pending.push(
                                    PendingBarrage { pool_idx, enqueue_time_ms: current_time_ms },
                                ),
                                ..t
                            },
                        )
                    },
                    Admission::Dropped => {
                        &&& r is Err
                        &&& final(pool)@ == p.deallocated(pool_idx)
                        &&& final(self)@ == old(self)@
                    },
                }
            },
    {
        let ti = track_index as usize;
        if ti >= self.tracks.len() {
            return Err(());
        }
        let mode = self.tracks[ti].mode;
        let scroll_speed = self.tracks[ti].scroll_speed;
        let next_y = self.tracks[ti].next_y;
        let canvas_width = self.canvas_width;
        let ghost pool0 = pool@;
        let ghost t0 = self@.tracks[ti as int];
        assert(t0 == self.tracks@[ti as int]@);
        match pool.get_mut(pool_idx) {
            Some(obj) => {
                match mode {
                    TrackMode::Scroll => {
                        obj.start_x = canvas_width as i64 * 1000;
                        obj.x = canvas_width as i64 * 1000;
                        obj.speed_x = -(scroll_speed as i64);
                        obj.speed_y = 0;
                    },
                    TrackMode::Top => {
                        obj.start_x = canvas_width as i64 * 500;
                        obj.x = canvas_width as i64 * 500;
                        obj.speed_x = 0;
                        obj.speed_y = 0;
                    },
                    TrackMode::Bottom => {
                        obj.start_x = canvas_width as i64 * 500;
                        obj.x = canvas_width as i64 * 500;
                        obj.speed_x = 0;
                        obj.speed_y = 0;
                    },
                    TrackMode::Reverse => {
                        obj.start_x = -(obj.width as i64 * 1000);
                        obj.x = -(obj.width as i64 * 1000);
                        obj.speed_x = scroll_speed as i64;
                        obj.speed_y = 0;
                    },
                }
                obj.track_index = track_index;
                obj.y = next_y;
                obj.start_y = obj.y;
            },
            None => {},
        }
        assert(pool@ == pool_with_placed(pool0, pool_idx, t0, canvas_width, track_index));

        if self.tracks[ti].active_barrages.len() >= self.tracks[ti].max_concurrent as usize {
            match self.tracks[ti].congestion_strategy {
                CongestionStrategy::Queue => {
                    let track = &mut self.tracks[ti];
                    track.pending_queue.push_back(
                        PendingBarrage { pool_idx, enqueue_time_ms: current_time_ms },
                    );
                    proof {
                        self.lemma_view_update(*old(self), ti as int);
                    }
                    return Ok(());
                },
                CongestionStrategy::Drop => {
                    pool.deallocate(pool_idx);
                    return Err(());
                },
            }
        }
        let collision_pass = if !self.allow_overlap {
            match pool.get(pool_idx) {
                Some(obj) => !self.check_collision(ti, obj),
                None => true,
            }
        } else {
            true
        };
        if self.tracks[ti].active_barrages.len() >= self.tracks[ti].max_concurrent as usize {
            match self.tracks[ti].congestion_strategy {
                CongestionStrategy::Queue => {
                    let track = &mut self.tracks[ti];
                    track.pending_queue.push_back(
                        PendingBarrage { pool_idx, enqueue_time_ms: current_time_ms },
                    );
                    proof {
                        self.lemma_view_update(*old(self), ti as int);
                    }
                    return Ok(());
                },
                CongestionStrategy::Drop => {
                    pool.deallocate(pool_idx);
                    return Err(());
                },
            }
        }
        if !collision_pass {
            match self.tracks[ti].congestion_strategy {
                CongestionStrategy::Queue => {
                    let track = &mut self.tracks[ti];
                    track.pending_queue.push_back(
                        PendingBarrage { pool_idx, enqueue_time_ms: current_time_ms },
                    );
                    proof {
                        self.lemma_view_update(*old(self), ti as int);
                    }
                    return Ok(());
                },
                CongestionStrategy::Drop => {
                    pool.deallocate(pool_idx);
                    return Err(());
                },
            }
        }
        let track = &mut self.tracks[ti];
        track.active_barrages.push(pool_idx);
        proof {
            self.lemma_view_update(*old(self), ti as int);
        }
        Ok(())
    }

    /// Advances every track by one frame of `delta_ms` at `speed_multiplier`
    /// (thousandths), track by track: moves its barrages, retires the expired
    /// and the off-screen ones (freeing their slots), then lets queued
    /// barrages in while it has room.
    pub fn update(
        &mut self,
        pool: &mut BarrageObjectPool,
        delta_ms: u64,
        speed_multiplier: u32,
        current_time_ms: u64,
    )
        requires
            old(pool)@.wf(),
            ages_fit(old(pool)@.slots, delta_ms),
            delta_ms <= u64::MAX - u32::MAX,
        ensures
            final(pool)@.wf(),
            ages_fit(final(pool)@.slots, delta_ms),
            ages_fit(old(pool)@.slots, AGE_ROOM) ==> ages_fit(final(pool)@.slots, AGE_ROOM),
            ({
                let (ts, p) = frame(
                    old(self)@.tracks,
                    old(pool)@,
                    old(self)@.tracks.len() as int,
                    old(self)@.canvas_width,
                    delta_ms,
                    speed_multiplier,
                );
                &&& final(self)@ == TrackManagerView { tracks: ts, ..old(self)@ }
                &&& final(pool)@ == p
            }),
    {
        let n = self.tracks.len();
        let cw = self.canvas_width;
        let mut ti: usize = 0;
        while ti < n
            invariant
                0 <= ti <= n,
                n == self.tracks@.len(),
                cw == self.canvas_width,
                self.canvas_width == old(self).canvas_width,
                self.canvas_height == old(self).canvas_height,
                self.allow_overlap == old(self).allow_overlap,
                pool@.wf(),
                ages_fit(pool@.slots, delta_ms),
                ages_fit(old(pool)@.slots, AGE_ROOM) ==> ages_fit(pool@.slots, AGE_ROOM),
                delta_ms <= u64::MAX - u32::MAX,
                ({
                    let (ts, p) = frame(
                        old(self)@.tracks,
                        old(pool)@,
                        ti as int,
                        cw,
                        delta_ms,
                        speed_multiplier,
                    );
                    &&& self@.tracks == ts
                    &&& pool@ == p
                }),
            decreases n - ti,
        {
            let ghost before = *self;
            let ghost pool0 = pool@;
            let ghost t0 = self@.tracks[ti as int];
            assert(t0 == self.tracks@[ti as int]@);
            let rm = Self::scan_track(&self.tracks[ti], pool, cw, delta_ms, speed_multiplier);
            Self::retire_from(&mut self.tracks[ti], pool, &rm);
            Self::dispatch_pending(&mut self.tracks[ti], pool);
            proof {
                assert(self.tracks@ =~= before.tracks@.update(ti as int, self.tracks@[ti as int]));
                self.lemma_view_update(before, ti as int);
                assert(self@.tracks =~= before@.tracks.update(
                    ti as int,
                    track_frame(t0, pool0, cw, delta_ms, speed_multiplier).0,
                ));
            }
            ti = ti + 1;
        }
    }

    /// Moves the barrages of a track and collects the slots to retire.
    fn scan_track(
        track: &Track,
        pool: &mut BarrageObjectPool,
        canvas_width: u32,
        delta_ms: u64,
        mult: u32,
    ) -> (rm: Vec<usize>)
        requires
            ages_fit(old(pool)@.slots, delta_ms),
            delta_ms <= u64::MAX - u32::MAX,
        ensures
            ({
                let (s, r) = scanned(
                    old(pool)@.slots,
                    track@.active,
                    track@.active.len() as int,
                    track@.mode,
                    canvas_width,
                    delta_ms,
                    mult,
                );
                &&& final(pool)@ == PoolView { slots: s, ..old(pool)@ }
                &&& rm@ == r
            }),
            final(pool)@.slots.len() == old(pool)@.slots.len(),
            ages_fit(final(pool)@.slots, delta_ms),
            ages_fit(old(pool)@.slots, AGE_ROOM) ==> ages_fit(final(pool)@.slots, AGE_ROOM),
    {
        let n = track.active_barrages.len();
        let mode = track.mode;
        let mut rm: Vec<usize> = Vec::new();
        let mut j: usize = 0;
        while j < n
            invariant
                0 <= j <= n,
                n == track@.active.len(),
                mode == track@.mode,
                delta_ms <= u64::MAX - u32::MAX,
                ages_fit(pool@.slots, delta_ms),
                ages_fit(old(pool)@.slots, AGE_ROOM) ==> ages_fit(pool@.slots, AGE_ROOM),
                pool@.slots.len() == old(pool)@.slots.len(),
                ({
                    let (s, r) = scanned(
                        old(pool)@.slots,
                        track@.active,
                        j as int,
                        mode,
                        canvas_width,
                        delta_ms,
                        mult,
                    );
                    &&& pool@ == PoolView { slots: s, ..old(pool)@ }
                    &&& rm@ == r
                }),
            decreases n - j,
        {
            let idx = track.active_barrages[j];
            let ghost slots0 = pool@.slots;
            match pool.get_mut(idx) {
                Some(obj) => {
                    proof {
                        if obj.alive {
                            assert(slot_alive(slots0[idx as int]));
                        }
                        lemma_update_keeps_ages_fit(slots0, idx as int, *obj, delta_ms, mult);
                        if ages_fit(old(pool)@.slots, AGE_ROOM) {
                            lemma_update_keeps_room(slots0, idx as int, *obj, delta_ms, mult);
                        }
                    }
                    obj.update(delta_ms, mult);
                    let gone = !obj.alive || Self::is_out_of_bounds(obj, mode, canvas_width);
                    if gone {
                        rm.push(idx);
                    }
                },
                None => {
                    rm.push(idx);
                },
            }
            j = j + 1;
        }
        rm
    }

    /// Whether a barrage has left the visible area of a track of the given
    /// mode (for fixed tracks: has expired).
    fn is_out_of_bounds(obj: &BarrageObject, mode: TrackMode, canvas_width: u32) -> (r: bool)
        ensures
            r == out_of_bounds(*obj, mode, canvas_width),
    {
        match mode {
            TrackMode::Scroll => (obj.x as i128) + (obj.width as i128) * 1000 < -50_000,
            TrackMode::Top => !obj.alive,
            TrackMode::Bottom => !obj.alive,
            TrackMode::Reverse => (obj.x as i128) > (canvas_width as i128) * 1000 + 50_000,
        }
    }

    /// Position of the first `x` in `v`, or the length of `v`.
    fn position_of(v: &Vec<usize>, x: usize) -> (r: usize)
        ensures
            r == first_pos(v@, x, v@.len() as int),
    {
        let n = v.len();
        let mut i: usize = 0;
        while i < n
            invariant
                0 <= i <= n,
                n == v@.len(),
                first_pos(v@, x, i as int) == i,
            decreases n - i,
        {
            if v[i] == x {
                proof {
                    assert(first_pos(v@, x, i + 1) == i);
                    lemma_first_pos_stays(v@, x, i + 1, n as int);
                }
                return i;
            }
            i = i + 1;
        }
        n
    }

    /// Retires the slots of `rm` in order: each is swap-removed from the
    /// track's active list and freed.
    fn retire_from(track: &mut Track, pool: &mut BarrageObjectPool, rm: &Vec<usize>)
        requires
            old(pool)@.wf(),
        ensures
            final(pool)@.wf(),
            ({
                let (a, p) = retired(old(track)@.active, old(pool)@, rm@, rm@.len() as int);
                &&& final(track)@ == TrackView { active: a, ..old(track)@ }
                &&& final(pool)@ == p
            }),
            forall|d: u64| ages_fit(old(pool)@.slots, d) ==> ages_fit(final(pool)@.slots, d),
    {
        let n = rm.len();
        let mut k: usize = 0;
        while k < n
            invariant
                0 <= k <= n,
                n == rm@.len(),
                pool@.wf(),
                ({
                    let (a, p) = retired(old(track)@.active, old(pool)@, rm@, k as int);
                    &&& track@ == TrackView { active: a, ..old(track)@ }
                    &&& pool@ == p
                }),
                forall|d: u64| ages_fit(old(pool)@.slots, d) ==> ages_fit(pool@.slots, d),
            decreases n - k,
        {
            let idx = rm[k];
            let ghost slots0 = pool@.slots;
            let p = Self::position_of(&track.active_barrages, idx);
            if p < track.active_barrages.len() {
                track.active_barrages.swap_remove(p);
            }
            pool.deallocate(idx);
            proof {
                assert forall|d: u64| ages_fit(old(pool)@.slots, d) implies ages_fit(
                    pool@.slots,
                    d,
                ) by {
                    assert forall|i: int|
                        0 <= i < pool@.slots.len() && #[trigger] slot_alive(
                            pool@.slots[i],
                        ) implies pool@.slots[i]->0.elapsed_ms + d <= u64::MAX by {
                        assert(slots0[i] == pool@.slots[i]);
                        assert(slot_alive(slots0[i]));
                    }
                }
            }
            k = k + 1;
        }
    }

    /// Lets queued barrages in, oldest first, while the track has room; a
    /// queued barrage whose slot holds no live barrage is discarded.
    fn dispatch_pending(track: &mut Track, pool: &BarrageObjectPool)
        ensures
            ({
                let (a, q) = dispatched(
                    old(track)@.active,
                    old(track)@.pending,
                    old(track)@.max_concurrent,
                    pool@.slots,
                );
                final(track)@ == TrackView { active: a, pending: q, ..old(track)@ }
            }),
    {
        while track.pending_queue.len() > 0 && track.active_barrages.len()
            < track.max_concurrent as usize
            invariant
                track@.mode == old(track)@.mode,
                track@.congestion_strategy == old(track)@.congestion_strategy,
                track@.max_concurrent == old(track)@.max_concurrent,
                track@.track_height == old(track)@.track_height,
                track@.spacing == old(track)@.spacing,
                track@.scroll_speed == old(track)@.scroll_speed,
                track@.next_y == old(track)@.next_y,
                dispatched(track@.active, track@.pending, track@.max_concurrent, pool@.slots)
                    == dispatched(
                    old(track)@.active,
                    old(track)@.pending,
                    old(track)@.max_concurrent,
                    pool@.slots,
                ),
            decreases track@.pending.len(),
        {
            match track.pending_queue.pop_front() {
                Some(pending) => {
                    match pool.get(pending.pool_idx) {
                        Some(obj) => {
                            if obj.alive {
                                track.active_barrages.push(pending.pool_idx);
                            }
                        },
                        None => {},
                    }
                },
                None => {},
            }
        }
    }

    /// Frees the slots of every track's active barrages, track by track, and
    /// empties every active list and queue.
    pub fn clear(&mut self, pool: &mut BarrageObjectPool)
        requires
            old(pool)@.wf(),
        ensures
            final(pool)@.wf(),
            final(pool)@ == freed_tracks(old(pool)@, old(self)@.tracks, old(self)@.tracks.len() as int),
            forall|d: u64| ages_fit(old(pool)@.slots, d) ==> ages_fit(final(pool)@.slots, d),
            final(self)@ == (TrackManagerView {
                tracks: old(self)@.tracks.map_values(|t: TrackView| emptied(t)),
                ..old(self)@
            }),
    {
        let n = self.tracks.len();
        let mut ti: usize = 0;
        while ti < n
            invariant
                0 <= ti <= n,
                n == self.tracks@.len(),
                n == old(self)@.tracks.len(),
                self.canvas_width == old(self).canvas_width,
                self.canvas_height == old(self).canvas_height,
                self.allow_overlap == old(self).allow_overlap,
                pool@.wf(),
                pool@ == freed_tracks(old(pool)@, old(self)@.tracks, ti as int),
                forall|d: u64| ages_fit(old(pool)@.slots, d) ==> ages_fit(pool@.slots, d),
                forall|j: int|
                    0 <= j < n ==> #[trigger] self@.tracks[j] == if j < ti {
                        emptied(old(self)@.tracks[j])
                    } else {
                        old(self)@.tracks[j]
                    },
            decreases n - ti,
        {
            let ghost before = *self;
            assert(before@.tracks[ti as int] == self.tracks@[ti as int]@);
            Self::clear_track(&mut self.tracks[ti], pool);
            proof {
                assert(self.tracks@ =~= before.tracks@.update(ti as int, self.tracks@[ti as int]));
                self.lemma_view_update(before, ti as int);
            }
            ti = ti + 1;
        }
        proof {
            assert(self@.tracks =~= old(self)@.tracks.map_values(|t: TrackView| emptied(t)));
        }
    }

    /// Frees the slots of a track's active barrages, in order, and empties its
    /// active list and queue.
    fn clear_track(track: &mut Track, pool: &mut BarrageObjectPool)
        requires
            old(pool)@.wf(),
        ensures
            final(pool)@.wf(),
            final(pool)@ == deallocated_all(
                old(pool)@,
                old(track)@.active,
                old(track)@.active.len() as int,
            ),
            final(track)@ == emptied(old(track)@),
            forall|d: u64| ages_fit(old(pool)@.slots, d) ==> ages_fit(final(pool)@.slots, d),
    {
        let n = track.active_barrages.len();
        let mut k: usize = 0;
        while k < n
            invariant
                0 <= k <= n,
                n == track@.active.len(),
                track@ == old(track)@,
                pool@.wf(),
                pool@ == deallocated_all(old(pool)@, old(track)@.active, k as int),
                forall|d: u64| ages_fit(old(pool)@.slots, d) ==> ages_fit(pool@.slots, d),
            decreases n - k,
        {
            let ghost p0 = pool@;
            pool.deallocate(track.active_barrages[k]);
            proof {
                assert forall|d: u64| ages_fit(old(pool)@.slots, d) implies ages_fit(pool@.slots, d) by {
                    lemma_dealloc_keeps_ages(p0, track@.active[k as int], d);
                }
            }
            k = k + 1;
        }
        track.active_barrages.clear();
        track.pending_queue.clear();
    }

    /// The barrages held in the slots that track `track_idx` shows, in the
    /// order of its active list; empty for an unknown track.
    pub fn get_track_barrages<'a>(&self, track_idx: usize, pool: &'a BarrageObjectPool) -> (r: Vec<
        &'a BarrageObject,
    >)
        ensures
            track_idx >= self@.tracks.len() ==> r@.len() == 0,
            track_idx < self@.tracks.len() ==> {
                let a = self@.tracks[track_idx as int].active;
                let s = present_in(pool@.slots, a, a.len() as int);
                &&& r@.len() == s.len()
                &&& forall|k: int| 0 <= k < s.len() ==> *(#[trigger] r@[k]) == s[k]
            },
    {
        let mut r: Vec<&'a BarrageObject> = Vec::new();
        if track_idx >= self.tracks.len() {
            return r;
        }
        let track = &self.tracks[track_idx];
        assert(self@.tracks[track_idx as int] == track@);
        let n = track.active_barrages.len();
        let mut j: usize = 0;
        while j < n
            invariant
                0 <= j <= n,
                n == track@.active.len(),
                r@.len() == present_in(pool@.slots, track@.active, j as int).len(),
                forall|k: int|
                    0 <= k < r@.len() ==> *(#[trigger] r@[k]) == present_in(
                        pool@.slots,
                        track@.active,
                        j as int,
                    )[k],
            decreases n - j,
        {
            match pool.get(track.active_barrages[j]) {
                Some(o) => {
                    r.push(o);
                },
                None => {},
            }
            j = j + 1;
        }
        r
    }

    /// Every live barrage on a track, track by track, for rendering.
    pub fn get_all_barrages<'a>(&self, pool: &'a BarrageObjectPool) -> (r: Vec<&'a BarrageObject>)
        ensures
            ({
                let s = all_alive(pool@.slots, self@.tracks, self@.tracks.len() as int);
                &&& r@.len() == s.len()
                &&& forall|k: int| 0 <= k < s.len() ==> *(#[trigger] r@[k]) == s[k]
            }),
    {
        let mut r: Vec<&'a BarrageObject> = Vec::new();
        let n = self.tracks.len();
        let mut ti: usize = 0;
        while ti < n
            invariant
                0 <= ti <= n,
                n == self@.tracks.len(),
                r@.len() == all_alive(pool@.slots, self@.tracks, ti as int).len(),
                forall|k: int|
                    0 <= k < r@.len() ==> *(#[trigger] r@[k]) == all_alive(
                        pool@.slots,
                        self@.tracks,
                        ti as int,
                    )[k],
            decreases n - ti,
        {
            let track = &self.tracks[ti];
            assert(self@.tracks[ti as int] == track@);
            let ghost base = all_alive(pool@.slots, self@.tracks, ti as int);
            let m = track.active_barrages.len();
            let mut j: usize = 0;
            while j < m
                invariant
                    0 <= j <= m,
                    m == track@.active.len(),
                    base == all_alive(pool@.slots, self@.tracks, ti as int),
                    r@.len() == base.len() + alive_present_in(
                        pool@.slots,
                        track@.active,
                        j as int,
                    ).len(),
                    forall|k: int|
                        0 <= k < r@.len() ==> *(#[trigger] r@[k]) == (base + alive_present_in(
                            pool@.slots,
                            track@.active,
                            j as int,
                        ))[k],
                decreases m - j,
            {
                match pool.get(track.active_barrages[j]) {
                    Some(o) => {
                        if o.alive {
                            r.push(o);
                        }
                    },
                    None => {},
                }
                j = j + 1;
            }
            ti = ti + 1;
        }
        r
    }

    /// Number of tracks.
    pub fn track_count(&self) -> (r: usize)
        ensures
            r == self@.tracks.len(),
    {
        self.tracks.len()
    }

    /// Sets the canvas size used for entry points and bounds.
    pub fn set_canvas_size(&mut self, width: u32, height: u32)
        ensures
            final(self)@ == (TrackManagerView {
                canvas_width: width,
                canvas_height: height,
                ..old(self)@
            }),
    {
        self.canvas_width = width;
        self.canvas_height = height;
    }

    /// Collision prediction between a new barrage and the barrages of a
    /// track. This is a placeholder: no overlap check is made, so a new
    /// barrage never collides, and a track without overlap behaves as one
    /// with overlap.
    fn check_collision(&self, track_idx: usize, new_obj: &BarrageObject) -> (r: bool)
        ensures
            !r,
    {
        false
    }

    /// The view of `self` is that of `before` with track `ti` replaced.
    proof fn lemma_view_update(&self, before: TrackManager, ti: int)
        requires
            0 <= ti < before.tracks@.len(),
            self.tracks@ == before.tracks@.update(ti, self.tracks@[ti]),
            self.canvas_width == before.canvas_width,
            self.canvas_height == before.canvas_height,
            self.allow_overlap == before.allow_overlap,
        ensures
            self@ == (TrackManagerView {
                tracks: before@.tracks.update(ti, self.tracks@[ti]@),
                ..before@
            }),
    {
        assert(self@.tracks =~= before@.tracks.update(ti, self.tracks@[ti]@));
    }
}

/// A barrage added to a fixed (top or bottom) track is centred on the
/// canvas and stays still: its x and starting x are half the canvas width
/// (in thousandths of a pixel), inside the canvas, and both its speeds are
/// zero.
pub proof fn law_fixed_barrage_is_centred(
    v: TrackManagerView,
    pool: PoolView,
    pool_idx: usize,
    track_index: u32,
    now: u64,
)
    requires
        track_index < v.tracks.len(),
        pool_idx < pool.slots.len(),
        pool.slots[pool_idx as int] is Some,
        v.tracks[track_index as int].mode == TrackMode::Top || v.tracks[track_index as int].mode
            == TrackMode::Bottom,
        !(admission(v.tracks[track_index as int]) is Dropped),
    ensures
        ({
            let p2 = barrage_added(v, pool, pool_idx, track_index, now).1;
            &&& p2.slots[pool_idx as int] is Some
            &&& 2 * p2.slots[pool_idx as int]->0.x == v.canvas_width * 1000
            &&& 0 <= p2.slots[pool_idx as int]->0.x <= v.canvas_width * 1000
            &&& p2.slots[pool_idx as int]->0.start_x == p2.slots[pool_idx as int]->0.x
            &&& p2.slots[pool_idx as int]->0.speed_x == 0
            &&& p2.slots[pool_idx as int]->0.speed_y == 0
        }),
{
}

/// A track shows a new barrage only while it has room, so admitting one
/// never takes it past its capacity.
pub proof fn law_admission_respects_capacity(t: TrackView, pool_idx: usize)
    requires
        t.active.len() <= t.max_concurrent,
    ensures
        admission(t) is Shown ==> t.active.push(pool_idx).len() <= t.max_concurrent,
        admission(t) is Shown <==> t.active.len() < t.max_concurrent,
{
}

/// A frame never takes a track past its capacity.
pub proof fn law_frame_respects_capacity(
    t: TrackView,
    pool: PoolView,
    canvas_width: u32,
    delta_ms: u64,
    mult: u32,
)
    requires
        t.active.len() <= t.max_concurrent,
    ensures
        track_frame(t, pool, canvas_width, delta_ms, mult).0.active.len() <= t.max_concurrent,
{
    let (slots1, rm) = scanned(
        pool.slots,
        t.active,
        t.active.len() as int,
        t.mode,
        canvas_width,
        delta_ms,
        mult,
    );
    let pool1 = PoolView { slots: slots1, ..pool };
    lemma_retired_shrinks(t.active, pool1, rm, rm.len() as int);
    let (active2, pool2) = retired(t.active, pool1, rm, rm.len() as int);
    lemma_dispatched_within(active2, t.pending, t.max_concurrent, pool2.slots);
}

/// After a frame's dispatch a track either has no queue left or is full.
pub proof fn law_dispatch_leaves_no_room_unused(
    active: Seq<usize>,
    pending: Seq<PendingBarrage>,
    max_concurrent: u32,
    slots: Seq<Option<BarrageObject>>,
)
    ensures
        ({
            let (a, q) = dispatched(active, pending, max_concurrent, slots);
            q.len() == 0 || a.len() >= max_concurrent
        }),
    decreases pending.len(),
{
    if pending.len() > 0 && active.len() < max_concurrent {
        let p = pending[0];
        let a = if p.pool_idx < slots.len() && slot_alive(slots[p.pool_idx as int]) {
            active.push(p.pool_idx)
        } else {
            active
        };
        law_dispatch_leaves_no_room_unused(a, pending.drop_first(), max_concurrent, slots);
    }
}

/// The queue is served oldest first: what stays queued is a suffix of what
/// was queued, and the barrages let in are, in order, the live ones of the
/// served prefix.
pub proof fn law_queue_served_in_order(
    active: Seq<usize>,
    pending: Seq<PendingBarrage>,
    max_concurrent: u32,
    slots: Seq<Option<BarrageObject>>,
)
    ensures
        exists|k: int|
            0 <= k <= pending.len() && #[trigger] dispatched(
                active,
                pending,
                max_concurrent,
                slots,
            ) == (
                active + live_pending(pending.subrange(0, k), slots),
                pending.subrange(k, pending.len() as int),
            ),
    decreases pending.len(),
{
    let r = dispatched(active, pending, max_concurrent, slots);
    if pending.len() == 0 || active.len() >= max_concurrent {
        assert(active + live_pending(pending.subrange(0, 0), slots) =~= active);
        assert(pending.subrange(0, pending.len() as int) =~= pending);
        assert(r == (
            active + live_pending(pending.subrange(0, 0), slots),
            pending.subrange(0, pending.len() as int),
        ));
    } else {
        let p = pending[0];
        let rest = pending.drop_first();
        let a = if p.pool_idx < slots.len() && slot_alive(slots[p.pool_idx as int]) {
            active.push(p.pool_idx)
        } else {
            active
        };
        law_queue_served_in_order(a, rest, max_concurrent, slots);
        let k = choose|k: int|
            0 <= k <= rest.len() && #[trigger] dispatched(a, rest, max_concurrent, slots) == (
                a + live_pending(rest.subrange(0, k), slots),
                rest.subrange(k, rest.len() as int),
            );
        assert(pending.subrange(0, k + 1).drop_first() =~= rest.subrange(0, k));
        assert(pending.subrange(0, k + 1)[0] == p);
        assert(live_pending(pending.subrange(0, k + 1), slots) == (if p.pool_idx < slots.len()
            && slot_alive(slots[p.pool_idx as int]) {
            seq![p.pool_idx]
        } else {
            Seq::empty()
        }) + live_pending(rest.subrange(0, k), slots));
        assert(a + live_pending(rest.subrange(0, k), slots) =~= active + live_pending(
            pending.subrange(0, k + 1),
            slots,
        ));
        assert(rest.subrange(k, rest.len() as int) =~= pending.subrange(k + 1, pending.len() as int));
        assert(r == (
            active + live_pending(pending.subrange(0, k + 1), slots),
            pending.subrange(k + 1, pending.len() as int),
        ));
    }
}

/// Slots of the queued barrages whose slot holds a live barrage, in order.
pub open spec fn live_pending(q: Seq<PendingBarrage>, slots: Seq<Option<BarrageObject>>) -> Seq<
    usize,
>
    decreases q.len(),
{
    if q.len() == 0 {
        Seq::empty()
    } else {
        let p = q[0];
        (if p.pool_idx < slots.len() && slot_alive(slots[p.pool_idx as int]) {
            seq![p.pool_idx]
        } else {
            Seq::empty()
        }) + live_pending(q.drop_first(), slots)
    }
}

/// Whether a queued barrage of `q` sits in slot `y`.
pub open spec fn queued_in(q: Seq<PendingBarrage>, y: usize) -> bool {
    exists|k: int| 0 <= k < q.len() && #[trigger] q[k].pool_idx == y
}

/// Whether a track shows or queues the barrage in slot `y`.
pub open spec fn holds_slot(t: TrackView, y: usize) -> bool {
    t.active.contains(y) || queued_in(t.pending, y)
}

/// No slot index occurs twice.
pub open spec fn distinct_slots(s: Seq<usize>) -> bool {
    forall|a: int, b: int| 0 <= a < b < s.len() ==> #[trigger] s[a] != #[trigger] s[b]
}

/// Every index names a slot of `slots`.
pub open spec fn within_slots(s: Seq<usize>, slots: Seq<Option<BarrageObject>>) -> bool {
    forall|k: int| 0 <= k < s.len() ==> #[trigger] s[k] < slots.len()
}

/// A frame keeps a track tied to the pool: when the track's active slots are
/// distinct slots of the pool, afterwards every slot it shows holds a live
/// barrage (the shown slots still distinct, unless a queued slot was
/// already shown), every slot it stopped showing is freed, and its queue is
/// empty unless it is full.
pub proof fn law_frame_keeps_track_tied(
    t: TrackView,
    pool: PoolView,
    canvas_width: u32,
    delta_ms: u64,
    mult: u32,
)
    requires
        pool.slots.len() <= usize::MAX,
        distinct_slots(t.active),
        within_slots(t.active, pool.slots),
    ensures
        ({
            let (t2, p2) = track_frame(t, pool, canvas_width, delta_ms, mult);
            &&& p2.slots.len() == pool.slots.len()
            &&& forall|x: int|
                0 <= x < pool.slots.len() && !t.active.contains(x as usize) ==> #[trigger] p2.slots[x]
                    == pool.slots[x]
            &&& forall|y: usize| #[trigger] t2.active.contains(y) ==> holds_slot(t, y)
            &&& forall|x: usize|
                #[trigger] t.active.contains(x) && pool.slots[x as int] is Some ==> p2.slots[x as int] is None
                    || p2.slots[x as int] == Some(pool.slots[x as int]->0.updated(delta_ms, mult))
            &&& pool.tidy() && (forall|x: usize| #[trigger] t.active.contains(x) ==> pool.slots[x as int] is Some)
                ==> p2.tidy()
            &&& distinct_queue(t.pending) && (forall|y: usize| #[trigger] t.active.contains(y) ==> !queued_in(t.pending, y))
                ==> {
                &&& distinct_slots(t2.active)
                &&& distinct_queue(t2.pending)
                &&& forall|y: usize| #[trigger] t2.active.contains(y) ==> !queued_in(t2.pending, y)
                &&& forall|y: usize| #[trigger] queued_in(t2.pending, y) ==> queued_in(t.pending, y)
            }
            &&& forall|k: int|
                0 <= k < t2.active.len() ==> #[trigger] t2.active[k] < p2.slots.len() && slot_alive(
                    p2.slots[t2.active[k] as int],
                )
            &&& forall|x: usize|
                t.active.contains(x) && !t2.active.contains(x) ==> #[trigger] p2.slots[x as int] is None
            &&& t2.pending.len() == 0 || t2.active.len() >= t.max_concurrent
        }),
{
    let n = t.active.len() as int;
    let (s1, rm) = scanned(pool.slots, t.active, n, t.mode, canvas_width, delta_ms, mult);
    lemma_scanned_ties(pool.slots, t.active, n, t.mode, canvas_width, delta_ms, mult);
    let pool1 = PoolView { slots: s1, ..pool };
    let m = rm.len() as int;
    lemma_retired_ties(t.active, pool1, rm, m);
    let (a2, p2) = retired(t.active, pool1, rm, m);
    lemma_dispatched_ties(a2, t.pending, t.max_concurrent, p2.slots);
    law_dispatch_leaves_no_room_unused(a2, t.pending, t.max_concurrent, p2.slots);
    let (a3, q3) = dispatched(a2, t.pending, t.max_concurrent, p2.slots);
    assert forall|k: int| 0 <= k < a3.len() implies #[trigger] a3[k] < p2.slots.len() && slot_alive(
        p2.slots[a3[k] as int],
    ) by {
        let y = a3[k];
        assert(a3.contains(y));
        if a2.contains(y) {
            assert(t.active.contains(y) && !rm.subrange(0, m).contains(y));
            assert(rm.subrange(0, m) =~= rm);
            let j = choose|j: int| 0 <= j < n && #[trigger] t.active[j] == y;
            assert(t.active.subrange(0, n)[j] == y);
        }
    }
    assert forall|x: usize| t.active.contains(x) && !a3.contains(x) implies #[trigger] p2.slots[x as int]
        is None by {
        assert(!a2.contains(x));
        assert(rm.subrange(0, m) =~= rm);
        assert(rm.contains(x));
        let w = choose|w: int| 0 <= w < m && #[trigger] rm[w] == x;
        let j = choose|j: int| 0 <= j < n && #[trigger] t.active[j] == x;
        assert(x < pool.slots.len());
    }
    assert(t.active.subrange(0, n) =~= t.active);
    assert forall|x: int| 0 <= x < pool.slots.len() && !t.active.contains(x as usize) implies #[trigger] p2.slots[x]
        == pool.slots[x] by {
        if rm.contains(x as usize) {
            let w = choose|w: int| 0 <= w < m && #[trigger] rm[w] == x as usize;
            assert(t.active.subrange(0, n).contains(rm[w]));
        }
    }
    assert forall|x: usize|
        #[trigger] t.active.contains(x) && pool.slots[x as int] is Some implies p2.slots[x as int] is None
            || p2.slots[x as int] == Some(pool.slots[x as int]->0.updated(delta_ms, mult)) by {
        let j = choose|j: int| 0 <= j < n && #[trigger] t.active[j] == x;
        assert(s1[t.active[j] as int] == Some(pool.slots[t.active[j] as int]->0.updated(delta_ms, mult)));
        assert(x < pool.slots.len());
    }
    if pool.tidy() && (forall|x: usize| #[trigger] t.active.contains(x) ==> pool.slots[x as int] is Some) {
        assert forall|i: int| 0 <= i < pool1.slots.len() implies (#[trigger] pool1.slots[i] is None
            <==> pool1.free.contains(i as usize)) by {
            assert(pool.slots[i] is None <==> pool.free.contains(i as usize));
        }
        assert(pool1.tidy());
        assert forall|k: int| 0 <= k < rm.len() implies #[trigger] rm[k] < pool1.slots.len() && pool1.slots[rm[k] as int] is Some by {
            assert(t.active.subrange(0, n).contains(rm[k]));
            assert(t.active.contains(rm[k]));
            assert(rm[k] < pool.slots.len());
            assert(pool.slots[rm[k] as int] is Some);
        }
        lemma_retired_tidy(t.active, pool1, rm, m);
    }
    if distinct_queue(t.pending) && (forall|y: usize| #[trigger] t.active.contains(y) ==> !queued_in(t.pending, y)) {
        assert forall|y: usize| #[trigger] a2.contains(y) implies !queued_in(t.pending, y) by {
            assert(t.active.contains(y));
        }
        lemma_dispatched_distinct(a2, t.pending, t.max_concurrent, p2.slots);
    }
}

/// Whether the tracks are apart in the pool as a frame needs them: each
/// shows distinct slots of the pool, and no slot is shown or queued by two
/// tracks.
pub open spec fn tracks_apart(tracks: Seq<TrackView>, slots: Seq<Option<BarrageObject>>) -> bool {
    &&& forall|i: int|
        0 <= i < tracks.len() ==> distinct_slots(#[trigger] tracks[i].active) && within_slots(
            tracks[i].active,
            slots,
        )
    &&& forall|i: int, j: int, y: usize|
        0 <= i < tracks.len() && 0 <= j < tracks.len() && i != j && #[trigger] holds_slot(tracks[i], y)
            ==> !#[trigger] holds_slot(tracks[j], y)
}

/// Whether one of the first `n` tracks shows slot `x`.
pub open spec fn shown_by_first(tracks: Seq<TrackView>, n: int, x: usize) -> bool {
    exists|i: int| 0 <= i < n && #[trigger] tracks[i].active.contains(x)
}

/// A frame keeps the tracks tied to the pool: when the tracks are apart in
/// the pool, afterwards every slot a framed track shows holds a live
/// barrage, every slot it stopped showing is freed, its queue is empty
/// unless it is full, it shows only slots it showed or queued before, and
/// slots no framed track showed are unchanged.
pub proof fn law_frame_keeps_tracks_tied(
    tracks: Seq<TrackView>,
    pool: PoolView,
    n: int,
    canvas_width: u32,
    delta_ms: u64,
    mult: u32,
)
    requires
        pool.slots.len() <= usize::MAX,
        0 <= n <= tracks.len(),
        tracks_apart(tracks, pool.slots),
    ensures
        ({
            let (ts, p) = frame(tracks, pool, n, canvas_width, delta_ms, mult);
            &&& ts.len() == tracks.len()
            &&& p.slots.len() == pool.slots.len()
            &&& forall|j: int| n <= j < tracks.len() ==> #[trigger] ts[j] == tracks[j]
            &&& forall|x: int|
                0 <= x < pool.slots.len() && !shown_by_first(tracks, n, x as usize) ==> #[trigger] p.slots[x]
                    == pool.slots[x]
            &&& forall|i: int, k: int|
                0 <= i < n && 0 <= k < ts[i].active.len() ==> #[trigger] ts[i].active[k] < p.slots.len()
                    && slot_alive(p.slots[ts[i].active[k] as int])
            &&& forall|i: int, x: usize|
                0 <= i < n && tracks[i].active.contains(x) && !#[trigger] ts[i].active.contains(x)
                    ==> p.slots[x as int] is None
            &&& forall|i: int|
                0 <= i < n ==> #[trigger] ts[i].pending.len() == 0 || ts[i].active.len()
                    >= tracks[i].max_concurrent
            &&& forall|i: int, y: usize|
                0 <= i < n && #[trigger] ts[i].active.contains(y) ==> holds_slot(tracks[i], y)
            &&& forall|i: int, x: usize|
                0 <= i < n && #[trigger] tracks[i].active.contains(x) && pool.slots[x as int] is Some
                    ==> p.slots[x as int] is None || p.slots[x as int] == Some(
                    pool.slots[x as int]->0.updated(delta_ms, mult),
                )
            &&& pool.tidy() && (forall|i: int, x: usize|
                0 <= i < tracks.len() && #[trigger] tracks[i].active.contains(x) ==> pool.slots[x as int] is Some)
                ==> p.tidy()
            &&& forall|i: int|
                0 <= i < n && track_sound(#[trigger] tracks[i]) ==> track_sound(ts[i]) && forall|y: usize|
                    #[trigger] queued_in(ts[i].pending, y) ==> queued_in(tracks[i].pending, y)
        }),
    decreases n,
{
    if n > 0 {
        law_frame_keeps_tracks_tied(tracks, pool, n - 1, canvas_width, delta_ms, mult);
        let (ts0, p0) = frame(tracks, pool, n - 1, canvas_width, delta_ms, mult);
        let t = ts0[n - 1];
        assert(t == tracks[n - 1]);
        assert(distinct_slots(tracks[n - 1].active));
        law_frame_keeps_track_tied(t, p0, canvas_width, delta_ms, mult);
        let (t2, p2) = track_frame(t, p0, canvas_width, delta_ms, mult);
        let (ts, p) = frame(tracks, pool, n, canvas_width, delta_ms, mult);
        assert(ts == ts0.update(n - 1, t2));
        assert(p == p2);
        assert forall|x: int|
            0 <= x < pool.slots.len() && !shown_by_first(tracks, n, x as usize) implies #[trigger] p.slots[x]
                == pool.slots[x] by {
            assert(!shown_by_first(tracks, n - 1, x as usize)) by {
                if shown_by_first(tracks, n - 1, x as usize) {
                    let i = choose|i: int| 0 <= i < n - 1 && #[trigger] tracks[i].active.contains(x as usize);
                    assert(tracks[i].active.contains(x as usize));
                }
            }
            assert(!t.active.contains(x as usize));
            assert(p2.slots[x] == p0.slots[x]);
        }
        assert forall|i: int, k: int|
            0 <= i < n && 0 <= k < ts[i].active.len() implies #[trigger] ts[i].active[k] < p.slots.len()
                && slot_alive(p.slots[ts[i].active[k] as int]) by {
            if i < n - 1 {
                let y = ts0[i].active[k];
                assert(ts[i] == ts0[i]);
                assert(ts0[i].active.contains(y));
                assert(holds_slot(tracks[i], y));
                assert(!holds_slot(tracks[n - 1], y));
                assert(p2.slots[y as int] == p0.slots[y as int]);
            }
        }
        assert forall|i: int, x: usize|
            0 <= i < n && tracks[i].active.contains(x) && !#[trigger] ts[i].active.contains(x) implies p.slots[x as int]
                is None by {
            if i < n - 1 {
                assert(ts[i] == ts0[i]);
                assert(holds_slot(tracks[i], x));
                assert(!holds_slot(tracks[n - 1], x));
                let w = choose|w: int| 0 <= w < tracks[i].active.len() && #[trigger] tracks[i].active[w] == x;
                assert(x < pool.slots.len());
                assert(p2.slots[x as int] == p0.slots[x as int]);
            }
        }
        assert forall|i: int| 0 <= i < n implies #[trigger] ts[i].pending.len() == 0 || ts[i].active.len()
            >= tracks[i].max_concurrent by {
            if i < n - 1 {
                assert(ts[i] == ts0[i]);
            }
        }
        assert forall|i: int, y: usize| 0 <= i < n && #[trigger] ts[i].active.contains(y) implies holds_slot(
            tracks[i],
            y,
        ) by {
            if i < n - 1 {
                assert(ts[i] == ts0[i]);
            }
        }
        assert forall|i: int, x: usize|
            0 <= i < n && #[trigger] tracks[i].active.contains(x) && pool.slots[x as int] is Some implies p.slots[x as int]
                is None || p.slots[x as int] == Some(pool.slots[x as int]->0.updated(delta_ms, mult)) by {
            let w = choose|w: int| 0 <= w < tracks[i].active.len() && #[trigger] tracks[i].active[w] == x;
            assert(x < pool.slots.len());
            assert(holds_slot(tracks[i], x));
            if i < n - 1 {
                assert(!holds_slot(tracks[n - 1], x));
                assert(!t.active.contains(x));
                assert(p2.slots[x as int] == p0.slots[x as int]);
            } else {
                assert(!shown_by_first(tracks, n - 1, x)) by {
                    if shown_by_first(tracks, n - 1, x) {
                        let k = choose|k: int| 0 <= k < n - 1 && #[trigger] tracks[k].active.contains(x);
                        assert(holds_slot(tracks[k], x));
                    }
                }
                assert(p0.slots[x as int] == pool.slots[x as int]);
            }
        }
        if pool.tidy() && (forall|i: int, x: usize|
            0 <= i < tracks.len() && #[trigger] tracks[i].active.contains(x) ==> pool.slots[x as int] is Some) {
            assert forall|x: usize| #[trigger] t.active.contains(x) implies p0.slots[x as int] is Some by {
                assert(tracks[n - 1].active.contains(x));
                assert(holds_slot(tracks[n - 1], x));
                assert(!shown_by_first(tracks, n - 1, x)) by {
                    if shown_by_first(tracks, n - 1, x) {
                        let i = choose|i: int| 0 <= i < n - 1 && #[trigger] tracks[i].active.contains(x);
                        assert(holds_slot(tracks[i], x));
                    }
                }
                let w = choose|w: int| 0 <= w < t.active.len() && #[trigger] t.active[w] == x;
                assert(x < pool.slots.len());
                assert(p0.slots[x as int] == pool.slots[x as int]);
            }
        }
        assert forall|i: int|
            0 <= i < n && track_sound(#[trigger] tracks[i]) implies track_sound(ts[i]) && forall|y: usize|
                #[trigger] queued_in(ts[i].pending, y) ==> queued_in(tracks[i].pending, y) by {
            if i < n - 1 {
                assert(ts[i] == ts0[i]);
            }
        }
    }
}

/// A track shows distinct slots, queues distinct slots, and never shows a
/// slot it queues.
pub open spec fn track_sound(t: TrackView) -> bool {
    &&& distinct_slots(t.active)
    &&& distinct_queue(t.pending)
    &&& forall|y: usize| #[trigger] t.active.contains(y) ==> !queued_in(t.pending, y)
}

/// The tracks are tied to the pool: the pool is tidy, each track is sound,
/// no slot is held by two tracks, and every slot a track shows or queues is
/// a slot of the pool holding a live barrage.
pub open spec fn tied(tracks: Seq<TrackView>, pool: PoolView) -> bool {
    &&& pool.tidy()
    &&& tracks_apart(tracks, pool.slots)
    &&& forall|i: int| 0 <= i < tracks.len() ==> track_sound(#[trigger] tracks[i])
    &&& forall|i: int, y: usize|
        0 <= i < tracks.len() && #[trigger] holds_slot(tracks[i], y) ==> y < pool.slots.len()
            && slot_alive(pool.slots[y as int])
}

/// A frame of every track keeps the tracks tied to the pool.
pub proof fn law_frame_keeps_tied(
    tracks: Seq<TrackView>,
    pool: PoolView,
    canvas_width: u32,
    delta_ms: u64,
    mult: u32,
)
    requires
        tied(tracks, pool),
    ensures
        ({
            let (ts, p) = frame(tracks, pool, tracks.len() as int, canvas_width, delta_ms, mult);
            tied(ts, p)
        }),
{
    let n = tracks.len() as int;
    law_frame_keeps_tracks_tied(tracks, pool, n, canvas_width, delta_ms, mult);
    let (ts, p) = frame(tracks, pool, n, canvas_width, delta_ms, mult);
    assert forall|i: int, x: usize| 0 <= i < tracks.len() && #[trigger] tracks[i].active.contains(x) implies pool.slots[x as int] is Some by {
        assert(holds_slot(tracks[i], x));
    }
    assert(p.tidy());
    assert forall|i: int, y: usize| 0 <= i < ts.len() && #[trigger] holds_slot(ts[i], y) implies holds_slot(tracks[i], y) by {
        assert(track_sound(tracks[i]));
        if !ts[i].active.contains(y) {
            assert(queued_in(ts[i].pending, y));
        }
    }
    assert forall|i: int, y: usize| 0 <= i < ts.len() && #[trigger] holds_slot(ts[i], y) implies y < p.slots.len()
        && slot_alive(p.slots[y as int]) by {
        assert(track_sound(tracks[i]));
        if ts[i].active.contains(y) {
            let k = choose|k: int| 0 <= k < ts[i].active.len() && #[trigger] ts[i].active[k] == y;
            assert(ts[i].active[k] < p.slots.len() && slot_alive(p.slots[ts[i].active[k] as int]));
        } else {
            assert(queued_in(ts[i].pending, y));
            assert(queued_in(tracks[i].pending, y));
            assert(holds_slot(tracks[i], y));
            assert(!shown_by_first(tracks, n, y)) by {
                if shown_by_first(tracks, n, y) {
                    let j = choose|j: int| 0 <= j < n && #[trigger] tracks[j].active.contains(y);
                    if j == i {
                        assert(!queued_in(tracks[i].pending, y));
                    } else {
                        assert(holds_slot(tracks[j], y));
                    }
                }
            }
            assert(p.slots[y as int] == pool.slots[y as int]);
        }
    }
    assert forall|i: int| 0 <= i < ts.len() implies distinct_slots(#[trigger] ts[i].active) && within_slots(
        ts[i].active,
        p.slots,
    ) by {
        assert(track_sound(tracks[i]));
        assert forall|k: int| 0 <= k < ts[i].active.len() implies #[trigger] ts[i].active[k] < p.slots.len() by {
            assert(ts[i].active[k] < p.slots.len() && slot_alive(p.slots[ts[i].active[k] as int]));
        }
    }
    assert forall|i: int| 0 <= i < ts.len() implies track_sound(#[trigger] ts[i]) by {
        assert(track_sound(tracks[i]));
    }
    assert forall|i: int, j: int, y: usize|
        0 <= i < ts.len() && 0 <= j < ts.len() && i != j && #[trigger] holds_slot(ts[i], y) implies !#[trigger] holds_slot(ts[j], y) by {
        assert(holds_slot(tracks[i], y));
        if holds_slot(ts[j], y) {
            assert(holds_slot(tracks[j], y));
        }
    }
}

/// Reaping expired barrages keeps the tracks tied to the pool.
pub proof fn law_reap_keeps_tied(tracks: Seq<TrackView>, pool: PoolView)
    requires
        tied(tracks, pool),
    ensures
        tied(tracks, pool.reaped()),
{
    crate::barrage::law_reap_keeps_tidy(pool);
    let r = pool.reaped();
    assert forall|i: int, y: usize| 0 <= i < tracks.len() && #[trigger] holds_slot(tracks[i], y) implies y < r.slots.len()
        && slot_alive(r.slots[y as int]) by {
        assert(r.slots[y as int] == pool.slots[y as int]);
    }
    assert forall|i: int| 0 <= i < tracks.len() implies distinct_slots(#[trigger] tracks[i].active) && within_slots(
        tracks[i].active,
        r.slots,
    ) by {
        assert(distinct_slots(tracks[i].active) && within_slots(tracks[i].active, pool.slots));
    }
}

/// Allocating a live barrage keeps the tracks tied to the pool; the slot
/// handed out now holds it and no track holds that slot.
pub proof fn lemma_allocated_tied(tracks: Seq<TrackView>, pool: PoolView, obj: BarrageObject)
    requires
        tied(tracks, pool),
        obj.alive,
    ensures
        tied(tracks, pool.allocated(obj)),
        pool.alloc_index() matches Some(i) ==> {
            &&& i < pool.allocated(obj).slots.len()
            &&& pool.allocated(obj).slots[i as int] == Some(obj)
            &&& forall|j: int| 0 <= j < tracks.len() ==> !#[trigger] holds_slot(tracks[j], i)
        },
{
    crate::barrage::law_allocate_keeps_tidy(pool, obj);
    crate::barrage::law_allocate_outcome(pool, obj);
    let r = pool.allocated(obj);
    let src = pool.alloc_source();
    assert forall|k: int| 0 <= k < pool.slots.len() implies #[trigger] src.slots[k] == pool.slots[k] by {}
    assert forall|i: int, y: usize| 0 <= i < tracks.len() && #[trigger] holds_slot(tracks[i], y) implies y
        < r.slots.len() && slot_alive(r.slots[y as int]) by {
        assert(y < pool.slots.len() && slot_alive(pool.slots[y as int]));
        if let Some(a) = pool.alloc_index() {
            if a == y {
                assert(src.slots[y as int] == pool.slots[y as int]);
            }
        }
    }
    assert forall|i: int| 0 <= i < tracks.len() implies distinct_slots(#[trigger] tracks[i].active) && within_slots(
        tracks[i].active,
        r.slots,
    ) by {
        assert(distinct_slots(tracks[i].active) && within_slots(tracks[i].active, pool.slots));
    }
    if let Some(a) = pool.alloc_index() {
        assert forall|j: int| 0 <= j < tracks.len() implies !#[trigger] holds_slot(tracks[j], a) by {
            if holds_slot(tracks[j], a) {
                assert(a < pool.slots.len() && slot_alive(pool.slots[a as int]));
                assert(src.slots[a as int] == pool.slots[a as int]);
            }
        }
    }
}

/// Adding a live barrage whose slot no track holds keeps the tracks tied to
/// the pool.
pub proof fn law_add_keeps_tied(
    v: TrackManagerView,
    pool: PoolView,
    pool_idx: usize,
    track_index: u32,
    now: u64,
)
    requires
        tied(v.tracks, pool),
        pool_idx < pool.slots.len(),
        slot_alive(pool.slots[pool_idx as int]),
        forall|j: int| 0 <= j < v.tracks.len() ==> !#[trigger] holds_slot(v.tracks[j], pool_idx),
    ensures
        ({
            let (v2, p2, _ok) = barrage_added(v, pool, pool_idx, track_index, now);
            tied(v2.tracks, p2)
        }),
{
    if track_index < v.tracks.len() {
        let ti = track_index as int;
        let t = v.tracks[ti];
        let p = pool_with_placed(pool, pool_idx, t, v.canvas_width, track_index);
        assert(p.slots.len() == pool.slots.len());
        assert forall|k: int| 0 <= k < p.slots.len() implies (#[trigger] p.slots[k] is None <==> p.free.contains(
            k as usize,
        )) by {
            assert(pool.slots[k] is None <==> pool.free.contains(k as usize));
        }
        assert(p.tidy());
        assert(slot_alive(p.slots[pool_idx as int]));
        assert(!holds_slot(v.tracks[ti], pool_idx));
        assert(track_sound(t));
        let (v2, p2, _ok) = barrage_added(v, pool, pool_idx, track_index, now);
        match admission(t) {
            Admission::Dropped => {
                crate::barrage::law_deallocate_occupied_keeps_tidy(p, pool_idx);
                assert forall|i: int, y: usize| 0 <= i < v.tracks.len() && #[trigger] holds_slot(v.tracks[i], y) implies y
                    < p2.slots.len() && slot_alive(p2.slots[y as int]) by {
                    assert(y != pool_idx);
                }
                assert forall|i: int| 0 <= i < v.tracks.len() implies distinct_slots(#[trigger] v.tracks[i].active) && within_slots(
                    v.tracks[i].active,
                    p2.slots,
                ) by {
                    assert(within_slots(v.tracks[i].active, pool.slots));
                }
            },
            _ => {
                let t2 = v2.tracks[ti];
                assert(v2.tracks == v.tracks.update(ti, t2));
                assert(p2 == p);
                assert forall|y: usize| #[trigger] holds_slot(t2, y) <==> holds_slot(t, y) || y == pool_idx by {
                    if admission(t) is Shown {
                        assert(t2.active == t.active.push(pool_idx));
                        assert(t2.pending == t.pending);
                        if t2.active.contains(y) {
                            let w = choose|w: int| 0 <= w < t2.active.len() && #[trigger] t2.active[w] == y;
                            if w < t.active.len() {
                                assert(t.active[w] == y);
                            }
                        }
                        if t.active.contains(y) {
                            let w = choose|w: int| 0 <= w < t.active.len() && #[trigger] t.active[w] == y;
                            assert(t2.active[w] == y);
                        }
                        if y == pool_idx {
                            assert(t2.active[t.active.len() as int] == y);
                        }
                    } else {
                        assert(t2.active == t.active);
                        assert(t2.pending == t.pending.push(PendingBarrage { pool_idx, enqueue_time_ms: now }));
                        if queued_in(t2.pending, y) {
                            let k = choose|k: int| 0 <= k < t2.pending.len() && #[trigger] t2.pending[k].pool_idx == y;
                            if k < t.pending.len() {
                                assert(t.pending[k].pool_idx == y);
                            }
                        }
                        if queued_in(t.pending, y) {
                            let k = choose|k: int| 0 <= k < t.pending.len() && #[trigger] t.pending[k].pool_idx == y;
                            assert(t2.pending[k].pool_idx == y);
                        }
                        if y == pool_idx {
                            assert(t2.pending[t.pending.len() as int].pool_idx == y);
                        }
                    }
                }
                assert(track_sound(t2)) by {
                    if admission(t) is Shown {
                        assert forall|a: int, b: int| 0 <= a < b < t2.active.len() implies #[trigger] t2.active[a]
                            != #[trigger] t2.active[b] by {
                            assert(t2.active[a] == t.active[a]);
                            if b < t.active.len() {
                                assert(t2.active[b] == t.active[b]);
                            } else {
                                assert(t.active.contains(t.active[a]));
                                assert(holds_slot(t, t.active[a]));
                            }
                        }
                        assert forall|y: usize| #[trigger] t2.active.contains(y) implies !queued_in(t2.pending, y) by {
                            assert(holds_slot(t2, y));
                            if y != pool_idx {
                                assert(holds_slot(t, y));
                                let w = choose|w: int| 0 <= w < t2.active.len() && #[trigger] t2.active[w] == y;
                                assert(w < t.active.len());
                                assert(t.active[w] == y);
                                assert(t.active.contains(y));
                            } else {
                                if queued_in(t.pending, y) {
                                    assert(holds_slot(t, y));
                                }
                            }
                        }
                    } else {
                        assert forall|a: int, b: int| 0 <= a < b < t2.pending.len() implies #[trigger] t2.pending[a].pool_idx
                            != #[trigger] t2.pending[b].pool_idx by {
                            assert(t2.pending[a] == t.pending[a]);
                            if b < t.pending.len() {
                                assert(t2.pending[b] == t.pending[b]);
                            } else {
                                assert(queued_in(t.pending, t.pending[a].pool_idx));
                                assert(holds_slot(t, t.pending[a].pool_idx));
                            }
                        }
                        assert forall|y: usize| #[trigger] t2.active.contains(y) implies !queued_in(t2.pending, y) by {
                            assert(t.active.contains(y));
                            assert(holds_slot(t, y));
                            if queued_in(t2.pending, y) {
                                assert(holds_slot(t2, y));
                                let k = choose|k: int| 0 <= k < t2.pending.len() && #[trigger] t2.pending[k].pool_idx == y;
                                if k < t.pending.len() {
                                    assert(t.pending[k].pool_idx == y);
                                }
                            }
                        }
                    }
                }
                assert forall|i: int| 0 <= i < v2.tracks.len() implies track_sound(#[trigger] v2.tracks[i]) by {
                    if i != ti {
                        assert(v2.tracks[i] == v.tracks[i]);
                    }
                }
                assert forall|i: int, y: usize| 0 <= i < v2.tracks.len() && #[trigger] holds_slot(v2.tracks[i], y) implies y
                    < p2.slots.len() && slot_alive(p2.slots[y as int]) by {
                    if i != ti {
                        assert(v2.tracks[i] == v.tracks[i]);
                        assert(y != pool_idx);
                    } else if y != pool_idx {
                        assert(holds_slot(t, y));
                    }
                }
                assert forall|i: int| 0 <= i < v2.tracks.len() implies distinct_slots(#[trigger] v2.tracks[i].active) && within_slots(
                    v2.tracks[i].active,
                    p2.slots,
                ) by {
                    if i != ti {
                        assert(v2.tracks[i] == v.tracks[i]);
                        assert(within_slots(v.tracks[i].active, pool.slots));
                    } else {
                        assert forall|k: int| 0 <= k < t2.active.len() implies #[trigger] t2.active[k] < p2.slots.len() by {
                            assert(t2.active.contains(t2.active[k]));
                            assert(holds_slot(t2, t2.active[k]));
                        }
                    }
                }
                assert forall|i: int, j: int, y: usize|
                    0 <= i < v2.tracks.len() && 0 <= j < v2.tracks.len() && i != j && #[trigger] holds_slot(v2.tracks[i], y)
                        implies !#[trigger] holds_slot(v2.tracks[j], y) by {
                    if i == ti {
                        assert(v2.tracks[j] == v.tracks[j]);
                        if y != pool_idx {
                            assert(holds_slot(t, y));
                        }
                    } else if j == ti {
                        assert(v2.tracks[i] == v.tracks[i]);
                        if holds_slot(v2.tracks[j], y) {
                            if y != pool_idx {
                                assert(holds_slot(t, y));
                            }
                        }
                    } else {
                        assert(v2.tracks[i] == v.tracks[i]);
                        assert(v2.tracks[j] == v.tracks[j]);
                    }
                }
            },
        }
    }
}

/// What scanning the first `n` active slots does: only those slots change;
/// each either is to be retired or holds a live barrage that stays on the
/// track; only scanned slots are to be retired.
proof fn lemma_scanned_ties(
    slots: Seq<Option<BarrageObject>>,
    active: Seq<usize>,
    n: int,
    mode: TrackMode,
    canvas_width: u32,
    delta_ms: u64,
    mult: u32,
)
    requires
        0 <= n <= active.len(),
        distinct_slots(active),
        within_slots(active, slots),
    ensures
        ({
            let (s, rm) = scanned(slots, active, n, mode, canvas_width, delta_ms, mult);
            &&& s.len() == slots.len()
            &&& forall|x: int|
                0 <= x < slots.len() && !active.subrange(0, n).contains(x as usize) ==> #[trigger] s[x]
                    == slots[x]
            &&& forall|j: int|
                0 <= j < n ==> rm.contains(#[trigger] active[j]) || slot_alive(s[active[j] as int])
            &&& forall|k: int| 0 <= k < rm.len() ==> active.subrange(0, n).contains(#[trigger] rm[k])
            &&& forall|x: int| 0 <= x < slots.len() ==> (#[trigger] s[x] is None <==> slots[x] is None)
            &&& distinct_slots(rm)
            &&& forall|j: int|
                0 <= j < n && slots[active[j] as int] is Some ==> #[trigger] s[active[j] as int] == Some(
                    slots[active[j] as int]->0.updated(delta_ms, mult),
                )
        }),
    decreases n,
{
    if n > 0 {
        lemma_scanned_ties(slots, active, n - 1, mode, canvas_width, delta_ms, mult);
        let (s0, rm0) = scanned(slots, active, n - 1, mode, canvas_width, delta_ms, mult);
        let (s, rm) = scanned(slots, active, n, mode, canvas_width, delta_ms, mult);
        let x = active[n - 1];
        let pre = active.subrange(0, n - 1);
        let cur = active.subrange(0, n);
        assert(!pre.contains(x)) by {
            if pre.contains(x) {
                let w = choose|w: int| 0 <= w < pre.len() && #[trigger] pre[w] == x;
                assert(active[w] == x);
            }
        }
        assert(s0[x as int] == slots[x as int]);
        assert forall|y: int| 0 <= y < slots.len() && !cur.contains(y as usize) implies #[trigger] s[y]
            == slots[y] by {
            assert(cur[n - 1] == x);
            if pre.contains(y as usize) {
                let w = choose|w: int| 0 <= w < pre.len() && #[trigger] pre[w] == y as usize;
                assert(cur[w] == y as usize);
            }
        }
        assert forall|j: int| 0 <= j < n implies rm.contains(#[trigger] active[j]) || slot_alive(
            s[active[j] as int],
        ) by {
            if j < n - 1 {
                assert(active[j] != x);
                if rm0.contains(active[j]) {
                    let w = choose|w: int| 0 <= w < rm0.len() && #[trigger] rm0[w] == active[j];
                    assert(rm[w] == active[j]);
                }
            } else {
                if rm.len() > rm0.len() {
                    assert(rm[rm.len() - 1] == x);
                }
            }
        }
        assert forall|k: int| 0 <= k < rm.len() implies cur.contains(#[trigger] rm[k]) by {
            if k < rm0.len() {
                assert(rm[k] == rm0[k]);
                assert(pre.contains(rm0[k]));
                let w = choose|w: int| 0 <= w < pre.len() && #[trigger] pre[w] == rm0[k];
                assert(cur[w] == rm0[k]);
            } else {
                assert(rm[k] == x);
                assert(cur[n - 1] == x);
            }
        }
        assert forall|y: int| 0 <= y < slots.len() implies (#[trigger] s[y] is None <==> slots[y] is None) by {
            assert(s0[y] is None <==> slots[y] is None);
        }
        assert forall|j: int|
            0 <= j < n && slots[active[j] as int] is Some implies #[trigger] s[active[j] as int] == Some(
                slots[active[j] as int]->0.updated(delta_ms, mult),
            ) by {
            if j < n - 1 {
                assert(active[j] != x);
                assert(s0[active[j] as int] == Some(slots[active[j] as int]->0.updated(delta_ms, mult)));
            }
        }
        assert forall|a: int, b: int| 0 <= a < b < rm.len() implies #[trigger] rm[a] != #[trigger] rm[b] by {
            if b < rm0.len() {
                assert(rm[a] == rm0[a]);
                assert(rm[b] == rm0[b]);
            } else {
                assert(rm[a] == rm0[a]);
                assert(rm[b] == x);
                assert(pre.contains(rm0[a]));
            }
        }
    }
}

/// Retiring distinct occupied slots keeps a tidy pool tidy.
proof fn lemma_retired_tidy(active: Seq<usize>, pool: PoolView, rm: Seq<usize>, n: int)
    requires
        0 <= n <= rm.len(),
        distinct_slots(active),
        distinct_slots(rm),
        pool.tidy(),
        forall|k: int| 0 <= k < rm.len() ==> #[trigger] rm[k] < pool.slots.len() && pool.slots[rm[k] as int] is Some,
    ensures
        retired(active, pool, rm, n).1.tidy(),
    decreases n,
{
    if n > 0 {
        lemma_retired_tidy(active, pool, rm, n - 1);
        lemma_retired_ties(active, pool, rm, n - 1);
        let p0 = retired(active, pool, rm, n - 1).1;
        let z = rm[n - 1];
        assert(!rm.subrange(0, n - 1).contains(z)) by {
            if rm.subrange(0, n - 1).contains(z) {
                let w = choose|w: int| 0 <= w < n - 1 && #[trigger] rm.subrange(0, n - 1)[w] == z;
                assert(rm[w] == z);
            }
        }
        assert(p0.slots[z as int] == pool.slots[z as int]);
        crate::barrage::law_deallocate_occupied_keeps_tidy(p0, z);
    }
}

/// No two queued barrages share a slot.
pub open spec fn distinct_queue(q: Seq<PendingBarrage>) -> bool {
    forall|a: int, b: int| 0 <= a < b < q.len() ==> #[trigger] q[a].pool_idx != #[trigger] q[b].pool_idx
}

/// Dispatching a distinct queue apart from the shown slots keeps the shown
/// and the queued slots distinct and apart; what stays queued was queued.
proof fn lemma_dispatched_distinct(
    active: Seq<usize>,
    pending: Seq<PendingBarrage>,
    max_concurrent: u32,
    slots: Seq<Option<BarrageObject>>,
)
    requires
        distinct_slots(active),
        distinct_queue(pending),
        forall|y: usize| #[trigger] active.contains(y) ==> !queued_in(pending, y),
    ensures
        ({
            let (a, q) = dispatched(active, pending, max_concurrent, slots);
            &&& distinct_slots(a)
            &&& distinct_queue(q)
            &&& forall|y: usize| #[trigger] a.contains(y) ==> !queued_in(q, y)
            &&& forall|y: usize| #[trigger] queued_in(q, y) ==> queued_in(pending, y)
        }),
    decreases pending.len(),
{
    if pending.len() > 0 && active.len() < max_concurrent {
        let p = pending[0];
        let rest = pending.drop_first();
        let a = if p.pool_idx < slots.len() && slot_alive(slots[p.pool_idx as int]) {
            active.push(p.pool_idx)
        } else {
            active
        };
        assert(queued_in(pending, p.pool_idx)) by {
            assert(pending[0].pool_idx == p.pool_idx);
        }
        assert(!active.contains(p.pool_idx));
        assert forall|a1: int, b1: int| 0 <= a1 < b1 < rest.len() implies #[trigger] rest[a1].pool_idx
            != #[trigger] rest[b1].pool_idx by {
            assert(rest[a1] == pending[a1 + 1]);
            assert(rest[b1] == pending[b1 + 1]);
        }
        assert forall|y: usize| queued_in(rest, y) implies queued_in(pending, y) by {
            let k = choose|k: int| 0 <= k < rest.len() && #[trigger] rest[k].pool_idx == y;
            assert(pending[k + 1].pool_idx == y);
        }
        assert forall|i: int, j: int| 0 <= i < j < a.len() implies #[trigger] a[i] != #[trigger] a[j] by {
            if j < active.len() {
                assert(a[i] == active[i]);
                assert(a[j] == active[j]);
            } else {
                assert(a[i] == active[i]);
                assert(active.contains(active[i]));
            }
        }
        assert forall|y: usize| #[trigger] a.contains(y) implies !queued_in(rest, y) by {
            let w = choose|w: int| 0 <= w < a.len() && #[trigger] a[w] == y;
            if w < active.len() {
                assert(active[w] == y);
                assert(active.contains(y));
                if queued_in(rest, y) {
                    assert(queued_in(pending, y));
                }
            } else {
                if queued_in(rest, y) {
                    let k = choose|k: int| 0 <= k < rest.len() && #[trigger] rest[k].pool_idx == y;
                    assert(pending[k + 1].pool_idx == pending[0].pool_idx);
                }
            }
        }
        lemma_dispatched_distinct(a, rest, max_concurrent, slots);
    }
}

/// What retiring the first `n` entries of `rm` does: the list keeps its
/// distinct slots except those retired, each retired slot in range is
/// freed, and other slots are unchanged.
proof fn lemma_retired_ties(active: Seq<usize>, pool: PoolView, rm: Seq<usize>, n: int)
    requires
        0 <= n <= rm.len(),
        distinct_slots(active),
        pool.slots.len() <= usize::MAX,
    ensures
        ({
            let (a, p) = retired(active, pool, rm, n);
            &&& distinct_slots(a)
            &&& p.slots.len() == pool.slots.len()
            &&& forall|y: usize| #[trigger] a.contains(y) <==> active.contains(y) && !rm.subrange(0, n).contains(y)
            &&& forall|x: int|
                0 <= x < pool.slots.len() ==> (#[trigger] p.slots[x] == if rm.subrange(0, n).contains(
                    x as usize,
                ) {
                    None
                } else {
                    pool.slots[x]
                })
        }),
    decreases n,
{
    if n == 0 {
        assert(rm.subrange(0, 0) =~= Seq::<usize>::empty());
    } else {
        lemma_retired_ties(active, pool, rm, n - 1);
        let (a0, p0) = retired(active, pool, rm, n - 1);
        let (a, p) = retired(active, pool, rm, n);
        let z = rm[n - 1];
        lemma_swap_removed(a0, z);
        assert(a == swap_removed(a0, z));
        assert(p == p0.deallocated(z));
        let pre = rm.subrange(0, n - 1);
        let cur = rm.subrange(0, n);
        assert(cur =~= pre.push(z));
        assert forall|y: usize| cur.contains(y) <==> pre.contains(y) || y == z by {
            if cur.contains(y) {
                let w = choose|w: int| 0 <= w < cur.len() && #[trigger] cur[w] == y;
                if w < n - 1 {
                    assert(pre[w] == y);
                }
            }
            if pre.contains(y) {
                let w = choose|w: int| 0 <= w < pre.len() && #[trigger] pre[w] == y;
                assert(cur[w] == y);
            }
            if y == z {
                assert(cur[n - 1] == y);
            }
        }
        assert forall|y: usize| #[trigger] a.contains(y) <==> active.contains(y) && !cur.contains(y) by {
            assert(a0.contains(y) <==> active.contains(y) && !pre.contains(y));
        }
        assert forall|x: int| 0 <= x < pool.slots.len() implies (#[trigger] p.slots[x] == if cur.contains(
            x as usize,
        ) {
            None
        } else {
            pool.slots[x]
        }) by {
            assert(p0.slots[x] == if pre.contains(x as usize) {
                None
            } else {
                pool.slots[x]
            });
        }
    }
}

/// Swap-removing `x` from a list of distinct slots removes exactly `x`.
proof fn lemma_swap_removed(s: Seq<usize>, x: usize)
    requires
        distinct_slots(s),
    ensures
        distinct_slots(swap_removed(s, x)),
        forall|y: usize| #[trigger] swap_removed(s, x).contains(y) <==> s.contains(y) && y != x,
{
    let len = s.len() as int;
    lemma_first_pos_facts(s, x, len);
    let p = first_pos(s, x, len);
    let r = swap_removed(s, x);
    if p < len {
        assert(r.len() == len - 1);
        assert forall|i: int| 0 <= i < r.len() implies #[trigger] r[i] == if i == p {
            s[len - 1]
        } else {
            s[i]
        } by {}
        assert forall|a: int, b: int| 0 <= a < b < r.len() implies #[trigger] r[a] != #[trigger] r[b] by {
            let ia = if a == p { len - 1 } else { a };
            let ib = if b == p { len - 1 } else { b };
            assert(r[a] == s[ia]);
            assert(r[b] == s[ib]);
            if ia < ib {
                assert(s[ia] != s[ib]);
            } else {
                assert(s[ib] != s[ia]);
            }
        }
        assert forall|y: usize| #[trigger] r.contains(y) <==> s.contains(y) && y != x by {
            if r.contains(y) {
                let w = choose|w: int| 0 <= w < r.len() && #[trigger] r[w] == y;
                let iw = if w == p { len - 1 } else { w };
                assert(s[iw] == y);
                if iw < p {
                    assert(s[iw] != s[p]);
                } else {
                    assert(s[p] != s[iw]);
                }
            }
            if s.contains(y) && y != x {
                let w = choose|w: int| 0 <= w < s.len() && #[trigger] s[w] == y;
                if w < len - 1 {
                    assert(r[w] == y);
                } else {
                    assert(r[p] == y);
                }
            }
        }
    } else {
        assert forall|y: usize| #[trigger] r.contains(y) <==> s.contains(y) && y != x by {
            if s.contains(y) {
                let w = choose|w: int| 0 <= w < s.len() && #[trigger] s[w] == y;
                assert(s[w] != x);
            }
        }
    }
}

/// The first position of `x` among the first `n` entries.
proof fn lemma_first_pos_facts(s: Seq<usize>, x: usize, n: int)
    requires
        0 <= n <= s.len(),
    ensures
        0 <= first_pos(s, x, n) <= n,
        first_pos(s, x, n) < n ==> s[first_pos(s, x, n)] == x,
        forall|i: int| 0 <= i < first_pos(s, x, n) ==> #[trigger] s[i] != x,
    decreases n,
{
    if n > 0 {
        lemma_first_pos_facts(s, x, n - 1);
    }
}

/// Dispatching keeps the slots already shown and shows only slots holding a
/// live barrage.
proof fn lemma_dispatched_ties(
    active: Seq<usize>,
    pending: Seq<PendingBarrage>,
    max_concurrent: u32,
    slots: Seq<Option<BarrageObject>>,
)
    ensures
        ({
            let a = dispatched(active, pending, max_concurrent, slots).0;
            &&& forall|y: usize| active.contains(y) ==> #[trigger] a.contains(y)
            &&& forall|y: usize|
                #[trigger] a.contains(y) ==> active.contains(y) || (y < slots.len() && slot_alive(
                    slots[y as int],
                ))
            &&& forall|y: usize| #[trigger] a.contains(y) ==> active.contains(y) || queued_in(pending, y)
        }),
    decreases pending.len(),
{
    if pending.len() > 0 && active.len() < max_concurrent {
        let p = pending[0];
        let a = if p.pool_idx < slots.len() && slot_alive(slots[p.pool_idx as int]) {
            active.push(p.pool_idx)
        } else {
            active
        };
        lemma_dispatched_ties(a, pending.drop_first(), max_concurrent, slots);
        let fin = dispatched(a, pending.drop_first(), max_concurrent, slots).0;
        assert(dispatched(active, pending, max_concurrent, slots).0 == fin);
        assert forall|y: usize| active.contains(y) implies #[trigger] fin.contains(y) by {
            let w = choose|w: int| 0 <= w < active.len() && #[trigger] active[w] == y;
            assert(a[w] == y);
            assert(a.contains(y));
        }
        assert forall|y: usize| #[trigger] fin.contains(y) implies active.contains(y) || queued_in(
            pending,
            y,
        ) by {
            if queued_in(pending.drop_first(), y) {
                let k = choose|k: int| 0 <= k < pending.drop_first().len() && #[trigger] pending.drop_first()[k].pool_idx == y;
                assert(pending[k + 1].pool_idx == y);
            }
            if a.contains(y) {
                let w = choose|w: int| 0 <= w < a.len() && #[trigger] a[w] == y;
                if w < active.len() {
                    assert(active[w] == y);
                } else {
                    assert(pending[0].pool_idx == y);
                }
            }
        }
        assert forall|y: usize| #[trigger] fin.contains(y) implies active.contains(y) || (y
            < slots.len() && slot_alive(slots[y as int])) by {
            if a.contains(y) {
                let w = choose|w: int| 0 <= w < a.len() && #[trigger] a[w] == y;
                if w < active.len() {
                    assert(active[w] == y);
                }
            }
        }
    }
}

/// Retiring never lengthens the active list.
proof fn lemma_retired_shrinks(active: Seq<usize>, pool: PoolView, rm: Seq<usize>, n: int)
    ensures
        retired(active, pool, rm, n).0.len() <= active.len(),
    decreases n,
{
    if n > 0 {
        lemma_retired_shrinks(active, pool, rm, n - 1);
        let a = retired(active, pool, rm, n - 1).0;
        lemma_first_pos_range(a, rm[n - 1], a.len() as int);
    }
}

/// The first position lies within the prefix, or is its end.
proof fn lemma_first_pos_range(s: Seq<usize>, x: usize, n: int)
    requires
        n >= 0,
    ensures
        0 <= first_pos(s, x, n) <= n,
    decreases n,
{
    if n > 0 {
        lemma_first_pos_range(s, x, n - 1);
    }
}

/// Dispatching stops at the capacity.
proof fn lemma_dispatched_within(
    active: Seq<usize>,
    pending: Seq<PendingBarrage>,
    max_concurrent: u32,
    slots: Seq<Option<BarrageObject>>,
)
    requires
        active.len() <= max_concurrent,
    ensures
        dispatched(active, pending, max_concurrent, slots).0.len() <= max_concurrent,
    decreases pending.len(),
{
    if pending.len() > 0 && active.len() < max_concurrent {
        let p = pending[0];
        let a = if p.pool_idx < slots.len() && slot_alive(slots[p.pool_idx as int]) {
            active.push(p.pool_idx)
        } else {
            active
        };
        lemma_dispatched_within(a, pending.drop_first(), max_concurrent, slots);
    }
}

/// Freeing a slot keeps every live barrage able to age by `d`.
pub proof fn lemma_dealloc_keeps_ages(pool: PoolView, idx: usize, d: u64)
    requires
        ages_fit(pool.slots, d),
    ensures
        ages_fit(pool.deallocated(idx).slots, d),
{
    let s2 = pool.deallocated(idx).slots;
    assert forall|i: int| 0 <= i < s2.len() && #[trigger] slot_alive(s2[i]) implies s2[i]->0.elapsed_ms
        + d <= u64::MAX by {
        assert(slot_alive(pool.slots[i]));
    }
}

/// Updating one barrage keeps every live barrage younger than `u32::MAX`.
proof fn lemma_update_keeps_room(
    slots: Seq<Option<BarrageObject>>,
    idx: int,
    o: BarrageObject,
    delta_ms: u64,
    mult: u32,
)
    requires
        ages_fit(slots, AGE_ROOM),
        0 <= idx < slots.len(),
        slots[idx] == Some(o),
    ensures
        ages_fit(slots.update(idx, Some(o.updated(delta_ms, mult))), AGE_ROOM),
{
    let s2 = slots.update(idx, Some(o.updated(delta_ms, mult)));
    assert forall|i: int| 0 <= i < s2.len() && #[trigger] slot_alive(s2[i]) implies s2[i]->0.elapsed_ms
        + AGE_ROOM <= u64::MAX by {
        if i != idx {
            assert(slot_alive(slots[i]));
        }
    }
}

/// First positions found among a prefix stay first in longer prefixes.
proof fn lemma_first_pos_stays(s: Seq<usize>, x: usize, m: int, n: int)
    requires
        0 <= m <= n,
        first_pos(s, x, m) < m,
    ensures
        first_pos(s, x, n) == first_pos(s, x, m),
    decreases n - m,
{
    if m < n {
        lemma_first_pos_stays(s, x, m, n - 1);
    }
}

/// Updating one barrage keeps every live barrage able to age by `delta_ms`.
proof fn lemma_update_keeps_ages_fit(
    slots: Seq<Option<BarrageObject>>,
    idx: int,
    o: BarrageObject,
    delta_ms: u64,
    mult: u32,
)
    requires
        ages_fit(slots, delta_ms),
        delta_ms <= u64::MAX - u32::MAX,
        0 <= idx < slots.len(),
        slots[idx] == Some(o),
    ensures
        o.alive ==> o.elapsed_ms + delta_ms <= u64::MAX,
        ages_fit(slots.update(idx, Some(o.updated(delta_ms, mult))), delta_ms),
{
    let s2 = slots.update(idx, Some(o.updated(delta_ms, mult)));
    if o.alive {
        assert(slot_alive(slots[idx]));
    }
    assert forall|i: int| 0 <= i < s2.len() && #[trigger] slot_alive(s2[i]) implies s2[i]->0.elapsed_ms
        + delta_ms <= u64::MAX by {
        if i != idx {
            assert(slot_alive(slots[i]));
        }
    }
}

} // verus!
