//! Barrage objects and the object pool that recycles their slots.
//!
//! The pool keeps a vector of slots and a stack of free slot indices; a slot
//! freed last is the first one handed out again.
use vstd::prelude::*;

use std::sync::Arc;

use crate::config::{TextEffectConfig, TrackMode};
use crate::math::{div_trunc, max, min};

verus! {

/// One piece of a mixed text and emoji barrage.
#[derive(Debug, Clone)]
pub struct EmojiSegment {
    /// `true` for an emoji bitmap, `false` for text.
    pub is_emoji: bool,
    /// The text (used when `is_emoji` is false).
    pub text: String,
    /// The emoji identifier (used when `is_emoji` is true).
    pub emoji_id: String,
}

impl EmojiSegment {
    /// A text segment.
    pub fn text(text: &str) -> (r: Self)
        ensures
            !r.is_emoji,
            r.text@ == text@,
            r.emoji_id@ == Seq::<char>::empty(),
    {
        EmojiSegment { is_emoji: false, text: text.to_owned(), emoji_id: String::new() }
    }

    /// An emoji segment.
    pub fn emoji(emoji_id: &str) -> (r: Self)
        ensures
            r.is_emoji,
            r.text@ == Seq::<char>::empty(),
            r.emoji_id@ == emoji_id@,
    {
        EmojiSegment { is_emoji: true, text: String::new(), emoji_id: emoji_id.to_owned() }
    }
}

/// A barrage on screen.
///
/// Positions are in thousandths of a pixel, speeds in thousandths of a pixel
/// per second and alpha in thousandths.
#[derive(Debug, Clone)]
pub struct BarrageObject {
    /// Unique identifier.
    pub id: u64,
    /// Plain text (used when `segments` is empty).
    pub text: String,
    /// Mixed text and emoji segments.
    pub segments: Vec<EmojiSegment>,
    /// Own text effects (`None` means the global effects).
    pub effect_config: Option<Arc<TextEffectConfig>>,
    pub track_mode: TrackMode,
    pub track_index: u32,
    pub x: i64,
    pub y: i64,
    pub start_x: i64,
    pub start_y: i64,
    pub speed_x: i64,
    pub speed_y: i64,
    /// Colour as 0xRRGGBBAA.
    pub color_rgba: u32,
    pub font_size: u32,
    /// Alpha in thousandths (0..=1000).
    pub alpha: u32,
    /// Size in pixels, set by the renderer.
    pub width: u32,
    pub height: u32,
    /// Lifetime in milliseconds (at least 100).
    pub duration_ms: u32,
    /// Engine time of creation in milliseconds.
    pub created_at_ms: u64,
    /// Time lived so far in milliseconds.
    pub elapsed_ms: u64,
    /// `false` once expired.
    pub alive: bool,
}

/// `v` saturated to the range of `i64`.
pub open spec fn sat_i64(v: int) -> i64 {
    if v < i64::MIN {
        i64::MIN
    } else if v > i64::MAX {
        i64::MAX
    } else {
        v as i64
    }
}

/// A coordinate after moving for `delta_ms` at `speed` (thousandths of a pixel
/// per second) scaled by `mult` (thousandths).
pub open spec fn moved(pos: i64, speed: i64, delta_ms: u64, mult: u32) -> i64 {
    sat_i64(pos + div_trunc(speed * delta_ms * mult, 1_000_000))
}

/// Life progress in thousandths, bounded to 1000.
pub open spec fn progress_of(elapsed_ms: u64, duration_ms: u32) -> u32 {
    if duration_ms == 0 {
        1000
    } else {
        min(elapsed_ms * 1000 / duration_ms as int, 1000) as u32
    }
}

/// Alpha in thousandths after the global alpha and the fade-out of the last
/// tenth of the life.
pub open spec fn faded_alpha(alpha: u32, global_alpha: u32, progress: u32) -> u32 {
    let fade: int = if progress > 900 {
        (1000 - progress) * 10
    } else {
        1000
    };
    min(alpha * global_alpha * fade / 1_000_000, 1000) as u32
}

/// Moves one coordinate; saturates at the range of `i64`.
#[verifier::spinoff_prover]
fn advance_position(pos: i64, speed: i64, delta_ms: u64, mult: u32) -> (r: i64)
    ensures
        r == moved(pos, speed, delta_ms, mult),
{
    assert(-0x8000_0000_0000_0000 * 0xFFFF_FFFF_FFFF_FFFF <= speed * delta_ms
        <= 0x7FFF_FFFF_FFFF_FFFF * 0xFFFF_FFFF_FFFF_FFFF) by (nonlinear_arith)
        requires
            -0x8000_0000_0000_0000 <= speed <= 0x7FFF_FFFF_FFFF_FFFF,
            0 <= delta_ms <= 0xFFFF_FFFF_FFFF_FFFF,
    ;
    let t: i128 = speed as i128 * delta_ms as i128;
    let bound: i128 = 0x4000_0000_0000_0000_0000_0000;
    let step: i128 = if mult == 0 {
        0
    } else if t > bound {
        bound
    } else if t < -bound {
        -bound
    } else {
        assert(-bound * 0x1_0000_0000 <= t * mult <= bound * 0x1_0000_0000) by (nonlinear_arith)
            requires
                -bound <= t <= bound,
                0 < mult < 0x1_0000_0000,
        ;
        (t * mult as i128) / 1_000_000
    };
    let ghost exact = div_trunc(speed * delta_ms * mult, 1_000_000);
    proof {
        assert(speed * delta_ms * mult == t * mult);
        if mult == 0 {
            assert(t * mult == 0) by (nonlinear_arith)
                requires
                    mult == 0,
            ;
            assert(step == exact);
        } else if t > bound {
            assert(t * mult >= t) by (nonlinear_arith)
                requires
                    t > 0,
                    mult >= 1,
            ;
            assert(exact >= bound / 1_000_000);
            assert(pos + exact > i64::MAX && pos + step > i64::MAX);
        } else if t < -bound {
            assert(t * mult <= t) by (nonlinear_arith)
                requires
                    t < 0,
                    mult >= 1,
            ;
            assert(exact <= -(bound / 1_000_000));
            assert(pos + exact < i64::MIN && pos + step < i64::MIN);
        } else {
            assert(-bound * 0x1_0000_0000 <= t * mult <= bound * 0x1_0000_0000)
                by (nonlinear_arith)
                requires
                    -bound <= t <= bound,
                    0 < mult < 0x1_0000_0000,
            ;
            assert(step == exact);
        }
    }
    let sum: i128 = pos as i128 + step;
    assert(step == exact || (pos + exact > i64::MAX && sum > i64::MAX) || (pos + exact < i64::MIN && sum
        < i64::MIN));
    if sum < i64::MIN as i128 {
        i64::MIN
    } else if sum > i64::MAX as i128 {
        i64::MAX
    } else {
        sum as i64
    }
}

impl BarrageObject {
    /// A fresh barrage at the origin that uses the global effects.
    pub open spec fn fresh(
        id: u64,
        text: Seq<char>,
        segments: Seq<EmojiSegment>,
        effect_config: Option<Arc<TextEffectConfig>>,
        track_mode: TrackMode,
        track_index: u32,
        color_rgba: u32,
        font_size: u32,
        alpha: u32,
        duration_ms: u32,
        created_at_ms: u64,
        r: BarrageObject,
    ) -> bool {
        &&& r.id == id
        &&& r.text@ == text
        &&& r.segments@ == segments
        &&& r.effect_config == effect_config
        &&& r.track_mode == track_mode
        &&& r.track_index == track_index
        &&& r.x == 0 && r.y == 0 && r.start_x == 0 && r.start_y == 0
        &&& r.speed_x == 0 && r.speed_y == 0
        &&& r.color_rgba == color_rgba
        &&& r.font_size == font_size
        &&& r.alpha == min(alpha as int, 1000)
        &&& r.width == 0 && r.height == 0
        &&& r.duration_ms == max(duration_ms as int, 100)
        &&& r.created_at_ms == created_at_ms
        &&& r.elapsed_ms == 0
        &&& r.alive
    }

    /// Creates a barrage that uses the global effects; alpha is bounded to
    /// 1000 and the duration raised to at least 100 ms.
    pub fn new(
        id: u64,
        text: &str,
        track_mode: TrackMode,
        track_index: u32,
        color_rgba: u32,
        font_size: u32,
        alpha: u32,
        duration_ms: u32,
        created_at_ms: u64,
    ) -> (r: Self)
        ensures
            Self::fresh(
                id,
                text@,
                Seq::empty(),
                None,
                track_mode,
                track_index,
                color_rgba,
                font_size,
                alpha,
                duration_ms,
                created_at_ms,
                r,
            ),
    {
        Self::new_with_effect(
            id,
            text,
            Vec::new(),
            track_mode,
            track_index,
            color_rgba,
            font_size,
            alpha,
            duration_ms,
            created_at_ms,
            None,
        )
    }

    /// Creates a barrage with its own segments and effects.
    pub fn new_with_effect(
        id: u64,
        text: &str,
        segments: Vec<EmojiSegment>,
        track_mode: TrackMode,
        track_index: u32,
        color_rgba: u32,
        font_size: u32,
        alpha: u32,
        duration_ms: u32,
        created_at_ms: u64,
        effect_config: Option<Arc<TextEffectConfig>>,
    ) -> (r: Self)
        ensures
            Self::fresh(
                id,
                text@,
                segments@,
                effect_config,
                track_mode,
                track_index,
                color_rgba,
                font_size,
                alpha,
                duration_ms,
                created_at_ms,
                r,
            ),
    {
        BarrageObject {
            id,
            text: text.to_owned(),
            segments,
            effect_config,
            track_mode,
            track_index,
            x: 0,
            y: 0,
            start_x: 0,
            start_y: 0,
            speed_x: 0,
            speed_y: 0,
            color_rgba,
            font_size,
            alpha: if alpha > 1000 {
                1000
            } else {
                alpha
            },
            width: 0,
            height: 0,
            duration_ms: if duration_ms < 100 {
                100
            } else {
                duration_ms
            },
            created_at_ms,
            elapsed_ms: 0,
            alive: true,
        }
    }

    /// The barrage after one frame of `delta_ms` at `speed_multiplier`
    /// (thousandths): a dead barrage is unchanged; a barrage whose life is
    /// used up dies without moving; any other barrage moves.
    pub open spec fn updated(self, delta_ms: u64, speed_multiplier: u32) -> BarrageObject {
        if !self.alive {
            self
        } else if self.elapsed_ms + delta_ms >= self.duration_ms {
            BarrageObject { elapsed_ms: (self.elapsed_ms + delta_ms) as u64, alive: false, ..self }
        } else {
            BarrageObject {
                elapsed_ms: (self.elapsed_ms + delta_ms) as u64,
                x: moved(self.x, self.speed_x, delta_ms, speed_multiplier),
                y: moved(self.y, self.speed_y, delta_ms, speed_multiplier),
                ..self
            }
        }
    }

    /// Advances the barrage by one frame.
    pub fn update(&mut self, delta_ms: u64, speed_multiplier: u32)
        requires
            old(self).alive ==> old(self).elapsed_ms + delta_ms <= u64::MAX,
        ensures
            *final(self) == old(self).updated(delta_ms, speed_multiplier),
    {
        if !self.alive {
            return ;
        }
        self.elapsed_ms = self.elapsed_ms + delta_ms;
        if self.elapsed_ms >= self.duration_ms as u64 {
            self.alive = false;
            return ;
        }
        self.x = advance_position(self.x, self.speed_x, delta_ms, speed_multiplier);
        self.y = advance_position(self.y, self.speed_y, delta_ms, speed_multiplier);
    }

    /// Life progress in thousandths (0..=1000).
    pub fn progress(&self) -> (r: u32)
        ensures
            r == progress_of(self.elapsed_ms, self.duration_ms),
    {
        if self.duration_ms == 0 {
            return 1000;
        }
        let p: u128 = self.elapsed_ms as u128 * 1000 / self.duration_ms as u128;
        if p > 1000 {
            1000
        } else {
            p as u32
        }
    }

    /// Current alpha in thousandths: own alpha times `global_alpha`, fading
    /// out linearly over the last tenth of the life, bounded to 1000.
    pub fn current_alpha(&self, global_alpha: u32) -> (r: u32)
        ensures
            r == faded_alpha(self.alpha, global_alpha, progress_of(self.elapsed_ms, self.duration_ms)),
    {
        let progress = self.progress();
        let fade: u128 = if progress > 900 {
            (1000 - progress) as u128 * 10
        } else {
            1000
        };
        assert(self.alpha * global_alpha <= 0xFFFF_FFFF * 0xFFFF_FFFF) by (nonlinear_arith);
        assert(self.alpha * global_alpha * fade <= 0xFFFF_FFFF * 0xFFFF_FFFF * 1000)
            by (nonlinear_arith)
            requires
                self.alpha * global_alpha <= 0xFFFF_FFFF * 0xFFFF_FFFF,
                fade <= 1000,
        ;
        let a: u128 = self.alpha as u128 * global_alpha as u128 * fade / 1_000_000;
        if a > 1000 {
            1000
        } else {
            a as u32
        }
    }

    /// Bounding box `(x, y, width, height)`: position in thousandths of a
    /// pixel, size in pixels.
    pub fn bounding_box(&self) -> (r: (i64, i64, u32, u32))
        ensures
            r == (self.x, self.y, self.width, self.height),
    {
        (self.x, self.y, self.width, self.height)
    }

    /// The state of a recycled object.
    pub open spec fn is_reset(self) -> bool {
        &&& self.text@.len() == 0
        &&& self.segments@.len() == 0
        &&& self.effect_config is None
        &&& self.track_mode == TrackMode::Scroll
        &&& self.track_index == 0
        &&& self.x == 0 && self.y == 0 && self.start_x == 0 && self.start_y == 0
        &&& self.speed_x == 0 && self.speed_y == 0
        &&& self.color_rgba == 0xFFFFFFFF
        &&& self.font_size == 28
        &&& self.alpha == 1000
        &&& self.width == 0 && self.height == 0
        &&& self.duration_ms == 5000
        &&& self.created_at_ms == 0
        &&& self.elapsed_ms == 0
        &&& !self.alive
    }

    /// Resets the object for reuse; it keeps its id and is no longer alive.
    pub fn reset(&mut self)
        ensures
            final(self).is_reset(),
            final(self).id == old(self).id,
    {
        self.text = String::new();
        self.segments.clear();
        self.effect_config = None;
        self.track_mode = TrackMode::Scroll;
        self.track_index = 0;
        self.x = 0;
        self.y = 0;
        self.start_x = 0;
        self.start_y = 0;
        self.speed_x = 0;
        self.speed_y = 0;
        self.color_rgba = 0xFFFFFFFF;
        self.font_size = 28;
        self.alpha = 1000;
        self.width = 0;
        self.height = 0;
        self.duration_ms = 5000;
        self.created_at_ms = 0;
        self.elapsed_ms = 0;
        self.alive = false;
    }
}

/// Whether a slot holds a live barrage.
pub open spec fn slot_alive(s: Option<BarrageObject>) -> bool {
    s matches Some(o) && o.alive
}

/// Whether a slot holds an expired barrage.
pub open spec fn slot_dead(s: Option<BarrageObject>) -> bool {
    s matches Some(o) && !o.alive
}

/// Number of live barrages among the first `n` slots.
pub open spec fn alive_in(slots: Seq<Option<BarrageObject>>, n: int) -> nat
    decreases n,
{
    if n <= 0 {
        0
    } else {
        alive_in(slots, n - 1) + if slot_alive(slots[n - 1]) {
            1nat
        } else {
            0nat
        }
    }
}

/// Indices, in increasing order, of the live barrages among the first `n` slots.
pub open spec fn alive_indices(slots: Seq<Option<BarrageObject>>, n: int) -> Seq<usize>
    decreases n,
{
    if n <= 0 {
        Seq::empty()
    } else if slot_alive(slots[n - 1]) {
        alive_indices(slots, n - 1).push((n - 1) as usize)
    } else {
        alive_indices(slots, n - 1)
    }
}

/// Indices, in increasing order, of the expired barrages among the first `n` slots.
pub open spec fn dead_indices(slots: Seq<Option<BarrageObject>>, n: int) -> Seq<usize>
    decreases n,
{
    if n <= 0 {
        Seq::empty()
    } else if slot_dead(slots[n - 1]) {
        dead_indices(slots, n - 1).push((n - 1) as usize)
    } else {
        dead_indices(slots, n - 1)
    }
}

/// Largest number of slots growth reaches.
pub const POOL_GROW_LIMIT: usize = 8192;

/// The abstract state of a pool: its slots, its stack of free indices (top
/// last) and its growth step.
pub struct PoolView {
    pub slots: Seq<Option<BarrageObject>>,
    pub free: Seq<usize>,
    pub grow_step: nat,
}

impl PoolView {
    /// Every free index names a slot.
    pub open spec fn wf(self) -> bool {
        &&& forall|k: int| 0 <= k < self.free.len() ==> #[trigger] self.free[k] < self.slots.len()
        &&& 16 <= self.grow_step <= 512
        &&& self.slots.len() <= usize::MAX
    }

    /// No slot was freed twice: the free stack holds each empty slot exactly once.
    pub open spec fn tidy(self) -> bool {
        &&& self.wf()
        &&& forall|a: int, b: int|
            0 <= a < b < self.free.len() ==> #[trigger] self.free[a] != #[trigger] self.free[b]
        &&& forall|i: int|
            0 <= i < self.slots.len() ==> (#[trigger] self.slots[i] is None <==> self.free.contains(
                i as usize,
            ))
    }

    /// The pool after growing by one step (up to 8192 slots).
    pub open spec fn grown(self) -> PoolView {
        let len = self.slots.len();
        if len >= POOL_GROW_LIMIT {
            self
        } else {
            let new_len = min((len + self.grow_step) as int, POOL_GROW_LIMIT as int);
            PoolView {
                slots: self.slots + Seq::new((new_len - len) as nat, |k: int| None),
                free: self.free + Seq::new((new_len - len) as nat, |k: int| (len + k) as usize),
                grow_step: self.grow_step,
            }
        }
    }

    /// The pool `allocate` takes its slot from: grown when no slot is free.
    pub open spec fn alloc_source(self) -> PoolView {
        if self.free.len() == 0 {
            self.grown()
        } else {
            self
        }
    }

    /// The slot `allocate` hands out: the top of the free stack.
    pub open spec fn alloc_index(self) -> Option<usize> {
        let src = self.alloc_source();
        if src.free.len() == 0 {
            None
        } else {
            Some(src.free.last())
        }
    }

    /// The pool after allocating `obj`.
    pub open spec fn allocated(self, obj: BarrageObject) -> PoolView {
        let src = self.alloc_source();
        if src.free.len() == 0 {
            src
        } else {
            PoolView {
                slots: src.slots.update(src.free.last() as int, Some(obj)),
                free: src.free.drop_last(),
                grow_step: src.grow_step,
            }
        }
    }

    /// The pool after freeing slot `idx` (no change when out of range).
    pub open spec fn deallocated(self, idx: usize) -> PoolView {
        if idx >= self.slots.len() {
            self
        } else {
            PoolView {
                slots: self.slots.update(idx as int, None),
                free: self.free.push(idx),
                grow_step: self.grow_step,
            }
        }
    }

    /// The pool after freeing, in increasing order, every slot that holds an
    /// expired barrage.
    pub open spec fn reaped(self) -> PoolView {
        PoolView {
            slots: Seq::new(
                self.slots.len(),
                |i: int|
                    if slot_dead(self.slots[i]) {
                        None
                    } else {
                        self.slots[i]
                    },
            ),
            free: self.free + dead_indices(self.slots, self.slots.len() as int),
            grow_step: self.grow_step,
        }
    }

    /// The pool with every slot empty and free, slot 0 at the bottom.
    pub open spec fn cleared(self) -> PoolView {
        PoolView {
            slots: Seq::new(self.slots.len(), |i: int| None),
            free: Seq::new(self.slots.len(), |i: int| i as usize),
            grow_step: self.grow_step,
        }
    }

    /// Number of live barrages.
    pub open spec fn alive_count(self) -> nat {
        alive_in(self.slots, self.slots.len() as int)
    }
}

/// A pool of barrage objects: pre-allocated slots and a LIFO stack of free
/// slot indices.
pub struct BarrageObjectPool {
    objects: Vec<Option<BarrageObject>>,
    free_indices: Vec<usize>,
    grow_step: u32,
}

impl View for BarrageObjectPool {
    type V = PoolView;

    closed spec fn view(&self) -> PoolView {
        PoolView { slots: self.objects@, free: self.free_indices@, grow_step: self.grow_step as nat }
    }
}

impl BarrageObjectPool {
    /// Creates a pool of `max(capacity, 32)` free slots that grows by
    /// `clamp(grow_step, 16, 512)` slots; slot 0 is at the bottom of the stack.
    pub fn new(capacity: u32, grow_step: u32) -> (r: Self)
        ensures
            r@.slots == Seq::new(max(capacity as int, 32) as nat, |i: int| None::<BarrageObject>),
            r@.free == Seq::new(max(capacity as int, 32) as nat, |i: int| i as usize),
            r@.grow_step == min(max(grow_step as int, 16), 512),
            r@.tidy(),
    {
        let cap: usize = if capacity < 32 {
            32
        } else {
            capacity as usize
        };
        let step: u32 = if grow_step < 16 {
            16
        } else if grow_step > 512 {
            512
        } else {
            grow_step
        };
        let mut objects: Vec<Option<BarrageObject>> = Vec::with_capacity(cap);
        let mut free_indices: Vec<usize> = Vec::with_capacity(cap);
        let mut i: usize = 0;
        while i < cap
            invariant
                0 <= i <= cap,
                objects@ == Seq::new(i as nat, |k: int| None::<BarrageObject>),
                free_indices@ == Seq::new(i as nat, |k: int| k as usize),
            decreases cap - i,
        {
            objects.push(None);
            free_indices.push(i);
            i = i + 1;
        }
        let pool = BarrageObjectPool { objects, free_indices, grow_step: step };
        proof {
            let v = pool@;
            assert forall|j: int| 0 <= j < v.slots.len() implies (#[trigger] v.slots[j] is None
                <==> v.free.contains(j as usize)) by {
                assert(v.free[j] == j as usize);
            }
        }
        pool
    }

    /// Hands out the slot on top of the free stack (growing first when no
    /// slot is free) and stores `obj` there; `None` when the pool can not grow.
    pub fn allocate(&mut self, obj: BarrageObject) -> (r: Option<(usize, &mut BarrageObject)>)
        requires
            old(self)@.wf(),
        ensures
            final(self)@.wf(),
            r is Some <==> old(self)@.alloc_index() is Some,
            match r {
                Some((idx, o)) => {
                    &&& Some(idx) == old(self)@.alloc_index()
                    &&& *o == obj
                    &&& final(self)@ == old(self)@.allocated(*final(o))
                },
                None => final(self)@ == old(self)@.allocated(obj),
            },
            old(self)@.tidy() ==> final(self)@.tidy(),
            old(self)@.tidy() ==> (r matches Some((i, _)) ==> old(self)@.alloc_source().slots[i as int] is None),
    {
        proof {
            if old(self)@.tidy() {
                law_allocate_keeps_tidy(old(self)@, obj);
            }
        }
        if self.free_indices.len() == 0 {
            self.grow();
        }
        match self.free_indices.pop() {
            Some(idx) => {
                let slot = &mut self.objects[idx];
                let o = slot.insert(obj);
                proof {
                    if old(self)@.tidy() {
                        law_allocate_keeps_tidy(old(self)@, *final(o));
                    }
                }
                Some((idx, o))
            },
            None => None,
        }
    }

    /// Frees slot `idx`; an out-of-range index is ignored.
    pub fn deallocate(&mut self, idx: usize)
        requires
            old(self)@.wf(),
        ensures
            final(self)@ == old(self)@.deallocated(idx),
            final(self)@.wf(),
            old(self)@.tidy() && idx < old(self)@.slots.len() && old(self)@.slots[idx as int] is Some
                ==> final(self)@.tidy(),
    {
        proof {
            if old(self)@.tidy() && idx < old(self)@.slots.len() && old(self)@.slots[idx as int] is Some {
                law_deallocate_occupied_keeps_tidy(old(self)@, idx);
            }
        }
        if idx >= self.objects.len() {
            return ;
        }
        self.objects[idx] = None;
        self.free_indices.push(idx);
        proof {
            let v = self@;
            assert forall|k: int| 0 <= k < v.free.len() implies #[trigger] v.free[k]
                < v.slots.len() by {
                if k < v.free.len() - 1 {
                    assert(v.free[k] == old(self)@.free[k]);
                }
            }
        }
    }

    /// The barrage in slot `idx`, if any.
    pub fn get_mut(&mut self, idx: usize) -> (r: Option<&mut BarrageObject>)
        ensures
            match r {
                Some(o) => {
                    &&& idx < old(self)@.slots.len()
                    &&& old(self)@.slots[idx as int] == Some(*o)
                    &&& final(self)@ == PoolView {
                        slots: old(self)@.slots.update(idx as int, Some(*final(o))),
                        ..old(self)@
                    }
                },
                None => {
                    &&& (idx >= old(self)@.slots.len() || old(self)@.slots[idx as int] is None)
                    &&& final(self)@ == old(self)@
                },
            },
    {
        if idx >= self.objects.len() {
            return None;
        }
        if self.objects[idx].is_none() {
            return None;
        }
        match &mut self.objects[idx] {
            Some(o) => Some(o),
            None => None,
        }
    }

    /// The barrage in slot `idx`, if any.
    pub fn get(&self, idx: usize) -> (r: Option<&BarrageObject>)
        ensures
            r == (if idx < self@.slots.len() {
                match self@.slots[idx as int] {
                    Some(o) => Some(&o),
                    None => None,
                }
            } else {
                None
            }),
    {
        if idx >= self.objects.len() {
            return None;
        }
        self.objects[idx].as_ref()
    }

    /// The live barrages with their slots, in increasing slot order.
    pub fn iter_alive(&self) -> (r: Vec<(usize, &BarrageObject)>)
        ensures
            r@.len() == alive_indices(self@.slots, self@.slots.len() as int).len(),
            forall|k: int|
                0 <= k < r@.len() ==> {
                    &&& (#[trigger] r@[k]).0 == alive_indices(
                        self@.slots,
                        self@.slots.len() as int,
                    )[k]
                    &&& self@.slots[r@[k].0 as int] == Some(*r@[k].1)
                },
    {
        let mut r: Vec<(usize, &BarrageObject)> = Vec::new();
        let n = self.objects.len();
        let mut i: usize = 0;
        while i < n
            invariant
                n == self@.slots.len(),
                0 <= i <= n,
                r@.len() == alive_indices(self@.slots, i as int).len(),
                forall|k: int|
                    0 <= k < r@.len() ==> {
                        &&& (#[trigger] r@[k]).0 == alive_indices(self@.slots, i as int)[k]
                        &&& self@.slots[r@[k].0 as int] == Some(*r@[k].1)
                    },
            decreases n - i,
        {
            match &self.objects[i] {
                Some(o) => {
                    if o.alive {
                        r.push((i, o));
                    }
                },
                None => {},
            }
            i = i + 1;
        }
        r
    }

    /// The slots holding a live barrage, in increasing order; each can be
    /// changed in place through `get_mut`.
    pub fn alive_slot_indices(&self) -> (r: Vec<usize>)
        ensures
            r@ == alive_indices(self@.slots, self@.slots.len() as int),
    {
        let mut r: Vec<usize> = Vec::new();
        let n = self.objects.len();
        let mut i: usize = 0;
        while i < n
            invariant
                n == self@.slots.len(),
                0 <= i <= n,
                r@ == alive_indices(self@.slots, i as int),
            decreases n - i,
        {
            match &self.objects[i] {
                Some(o) => {
                    if o.alive {
                        r.push(i);
                    }
                },
                None => {},
            }
            i = i + 1;
        }
        r
    }

    /// Frees, in increasing slot order, every slot that holds an expired barrage.
    pub fn reap_expired(&mut self)
        requires
            old(self)@.wf(),
        ensures
            final(self)@ == old(self)@.reaped(),
            final(self)@.wf(),
            old(self)@.tidy() ==> final(self)@.tidy(),
    {
        proof {
            if old(self)@.tidy() {
                law_reap_keeps_tidy(old(self)@);
            }
        }
        let mut to_remove: Vec<usize> = Vec::new();
        let n = self.objects.len();
        let mut i: usize = 0;
        while i < n
            invariant
                n == self@.slots.len(),
                0 <= i <= n,
                to_remove@ == dead_indices(self@.slots, i as int),
            decreases n - i,
        {
            match &self.objects[i] {
                Some(o) => {
                    if !o.alive {
                        to_remove.push(i);
                    }
                },
                None => {},
            }
            i = i + 1;
        }
        proof {
            lemma_dead_indices_bounds(self@.slots, n as int);
        }
        let ghost start = self@;
        let mut j: usize = 0;
        while j < to_remove.len()
            invariant
                start.wf(),
                start.slots.len() == n,
                to_remove@ == dead_indices(start.slots, n as int),
                0 <= j <= to_remove@.len(),
                forall|k: int| 0 <= k < to_remove@.len() ==> #[trigger] to_remove@[k] < n,
                self@.wf(),
                self@.grow_step == start.grow_step,
                self@.free == start.free + to_remove@.subrange(0, j as int),
                self@.slots.len() == n,
                forall|s: int|
                    0 <= s < n ==> #[trigger] self@.slots[s] == if to_remove@.subrange(
                        0,
                        j as int,
                    ).contains(s as usize) {
                        None
                    } else {
                        start.slots[s]
                    },
            decreases to_remove@.len() - j,
        {
            let idx = to_remove[j];
            self.deallocate(idx);
            proof {
                assert(to_remove@.subrange(0, j + 1) == to_remove@.subrange(0, j as int).push(
                    idx,
                ));
                assert forall|s: int| 0 <= s < n implies #[trigger] self@.slots[s] == if to_remove@.subrange(
                    0,
                    j + 1,
                ).contains(s as usize) {
                    None
                } else {
                    start.slots[s]
                } by {
                    if s == idx as int {
                        assert(to_remove@.subrange(0, j + 1)[j as int] == idx);
                    } else {
                        if to_remove@.subrange(0, j + 1).contains(s as usize) {
                            let w = choose|w: int|
                                0 <= w < j + 1 && #[trigger] to_remove@.subrange(0, j + 1)[w] == s as usize;
                            assert(to_remove@.subrange(0, j as int)[w] == s as usize);
                        }
                    }
                }
            }
            j = j + 1;
        }
        proof {
            assert(to_remove@.subrange(0, to_remove@.len() as int) == to_remove@);
            let fin = self@;
            let want = start.reaped();
            assert forall|s: int| 0 <= s < n implies #[trigger] fin.slots[s] == want.slots[s] by {
                lemma_dead_indices_member(start.slots, n as int, s);
            }
            assert(fin.slots =~= want.slots);
        }
    }

    /// Number of slots holding a live barrage.
    pub fn alive_count(&self) -> (r: usize)
        ensures
            r == self@.alive_count(),
    {
        let n = self.objects.len();
        let mut count: usize = 0;
        let mut i: usize = 0;
        while i < n
            invariant
                n == self@.slots.len(),
                0 <= i <= n,
                count == alive_in(self@.slots, i as int),
                count <= i,
            decreases n - i,
        {
            match &self.objects[i] {
                Some(o) => {
                    if o.alive {
                        count = count + 1;
                    }
                },
                None => {},
            }
            i = i + 1;
        }
        count
    }

    /// Number of slots.
    pub fn capacity(&self) -> (r: usize)
        ensures
            r == self@.slots.len(),
    {
        self.objects.len()
    }

    /// Number of entries on the free stack.
    pub fn free_count(&self) -> (r: usize)
        ensures
            r == self@.free.len(),
    {
        self.free_indices.len()
    }

    /// Adds one growth step of empty slots (never beyond 8192 slots).
    fn grow(&mut self)
        requires
            old(self)@.wf(),
        ensures
            final(self)@ == old(self)@.grown(),
            final(self)@.wf(),
    {
        let current_len = self.objects.len();
        if current_len >= POOL_GROW_LIMIT {
            return ;
        }
        let grow_size = self.grow_step as usize;
        let new_size = if current_len + grow_size < POOL_GROW_LIMIT {
            current_len + grow_size
        } else {
            POOL_GROW_LIMIT
        };
        let ghost start = self@;
        let mut i: usize = current_len;
        while i < new_size
            invariant
                current_len <= i <= new_size <= POOL_GROW_LIMIT,
                current_len == start.slots.len(),
                start.wf(),
                self@.grow_step == start.grow_step,
                self@.slots == start.slots + Seq::new(
                    (i - current_len) as nat,
                    |k: int| None::<BarrageObject>,
                ),
                self@.free == start.free + Seq::new(
                    (i - current_len) as nat,
                    |k: int| (current_len + k) as usize,
                ),
            decreases new_size - i,
        {
            self.objects.push(None);
            self.free_indices.push(i);
            proof {
                assert(self@.slots =~= start.slots + Seq::new(
                    (i + 1 - current_len) as nat,
                    |k: int| None::<BarrageObject>,
                ));
                assert(self@.free =~= start.free + Seq::new(
                    (i + 1 - current_len) as nat,
                    |k: int| (current_len + k) as usize,
                ));
            }
            i = i + 1;
        }
        proof {
            let v = self@;
            assert forall|k: int| 0 <= k < v.free.len() implies #[trigger] v.free[k]
                < v.slots.len() by {
                if k >= start.free.len() {
                    assert(v.free[k] == current_len + (k - start.free.len()));
                }
            }
        }
    }

    /// Empties every slot and makes every slot free, slot 0 at the bottom.
    pub fn clear(&mut self)
        requires
            old(self)@.wf(),
        ensures
            final(self)@ == old(self)@.cleared(),
            final(self)@.tidy(),
    {
        self.free_indices.clear();
        let cap = self.objects.len();
        let ghost start = self@;
        let mut i: usize = 0;
        while i < cap
            invariant
                cap == start.slots.len(),
                0 <= i <= cap,
                self@.grow_step == start.grow_step,
                self@.slots.len() == cap,
                forall|k: int| 0 <= k < i ==> #[trigger] self@.slots[k] is None,
                forall|k: int| i <= k < cap ==> #[trigger] self@.slots[k] == start.slots[k],
                self@.free == Seq::new(i as nat, |k: int| k as usize),
            decreases cap - i,
        {
            self.objects[i] = None;
            self.free_indices.push(i);
            i = i + 1;
        }
        proof {
            let v = self@;
            assert(v.slots =~= start.cleared().slots);
            assert forall|j: int| 0 <= j < v.slots.len() implies (#[trigger] v.slots[j] is None
                <==> v.free.contains(j as usize)) by {
                assert(v.free[j] == j as usize);
            }
        }
    }
}


/// The global alpha scales a barrage's own alpha: the alpha a barrage is
/// drawn with never exceeds the product of the two (in thousandths), and
/// before the last tenth of its life it is that product, bounded to fully
/// opaque.
pub proof fn law_alpha_is_product(alpha: u32, global_alpha: u32, progress: u32)
    requires
        progress <= 1000,
    ensures
        faded_alpha(alpha, global_alpha, progress) * 1000 <= alpha * global_alpha,
        progress <= 900 ==> faded_alpha(alpha, global_alpha, progress) == min(
            alpha * global_alpha / 1000,
            1000,
        ),
{
    let x: int = alpha * global_alpha;
    let fade: int = if progress > 900 {
        (1000 - progress) * 10
    } else {
        1000
    };
    assert(x >= 0) by (nonlinear_arith)
        requires
            x == alpha * global_alpha,
    ;
    assert((x * fade / 1_000_000) * 1000 <= x) by (nonlinear_arith)
        requires
            x >= 0,
            0 <= fade <= 1000,
    ;
    assert(x * 1000 / 1_000_000 == x / 1000) by (nonlinear_arith)
        requires
            x >= 0,
    ;
}

/// A slot freed last is the slot the next allocation hands out, and it then
/// holds the new barrage.
pub proof fn law_last_freed_slot_reused_first(v: PoolView, idx: usize, obj: BarrageObject)
    requires
        v.wf(),
        idx < v.slots.len(),
    ensures
        v.deallocated(idx).alloc_index() == Some(idx),
        v.deallocated(idx).allocated(obj).slots[idx as int] == Some(obj),
        v.deallocated(idx).allocated(obj).free == v.free,
{
    assert(v.deallocated(idx).free.drop_last() =~= v.free);
}

/// Allocation fails only when no slot is free and the pool has reached the
/// growth limit.
pub proof fn law_allocation_fails_only_when_exhausted(v: PoolView)
    requires
        v.wf(),
    ensures
        v.alloc_index() is None <==> (v.free.len() == 0 && v.slots.len() >= POOL_GROW_LIMIT),
{
}

/// Allocation keeps the pool tidy, and the slot handed out was empty.
pub proof fn law_allocate_keeps_tidy(v: PoolView, obj: BarrageObject)
    requires
        v.tidy(),
    ensures
        v.allocated(obj).tidy(),
        v.alloc_index() matches Some(i) ==> i < v.alloc_source().slots.len()
            && v.alloc_source().slots[i as int] is None,
{
    lemma_grown_keeps_tidy(v);
    let src = v.alloc_source();
    if src.free.len() > 0 {
        let top = src.free.last();
        let r = v.allocated(obj);
        assert(src.free.contains(top));
        assert(src.slots[top as int] is None);
        assert forall|a: int, b: int| 0 <= a < b < r.free.len() implies #[trigger] r.free[a]
            != #[trigger] r.free[b] by {
            assert(r.free[a] == src.free[a]);
            assert(r.free[b] == src.free[b]);
        }
        assert forall|i: int| 0 <= i < r.slots.len() implies (#[trigger] r.slots[i] is None
            <==> r.free.contains(i as usize)) by {
            if i == top as int {
                if r.free.contains(i as usize) {
                    let w = choose|w: int| 0 <= w < r.free.len() && #[trigger] r.free[w] == i as usize;
                    assert(src.free[w] == src.free[src.free.len() - 1]);
                }
            } else {
                if src.free.contains(i as usize) {
                    let w = choose|w: int| 0 <= w < src.free.len() && #[trigger] src.free[w] == i as usize;
                    assert(w != src.free.len() - 1);
                    assert(r.free[w] == i as usize);
                }
                if r.free.contains(i as usize) {
                    let w = choose|w: int| 0 <= w < r.free.len() && #[trigger] r.free[w] == i as usize;
                    assert(src.free[w] == i as usize);
                }
            }
        }
        assert forall|k: int| 0 <= k < r.free.len() implies #[trigger] r.free[k] < r.slots.len() by {
            assert(r.free[k] == src.free[k]);
        }
    }
}

/// Freeing an occupied slot keeps the pool tidy.
pub proof fn law_deallocate_occupied_keeps_tidy(v: PoolView, idx: usize)
    requires
        v.tidy(),
        idx < v.slots.len(),
        v.slots[idx as int] is Some,
    ensures
        v.deallocated(idx).tidy(),
{
    let r = v.deallocated(idx);
    assert(!v.free.contains(idx));
    assert forall|a: int, b: int| 0 <= a < b < r.free.len() implies #[trigger] r.free[a]
        != #[trigger] r.free[b] by {
        assert(r.free[a] == v.free[a]);
        if b < v.free.len() {
            assert(r.free[b] == v.free[b]);
        }
    }
    assert forall|i: int| 0 <= i < r.slots.len() implies (#[trigger] r.slots[i] is None
        <==> r.free.contains(i as usize)) by {
        if i == idx as int {
            assert(r.free[r.free.len() - 1] == idx);
        } else {
            if v.free.contains(i as usize) {
                let w = choose|w: int| 0 <= w < v.free.len() && #[trigger] v.free[w] == i as usize;
                assert(r.free[w] == i as usize);
            }
            if r.free.contains(i as usize) {
                let w = choose|w: int| 0 <= w < r.free.len() && #[trigger] r.free[w] == i as usize;
                if w < v.free.len() {
                    assert(v.free[w] == i as usize);
                }
            }
        }
    }
    assert forall|k: int| 0 <= k < r.free.len() implies #[trigger] r.free[k] < r.slots.len() by {
        if k < v.free.len() {
            assert(r.free[k] == v.free[k]);
        }
    }
}

/// Reaping keeps the pool tidy: the freed slots were occupied, each is
/// freed once and none was free before.
pub proof fn law_reap_keeps_tidy(v: PoolView)
    requires
        v.tidy(),
    ensures
        v.reaped().tidy(),
{
    let n = v.slots.len() as int;
    let d = dead_indices(v.slots, n);
    let vl = v.free.len() as int;
    lemma_dead_indices_bounds(v.slots, n);
    let r = v.reaped();
    assert(r.free == v.free + d);
    assert forall|k: int| 0 <= k < r.free.len() implies #[trigger] r.free[k] < r.slots.len() by {
        if k < vl {
            assert(r.free[k] == v.free[k]);
        } else {
            assert(r.free[k] == d[k - vl]);
        }
    }
    assert forall|a: int, b: int| 0 <= a < b < r.free.len() implies #[trigger] r.free[a]
        != #[trigger] r.free[b] by {
        if b < vl {
            assert(r.free[a] == v.free[a]);
            assert(r.free[b] == v.free[b]);
        } else if a >= vl {
            assert(r.free[a] == d[a - vl]);
            assert(r.free[b] == d[b - vl]);
        } else {
            let sb = d[b - vl];
            assert(r.free[b] == sb);
            assert(r.free[a] == v.free[a]);
            lemma_dead_indices_member(v.slots, n, sb as int);
            assert(d.contains(sb)) by {
                assert(d[b - vl] == sb);
            }
            if v.free[a] == sb {
                assert(v.free.contains(sb));
                assert(v.slots[sb as int] is None);
            }
        }
    }
    assert forall|i: int| 0 <= i < r.slots.len() implies (#[trigger] r.slots[i] is None
        <==> r.free.contains(i as usize)) by {
        lemma_dead_indices_member(v.slots, n, i);
        if v.free.contains(i as usize) {
            let w = choose|w: int| 0 <= w < v.free.len() && #[trigger] v.free[w] == i as usize;
            assert(r.free[w] == i as usize);
        }
        if d.contains(i as usize) {
            let w = choose|w: int| 0 <= w < d.len() && #[trigger] d[w] == i as usize;
            assert(r.free[vl + w] == i as usize);
        }
        if r.free.contains(i as usize) {
            let w = choose|w: int| 0 <= w < r.free.len() && #[trigger] r.free[w] == i as usize;
            if w < vl {
                assert(v.free[w] == i as usize);
                assert(v.free.contains(i as usize));
            } else {
                assert(d[w - vl] == i as usize);
                assert(d.contains(i as usize));
            }
        }
    }
}

/// What an allocation does to a tidy pool: with no free slot at the growth
/// limit it changes nothing; otherwise the slot handed out was empty and
/// now holds `obj`, the pool grew by one step only when no slot was free,
/// one free slot was used and every other slot is unchanged.
pub proof fn law_allocate_outcome(v: PoolView, obj: BarrageObject)
    requires
        v.tidy(),
    ensures
        v.alloc_index() is None <==> (v.free.len() == 0 && v.slots.len() >= POOL_GROW_LIMIT),
        v.alloc_index() is None ==> v.allocated(obj) == v,
        v.alloc_index() matches Some(i) ==> {
            let c = v.slots.len();
            let c2 = if v.free.len() == 0 {
                min((c + v.grow_step) as int, POOL_GROW_LIMIT as int)
            } else {
                c as int
            };
            let w = v.allocated(obj);
            &&& i < w.slots.len()
            &&& (i < c ==> v.slots[i as int] is None)
            &&& w.slots[i as int] == Some(obj)
            &&& w.slots.len() == c2
            &&& w.free.len() == v.free.len() - 1 + c2 - c
            &&& forall|j: int| 0 <= j < c && j != i ==> #[trigger] w.slots[j] == v.slots[j]
        },
{
    law_allocate_keeps_tidy(v, obj);
    let src = v.alloc_source();
    if src.free.len() > 0 {
        let i = src.free.last();
        if i < v.slots.len() {
            assert(src.slots[i as int] == v.slots[i as int]);
        }
        assert forall|j: int| 0 <= j < v.slots.len() && j != i implies #[trigger] v.allocated(obj).slots[j]
            == v.slots[j] by {
            assert(src.slots[j] == v.slots[j]);
        }
    }
}

/// Growth keeps the pool tidy.
pub proof fn lemma_grown_keeps_tidy(v: PoolView)
    requires
        v.tidy(),
    ensures
        v.grown().tidy(),
        v.alloc_source().tidy(),
{
    let len = v.slots.len();
    if len < POOL_GROW_LIMIT {
        let r = v.grown();
        assert forall|k: int| 0 <= k < r.free.len() implies #[trigger] r.free[k] < r.slots.len() by {
            if k < v.free.len() {
                assert(r.free[k] == v.free[k]);
            }
        }
        assert forall|a: int, b: int| 0 <= a < b < r.free.len() implies #[trigger] r.free[a]
            != #[trigger] r.free[b] by {
            if b < v.free.len() {
                assert(r.free[a] == v.free[a]);
                assert(r.free[b] == v.free[b]);
            } else if a < v.free.len() {
                assert(r.free[a] == v.free[a]);
            }
        }
        assert forall|i: int| 0 <= i < r.slots.len() implies (#[trigger] r.slots[i] is None
            <==> r.free.contains(i as usize)) by {
            if i < len {
                assert(r.slots[i] == v.slots[i]);
                if v.free.contains(i as usize) {
                    let w = choose|w: int| 0 <= w < v.free.len() && #[trigger] v.free[w] == i as usize;
                    assert(r.free[w] == i as usize);
                }
                if r.free.contains(i as usize) {
                    let w = choose|w: int| 0 <= w < r.free.len() && #[trigger] r.free[w] == i as usize;
                    if w < v.free.len() {
                        assert(v.free[w] == i as usize);
                    }
                }
            } else {
                let w = v.free.len() + (i - len);
                assert(r.free[w] == i as usize);
            }
        }
    }
}

/// After `clear` every slot is free and no barrage is alive.
pub proof fn law_cleared_pool_is_empty(v: PoolView)
    requires
        v.wf(),
    ensures
        v.cleared().tidy(),
        v.cleared().free.len() == v.slots.len(),
        v.cleared().alive_count() == 0,
{
    let r = v.cleared();
    assert forall|i: int| 0 <= i < r.slots.len() implies (#[trigger] r.slots[i] is None
        <==> r.free.contains(i as usize)) by {
        assert(r.free[i] == i as usize);
    }
    lemma_no_alive_in_empty(r.slots, r.slots.len() as int);
}

proof fn lemma_no_alive_in_empty(slots: Seq<Option<BarrageObject>>, n: int)
    requires
        0 <= n <= slots.len(),
        forall|i: int| 0 <= i < slots.len() ==> #[trigger] slots[i] is None,
    ensures
        alive_in(slots, n) == 0,
    decreases n,
{
    if n > 0 {
        lemma_no_alive_in_empty(slots, n - 1);
    }
}

/// Freeing the slot of a live barrage lowers the live count by one; freeing
/// any other slot leaves it unchanged.
pub proof fn law_deallocate_alive_count(v: PoolView, idx: usize)
    requires
        v.wf(),
    ensures
        v.deallocated(idx).alive_count() == if idx < v.slots.len() && slot_alive(
            v.slots[idx as int],
        ) {
            v.alive_count() - 1
        } else {
            v.alive_count() as int
        },
{
    if idx < v.slots.len() {
        lemma_alive_in_update(v.slots, idx as int, None, v.slots.len() as int);
    }
}

proof fn lemma_alive_in_update(
    slots: Seq<Option<BarrageObject>>,
    idx: int,
    s: Option<BarrageObject>,
    n: int,
)
    requires
        0 <= idx < slots.len(),
        0 <= n <= slots.len(),
    ensures
        alive_in(slots.update(idx, s), n) == alive_in(slots, n) + if idx < n {
            (if slot_alive(s) {
                1int
            } else {
                0int
            }) - (if slot_alive(slots[idx]) {
                1int
            } else {
                0int
            })
        } else {
            0int
        },
    decreases n,
{
    if n > 0 {
        lemma_alive_in_update(slots, idx, s, n - 1);
    }
}

proof fn lemma_dead_indices_bounds(slots: Seq<Option<BarrageObject>>, n: int)
    requires
        0 <= n <= slots.len(),
        n <= usize::MAX,
    ensures
        forall|k: int|
            0 <= k < dead_indices(slots, n).len() ==> #[trigger] dead_indices(slots, n)[k] < n,
        forall|a: int, b: int|
            0 <= a < b < dead_indices(slots, n).len() ==> #[trigger] dead_indices(slots, n)[a]
                < #[trigger] dead_indices(slots, n)[b],
    decreases n,
{
    if n > 0 {
        lemma_dead_indices_bounds(slots, n - 1);
        let prev = dead_indices(slots, n - 1);
        let cur = dead_indices(slots, n);
        if slot_dead(slots[n - 1]) {
            assert(cur == prev.push((n - 1) as usize));
            assert forall|k: int| 0 <= k < cur.len() implies #[trigger] cur[k] < n by {
                if k < prev.len() {
                    assert(cur[k] == prev[k]);
                }
            }
            assert forall|a: int, b: int| 0 <= a < b < cur.len() implies #[trigger] cur[a]
                < #[trigger] cur[b] by {
                assert(cur[a] == prev[a]);
                if b < prev.len() {
                    assert(cur[b] == prev[b]);
                }
            }
        } else {
            assert(cur == prev);
        }
    }
}

proof fn lemma_dead_indices_member(slots: Seq<Option<BarrageObject>>, n: int, s: int)
    requires
        0 <= n <= slots.len(),
        n <= usize::MAX,
        0 <= s < n,
    ensures
        dead_indices(slots, n).contains(s as usize) <==> slot_dead(slots[s]),
    decreases n,
{
    lemma_dead_indices_bounds(slots, n);
    if s < n - 1 {
        lemma_dead_indices_member(slots, n - 1, s);
        lemma_dead_indices_bounds(slots, n - 1);
        if dead_indices(slots, n).contains(s as usize) {
            let w = choose|w: int|
                0 <= w < dead_indices(slots, n).len() && #[trigger] dead_indices(slots, n)[w] == s as usize;
            if slot_dead(slots[n - 1]) && w == dead_indices(slots, n).len() - 1 {
                assert(dead_indices(slots, n)[w] == (n - 1) as usize);
            } else {
                assert(dead_indices(slots, n - 1)[w] == s as usize);
            }
        }
        if dead_indices(slots, n - 1).contains(s as usize) {
            let w = choose|w: int|
                0 <= w < dead_indices(slots, n - 1).len() && #[trigger] dead_indices(slots, n - 1)[w]
                    == s as usize;
            assert(dead_indices(slots, n)[w] == s as usize);
        }
    } else {
        if slot_dead(slots[s]) {
            assert(dead_indices(slots, n).last() == s as usize);
        } else {
            if dead_indices(slots, n).contains(s as usize) {
                let w = choose|w: int|
                    0 <= w < dead_indices(slots, n).len() && #[trigger] dead_indices(slots, n)[w]
                        == s as usize;
                lemma_dead_indices_bounds(slots, n - 1);
                assert(dead_indices(slots, n - 1)[w] < n - 1);
            }
        }
    }
}

} // verus!
