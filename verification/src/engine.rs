//! The engine: a timeline, tracks, an object pool, a filter, an emoji
//! manager and a renderer driven together. Barrages sent to the engine wait
//! in a `crossbeam` channel and are taken in, oldest first, filtered and
//! placed on the first track at the next update.
use vstd::prelude::*;

use std::sync::Arc;

use crossbeam::channel::{Receiver, Sender};

use crate::barrage::{slot_alive, POOL_GROW_LIMIT, BarrageObject, BarrageObjectPool, EmojiSegment, PoolView};
use crate::config::{BarrageFilterConfig, BarrageGlobalConfig, BarrageTrackConfig, TextEffectConfig, TrackMode, used_track_configs};
use crate::emoji::{BitmapView, EmojiManager, EmojiView};
use crate::filter::{adjusted, decision, FilterEngine, FilterResult, FilterView};
use crate::math::{max, min};
use crate::renderer::{frame_drawn, RenderOptions, Renderer, RendererView};
use crate::timeline::{engine_delta, TimelineController, TimelineView};
use crate::track::{
    ages_fit, all_alive, barrage_added, configured_layout, frame, emptied, lemma_freed_tracks_shape, tied,
    holds_slot, law_frame_keeps_tracks_tied,
    lemma_allocated_tied, law_add_keeps_tied, law_frame_keeps_tied,
    lemma_dealloc_keeps_ages, placed, pool_with_placed, uniform_layout, TrackManager, TrackManagerView, TrackView,
    AGE_ROOM,
};

verus! {

/// A barrage sent to the engine.
pub struct BarrageMessage {
    pub text: String,
    pub segments: Vec<EmojiSegment>,
    pub track_type: TrackMode,
    pub color_rgba: u32,
    pub font_size: u32,
    /// Alpha in thousandths.
    pub alpha: u32,
    pub duration_ms: u32,
    /// Own effects (`None`: the global ones).
    pub effect_config: Option<Arc<TextEffectConfig>>,
}

/// Statistics of the engine.
#[derive(Debug, Clone, Copy, PartialEq, Eq, Structural)]
pub struct EngineStats {
    pub engine_time_ms: u64,
    /// Playback speed in thousandths.
    pub speed: u32,
    pub paused: bool,
    pub alive_barrages: u32,
    pub pool_capacity: u32,
    pub pool_free: u32,
    pub emoji_cache_entries: u32,
    pub emoji_cache_bytes: u64,
    pub last_render_count: u32,
    pub render_time_us: u64,
}

/// The barrages sent to the engine and not yet taken in: both ends of an
/// unbounded `crossbeam` channel. The ends never leave this type, so the
/// messages posted through it are the only ones the channel holds.
#[verifier::external_body]
pub struct MessageQueue {
    tx: Sender<BarrageMessage>,
    rx: Receiver<BarrageMessage>,
}

/// The messages waiting in `q`, oldest first.
pub uninterp spec fn waiting(q: MessageQueue) -> Seq<BarrageMessage>;

/// Calls `crossbeam::channel::unbounded`: a new channel without a bound,
/// holding no message.
#[verifier::external_body]
fn open_queue() -> (r: MessageQueue)
    ensures
        waiting(r) == Seq::<BarrageMessage>::empty(),
{
    let (tx, rx) = crossbeam::channel::unbounded();
    MessageQueue { tx, rx }
}

/// Calls `Sender::send`: `m` joins the end of the queue (an unbounded
/// channel whose receiver is alive takes every message).
#[verifier::external_body]
fn post(q: &mut MessageQueue, m: BarrageMessage)
    ensures
        waiting(*final(q)) == waiting(*old(q)).push(m),
{
    let _sent = q.tx.send(m);
}

/// Calls `Receiver::try_iter` and collects: every waiting message, oldest
/// first; the queue is then empty.
#[verifier::external_body]
fn drain(q: &mut MessageQueue) -> (v: Vec<BarrageMessage>)
    ensures
        v@ == waiting(*old(q)),
        waiting(*final(q)) == Seq::<BarrageMessage>::empty(),
{
    q.rx.try_iter().collect()
}

/// Calls `Arc::clone`: another handle to the same configuration.
#[verifier::external_body]
fn share_effect(e: &Arc<TextEffectConfig>) -> (r: Arc<TextEffectConfig>)
    ensures
        r == *e,
{
    Arc::clone(e)
}

/// The abstract state of the engine.
pub struct CoreView {
    pub tracks: TrackManagerView,
    pub pool: PoolView,
    pub timeline: TimelineView,
    pub filter: FilterView,
    pub emoji: EmojiView,
    pub renderer: RendererView,
    pub global_config: BarrageGlobalConfig,
    pub global_effect: Option<Arc<TextEffectConfig>>,
    pub next_id: u64,
    pub render_options: RenderOptions,
    /// Messages sent and not yet taken in, oldest first.
    pub inbox: Seq<BarrageMessage>,
}

/// The longest frame `update` accepts, in milliseconds.
pub const MAX_FRAME_MS: u64 = 0x3FFF_FFFF_C000_0000;

impl CoreView {
    /// The engine with its waiting messages taken out of the queue.
    pub open spec fn inbox_taken(self) -> CoreView {
        CoreView { inbox: Seq::empty(), ..self }
    }

    /// The parts are well formed, the tracks are tied to the pool (see
    /// `tied`) and every live barrage is younger than `u32::MAX`
    /// milliseconds.
    pub open spec fn wf(self) -> bool {
        &&& self.pool.wf()
        &&& tied(self.tracks.tracks, self.pool)
        &&& ages_fit(self.pool.slots, AGE_ROOM)
        &&& self.timeline.wf()
        &&& self.emoji.wf()
        &&& self.renderer.wf()
    }
}

/// Whether a message passes the filter (its duration raised to 100 ms, as
/// the barrage made from it will have).
pub open spec fn message_passes(f: FilterView, m: BarrageMessage) -> bool {
    decision(f, m.track_type, max(m.duration_ms as int, 100) as u32, m.text@) == FilterResult::Pass
}

/// Whether `b` is the barrage made from `m` at engine time `now` with the
/// next id.
pub open spec fn made_from(v: CoreView, m: BarrageMessage, b: BarrageObject, now: u64) -> bool {
    BarrageObject::fresh(
        v.next_id,
        m.text@,
        m.segments@,
        m.effect_config,
        m.track_type,
        0,
        m.color_rgba,
        m.font_size,
        m.alpha,
        m.duration_ms,
        now,
        b,
    )
}

/// The id after `id`.
pub open spec fn next_of(id: u64) -> u64 {
    if id == u64::MAX {
        0
    } else {
        (id + 1) as u64
    }
}

/// The engine after taking in message `m` as barrage `b` at `now`: a
/// filtered message is dropped; else the barrage takes the next id, gets
/// the global adjustments in a pool slot and goes to the first track (a
/// full pool drops it).
pub open spec fn message_taken(v: CoreView, m: BarrageMessage, b: BarrageObject, now: u64) -> CoreView {
    if !message_passes(v.filter, m) {
        v
    } else {
        let b2 = adjusted(v.filter.config, b);
        let pool1 = v.pool.allocated(b2);
        let v1 = CoreView { pool: pool1, next_id: next_of(v.next_id), ..v };
        match v.pool.alloc_index() {
            Some(idx) => {
                let (tm, p, _ok) = barrage_added(v.tracks, pool1, idx, 0, now);
                CoreView { tracks: tm, pool: p, ..v1 }
            },
            None => v1,
        }
    }
}

/// The engine after taking in the first `n` messages.
pub open spec fn messages_taken(
    v: CoreView,
    msgs: Seq<BarrageMessage>,
    objs: Seq<BarrageObject>,
    n: int,
    now: u64,
) -> CoreView
    decreases n,
{
    if n <= 0 {
        v
    } else {
        message_taken(messages_taken(v, msgs, objs, n - 1, now), msgs[n - 1], objs[n - 1], now)
    }
}

/// Whether each of the first `n` messages that passes the filter was made
/// into the matching barrage of `objs`.
pub open spec fn all_made(
    v: CoreView,
    msgs: Seq<BarrageMessage>,
    objs: Seq<BarrageObject>,
    n: int,
    now: u64,
) -> bool
    decreases n,
{
    if n <= 0 {
        true
    } else {
        let w = messages_taken(v, msgs, objs, n - 1, now);
        &&& all_made(v, msgs, objs, n - 1, now)
        &&& (message_passes(w.filter, msgs[n - 1]) ==> made_from(w, msgs[n - 1], objs[n - 1], now))
    }
}

/// The engine after a frame of `delta_ms` wall milliseconds taking in
/// `msgs` (made into `objs`): the timeline plays the frame; the messages
/// are taken in at the new engine time; the tracks advance by the engine
/// time played, which already holds the playback speed (nothing while
/// paused); expired barrages leave the pool.
pub open spec fn stepped(
    v: CoreView,
    delta_ms: u64,
    msgs: Seq<BarrageMessage>,
    objs: Seq<BarrageObject>,
) -> CoreView {
    let eff: u64 = if v.timeline.paused {
        0
    } else {
        engine_delta(delta_ms, v.timeline.speed)
    };
    let tl = v.timeline.advanced(delta_ms);
    let now = tl.engine_time_ms;
    let v2 = messages_taken(CoreView { timeline: tl, ..v }, msgs, objs, msgs.len() as int, now);
    let (ts, p) = frame(
        v2.tracks.tracks,
        v2.pool,
        v2.tracks.tracks.len() as int,
        v2.tracks.canvas_width,
        eff,
        1000,
    );
    CoreView { tracks: TrackManagerView { tracks: ts, ..v2.tracks }, pool: p.reaped(), ..v2 }
}

/// The tracks the engine starts with for a validated configuration.
pub open spec fn initial_tracks(g: BarrageGlobalConfig) -> TrackManagerView {
    let n = used_track_configs(g.track_configs_len, g.track_configs@.len());
    if n > 0 {
        configured_layout(
            g.track_configs@.take(n as int).map_values(|c: BarrageTrackConfig| c.validated()),
            g.canvas_width,
            g.canvas_height,
            g.allow_overlap,
        )
    } else {
        uniform_layout(g.track_count, g.canvas_width, g.canvas_height, g.allow_overlap, 40, 10, 200_000)
    }
}

/// Whether `m` is the text barrage message made of these arguments: no
/// emoji segments, the alpha (thousandths) bounded to 1000, every other field
/// as given.
pub open spec fn is_text_message(
    m: BarrageMessage,
    text: Seq<char>,
    track_type: TrackMode,
    color_rgba: u32,
    font_size: u32,
    alpha: u32,
    duration_ms: u32,
    effect_config: Option<Arc<TextEffectConfig>>,
) -> bool {
    &&& m.text@ == text
    &&& m.segments@.len() == 0
    &&& m.track_type == track_type
    &&& m.color_rgba == color_rgba
    &&& m.font_size == font_size
    &&& m.alpha == min(alpha as int, 1000)
    &&& m.duration_ms == duration_ms
    &&& m.effect_config == effect_config
}

/// A text barrage message: no emoji segments, the alpha (thousandths)
/// bounded to 1000, every other field as given.
pub fn barrage_message(
    text: &str,
    track_type: TrackMode,
    color_rgba: u32,
    font_size: u32,
    alpha: u32,
    duration_ms: u32,
    effect_config: Option<Arc<TextEffectConfig>>,
) -> (m: BarrageMessage)
    ensures
        is_text_message(m, text@, track_type, color_rgba, font_size, alpha, duration_ms, effect_config),
{
    BarrageMessage {
        text: text.to_owned(),
        segments: Vec::new(),
        track_type,
        color_rgba,
        font_size,
        alpha: if alpha > 1000 {
            1000
        } else {
            alpha
        },
        duration_ms,
        effect_config,
    }
}

/// The engine.
pub struct BarrageCore {
    track_manager: TrackManager,
    timeline: TimelineController,
    filter: FilterEngine,
    emoji_manager: EmojiManager,
    renderer: Renderer,
    pool: BarrageObjectPool,
    inbox: MessageQueue,
    global_config: BarrageGlobalConfig,
    global_effect: Option<Arc<TextEffectConfig>>,
    next_id: u64,
    render_options: RenderOptions,
}

impl View for BarrageCore {
    type V = CoreView;

    closed spec fn view(&self) -> CoreView {
        CoreView {
            tracks: self.track_manager@,
            pool: self.pool@,
            timeline: self.timeline@,
            filter: self.filter@,
            emoji: self.emoji_manager@,
            renderer: self.renderer@,
            global_config: self.global_config,
            global_effect: self.global_effect,
            next_id: self.next_id,
            render_options: self.render_options,
            inbox: waiting(self.inbox),
        }
    }
}

impl BarrageCore {
    /// An engine for `config`, validated first: its tracks (the per-track
    /// settings when given, else uniform tracks 40 pixels high scrolling at
    /// 200 pixels per second), timeline, default filter and emoji cache,
    /// renderer and object pool.
    pub fn new(config: BarrageGlobalConfig) -> (r: Self)
        ensures
            r@.wf(),
            config.is_validated_from(r@.global_config),
            r@.tracks == initial_tracks(r@.global_config),
            r@.pool == (PoolView {
                slots: Seq::new(
                    max(r@.global_config.pool_capacity as int, 32) as nat,
                    |i: int| None::<BarrageObject>,
                ),
                free: Seq::new(
                    max(r@.global_config.pool_capacity as int, 32) as nat,
                    |i: int| i as usize,
                ),
                grow_step: min(max(r@.global_config.pool_grow_step as int, 16), 512) as nat,
            }),
            r@.timeline == TimelineView::initial(),
            r@.filter.config == BarrageFilterConfig::default_spec(),
            r@.filter.keywords.len() == 0,
            r@.emoji.entries.len() == 0,
            r@.emoji.capacity == 256,
            r@.emoji.registry.len() == 0,
            r@.emoji.total_bytes == 0,
            r@.emoji.max_total_bytes == 64 * 1024 * 1024,
            r@.emoji.max_bitmap_bytes == 4 * 1024 * 1024,
            r@.renderer.width == r@.global_config.canvas_width,
            r@.renderer.height == r@.global_config.canvas_height,
            r@.renderer.frame == Seq::new(
                (r@.global_config.canvas_width * r@.global_config.canvas_height * 4) as nat,
                |k: int| 0u8,
            ),
            r@.renderer.options == RenderOptions::default_spec(),
            r@.renderer.global_effect is None,
            r@.global_effect is None,
            r@.next_id == 1,
            r@.render_options == RenderOptions::default_spec(),
            r@.inbox.len() == 0,
    {
        let mut g = config;
        g.validate();
        let inbox = open_queue();
        let len: usize = if g.track_configs_len > 100 {
            100
        } else {
            g.track_configs_len as usize
        };
        let n: usize = if len < g.track_configs.len() {
            len
        } else {
            g.track_configs.len()
        };
        let track_manager = if n > 0 {
            let mut configs: Vec<BarrageTrackConfig> = Vec::new();
            let mut i: usize = 0;
            while i < n
                invariant
                    0 <= i <= n,
                    n <= g.track_configs@.len(),
                    configs@ == g.track_configs@.take(i as int).map_values(
                        |c: BarrageTrackConfig| c.validated(),
                    ),
                decreases n - i,
            {
                let mut c = g.track_configs[i];
                c.validate();
                configs.push(c);
                i = i + 1;
                assert(configs@ =~= g.track_configs@.take(i as int).map_values(
                    |c: BarrageTrackConfig| c.validated(),
                ));
            }
            TrackManager::new_with_configs(
                configs.as_slice(),
                g.canvas_width,
                g.canvas_height,
                g.allow_overlap,
            )
        } else {
            TrackManager::new(g.track_count, g.canvas_width, g.canvas_height, g.allow_overlap, 40, 10, 200_000)
        };
        assert(g.canvas_width * g.canvas_height * 4 <= 7680 * 4320 * 4) by (nonlinear_arith)
            requires
                g.canvas_width <= 7680,
                g.canvas_height <= 4320,
        ;
        let renderer = Renderer::new(g.canvas_width, g.canvas_height);
        let pool = BarrageObjectPool::new(g.pool_capacity, g.pool_grow_step);
        let r = BarrageCore {
            track_manager,
            timeline: TimelineController::new(),
            filter: FilterEngine::with_default_config(),
            emoji_manager: EmojiManager::with_default_config(),
            renderer,
            pool,
            inbox,
            global_config: g,
            global_effect: None,
            next_id: 1,
            render_options: RenderOptions::default(),
        };
        assert(ages_fit(r@.pool.slots, AGE_ROOM));
        r
    }

    /// An engine with the default configuration: a 1920x1080 canvas with 20
    /// uniform tracks, a pool of 256 free slots growing by 64, the default
    /// filter and an empty emoji cache.
    pub fn with_default_config() -> (r: Self)
        ensures
            r@.wf(),
            r@.global_config.canvas_width == 1920,
            r@.global_config.canvas_height == 1080,
            r@.global_config.track_count == 20,
            r@.global_config.default_duration_ms == 5000,
            r@.global_config.default_font_size == 28,
            r@.global_config.default_color_rgba == 0xFFFFFFFF,
            r@.global_config.default_alpha == 1000,
            !r@.global_config.allow_overlap,
            r@.global_config.pool_capacity == 256,
            r@.global_config.pool_grow_step == 64,
            r@.global_config.track_configs@.len() == 0,
            r@.global_config.track_configs_len == 0,
            r@.tracks == uniform_layout(20, 1920, 1080, false, 40, 10, 200_000),
            r@.pool == (PoolView {
                slots: Seq::new(256, |i: int| None::<BarrageObject>),
                free: Seq::new(256, |i: int| i as usize),
                grow_step: 64,
            }),
            r@.timeline == TimelineView::initial(),
            r@.filter.config == BarrageFilterConfig::default_spec(),
            r@.filter.keywords.len() == 0,
            r@.emoji.entries.len() == 0,
            r@.emoji.capacity == 256,
            r@.emoji.registry.len() == 0,
            r@.emoji.total_bytes == 0,
            r@.emoji.max_total_bytes == 64 * 1024 * 1024,
            r@.emoji.max_bitmap_bytes == 4 * 1024 * 1024,
            r@.renderer.width == 1920,
            r@.renderer.height == 1080,
            r@.renderer.frame == Seq::new(1920 * 1080 * 4, |k: int| 0u8),
            r@.renderer.options == RenderOptions::default_spec(),
            r@.renderer.global_effect is None,
            r@.global_effect is None,
            r@.next_id == 1,
            r@.render_options == RenderOptions::default_spec(),
            r@.inbox.len() == 0,
    {
        let r = Self::new(BarrageGlobalConfig::default());
        assert(r@.pool.slots =~= Seq::new(256, |i: int| None::<BarrageObject>));
        assert(r@.pool.free =~= Seq::new(256, |i: int| i as usize));
        r
    }

    /// Queues a barrage for the next update.
    pub fn add_barrage(&mut self, msg: BarrageMessage)
        ensures
            final(self)@ == (CoreView { inbox: old(self)@.inbox.push(msg), ..old(self)@ }),
    {
        post(&mut self.inbox, msg);
    }

    /// Queues a text barrage: the message `barrage_message` builds from the
    /// arguments.
    pub fn send_barrage(
        &mut self,
        text: &str,
        track_type: TrackMode,
        color_rgba: u32,
        font_size: u32,
        alpha: u32,
        duration_ms: u32,
        effect_config: Option<Arc<TextEffectConfig>>,
    )
        ensures
            final(self)@ == (CoreView { inbox: final(self)@.inbox, ..old(self)@ }),
            final(self)@.inbox.drop_last() == old(self)@.inbox,
            final(self)@.inbox.len() == old(self)@.inbox.len() + 1,
            is_text_message(
                final(self)@.inbox.last(),
                text@,
                track_type,
                color_rgba,
                font_size,
                alpha,
                duration_ms,
                effect_config,
            ),
    {
        let m = barrage_message(text, track_type, color_rgba, font_size, alpha, duration_ms, effect_config);
        self.add_barrage(m);
        assert(self@.inbox.drop_last() =~= old(self)@.inbox);
    }

    /// Whether `update` accepts a frame of `delta_ms` wall milliseconds: at
    /// most `MAX_FRAME_MS`, and no time counter overflows.
    pub fn frame_accepted(&self, delta_ms: u64) -> (r: bool)
        requires
            self@.wf(),
        ensures
            r == (self@.timeline.can_advance(delta_ms) && delta_ms <= MAX_FRAME_MS),
    {
        delta_ms <= MAX_FRAME_MS && self.timeline.can_advance_by(delta_ms)
    }

    /// Plays a frame of `delta_ms` wall milliseconds, taking in every queued
    /// barrage, oldest first, and emptying the queue: see `stepped`.
    pub fn update(&mut self, delta_ms: u64)
        requires
            old(self)@.wf(),
            old(self)@.timeline.can_advance(delta_ms),
            delta_ms <= MAX_FRAME_MS,
        ensures
            final(self)@.wf(),
            final(self)@.inbox.len() == 0,
            exists|objs: Seq<BarrageObject>|
                {
                    &&& objs.len() == old(self)@.inbox.len()
                    &&& all_made(
                        CoreView {
                            timeline: old(self)@.timeline.advanced(delta_ms),
                            ..old(self)@.inbox_taken()
                        },
                        old(self)@.inbox,
                        objs,
                        old(self)@.inbox.len() as int,
                        old(self)@.timeline.advanced(delta_ms).engine_time_ms,
                    )
                    &&& final(self)@ == #[trigger] stepped(
                        old(self)@.inbox_taken(),
                        delta_ms,
                        old(self)@.inbox,
                        objs,
                    )
                },
    {
        let messages = drain(&mut self.inbox);
        assert(self@ == old(self)@.inbox_taken());
        let ghost mid = self@;
        let ghost msgs = messages@;
        self.update_with(delta_ms, messages);
        proof {
            let objs = choose|objs: Seq<BarrageObject>|
                {
                    let tl = mid.timeline.advanced(delta_ms);
                    let v1 = CoreView { timeline: tl, ..mid };
                    &&& objs.len() == msgs.len()
                    &&& all_made(v1, msgs, objs, msgs.len() as int, tl.engine_time_ms)
                    &&& self@ == #[trigger] stepped(mid, delta_ms, msgs, objs)
                };
            assert(self@ == stepped(old(self)@.inbox_taken(), delta_ms, old(self)@.inbox, objs));
        }
    }

    /// Plays a frame of `delta_ms` wall milliseconds, taking in `messages`:
    /// see `stepped`.
    pub fn update_with(&mut self, delta_ms: u64, messages: Vec<BarrageMessage>)
        requires
            old(self)@.wf(),
            old(self)@.timeline.can_advance(delta_ms),
            delta_ms <= MAX_FRAME_MS,
        ensures
            final(self)@.wf(),
            final(self)@.inbox == old(self)@.inbox,
            exists|objs: Seq<BarrageObject>|
                {
                    let tl = old(self)@.timeline.advanced(delta_ms);
                    let v1 = CoreView { timeline: tl, ..old(self)@ };
                    &&& objs.len() == messages@.len()
                    &&& all_made(v1, messages@, objs, messages@.len() as int, tl.engine_time_ms)
                    &&& final(self)@ == #[trigger] stepped(old(self)@, delta_ms, messages@, objs)
                },
    {
        let ghost msgs = messages@;
        let total = messages.len();
        let effective = self.timeline.advance_by(delta_ms);
        let now = self.timeline.engine_time_ms();
        let ghost v1 = self@;
        let mut pending = messages;
        let mut rev: Vec<BarrageMessage> = Vec::new();
        proof {
            assert(msgs.subrange(msgs.len() as int, msgs.len() as int).reverse() =~= rev@);
            assert(msgs.subrange(0, msgs.len() as int) =~= pending@);
        }
        while pending.len() > 0
            invariant
                pending@.len() <= msgs.len(),
                pending@ == msgs.subrange(0, pending@.len() as int),
                rev@ == msgs.subrange(pending@.len() as int, msgs.len() as int).reverse(),
            decreases pending@.len(),
        {
            let ghost p = pending@.len() as int;
            match pending.pop() {
                Some(m) => {
                    rev.push(m);
                    proof {
                        assert(pending@ =~= msgs.subrange(0, p - 1));
                        assert(rev@ =~= msgs.subrange(p - 1, msgs.len() as int).reverse());
                    }
                },
                None => {},
            }
        }
        let ghost mut objs: Seq<BarrageObject> = Seq::empty();
        let mut k: usize = 0;
        while rev.len() > 0
            invariant
                0 <= k <= msgs.len(),
                msgs.len() == total,
                rev@ == msgs.subrange(k as int, msgs.len() as int).reverse(),
                objs.len() == k,
                self@.wf(),
                self@ == messages_taken(v1, msgs, objs, k as int, now),
                all_made(v1, msgs, objs, k as int, now),
                self@.timeline == v1.timeline,
                self@.tracks.canvas_width == v1.tracks.canvas_width,
                self@.inbox == v1.inbox,
            decreases rev@.len(),
        {
            let ghost r0 = rev@;
            match rev.pop() {
                Some(m) => {
                    proof {
                        assert(m == msgs[k as int]);
                        assert(rev@ =~= msgs.subrange(k + 1, msgs.len() as int).reverse());
                    }
                    let b = self.take_message(m, now);
                    proof {
                        lemma_taken_prefix(v1, msgs, objs, b@, k as int, now);
                        objs = objs.push(b@);
                    }
                    k = k + 1;
                },
                None => {},
            }
        }
        proof {
            assert(msgs.subrange(k as int, msgs.len() as int).reverse().len() == 0);
            assert(k == msgs.len());
            lemma_engine_delta_bound(delta_ms, old(self)@.timeline.speed);
        }
        let ghost v2 = self@;
        self.advance_tracks(effective, 1000, now);
        let ghost p3 = self@.pool;
        self.pool.reap_expired();
        proof {
            lemma_reaped_keeps_ages(p3);
            assert(self@ == stepped(old(self)@, delta_ms, msgs, objs));
        }
    }

    /// Moves the tracks by `effective` engine milliseconds.
    fn advance_tracks(&mut self, effective: u64, speed: u32, now: u64)
        requires
            old(self)@.wf(),
            effective <= AGE_ROOM,
        ensures
            final(self)@.wf(),
            ({
                let (ts, p) = frame(
                    old(self)@.tracks.tracks,
                    old(self)@.pool,
                    old(self)@.tracks.tracks.len() as int,
                    old(self)@.tracks.canvas_width,
                    effective,
                    speed,
                );
                final(self)@ == (CoreView {
                    tracks: TrackManagerView { tracks: ts, ..old(self)@.tracks },
                    pool: p,
                    ..old(self)@
                })
            }),
    {
        proof {
            lemma_ages_fit_mono(self@.pool.slots, AGE_ROOM, effective);
            law_frame_keeps_tied(self@.tracks.tracks, self@.pool, self@.tracks.canvas_width, effective, speed);
        }
        self.track_manager.update(&mut self.pool, effective, speed, now);
    }

    /// Takes in one message at engine time `now`; the barrage made from it
    /// is handed back as a ghost.
    fn take_message(&mut self, m: BarrageMessage, now: u64) -> (r: Ghost<BarrageObject>)
        requires
            old(self)@.wf(),
        ensures
            final(self)@.wf(),
            message_passes(old(self)@.filter, m) ==> made_from(old(self)@, m, r@, now),
            final(self)@ == message_taken(old(self)@, m, r@, now),
    {
        let temp = BarrageObject::new(
            0,
            m.text.as_str(),
            m.track_type,
            0,
            m.color_rgba,
            m.font_size,
            m.alpha,
            m.duration_ms,
            now,
        );
        if self.filter.filter(&temp) != FilterResult::Pass {
            return Ghost(temp);
        }
        let id = self.next_id;
        self.next_id = if id == u64::MAX {
            0
        } else {
            id + 1
        };
        let obj = BarrageObject::new_with_effect(
            id,
            m.text.as_str(),
            m.segments,
            m.track_type,
            0,
            m.color_rgba,
            m.font_size,
            m.alpha,
            m.duration_ms,
            now,
            m.effect_config,
        );
        let ghost b = obj;
        let ghost pool0 = self@.pool;
        let ghost tracks0 = self@.tracks;
        proof {
            lemma_allocated_tied(tracks0.tracks, pool0, adjusted(self@.filter.config, b));
        }
        match self.pool.allocate(obj) {
            Some((idx, o)) => {
                self.filter.apply_global_adjustments(o);
                proof {
                    lemma_allocated_keeps_ages(pool0, adjusted(self@.filter.config, b));
                }
                let ghost pool1 = self@.pool;
                proof {
                    law_add_keeps_tied(tracks0, pool1, idx, 0, now);
                }
                let _ = self.track_manager.add_barrage(&mut self.pool, idx, 0, now);
                proof {
                    lemma_added_keeps_ages(tracks0, pool1, idx, now);
                }
            },
            None => {
                proof {
                    lemma_allocated_keeps_ages(pool0, adjusted(self@.filter.config, b));
                }
            },
        }
        Ghost(b)
    }

}

impl BarrageCore {
    /// Renders the live barrages of every track into `buffer` as a
    /// `width` x `height` RGBA frame: -1 when `buffer` is shorter than the
    /// frame; otherwise the canvas is resized when its size differs, the
    /// global effect handed to the renderer, the frame drawn (see
    /// `frame_drawn`) and copied to the front of `buffer`, and the number of
    /// barrages drawn returned.
    pub fn render(&mut self, buffer: &mut [u8], width: u32, height: u32) -> (r: i32)
        requires
            old(self)@.wf(),
            width * height * 4 <= u32::MAX,
        ensures
            final(self)@.wf(),
            old(buffer)@.len() < width * height * 4 ==> {
                &&& r == -1
                &&& final(self)@ == old(self)@
                &&& final(buffer)@ == old(buffer)@
            },
            old(buffer)@.len() >= width * height * 4 ==> ({
                let v = old(self)@;
                let rv0 = if v.renderer.width != width || v.renderer.height != height {
                    RendererView {
                        width,
                        height,
                        frame: crate::renderer::filled((width * height * 4) as nat, v.renderer.options.background_color),
                        ..v.renderer
                    }
                } else {
                    v.renderer
                };
                let rv1 = if v.global_effect is Some {
                    RendererView { global_effect: v.global_effect, ..rv0 }
                } else {
                    rv0
                };
                let objs = all_alive(v.pool.slots, v.tracks.tracks, v.tracks.tracks.len() as int);
                let (f, e, cnt, em) = frame_drawn(
                    crate::renderer::filled(rv1.frame.len(), rv1.options.background_color),
                    v.emoji.entries,
                    objs,
                    objs.len() as int,
                    rv1.options.global_alpha,
                    rv1.width,
                    rv1.height,
                );
                let drawn = min(cnt as int, u32::MAX as int);
                &&& final(self)@ == (CoreView {
                    renderer: RendererView { frame: f, stats: final(self)@.renderer.stats, ..rv1 },
                    emoji: EmojiView { entries: e, ..v.emoji },
                    ..v
                })
                &&& final(self)@.renderer.stats.barrages_rendered == drawn
                &&& final(self)@.renderer.stats.emojis_rendered == min(em as int, u32::MAX as int)
                &&& r == drawn as u32 as i32
                &&& final(buffer)@ == f + old(buffer)@.skip(f.len() as int)
            }),
    {
        let expected_size = (width * height * 4) as usize;
        if buffer.len() < expected_size {
            return -1;
        }
        let (cw, ch) = self.renderer.dimensions();
        if cw != width || ch != height {
            self.renderer.resize(width, height);
        }
        match &self.global_effect {
            Some(effect) => {
                let shared = share_effect(effect);
                self.renderer.set_global_effect(Some(shared));
            },
            None => {},
        }
        let barrages = self.track_manager.get_all_barrages(&self.pool);
        proof {
            let objs = all_alive(
                self@.pool.slots,
                self@.tracks.tracks,
                self@.tracks.tracks.len() as int,
            );
            assert(barrages@.map_values(|o: &BarrageObject| *o) =~= objs);
        }
        let count = self.renderer.render(barrages.as_slice(), &mut self.emoji_manager);
        let _copied = self.renderer.copy_frame(buffer);
        count as i32
    }

    /// Jumps to engine time `time_ms`.
    pub fn seek(&mut self, time_ms: u64)
        ensures
            final(self)@ == (CoreView { timeline: old(self)@.timeline.sought(time_ms), ..old(self)@ }),
    {
        self.timeline.seek(time_ms);
    }

    /// Pauses playback.
    pub fn pause(&mut self)
        ensures
            final(self)@ == (CoreView { timeline: old(self)@.timeline.paused_view(), ..old(self)@ }),
    {
        self.timeline.pause();
    }

    /// Resumes playback.
    pub fn resume(&mut self)
        ensures
            final(self)@ == (CoreView { timeline: old(self)@.timeline.resumed_view(), ..old(self)@ }),
    {
        self.timeline.resume();
    }

    /// Removes every barrage from the tracks, frees every pool slot (those
    /// of queued barrages too), resets the timeline and discards the queued
    /// messages.
    pub fn clear(&mut self)
        requires
            old(self)@.wf(),
        ensures
            final(self)@.wf(),
            final(self)@ == (CoreView {
                tracks: TrackManagerView {
                    tracks: old(self)@.tracks.tracks.map_values(|t: TrackView| emptied(t)),
                    ..old(self)@.tracks
                },
                pool: old(self)@.pool.cleared(),
                timeline: TimelineView::initial(),
                inbox: Seq::empty(),
                ..old(self)@
            }),
    {
        let ghost p0 = self@.pool;
        let ghost ts = self@.tracks.tracks;
        self.track_manager.clear(&mut self.pool);
        proof {
            lemma_freed_tracks_shape(p0, ts, ts.len() as int);
        }
        self.pool.clear();
        proof {
            crate::barrage::law_cleared_pool_is_empty(p0);
        }
        self.timeline.clear();
        let _discarded = drain(&mut self.inbox);
    }

    /// Sets the playback speed (thousandths), bounded to 250..=4000.
    pub fn set_speed(&mut self, speed: i64)
        requires
            old(self)@.wf(),
        ensures
            final(self)@.wf(),
            final(self)@ == (CoreView {
                timeline: TimelineView { speed: crate::timeline::bounded_speed(speed), ..old(self)@.timeline },
                ..old(self)@
            }),
    {
        self.timeline.set_speed(speed);
    }

    /// Replaces the filter configuration (and its blacklist).
    pub fn set_filter(&mut self, config: BarrageFilterConfig)
        ensures
            final(self)@ == (CoreView {
                filter: FilterView { config, keywords: crate::filter::lowered(config.keywords()) },
                ..old(self)@
            }),
    {
        self.filter.set_config(config);
    }

    /// Sets the effects used for barrages without their own.
    pub fn set_global_effect(&mut self, effect: Option<Arc<TextEffectConfig>>)
        ensures
            final(self)@ == (CoreView { global_effect: effect, ..old(self)@ }),
    {
        self.global_effect = effect;
    }

    /// The effects used for barrages without their own.
    pub fn global_effect(&self) -> (r: Option<&Arc<TextEffectConfig>>)
        ensures
            match r {
                Some(e) => self@.global_effect == Some(*e),
                None => self@.global_effect is None,
            },
    {
        self.global_effect.as_ref()
    }

    /// The emoji manager, for registrations that read files or download.
    pub fn emoji_manager_mut(&mut self) -> (r: &mut EmojiManager)
        ensures
            r@ == old(self)@.emoji,
            final(self)@ == (CoreView { emoji: final(r)@, ..old(self)@ }),
    {
        &mut self.emoji_manager
    }

    /// Registers raw RGBA pixels under `id` (see
    /// `EmojiManager::register_from_rgba`).
    pub fn register_emoji_rgba(&mut self, id: &str, rgba_data: &[u8], width: u32, height: u32) -> (r:
        Result<(), String>)
        requires
            old(self)@.wf(),
        ensures
            final(self)@.wf(),
            final(self)@ == (CoreView { emoji: final(self)@.emoji, ..old(self)@ }),
            r is Err <==> crate::emoji::rgba_refused(
                id,
                width,
                height,
                rgba_data@.len(),
                old(self)@.emoji.max_bitmap_bytes,
            ),
            r is Err ==> final(self)@.emoji == old(self)@.emoji,
            r is Ok ==> final(self)@.emoji == old(self)@.emoji.registered(
                crate::emoji::rgba_bitmap(id@, width, height, rgba_data@),
                crate::emoji::reg_entry(id@, crate::emoji::RegisterMethod::Rgba, None, None, width, height),
            ).0,
    {
        self.emoji_manager.register_from_rgba(id, width, height, rgba_data)
    }

    /// Width, height and size of the emoji `id` (see
    /// `EmojiManager::get_emoji_info`).
    pub fn get_emoji_info(&mut self, id: &str) -> (r: Option<(u32, u32, u64)>)
        requires
            old(self)@.wf(),
        ensures
            final(self)@.wf(),
            final(self)@ == (CoreView {
                emoji: EmojiView { entries: crate::emoji::touched(old(self)@.emoji.entries, id@), ..old(self)@.emoji },
                ..old(self)@
            }),
            r == match old(self)@.emoji.lookup(id@) {
                Some(b) => Some((b.width, b.height, b.cached_size_bytes)),
                None => None,
            },
    {
        self.emoji_manager.get_emoji_info(id)
    }

    /// Copies the pixels of emoji `id` into `buffer` (see
    /// `EmojiManager::copy_emoji_bitmap`).
    pub fn copy_emoji_bitmap(&mut self, id: &str, buffer: &mut [u8], buffer_len: usize) -> (r: bool)
        requires
            old(self)@.wf(),
        ensures
            final(self)@.wf(),
            final(self)@ == (CoreView {
                emoji: EmojiView { entries: crate::emoji::touched(old(self)@.emoji.entries, id@), ..old(self)@.emoji },
                ..old(self)@
            }),
            r == match old(self)@.emoji.lookup(id@) {
                Some(b) => old(buffer)@.len() >= b.rgba_data.len() && buffer_len >= b.rgba_data.len(),
                None => false,
            },
            r ==> final(buffer)@ == old(self)@.emoji.lookup(id@)->0.rgba_data + old(buffer)@.skip(
                old(self)@.emoji.lookup(id@)->0.rgba_data.len() as int,
            ),
            !r ==> final(buffer)@ == old(buffer)@,
    {
        self.emoji_manager.copy_emoji_bitmap(id, buffer, buffer_len)
    }

    /// A copy of the pixels of emoji `id`.
    pub fn get_emoji_bitmap_bytes(&mut self, id: &str) -> (r: Option<Vec<u8>>)
        requires
            old(self)@.wf(),
        ensures
            final(self)@.wf(),
            final(self)@ == (CoreView {
                emoji: EmojiView { entries: crate::emoji::touched(old(self)@.emoji.entries, id@), ..old(self)@.emoji },
                ..old(self)@
            }),
            match old(self)@.emoji.lookup(id@) {
                Some(b) => r matches Some(v) && v@ == b.rgba_data,
                None => r is None,
            },
    {
        self.emoji_manager.get_emoji_bitmap_bytes(id)
    }

    /// Empties the emoji cache and registry.
    pub fn clear_emoji_cache(&mut self)
        requires
            old(self)@.wf(),
        ensures
            final(self)@.wf(),
            final(self)@ == (CoreView {
                emoji: EmojiView {
                    entries: Seq::empty(),
                    total_bytes: 0,
                    registry: Seq::empty(),
                    ..old(self)@.emoji
                },
                ..old(self)@
            }),
    {
        self.emoji_manager.clear_cache();
    }

    /// Removes emoji `id`; whether it was cached.
    pub fn remove_emoji(&mut self, id: &str) -> (r: bool)
        requires
            old(self)@.wf(),
        ensures
            final(self)@.wf(),
            r == (old(self)@.emoji.lookup(id@) is Some),
            final(self)@ == (CoreView {
                emoji: EmojiView {
                    entries: crate::emoji::without(old(self)@.emoji.entries, id@),
                    registry: crate::emoji::reg_without(old(self)@.emoji.registry, id@),
                    total_bytes: match old(self)@.emoji.lookup(id@) {
                        Some(b) => crate::emoji::sat_sub(old(self)@.emoji.total_bytes, b.cached_size_bytes),
                        None => old(self)@.emoji.total_bytes,
                    },
                    ..old(self)@.emoji
                },
                ..old(self)@
            }),
    {
        self.emoji_manager.remove_emoji(id)
    }

    /// Bytes in the emoji cache.
    pub fn get_emoji_cache_size(&self) -> (r: u64)
        ensures
            r == self@.emoji.total_bytes,
    {
        self.emoji_manager.cache_size()
    }

    /// Adds a blacklist keyword (see `FilterEngine::add_keyword`).
    pub fn add_blacklist_keyword(&mut self, keyword: &str)
        ensures
            final(self)@ == (CoreView {
                filter: crate::filter::keyword_added(old(self)@.filter, keyword@),
                ..old(self)@
            }),
    {
        self.filter.add_keyword(keyword);
    }

    /// The statistics of the engine (counts truncated to `u32`).
    pub fn get_stats(&self) -> (r: EngineStats)
        ensures
            r == (EngineStats {
                engine_time_ms: self@.timeline.engine_time_ms,
                speed: self@.timeline.speed,
                paused: self@.timeline.paused,
                alive_barrages: self@.pool.alive_count() as u32,
                pool_capacity: self@.pool.slots.len() as u32,
                pool_free: self@.pool.free.len() as u32,
                emoji_cache_entries: self@.emoji.entries.len() as u32,
                emoji_cache_bytes: self@.emoji.total_bytes,
                last_render_count: self@.renderer.stats.barrages_rendered,
                render_time_us: self@.renderer.stats.render_time_us,
            }),
    {
        EngineStats {
            engine_time_ms: self.timeline.engine_time_ms(),
            speed: self.timeline.speed(),
            paused: self.timeline.is_paused(),
            alive_barrages: self.pool.alive_count() as u32,
            pool_capacity: self.pool.capacity() as u32,
            pool_free: self.pool.free_count() as u32,
            emoji_cache_entries: self.emoji_manager.cache_entries() as u32,
            emoji_cache_bytes: self.emoji_manager.cache_size(),
            last_render_count: self.renderer.render_stats().barrages_rendered,
            render_time_us: self.renderer.render_stats().render_time_us,
        }
    }
}

impl Default for BarrageCore {
    fn default() -> (r: Self)
        ensures
            r@.wf(),
            r@.timeline == TimelineView::initial(),
            r@.next_id == 1,
    {
        Self::with_default_config()
    }
}

/// A frame ages and moves the barrages a track shows by exactly the engine
/// time the timeline plays in it (the playback speed is already in that
/// time): a barrage still in the pool after a frame that takes in no new
/// barrage is its old self advanced by that many engine milliseconds at the
/// normal rate, so its age grows by just that much.
pub proof fn law_frame_ages_by_engine_time(v: CoreView, delta_ms: u64, i: int, x: usize)
    requires
        v.wf(),
        v.timeline.can_advance(delta_ms),
        delta_ms <= MAX_FRAME_MS,
        0 <= i < v.tracks.tracks.len(),
        v.tracks.tracks[i].active.contains(x),
    ensures
        ({
            let w = stepped(v, delta_ms, Seq::empty(), Seq::empty());
            let played = w.timeline.engine_time_ms - v.timeline.engine_time_ms;
            &&& x < v.pool.slots.len()
            &&& v.pool.slots[x as int] is Some
            &&& 0 <= played
            &&& w.pool.slots[x as int] is Some ==> {
                &&& w.pool.slots[x as int]->0 == v.pool.slots[x as int]->0.updated(played as u64, 1000)
                &&& w.pool.slots[x as int]->0.elapsed_ms == v.pool.slots[x as int]->0.elapsed_ms + played
            }
        }),
{
    let ts = v.tracks.tracks;
    let n = ts.len() as int;
    assert(holds_slot(ts[i], x));
    assert(x < v.pool.slots.len() && slot_alive(v.pool.slots[x as int]));
    let eff: u64 = if v.timeline.paused {
        0
    } else {
        engine_delta(delta_ms, v.timeline.speed)
    };
    lemma_engine_delta_bound(delta_ms, v.timeline.speed);
    let tl = v.timeline.advanced(delta_ms);
    let v2 = messages_taken(CoreView { timeline: tl, ..v }, Seq::empty(), Seq::empty(), 0, tl.engine_time_ms);
    assert(v2 == CoreView { timeline: tl, ..v });
    law_frame_keeps_tracks_tied(ts, v.pool, n, v.tracks.canvas_width, eff, 1000);
    let (ts2, p) = frame(ts, v.pool, n, v.tracks.canvas_width, eff, 1000);
    let w = stepped(v, delta_ms, Seq::empty(), Seq::empty());
    assert(w.pool == p.reaped());
    assert(w.timeline == tl);
    assert(tl.engine_time_ms - v.timeline.engine_time_ms == eff);
    let o = v.pool.slots[x as int]->0;
    assert(o.alive);
    assert(o.elapsed_ms + eff <= u64::MAX) by {
        assert(ages_fit(v.pool.slots, AGE_ROOM));
        assert(slot_alive(v.pool.slots[x as int]));
    }
    if w.pool.slots[x as int] is Some {
        assert(p.slots[x as int] is Some);
        assert(p.slots[x as int] == Some(o.updated(eff, 1000)));
    }
}

/// Ages that fit a larger room fit a smaller one.
/// A message that passes the filter, taken in while the pool can hand out
/// a slot and the first track has room, is shown on that track: its slot
/// holds the barrage made from it, adjusted by the filter and placed at the
/// track's entry point, and the next id moves on.
pub proof fn law_passing_message_is_shown(v: CoreView, m: BarrageMessage, b: BarrageObject, now: u64)
    requires
        message_passes(v.filter, m),
        v.pool.wf(),
        v.tracks.tracks.len() > 0,
        v.tracks.tracks[0].active.len() < v.tracks.tracks[0].max_concurrent,
        v.pool.alloc_index() is Some,
    ensures
        ({
            let idx = v.pool.alloc_index()->0;
            let w = message_taken(v, m, b, now);
            let t = v.tracks.tracks[0];
            &&& w.tracks.tracks[0].active == t.active.push(idx)
            &&& w.pool.slots[idx as int] == Some(
                placed(adjusted(v.filter.config, b), t.mode, t.scroll_speed, v.tracks.canvas_width, 0, t.next_y),
            )
            &&& w.next_id == next_of(v.next_id)
        }),
{
    let src = v.pool.alloc_source();
    if v.pool.free.len() > 0 {
        assert(v.pool.free.last() == v.pool.free[v.pool.free.len() - 1]);
    } else {
        let g = v.pool.grown();
        assert(g.free.last() == g.free[g.free.len() - 1]);
    }
    assert(src.free.last() < src.slots.len());
}

/// A message the filter blocks changes nothing.
pub proof fn law_blocked_message_changes_nothing(v: CoreView, m: BarrageMessage, b: BarrageObject, now: u64)
    requires
        !message_passes(v.filter, m),
    ensures
        message_taken(v, m, b, now) == v,
{
}

proof fn lemma_ages_fit_mono(slots: Seq<Option<BarrageObject>>, big: u64, small: u64)
    requires
        ages_fit(slots, big),
        small <= big,
    ensures
        ages_fit(slots, small),
{
    assert forall|i: int| 0 <= i < slots.len() && #[trigger] slot_alive(slots[i]) implies slots[i]->0.elapsed_ms
        + small <= u64::MAX by {}
}

/// Storing a barrage of age zero keeps the ages within the room.
proof fn lemma_allocated_keeps_ages(pool: PoolView, b: BarrageObject)
    requires
        pool.wf(),
        ages_fit(pool.slots, AGE_ROOM),
        b.elapsed_ms == 0,
    ensures
        ages_fit(pool.allocated(b).slots, AGE_ROOM),
{
    let src = pool.alloc_source();
    assert(ages_fit(src.slots, AGE_ROOM)) by {
        if pool.free.len() == 0 {
            let g = pool.grown();
            assert(src == g);
            if pool.slots.len() < POOL_GROW_LIMIT {
                assert forall|i: int| 0 <= i < g.slots.len() && #[trigger] slot_alive(g.slots[i]) implies g.slots[i]->0.elapsed_ms
                    + AGE_ROOM <= u64::MAX by {
                    if i < pool.slots.len() {
                        assert(g.slots[i] == pool.slots[i]);
                        assert(slot_alive(pool.slots[i]));
                    } else {
                        assert(g.slots[i] is None);
                    }
                }
            }
        }
    }
    if src.free.len() > 0 {
        let j = src.free.last() as int;
        if pool.free.len() > 0 {
            assert(src == pool);
            assert(pool.free[pool.free.len() - 1] < pool.slots.len());
        } else {
            assert(j < src.slots.len());
        }
        let s2 = src.slots.update(j, Some(b));
        assert(pool.allocated(b).slots == s2);
        assert forall|i: int| 0 <= i < s2.len() && #[trigger] slot_alive(s2[i]) implies s2[i]->0.elapsed_ms
            + AGE_ROOM <= u64::MAX by {
            if i != j {
                assert(s2[i] == src.slots[i]);
                assert(slot_alive(src.slots[i]));
            }
        }
    } else {
        assert(pool.allocated(b).slots == src.slots);
    }
}

/// Placing a barrage on a track keeps the ages within the room.
proof fn lemma_added_keeps_ages(tm: TrackManagerView, pool: PoolView, idx: usize, now: u64)
    requires
        ages_fit(pool.slots, AGE_ROOM),
    ensures
        ages_fit(barrage_added(tm, pool, idx, 0, now).1.slots, AGE_ROOM),
{
    if 0 < tm.tracks.len() {
        let t = tm.tracks[0];
        let p = pool_with_placed(pool, idx, t, tm.canvas_width, 0);
        assert(ages_fit(p.slots, AGE_ROOM)) by {
            assert forall|i: int| 0 <= i < p.slots.len() && #[trigger] slot_alive(p.slots[i]) implies p.slots[i]->0.elapsed_ms
                + AGE_ROOM <= u64::MAX by {
                assert(slot_alive(pool.slots[i]));
            }
        }
        lemma_dealloc_keeps_ages(p, idx, AGE_ROOM);
    }
}

/// Reaping keeps the ages within the room.
proof fn lemma_reaped_keeps_ages(pool: PoolView)
    requires
        ages_fit(pool.slots, AGE_ROOM),
    ensures
        ages_fit(pool.reaped().slots, AGE_ROOM),
{
    let s2 = pool.reaped().slots;
    assert forall|i: int| 0 <= i < s2.len() && #[trigger] slot_alive(s2[i]) implies s2[i]->0.elapsed_ms
        + AGE_ROOM <= u64::MAX by {
        assert(slot_alive(pool.slots[i]));
    }
}

/// Engine time for a frame is at most four times its wall time.
proof fn lemma_engine_delta_bound(delta_ms: u64, speed: u32)
    requires
        speed <= 4000,
    ensures
        engine_delta(delta_ms, speed) <= 4 * delta_ms,
{
    assert(delta_ms * speed / 1000 <= 4 * delta_ms) by (nonlinear_arith)
        requires
            speed <= 4000,
    ;
}

/// Taking in messages only looks at the barrages of the messages taken.
proof fn lemma_taken_prefix(
    v: CoreView,
    msgs: Seq<BarrageMessage>,
    objs: Seq<BarrageObject>,
    b: BarrageObject,
    k: int,
    now: u64,
)
    requires
        0 <= k <= objs.len(),
    ensures
        messages_taken(v, msgs, objs.push(b), k, now) == messages_taken(v, msgs, objs, k, now),
        all_made(v, msgs, objs.push(b), k, now) == all_made(v, msgs, objs, k, now),
    decreases k,
{
    if k > 0 {
        lemma_taken_prefix(v, msgs, objs, b, k - 1, now);
        assert(objs.push(b)[k - 1] == objs[k - 1]);
    }
}

} // verus!
