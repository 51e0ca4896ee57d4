//! The CPU renderer: a transparent RGBA8888 canvas, text drawn as glyph
//! cells (a placeholder for a font engine), emoji bitmaps scaled to the
//! font size with nearest-neighbour sampling, alpha blending, clipping to
//! the canvas.
//!
//! Barrage positions are in thousandths of a pixel and are truncated toward
//! zero to whole pixels; alphas are in thousandths.
use vstd::prelude::*;

use std::sync::Arc;
use std::time::Instant;

use vstd::arithmetic::div_mod::{lemma_fundamental_div_mod, lemma_fundamental_div_mod_converse};

use crate::barrage::{faded_alpha, progress_of, BarrageObject, EmojiSegment};
use crate::clock::{clock_now, duration_since, whole_micros};
use crate::config::TextEffectConfig;
use crate::emoji::{key_pos, touched, BitmapView, EmojiManager, EmojiView};
use crate::math::{div_trunc, min};
use crate::utils::{blend_alpha_fast, blended_fast, rgba_from_u32, unpacked};

verus! {

/// Whether pixel (`px`, `py`) lies strictly inside the glyph cell at
/// (`cx`, `cy`) of size `cw` x `ch` (the cell's border is left blank).
pub open spec fn cell_interior(px: int, py: int, cx: int, cy: int, cw: int, ch: int) -> bool {
    cx < px < cx + cw - 1 && cy < py < cy + ch - 1
}

/// Whether byte `k` of a buffer of `len` bytes belongs to a whole pixel of
/// a `w` x `h` canvas.
pub open spec fn canvas_byte(k: int, w: int, h: int, len: int) -> bool {
    w > 0 && 0 <= k < len && k / 4 < w * h && (k / 4) * 4 + 3 < len
}

/// The four bytes of pixel `p`.
pub open spec fn pixel_bytes(buf: Seq<u8>, p: int) -> Seq<u8> {
    buf.subrange(4 * p, 4 * p + 4)
}

/// `buf` with the glyph cell at (`cx`, `cy`) of size `cw` x `ch` blended
/// with `color` on a `w` x `h` canvas.
pub open spec fn cell_painted(
    buf: Seq<u8>,
    cx: int,
    cy: int,
    cw: int,
    ch: int,
    w: u32,
    h: u32,
    color: Seq<u8>,
) -> Seq<u8> {
    Seq::new(
        buf.len(),
        |k: int|
            {
                let p = k / 4;
                if canvas_byte(k, w as int, h as int, buf.len() as int) && cell_interior(
                    p % (w as int),
                    p / (w as int),
                    cx,
                    cy,
                    cw,
                    ch,
                ) {
                    blended_fast(pixel_bytes(buf, p), color)[k % 4]
                } else {
                    buf[k]
                }
            },
    )
}

/// `buf` with the first `n` glyph cells of a text at (`x`, `y`) drawn, left
/// to right; cells are `font_size / 2` wide and `font_size` high.
pub open spec fn text_painted(
    buf: Seq<u8>,
    n: int,
    x: int,
    y: int,
    w: u32,
    h: u32,
    color: Seq<u8>,
    font_size: u32,
) -> Seq<u8>
    decreases n,
{
    if n <= 0 {
        buf
    } else {
        let cw = (font_size / 2) as int;
        cell_painted(
            text_painted(buf, n - 1, x, y, w, h, color, font_size),
            x + (n - 1) * cw,
            y,
            cw,
            font_size as int,
            w,
            h,
            color,
        )
    }
}

/// Whether a text of `n` characters at (`x`, `y`) fits the coordinate
/// range the drawing uses.
pub open spec fn text_fits(n: int, x: int, y: int, font_size: u32, w: u32, h: u32) -> bool {
    &&& n * (font_size / 2) <= i32::MAX
    &&& x + n * (font_size / 2) <= i32::MAX
    &&& y + font_size <= i32::MAX
    &&& w * h * 4 <= u32::MAX
}

/// Rendering options.
#[derive(Debug, Clone, Copy, PartialEq, Eq, Structural)]
pub struct RenderOptions {
    pub enable_effects: bool,
    pub use_global_effects: bool,
    /// Global alpha in thousandths.
    pub global_alpha: u32,
    /// Background colour as 0xRRGGBBAA (transparent by default).
    pub background_color: u32,
}

impl RenderOptions {
    /// The default options: effects on, global effects used, full alpha,
    /// transparent background.
    pub open spec fn default_spec() -> RenderOptions {
        RenderOptions {
            enable_effects: true,
            use_global_effects: true,
            global_alpha: 1000,
            background_color: 0,
        }
    }
}

impl Default for RenderOptions {
    fn default() -> (r: Self)
        ensures
            r == (RenderOptions {
                enable_effects: true,
                use_global_effects: true,
                global_alpha: 1000,
                background_color: 0,
            }),
    {
        RenderOptions {
            enable_effects: true,
            use_global_effects: true,
            global_alpha: 1000,
            background_color: 0,
        }
    }
}

/// Statistics of the last frame.
#[derive(Debug, Clone, Copy, PartialEq, Eq, Structural)]
pub struct RenderStats {
    pub barrages_rendered: u32,
    pub emojis_rendered: u32,
    /// Time the frame took, in microseconds.
    pub render_time_us: u64,
}

impl Default for RenderStats {
    fn default() -> (r: Self)
        ensures
            r == (RenderStats { barrages_rendered: 0, emojis_rendered: 0, render_time_us: 0 }),
    {
        RenderStats { barrages_rendered: 0, emojis_rendered: 0, render_time_us: 0 }
    }
}

/// A coordinate in thousandths of a pixel as a whole pixel: truncated
/// toward zero and saturated to the range of `i32`.
pub open spec fn to_px(v: int) -> int {
    let t = div_trunc(v, 1000);
    if t < i32::MIN {
        i32::MIN as int
    } else if t > i32::MAX {
        i32::MAX as int
    } else {
        t
    }
}

/// The colour `color` with its alpha scaled by `alpha` (thousandths).
pub open spec fn faded_color(color: u32, alpha: u32) -> Seq<u8> {
    let c = unpacked(color);
    seq![c[0], c[1], c[2], (c[3] * alpha / 1000) as u8]
}

/// A buffer of `len` bytes filled with `color`, pixel after pixel.
pub open spec fn filled(len: nat, color: u32) -> Seq<u8> {
    Seq::new(len, |k: int| unpacked(color)[k % 4])
}

/// The canvas, the emoji cache entries, the pen position (thousandths of a
/// pixel) and the emoji count after drawing the first `n` segments of
/// `obj` at `alpha`: an emoji found in the cache is scaled to the font size
/// (and becomes the most recently used); text is drawn in glyph cells; the
/// pen advances by the width drawn plus two pixels.
pub open spec fn segments_drawn(
    frame: Seq<u8>,
    entries: Seq<(Seq<char>, BitmapView)>,
    segs: Seq<EmojiSegment>,
    n: int,
    obj: BarrageObject,
    alpha: u32,
    w: u32,
    h: u32,
) -> (Seq<u8>, Seq<(Seq<char>, BitmapView)>, int, nat)
    decreases n,
{
    if n <= 0 {
        (frame, entries, obj.x as int, 0)
    } else {
        let (f, e, cur, cnt) = segments_drawn(frame, entries, segs, n - 1, obj, alpha, w, h);
        let seg = segs[n - 1];
        let fs = obj.font_size;
        if seg.is_emoji {
            let p = key_pos(e, seg.emoji_id@);
            if p < e.len() {
                let b = e[p].1;
                (
                    blitted(
                        f,
                        b.rgba_data,
                        b.width as int,
                        b.height as int,
                        to_px(cur),
                        to_px(obj.y as int),
                        fs as int,
                        fs as int,
                        alpha,
                        w,
                        h,
                    ),
                    touched(e, seg.emoji_id@),
                    cur + (fs + 2) * 1000,
                    cnt + 1,
                )
            } else {
                (f, e, cur, cnt)
            }
        } else {
            let tw = seg.text@.len() * (fs / 2);
            (
                text_painted(
                    f,
                    seg.text@.len() as int,
                    to_px(cur),
                    to_px(obj.y as int),
                    w,
                    h,
                    faded_color(obj.color_rgba, alpha),
                    fs,
                ),
                e,
                cur + (tw + 2) * 1000,
                cnt,
            )
        }
    }
}

/// The alpha (thousandths) a barrage is drawn with.
pub open spec fn draw_alpha(obj: BarrageObject, global_alpha: u32) -> u32 {
    faded_alpha(obj.alpha, global_alpha, progress_of(obj.elapsed_ms, obj.duration_ms))
}

/// Canvas, cache entries, whether it was drawn and emoji count after
/// drawing one barrage: dead or (nearly) invisible barrages are skipped.
pub open spec fn barrage_drawn(
    frame: Seq<u8>,
    entries: Seq<(Seq<char>, BitmapView)>,
    obj: BarrageObject,
    global_alpha: u32,
    w: u32,
    h: u32,
) -> (Seq<u8>, Seq<(Seq<char>, BitmapView)>, bool, nat) {
    let alpha = draw_alpha(obj, global_alpha);
    if !obj.alive || alpha <= 1 {
        (frame, entries, false, 0)
    } else if obj.segments@.len() == 0 {
        (
            text_painted(
                frame,
                obj.text@.len() as int,
                to_px(obj.x as int),
                to_px(obj.y as int),
                w,
                h,
                faded_color(obj.color_rgba, alpha),
                obj.font_size,
            ),
            entries,
            true,
            0,
        )
    } else {
        let (f, e, _c, cnt) = segments_drawn(
            frame,
            entries,
            obj.segments@,
            obj.segments@.len() as int,
            obj,
            alpha,
            w,
            h,
        );
        (f, e, true, cnt)
    }
}

/// Canvas, cache entries, barrages drawn and emojis drawn after drawing the
/// first `n` barrages in order.
pub open spec fn frame_drawn(
    frame: Seq<u8>,
    entries: Seq<(Seq<char>, BitmapView)>,
    objs: Seq<BarrageObject>,
    n: int,
    global_alpha: u32,
    w: u32,
    h: u32,
) -> (Seq<u8>, Seq<(Seq<char>, BitmapView)>, nat, nat)
    decreases n,
{
    if n <= 0 {
        (frame, entries, 0, 0)
    } else {
        let (f, e, cnt, em) = frame_drawn(frame, entries, objs, n - 1, global_alpha, w, h);
        let (f2, e2, drawn, em2) = barrage_drawn(f, e, objs[n - 1], global_alpha, w, h);
        (f2, e2, if drawn {
            cnt + 1
        } else {
            cnt
        }, em + em2)
    }
}

/// The CPU renderer and its canvas.
pub struct Renderer {
    canvas_width: u32,
    canvas_height: u32,
    frame_buffer: Vec<u8>,
    options: RenderOptions,
    global_effect_config: Option<Arc<TextEffectConfig>>,
    pub stats: RenderStats,
}

/// The abstract state of a renderer.
pub struct RendererView {
    pub width: u32,
    pub height: u32,
    pub frame: Seq<u8>,
    pub options: RenderOptions,
    pub global_effect: Option<Arc<TextEffectConfig>>,
    pub stats: RenderStats,
}

impl RendererView {
    /// The canvas holds four bytes per pixel and fits `u32` indexing.
    pub open spec fn wf(self) -> bool {
        &&& self.width * self.height * 4 <= u32::MAX
        &&& self.frame.len() == self.width * self.height * 4
    }
}

impl View for Renderer {
    type V = RendererView;

    closed spec fn view(&self) -> RendererView {
        RendererView {
            width: self.canvas_width,
            height: self.canvas_height,
            frame: self.frame_buffer@,
            options: self.options,
            global_effect: self.global_effect_config,
            stats: self.stats,
        }
    }
}

/// Largest pen position kept (thousandths of a pixel); any position past it
/// is past the right edge of every canvas.
pub const PEN_LIMIT: i128 = 0x1_0000_0000_0000_0000_0000_0000;

/// A coordinate in thousandths of a pixel as a whole pixel.
fn to_pixel(v: i128) -> (r: i128)
    requires
        -0x1_0000_0000_0000_0000_0000_0000 <= v <= 0x1_0000_0000_0000_0000_0000_0000,
    ensures
        r == to_px(v as int),
{
    let t: i128 = if v >= 0 {
        v / 1000
    } else {
        -((-v) / 1000)
    };
    if t < i32::MIN as i128 {
        i32::MIN as i128
    } else if t > i32::MAX as i128 {
        i32::MAX as i128
    } else {
        t
    }
}

impl Renderer {
    /// A transparent `canvas_width` x `canvas_height` canvas with default
    /// options.
    pub fn new(canvas_width: u32, canvas_height: u32) -> (r: Self)
        requires
            canvas_width * canvas_height * 4 <= u32::MAX,
        ensures
            r@.wf(),
            r@.width == canvas_width,
            r@.height == canvas_height,
            r@.frame == Seq::new((canvas_width * canvas_height * 4) as nat, |k: int| 0u8),
            r@.options == RenderOptions::default_spec(),
            r@.global_effect is None,
            r@.stats == (RenderStats { barrages_rendered: 0, emojis_rendered: 0, render_time_us: 0 }),
    {
        let buffer_size = (canvas_width * canvas_height * 4) as usize;
        let frame_buffer: Vec<u8> = vec![0u8; buffer_size];
        assert(frame_buffer@ =~= Seq::new((canvas_width * canvas_height * 4) as nat, |k: int| 0u8));
        Renderer {
            canvas_width,
            canvas_height,
            frame_buffer,
            options: RenderOptions::default(),
            global_effect_config: None,
            stats: RenderStats::default(),
        }
    }

    /// A canvas filled with `bg_color`.
    pub fn with_background(canvas_width: u32, canvas_height: u32, bg_color: u32) -> (r: Self)
        requires
            canvas_width * canvas_height * 4 <= u32::MAX,
        ensures
            r@.wf(),
            r@.width == canvas_width,
            r@.height == canvas_height,
            r@.frame == filled((canvas_width * canvas_height * 4) as nat, bg_color),
            r@.options == (RenderOptions { background_color: bg_color, ..RenderOptions::default_spec() }),
            r@.global_effect is None,
            r@.stats == (RenderStats { barrages_rendered: 0, emojis_rendered: 0, render_time_us: 0 }),
    {
        let mut renderer = Self::new(canvas_width, canvas_height);
        renderer.options.background_color = bg_color;
        renderer.clear_buffer();
        renderer
    }

    /// Fills the canvas with the background colour.
    pub fn clear_buffer(&mut self)
        ensures
            final(self)@ == (RendererView {
                frame: filled(old(self)@.frame.len(), old(self)@.options.background_color),
                ..old(self)@
            }),
    {
        let bg = rgba_from_u32(self.options.background_color);
        let len = self.frame_buffer.len();
        let mut k: usize = 0;
        while k < len
            invariant
                0 <= k <= len,
                len == self.frame_buffer@.len(),
                bg@ == unpacked(self.options.background_color),
                self.canvas_width == old(self).canvas_width,
                self.canvas_height == old(self).canvas_height,
                self.options == old(self).options,
                self.global_effect_config == old(self).global_effect_config,
                self.stats == old(self).stats,
                len == old(self).frame_buffer@.len(),
                forall|j: int| 0 <= j < k ==> #[trigger] self.frame_buffer@[j] == bg@[j % 4],
            decreases len - k,
        {
            self.frame_buffer.set(k, bg[k % 4]);
            k = k + 1;
        }
        assert(self.frame_buffer@ =~= filled(len as nat, self.options.background_color));
    }

    /// The canvas bytes.
    pub fn frame_buffer(&self) -> (r: &[u8])
        ensures
            r@ == self@.frame,
    {
        self.frame_buffer.as_slice()
    }

    /// The canvas bytes, for changes in place.
    pub fn frame_buffer_mut(&mut self) -> (r: &mut [u8])
        ensures
            r@ == old(self)@.frame,
            final(self)@ == (RendererView { frame: final(r)@, ..old(self)@ }),
    {
        self.frame_buffer.as_mut_slice()
    }

    /// Resizes the canvas to `width` x `height` and fills it with the
    /// background colour.
    pub fn resize(&mut self, width: u32, height: u32)
        requires
            width * height * 4 <= u32::MAX,
        ensures
            final(self)@ == (RendererView {
                width,
                height,
                frame: filled((width * height * 4) as nat, old(self)@.options.background_color),
                ..old(self)@
            }),
            final(self)@.wf(),
    {
        let new_size = (width * height * 4) as usize;
        self.canvas_width = width;
        self.canvas_height = height;
        self.frame_buffer.resize(new_size, 0);
        self.clear_buffer();
    }

    /// Replaces the options.
    pub fn set_options(&mut self, options: RenderOptions)
        ensures
            final(self)@ == (RendererView { options, ..old(self)@ }),
    {
        self.options = options;
    }

    /// The options.
    pub fn options(&self) -> (r: &RenderOptions)
        ensures
            *r == self@.options,
    {
        &self.options
    }

    /// Replaces the global effect configuration.
    pub fn set_global_effect(&mut self, effect_config: Option<Arc<TextEffectConfig>>)
        ensures
            final(self)@ == (RendererView { global_effect: effect_config, ..old(self)@ }),
    {
        self.global_effect_config = effect_config;
    }

    /// Draws `barrages`, in order, on a freshly cleared canvas and returns
    /// how many were drawn, at most `u32::MAX` (see `frame_drawn`); the emojis drawn become the
    /// most recently used in `emoji_mgr`. The statistics record the counts
    /// and the time taken.
    pub fn render(&mut self, barrages: &[&BarrageObject], emoji_mgr: &mut EmojiManager) -> (r: u32)
        requires
            old(self)@.wf(),
            old(emoji_mgr)@.wf(),
        ensures
            final(self)@.wf(),
            final(emoji_mgr)@.wf(),
            ({
                let objs = barrages@.map_values(|o: &BarrageObject| *o);
                let (f, e, cnt, em) = frame_drawn(
                    filled(old(self)@.frame.len(), old(self)@.options.background_color),
                    old(emoji_mgr)@.entries,
                    objs,
                    objs.len() as int,
                    old(self)@.options.global_alpha,
                    old(self)@.width,
                    old(self)@.height,
                );
                &&& final(self)@.frame == f
                &&& final(emoji_mgr)@ == (EmojiView { entries: e, ..old(emoji_mgr)@ })
                &&& r == min(cnt as int, u32::MAX as int)
                &&& final(self)@.stats.barrages_rendered == r
                &&& final(self)@.stats.emojis_rendered == min(em as int, u32::MAX as int)
            }),
            final(self)@.width == old(self)@.width,
            final(self)@.height == old(self)@.height,
            final(self)@.options == old(self)@.options,
            final(self)@.global_effect == old(self)@.global_effect,
    {
        let start = clock_now();
        self.clear_buffer();
        let ghost objs = barrages@.map_values(|o: &BarrageObject| *o);
        let ghost start_frame = self@.frame;
        let ghost start_entries = emoji_mgr@.entries;
        let n = barrages.len();
        let mut rendered: u32 = 0;
        let mut emojis: u64 = 0;
        let mut i: usize = 0;
        while i < n
            invariant
                0 <= i <= n,
                n == barrages@.len(),
                objs == barrages@.map_values(|o: &BarrageObject| *o),
                self@.wf(),
                emoji_mgr@.wf(),
                self@.width == old(self)@.width,
                self@.height == old(self)@.height,
                self@.options == old(self)@.options,
                self@.global_effect == old(self)@.global_effect,
                self@.stats == old(self)@.stats,
                emoji_mgr@.capacity == old(emoji_mgr)@.capacity,
                emoji_mgr@.registry == old(emoji_mgr)@.registry,
                emoji_mgr@.max_total_bytes == old(emoji_mgr)@.max_total_bytes,
                emoji_mgr@.max_bitmap_bytes == old(emoji_mgr)@.max_bitmap_bytes,
                emoji_mgr@.total_bytes == old(emoji_mgr)@.total_bytes,
                emoji_mgr@.config == old(emoji_mgr)@.config,
                emoji_mgr@.next_id == old(emoji_mgr)@.next_id,
                start_frame == filled(old(self)@.frame.len(), old(self)@.options.background_color),
                start_entries == old(emoji_mgr)@.entries,
                ({
                    let (f, e, cnt, em) = frame_drawn(
                        start_frame,
                        start_entries,
                        objs,
                        i as int,
                        old(self)@.options.global_alpha,
                        old(self)@.width,
                        old(self)@.height,
                    );
                    &&& self@.frame == f
                    &&& emoji_mgr@.entries == e
                    &&& rendered == min(cnt as int, u32::MAX as int)
                    &&& emojis == min(em as int, u64::MAX as int)
                }),
            decreases n - i,
        {
            let obj: &BarrageObject = barrages[i];
            assert(*obj == objs[i as int]);
            let (drawn, em) = self.draw_barrage(obj, emoji_mgr);
            if drawn {
                rendered = rendered.saturating_add(1);
            }
            emojis = emojis.saturating_add(em);
            i = i + 1;
        }
        self.stats.barrages_rendered = rendered;
        self.stats.emojis_rendered = if emojis > u32::MAX as u64 {
            u32::MAX
        } else {
            emojis as u32
        };
        let end = clock_now();
        let elapsed = duration_since(&end, &start);
        self.stats.render_time_us = #[verifier::truncate] (whole_micros(&elapsed) as u64);
        proof {
            assert(emoji_mgr@ == (EmojiView { entries: emoji_mgr@.entries, ..old(emoji_mgr)@ }));
        }
        rendered
    }

    /// Draws one barrage; whether it was drawn and how many emojis.
    fn draw_barrage(&mut self, obj: &BarrageObject, emoji_mgr: &mut EmojiManager) -> (r: (bool, u64))
        requires
            old(self)@.wf(),
            old(emoji_mgr)@.wf(),
        ensures
            final(self)@.wf(),
            final(emoji_mgr)@.wf(),
            final(self)@ == (RendererView { frame: final(self)@.frame, ..old(self)@ }),
            final(emoji_mgr)@ == (EmojiView { entries: final(emoji_mgr)@.entries, ..old(emoji_mgr)@ }),
            ({
                let (f, e, drawn, em) = barrage_drawn(
                    old(self)@.frame,
                    old(emoji_mgr)@.entries,
                    *obj,
                    old(self)@.options.global_alpha,
                    old(self)@.width,
                    old(self)@.height,
                );
                &&& final(self)@.frame == f
                &&& final(emoji_mgr)@.entries == e
                &&& r.0 == drawn
                &&& r.1 == em
            }),
            r.1 <= 0x1_0000_0000_0000_0000,
    {
        if !obj.alive {
            return (false, 0);
        }
        let alpha = obj.current_alpha(self.options.global_alpha);
        if alpha <= 1 {
            return (false, 0);
        }
        let w = self.canvas_width;
        let h = self.canvas_height;
        let x = to_pixel(obj.x as i128);
        let y = to_pixel(obj.y as i128);
        let color = rgba_from_u32(obj.color_rgba);
        assert(color@[3] * alpha <= 255 * 1000) by (nonlinear_arith)
            requires
                color@[3] <= 255,
                alpha <= 1000,
        ;
        let faded: [u8; 4] = [color[0], color[1], color[2], ((color[3] as u32 * alpha) / 1000) as u8];
        assert(faded@ =~= faded_color(obj.color_rgba, alpha));
        if obj.segments.len() == 0 {
            let n = obj.text.as_str().unicode_len();
            paint_text(self.frame_buffer.as_mut_slice(), n, x, y, w, h, &faded, obj.font_size);
            proof {
                lemma_text_painted_len(old(self)@.frame, n as int, x as int, y as int, w, h, faded@, obj.font_size);
            }
            return (true, 0);
        }
        let ns = obj.segments.len();
        let fs = obj.font_size;
        let mut cursor: i128 = obj.x as i128;
        let mut count: u64 = 0;
        let mut j: usize = 0;
        while j < ns
            invariant
                0 <= j <= ns,
                ns == obj.segments@.len(),
                fs == obj.font_size,
                w == self@.width,
                h == self@.height,
                alpha == draw_alpha(*obj, old(self)@.options.global_alpha),
                alpha <= 1000,
                y == to_px(obj.y as int),
                faded@ == faded_color(obj.color_rgba, alpha),
                self@.wf(),
                emoji_mgr@.wf(),
                self@ == (RendererView { frame: self@.frame, ..old(self)@ }),
                emoji_mgr@ == (EmojiView { entries: emoji_mgr@.entries, ..old(emoji_mgr)@ }),
                ({
                    let (f, e, cur, cnt) = segments_drawn(
                        old(self)@.frame,
                        old(emoji_mgr)@.entries,
                        obj.segments@,
                        j as int,
                        *obj,
                        alpha,
                        w,
                        h,
                    );
                    &&& self@.frame == f
                    &&& emoji_mgr@.entries == e
                    &&& cursor == min(cur, PEN_LIMIT as int)
                    &&& cur >= obj.x
                    &&& count == cnt
                }),
                count <= j,
                obj.x <= cursor <= PEN_LIMIT,
            decreases ns - j,
        {
            let seg = &obj.segments[j];
            let cx = to_pixel(cursor);
            proof {
                let (f, e, cur, cnt) = segments_drawn(
                    old(self)@.frame,
                    old(emoji_mgr)@.entries,
                    obj.segments@,
                    j as int,
                    *obj,
                    alpha,
                    w,
                    h,
                );
                assert(to_px(cursor as int) == to_px(cur));
            }
            if seg.is_emoji {
                match emoji_mgr.get_emoji_ref(seg.emoji_id.as_str()) {
                    Some(bitmap) => {
                        blit_into(
                            self.frame_buffer.as_mut_slice(),
                            bitmap.rgba_data.as_slice(),
                            bitmap.width,
                            bitmap.height,
                            cx,
                            y,
                            fs,
                            fs,
                            alpha,
                            w,
                            h,
                        );
                        cursor = Self::advanced_pen(cursor, (fs as i128 + 2) * 1000);
                        count = count + 1;
                    },
                    None => {},
                }
            } else {
                let n = seg.text.as_str().unicode_len();
                let ghost fr = self@.frame;
                paint_text(self.frame_buffer.as_mut_slice(), n, cx, y, w, h, &faded, fs);
                proof {
                    lemma_text_painted_len(fr, n as int, cx as int, y as int, w, h, faded@, fs);
                }
                assert(n * (fs / 2) <= 0xFFFF_FFFF_FFFF_FFFF * 0xFFFF_FFFF) by (nonlinear_arith)
                    requires
                        n <= 0xFFFF_FFFF_FFFF_FFFF,
                        fs / 2 <= 0xFFFF_FFFF,
                ;
                let tw: i128 = (n as i128) * ((fs / 2) as i128);
                cursor = Self::advanced_pen(cursor, (tw + 2) * 1000);
            }
            j = j + 1;
        }
        (true, count)
    }

    /// The pen moved right by `d`, held at `PEN_LIMIT`.
    fn advanced_pen(cursor: i128, d: i128) -> (r: i128)
        requires
            cursor <= PEN_LIMIT,
            0 <= d <= 0x1_0000_0000_0000_0000_0000_0000_0000,
        ensures
            r == min(cursor + d, PEN_LIMIT as int),
    {
        if cursor + d > PEN_LIMIT {
            PEN_LIMIT
        } else {
            cursor + d
        }
    }

    /// Draws `obj`'s text alone, in its own colour, on a transparent buffer
    /// the size of the text; `None` for a dead barrage or a text measuring
    /// nothing or more than 4 MiB of pixels.
    pub fn render_barrage_to_buffer(&self, obj: &BarrageObject, _emoji_mgr: &mut EmojiManager) -> (r:
        Option<Vec<u8>>)
        requires
            obj.text@.len() * (obj.font_size / 2) <= u32::MAX,
            (obj.text@.len() * (obj.font_size / 2)) * obj.font_size * 4 <= u32::MAX,
        ensures
            ({
                let tw = obj.text@.len() * (obj.font_size / 2);
                let size = tw * obj.font_size * 4;
                if !obj.alive || size == 0 || size > 4 * 1024 * 1024 {
                    r is None
                } else {
                    r matches Some(b) && b@ == text_painted(
                        Seq::new(size as nat, |k: int| 0u8),
                        obj.text@.len() as int,
                        0,
                        0,
                        tw as u32,
                        obj.font_size,
                        unpacked(obj.color_rgba),
                        obj.font_size,
                    )
                }
            }),
    {
        if !obj.alive {
            return None;
        }
        let (tw, th) = BitmapFont::measure_text(obj.text.as_str(), obj.font_size);
        let buffer_size = (tw * th * 4) as usize;
        if buffer_size == 0 || buffer_size > 4 * 1024 * 1024 {
            return None;
        }
        let mut buffer: Vec<u8> = vec![0u8; buffer_size];
        assert(buffer@ =~= Seq::new(buffer_size as nat, |k: int| 0u8));
        let color = rgba_from_u32(obj.color_rgba);
        let n = obj.text.as_str().unicode_len();
        paint_text(buffer.as_mut_slice(), n, 0, 0, tw, th, &color, obj.font_size);
        Some(buffer)
    }

    /// Blits an emoji bitmap scaled to `dst_w` x `dst_h` at
    /// (`dst_x`, `dst_y`), its alpha scaled by `alpha` (thousandths).
    fn blit_emoji(
        &mut self,
        rgba_data: &[u8],
        src_w: u32,
        src_h: u32,
        dst_x: i32,
        dst_y: i32,
        dst_w: u32,
        dst_h: u32,
        alpha: u32,
    )
        requires
            old(self)@.wf(),
            alpha <= 1000,
        ensures
            final(self)@ == (RendererView {
                frame: blitted(
                    old(self)@.frame,
                    rgba_data@,
                    src_w as int,
                    src_h as int,
                    dst_x as int,
                    dst_y as int,
                    dst_w as int,
                    dst_h as int,
                    alpha,
                    old(self)@.width,
                    old(self)@.height,
                ),
                ..old(self)@
            }),
    {
        let w = self.canvas_width;
        let h = self.canvas_height;
        blit_into(
            self.frame_buffer.as_mut_slice(),
            rgba_data,
            src_w,
            src_h,
            dst_x as i128,
            dst_y as i128,
            dst_w,
            dst_h,
            alpha,
            w,
            h,
        );
    }

    /// Width and height of the canvas.
    pub fn dimensions(&self) -> (r: (u32, u32))
        ensures
            r == (self@.width, self@.height),
    {
        (self.canvas_width, self.canvas_height)
    }

    /// Copies the canvas into the front of `buffer`; `false`, with nothing
    /// copied, when `buffer` is shorter than the canvas.
    pub fn copy_frame(&self, buffer: &mut [u8]) -> (r: bool)
        ensures
            r == (old(buffer)@.len() >= self@.frame.len()),
            r ==> final(buffer)@ == self@.frame + old(buffer)@.skip(self@.frame.len() as int),
            !r ==> final(buffer)@ == old(buffer)@,
    {
        let n = self.frame_buffer.len();
        if buffer.len() < n {
            return false;
        }
        let mut i: usize = 0;
        while i < n
            invariant
                0 <= i <= n,
                n == self@.frame.len(),
                n <= buffer@.len(),
                buffer@.len() == old(buffer)@.len(),
                forall|k: int| 0 <= k < i ==> buffer@[k] == self@.frame[k],
                forall|k: int| i <= k < buffer@.len() ==> buffer@[k] == old(buffer)@[k],
            decreases n - i,
        {
            buffer[i] = self.frame_buffer[i];
            i = i + 1;
        }
        assert(buffer@ =~= self@.frame + old(buffer)@.skip(n as int));
        true
    }

    /// The statistics of the last frame.
    pub fn render_stats(&self) -> (r: RenderStats)
        ensures
            r == self@.stats,
    {
        self.stats
    }

    /// Resets the statistics.
    pub fn reset_stats(&mut self)
        ensures
            final(self)@ == (RendererView {
                stats: RenderStats { barrages_rendered: 0, emojis_rendered: 0, render_time_us: 0 },
                ..old(self)@
            }),
    {
        self.stats = RenderStats::default();
    }
}

/// Placeholder text rendering: every character is a filled cell half as wide
/// as the font size.
pub struct BitmapFont;

impl BitmapFont {
    /// Width and height of `text` at `font_size`: half the font size per
    /// character, and the font size.
    pub fn measure_text(text: &str, font_size: u32) -> (r: (u32, u32))
        requires
            text@.len() * (font_size / 2) <= u32::MAX,
        ensures
            r == ((text@.len() * (font_size / 2)) as u32, font_size),
    {
        let char_width = font_size / 2;
        if char_width == 0 {
            assert(text@.len() * (font_size / 2) == 0) by (nonlinear_arith)
                requires
                    font_size / 2 == 0,
            ;
            return (0, font_size);
        }
        assert(text@.len() <= text@.len() * (font_size / 2)) by (nonlinear_arith)
            requires
                font_size / 2 >= 1,
        ;
        let text_len = text.unicode_len() as u32;
        (text_len * char_width, font_size)
    }

    /// Draws `text` at (`x`, `y`) onto a `width` x `height` canvas: the
    /// inside of every character cell is blended with `color`.
    pub fn render_text(
        rgba: &mut [u8],
        text: &str,
        x: i32,
        y: i32,
        width: u32,
        height: u32,
        color: &[u8; 4],
        font_size: u32,
    )
        requires
            text_fits(text@.len() as int, x as int, y as int, font_size, width, height),
        ensures
            final(rgba)@ == text_painted(
                old(rgba)@,
                text@.len() as int,
                x as int,
                y as int,
                width,
                height,
                color@,
                font_size,
            ),
    {
        let n = text.unicode_len();
        paint_text(rgba, n, x as i128, y as i128, width, height, color, font_size);
    }

    /// Blends the inside of one glyph cell with `color`.
    fn paint_cell(
        rgba: &mut [u8],
        cx: i128,
        cy: i128,
        cw: u32,
        ch: u32,
        width: u32,
        height: u32,
        color: &[u8; 4],
    )
        requires
            -0x1_0000_0000_0000_0000_0000_0000 <= cx <= 0x1_0000_0000_0000_0000_0000_0000,
            -0x1_0000_0000_0000_0000_0000_0000 <= cy <= 0x1_0000_0000_0000_0000_0000_0000,
            width * height * 4 <= u32::MAX,
        ensures
            final(rgba)@ == cell_painted(
                old(rgba)@,
                cx as int,
                cy as int,
                cw as int,
                ch as int,
                width,
                height,
                color@,
            ),
    {
        let ghost old_buf = old(rgba)@;
        let len = rgba.len();
        let mut dy: u32 = 0;
        while dy < ch
            invariant
                0 <= dy <= ch,
                len == rgba@.len(),
                len == old_buf.len(),
                old_buf == old(rgba)@,
                -0x1_0000_0000_0000_0000_0000_0000 <= cx <= 0x1_0000_0000_0000_0000_0000_0000,
                -0x1_0000_0000_0000_0000_0000_0000 <= cy <= 0x1_0000_0000_0000_0000_0000_0000,
                width * height * 4 <= u32::MAX,
                forall|k: int|
                    0 <= k < len ==> #[trigger] rgba@[k] == cell_progress(
                        old_buf,
                        k,
                        cx as int,
                        cy as int,
                        cw as int,
                        ch as int,
                        width,
                        height,
                        color@,
                        dy as int,
                        0,
                    ),
            decreases ch - dy,
        {
            let mut dx: u32 = 0;
            while dx < cw
                invariant
                    0 <= dy < ch,
                    0 <= dx <= cw,
                    len == rgba@.len(),
                    len == old_buf.len(),
                    -0x1_0000_0000_0000_0000_0000_0000 <= cx <= 0x1_0000_0000_0000_0000_0000_0000,
                    -0x1_0000_0000_0000_0000_0000_0000 <= cy <= 0x1_0000_0000_0000_0000_0000_0000,
                    width * height * 4 <= u32::MAX,
                    forall|k: int|
                        0 <= k < len ==> #[trigger] rgba@[k] == cell_progress(
                            old_buf,
                            k,
                            cx as int,
                            cy as int,
                            cw as int,
                            ch as int,
                            width,
                            height,
                            color@,
                            dy as int,
                            dx as int,
                        ),
                decreases cw - dx,
            {
                let px: i128 = cx + dx as i128;
                let py: i128 = cy + dy as i128;
                let ghost before = rgba@;
                if px >= 0 && px < width as i128 && py >= 0 && py < height as i128 {
                    proof {
                        lemma_pixel_in_canvas(px as int, py as int, width as int, height as int);
                    }
                    let p: u64 = py as u64 * width as u64 + px as u64;
                    let idx = (p * 4) as usize;
                    let edge = dx == 0 || dx == cw - 1 || dy == 0 || dy == ch - 1;
                    let ghost written = idx + 3 < len && !edge;
                    if idx + 3 < len && !edge {
                        proof {
                            assert forall|c: int| 0 <= c < 4 implies #[trigger] rgba@[4 * p + c]
                                == old_buf[4 * p + c] by {
                                lemma_pixel_coords(4 * p + c, p as int, px as int, py as int, width as int);
                            }
                        }
                        assert(idx as int == 4 * p);
                        assert(rgba@[4 * p + 0] == old_buf[4 * p + 0]);
                        assert(rgba@[4 * p + 1] == old_buf[4 * p + 1]);
                        assert(rgba@[4 * p + 2] == old_buf[4 * p + 2]);
                        assert(rgba@[4 * p + 3] == old_buf[4 * p + 3]);
                        let bg: [u8; 4] = [rgba[idx], rgba[idx + 1], rgba[idx + 2], rgba[idx + 3]];
                        assert(bg@ =~= pixel_bytes(old_buf, p as int));
                        let blended = blend_alpha_fast(&bg, color);
                        rgba[idx] = blended[0];
                        rgba[idx + 1] = blended[1];
                        rgba[idx + 2] = blended[2];
                        rgba[idx + 3] = blended[3];
                        assert(forall|c: int| 0 <= c < 4 ==> rgba@[4 * p + c] == blended@[c]);
                    }
                    proof {
                        assert forall|k: int| 0 <= k < len implies #[trigger] rgba@[k] == cell_progress(
                            old_buf,
                            k,
                            cx as int,
                            cy as int,
                            cw as int,
                            ch as int,
                            width,
                            height,
                            color@,
                            dy as int,
                            dx + 1,
                        ) by {
                            let q = k / 4;
                            lemma_div_facts(q, width as int, height as int);
                            assert(before[k] == cell_progress(
                                old_buf,
                                k,
                                cx as int,
                                cy as int,
                                cw as int,
                                ch as int,
                                width,
                                height,
                                color@,
                                dy as int,
                                dx as int,
                            ));
                            if 4 * p <= k < 4 * p + 4 {
                                lemma_pixel_coords(k, p as int, px as int, py as int, width as int);
                            } else {
                                if q % (width as int) == px && q / (width as int) == py {
                                    lemma_same_pixel(q, width as int, px as int, py as int);
                                }
                            }
                        }
                    }
                } else {
                    proof {
                        assert forall|k: int| 0 <= k < len implies #[trigger] rgba@[k] == cell_progress(
                            old_buf,
                            k,
                            cx as int,
                            cy as int,
                            cw as int,
                            ch as int,
                            width,
                            height,
                            color@,
                            dy as int,
                            dx + 1,
                        ) by {
                            let q = k / 4;
                            if width > 0 {
                                lemma_div_facts(q, width as int, height as int);
                            }
                            assert(before[k] == cell_progress(
                                old_buf,
                                k,
                                cx as int,
                                cy as int,
                                cw as int,
                                ch as int,
                                width,
                                height,
                                color@,
                                dy as int,
                                dx as int,
                            ));
                        }
                    }
                }
                dx = dx + 1;
            }
            dy = dy + 1;
        }
        assert(rgba@ =~= cell_painted(
            old_buf,
            cx as int,
            cy as int,
            cw as int,
            ch as int,
            width,
            height,
            color@,
        ));
    }
}

/// Byte `k` of a glyph cell being drawn row by row, once rows before `dy`
/// and cells before `dx` of row `dy` are drawn.
pub open spec fn cell_progress(
    buf: Seq<u8>,
    k: int,
    cx: int,
    cy: int,
    cw: int,
    ch: int,
    w: u32,
    h: u32,
    color: Seq<u8>,
    dy: int,
    dx: int,
) -> u8 {
    let p = k / 4;
    let rx = p % (w as int) - cx;
    let ry = p / (w as int) - cy;
    if canvas_byte(k, w as int, h as int, buf.len() as int) && cell_interior(
        p % (w as int),
        p / (w as int),
        cx,
        cy,
        cw,
        ch,
    ) && (ry < dy || (ry == dy && rx < dx)) {
        blended_fast(pixel_bytes(buf, p), color)[k % 4]
    } else {
        buf[k]
    }
}

/// Draws the `n` glyph cells of a text at (`x`, `y`), left to right.
fn paint_text(
    rgba: &mut [u8],
    n: usize,
    x: i128,
    y: i128,
    width: u32,
    height: u32,
    color: &[u8; 4],
    font_size: u32,
)
    requires
        -0x1_0000_0000_0000_0000 <= x <= 0x1_0000_0000_0000_0000,
        -0x1_0000_0000_0000_0000 <= y <= 0x1_0000_0000_0000_0000,
        width * height * 4 <= u32::MAX,
    ensures
        final(rgba)@ == text_painted(
            old(rgba)@,
            n as int,
            x as int,
            y as int,
            width,
            height,
            color@,
            font_size,
        ),
{
    let char_width = font_size / 2;
    let mut i: usize = 0;
    while i < n
        invariant
            0 <= i <= n,
            char_width == font_size / 2,
            -0x1_0000_0000_0000_0000 <= x <= 0x1_0000_0000_0000_0000,
            -0x1_0000_0000_0000_0000 <= y <= 0x1_0000_0000_0000_0000,
            width * height * 4 <= u32::MAX,
            rgba@ == text_painted(
                old(rgba)@,
                i as int,
                x as int,
                y as int,
                width,
                height,
                color@,
                font_size,
            ),
        decreases n - i,
    {
        assert(0 <= i * char_width <= 0xFFFF_FFFF_FFFF_FFFF * 0xFFFF_FFFF) by (nonlinear_arith)
            requires
                i <= 0xFFFF_FFFF_FFFF_FFFF,
                char_width <= 0xFFFF_FFFF,
        ;
        let cx: i128 = x + (i as i128) * (char_width as i128);
        BitmapFont::paint_cell(rgba, cx, y, char_width, font_size, width, height, color);
        i = i + 1;
    }
}

/// Blits a `sw` x `sh` RGBA bitmap at (`x0`, `y0`) scaled to `dw` x `dh`
/// onto a `width` x `height` canvas, its alpha scaled by `alpha`
/// (thousandths); fully transparent samples are skipped.
fn blit_into(
    rgba: &mut [u8],
    data: &[u8],
    sw: u32,
    sh: u32,
    x0: i128,
    y0: i128,
    dw: u32,
    dh: u32,
    alpha: u32,
    width: u32,
    height: u32,
)
    requires
        -0x1_0000_0000_0000_0000_0000_0000 <= x0 <= 0x1_0000_0000_0000_0000_0000_0000,
        -0x1_0000_0000_0000_0000_0000_0000 <= y0 <= 0x1_0000_0000_0000_0000_0000_0000,
        width * height * 4 <= u32::MAX,
        alpha <= 1000,
    ensures
        final(rgba)@ == blitted(
            old(rgba)@,
            data@,
            sw as int,
            sh as int,
            x0 as int,
            y0 as int,
            dw as int,
            dh as int,
            alpha,
            width,
            height,
        ),
{
    let ghost old_buf = old(rgba)@;
    let len = rgba.len();
    let dlen = data.len();
    let mut dy: u32 = 0;
    while dy < dh
        invariant
            0 <= dy <= dh,
            len == rgba@.len(),
            len == old_buf.len(),
            dlen == data@.len(),
            -0x1_0000_0000_0000_0000_0000_0000 <= x0 <= 0x1_0000_0000_0000_0000_0000_0000,
            -0x1_0000_0000_0000_0000_0000_0000 <= y0 <= 0x1_0000_0000_0000_0000_0000_0000,
            width * height * 4 <= u32::MAX,
            alpha <= 1000,
            forall|k: int|
                0 <= k < len ==> #[trigger] rgba@[k] == blit_progress(
                    old_buf,
                    k,
                    data@,
                    sw as int,
                    sh as int,
                    x0 as int,
                    y0 as int,
                    dw as int,
                    dh as int,
                    alpha,
                    width,
                    height,
                    dy as int,
                    0,
                ),
        decreases dh - dy,
    {
        let mut dx: u32 = 0;
        while dx < dw
            invariant
                0 <= dy < dh,
                0 <= dx <= dw,
                len == rgba@.len(),
                len == old_buf.len(),
                dlen == data@.len(),
                -0x1_0000_0000_0000_0000_0000_0000 <= x0 <= 0x1_0000_0000_0000_0000_0000_0000,
                -0x1_0000_0000_0000_0000_0000_0000 <= y0 <= 0x1_0000_0000_0000_0000_0000_0000,
                width * height * 4 <= u32::MAX,
                alpha <= 1000,
                forall|k: int|
                    0 <= k < len ==> #[trigger] rgba@[k] == blit_progress(
                        old_buf,
                        k,
                        data@,
                        sw as int,
                        sh as int,
                        x0 as int,
                        y0 as int,
                        dw as int,
                        dh as int,
                        alpha,
                        width,
                        height,
                        dy as int,
                        dx as int,
                    ),
            decreases dw - dx,
        {
            let px: i128 = x0 + dx as i128;
            let py: i128 = y0 + dy as i128;
            let ghost before = rgba@;
            if px >= 0 && px < width as i128 && py >= 0 && py < height as i128 {
                proof {
                    lemma_pixel_in_canvas(px as int, py as int, width as int, height as int);
                }
                let p: u64 = py as u64 * width as u64 + px as u64;
                let idx = (p * 4) as usize;
                proof {
                    lemma_sample_bounds(dx as int, dy as int, sw as int, sh as int, dw as int, dh as int);
                }
                assert(dy * sh <= 0xFFFF_FFFF * 0xFFFF_FFFF && dx * sw <= 0xFFFF_FFFF * 0xFFFF_FFFF)
                    by (nonlinear_arith);
                let sy: u128 = dy as u128 * sh as u128 / dh as u128;
                let sx: u128 = dx as u128 * sw as u128 / dw as u128;
                let si: u128 = (sy * sw as u128 + sx) * 4;
                assert(si == sample_index(dx as int, dy as int, sw as int, sh as int, dw as int, dh as int));
                if idx + 3 < len && si + 3 < dlen as u128 {
                    let s = si as usize;
                    assert(data@[s + 3] * alpha <= 255 * 1000) by (nonlinear_arith)
                        requires
                            data@[s + 3] <= 255,
                            alpha <= 1000,
                    ;
                    let a: u32 = data[s + 3] as u32 * alpha / 1000;
                    if a != 0 {
                        assert(idx as int == 4 * p);
                        assert(rgba@[4 * p + 0] == old_buf[4 * p + 0]) by {
                            lemma_pixel_coords(4 * p + 0, p as int, px as int, py as int, width as int);
                        }
                        assert(rgba@[4 * p + 1] == old_buf[4 * p + 1]) by {
                            lemma_pixel_coords(4 * p + 1, p as int, px as int, py as int, width as int);
                        }
                        assert(rgba@[4 * p + 2] == old_buf[4 * p + 2]) by {
                            lemma_pixel_coords(4 * p + 2, p as int, px as int, py as int, width as int);
                        }
                        assert(rgba@[4 * p + 3] == old_buf[4 * p + 3]) by {
                            lemma_pixel_coords(4 * p + 3, p as int, px as int, py as int, width as int);
                        }
                        let bg: [u8; 4] = [rgba[idx], rgba[idx + 1], rgba[idx + 2], rgba[idx + 3]];
                        assert(bg@ =~= pixel_bytes(old_buf, p as int));
                        let fg: [u8; 4] = [data[s], data[s + 1], data[s + 2], a as u8];
                        assert(fg@ =~= emoji_fg(data@, si as int, alpha));
                        let blended = blend_alpha_fast(&bg, &fg);
                        rgba[idx] = blended[0];
                        rgba[idx + 1] = blended[1];
                        rgba[idx + 2] = blended[2];
                        rgba[idx + 3] = blended[3];
                        assert(forall|c: int| 0 <= c < 4 ==> rgba@[4 * p + c] == blended@[c]);
                    }
                }
                proof {
                    assert forall|k: int| 0 <= k < len implies #[trigger] rgba@[k] == blit_progress(
                        old_buf,
                        k,
                        data@,
                        sw as int,
                        sh as int,
                        x0 as int,
                        y0 as int,
                        dw as int,
                        dh as int,
                        alpha,
                        width,
                        height,
                        dy as int,
                        dx + 1,
                    ) by {
                        let q = k / 4;
                        lemma_div_facts(q, width as int, height as int);
                        assert(before[k] == blit_progress(
                            old_buf,
                            k,
                            data@,
                            sw as int,
                            sh as int,
                            x0 as int,
                            y0 as int,
                            dw as int,
                            dh as int,
                            alpha,
                            width,
                            height,
                            dy as int,
                            dx as int,
                        ));
                        if 4 * p <= k < 4 * p + 4 {
                            lemma_pixel_coords(k, p as int, px as int, py as int, width as int);
                        } else {
                            if q % (width as int) == px && q / (width as int) == py {
                                lemma_same_pixel(q, width as int, px as int, py as int);
                            }
                        }
                    }
                }
            } else {
                proof {
                    assert forall|k: int| 0 <= k < len implies #[trigger] rgba@[k] == blit_progress(
                        old_buf,
                        k,
                        data@,
                        sw as int,
                        sh as int,
                        x0 as int,
                        y0 as int,
                        dw as int,
                        dh as int,
                        alpha,
                        width,
                        height,
                        dy as int,
                        dx + 1,
                    ) by {
                        let q = k / 4;
                        if width > 0 {
                            lemma_div_facts(q, width as int, height as int);
                        }
                        assert(before[k] == blit_progress(
                            old_buf,
                            k,
                            data@,
                            sw as int,
                            sh as int,
                            x0 as int,
                            y0 as int,
                            dw as int,
                            dh as int,
                            alpha,
                            width,
                            height,
                            dy as int,
                            dx as int,
                        ));
                    }
                }
            }
            dx = dx + 1;
        }
        dy = dy + 1;
    }
    assert(rgba@ =~= blitted(
        old_buf,
        data@,
        sw as int,
        sh as int,
        x0 as int,
        y0 as int,
        dw as int,
        dh as int,
        alpha,
        width,
        height,
    ));
}

/// Drawing text keeps the buffer length.
proof fn lemma_text_painted_len(
    buf: Seq<u8>,
    n: int,
    x: int,
    y: int,
    w: u32,
    h: u32,
    color: Seq<u8>,
    font_size: u32,
)
    ensures
        text_painted(buf, n, x, y, w, h, color, font_size).len() == buf.len(),
    decreases n,
{
    if n > 0 {
        lemma_text_painted_len(buf, n - 1, x, y, w, h, color, font_size);
    }
}

/// The sampled source coordinates stay within the bitmap's extent.
proof fn lemma_sample_bounds(dx: int, dy: int, sw: int, sh: int, dw: int, dh: int)
    requires
        0 <= dx < dw,
        0 <= dy < dh,
        0 <= sw <= 0xFFFF_FFFF,
        0 <= sh <= 0xFFFF_FFFF,
    ensures
        0 <= dy * sh / dh <= sh,
        0 <= dx * sw / dw <= sw,
        0 <= (dy * sh / dh) * sw + dx * sw / dw <= 0xFFFF_FFFF * 0xFFFF_FFFF + 0xFFFF_FFFF,
{
    assert(0 <= dy * sh <= dh * sh) by (nonlinear_arith)
        requires
            0 <= dy < dh,
            0 <= sh,
    ;
    assert(0 <= dx * sw <= dw * sw) by (nonlinear_arith)
        requires
            0 <= dx < dw,
            0 <= sw,
    ;
    vstd::arithmetic::div_mod::lemma_div_is_ordered(dy * sh, dh * sh, dh);
    vstd::arithmetic::div_mod::lemma_div_is_ordered(dx * sw, dw * sw, dw);
    vstd::arithmetic::div_mod::lemma_div_pos_is_pos(dy * sh, dh);
    vstd::arithmetic::div_mod::lemma_div_pos_is_pos(dx * sw, dw);
    assert((dh * sh) / dh == sh) by {
        vstd::arithmetic::div_mod::lemma_div_by_multiple(sh, dh);
        assert(dh * sh == sh * dh) by (nonlinear_arith);
    }
    assert((dw * sw) / dw == sw) by {
        vstd::arithmetic::div_mod::lemma_div_by_multiple(sw, dw);
        assert(dw * sw == sw * dw) by (nonlinear_arith);
    }
    let a = dy * sh / dh;
    let b = dx * sw / dw;
    assert(0 <= a * sw + b <= 0xFFFF_FFFF * 0xFFFF_FFFF + 0xFFFF_FFFF) by (nonlinear_arith)
        requires
            0 <= a <= sh <= 0xFFFF_FFFF,
            0 <= b <= sw <= 0xFFFF_FFFF,
    ;
}

/// Division of a pixel index by the canvas width.
proof fn lemma_div_facts(q: int, w: int, h: int)
    requires
        q >= 0,
        w > 0,
    ensures
        0 <= q % w < w,
        q / w >= 0,
        q / w < h <==> q < w * h,
        q == (q / w) * w + q % w,
{
    lemma_fundamental_div_mod(q, w);
    assert(0 <= q % w < w && q / w >= 0 && (q / w < h <==> q < w * h) && q == (q / w) * w + q % w)
        by (nonlinear_arith)
        requires
            q >= 0,
            w > 0,
            q == w * (q / w) + (q % w),
            0 <= q % w < w || q % w < 0 || q % w >= w,
    {
        vstd::arithmetic::div_mod::lemma_mod_bound(q, w);
    }
}

/// Two pixel indices with the same coordinates are equal.
proof fn lemma_same_pixel(q: int, w: int, px: int, py: int)
    requires
        q >= 0,
        w > 0,
        q % w == px,
        q / w == py,
    ensures
        q == py * w + px,
{
    lemma_fundamental_div_mod(q, w);
    assert(w * py == py * w) by (nonlinear_arith);
}

/// Byte offset of the source pixel sampled for destination offset
/// (`dx`, `dy`) when a `sw` x `sh` bitmap is scaled to `dw` x `dh`
/// (nearest neighbour, rounding down).
pub open spec fn sample_index(dx: int, dy: int, sw: int, sh: int, dw: int, dh: int) -> int {
    ((dy * sh / dh) * sw + dx * sw / dw) * 4
}

/// The emoji colour at byte offset `i`, its alpha scaled by `alpha`
/// (thousandths).
pub open spec fn emoji_fg(data: Seq<u8>, i: int, alpha: u32) -> Seq<u8> {
    seq![data[i], data[i + 1], data[i + 2], (data[i + 3] * alpha / 1000) as u8]
}

/// Whether destination offset (`dx`, `dy`) samples a whole source pixel
/// that is not fully transparent.
pub open spec fn sample_shown(
    data: Seq<u8>,
    dx: int,
    dy: int,
    sw: int,
    sh: int,
    dw: int,
    dh: int,
    alpha: u32,
) -> bool {
    let i = sample_index(dx, dy, sw, sh, dw, dh);
    i + 3 < data.len() && data[i + 3] * alpha / 1000 != 0
}

/// Byte `k` of the canvas while a bitmap is blitted at (`x0`, `y0`) scaled
/// to `dw` x `dh`, once rows before `dy` and pixels before `dx` of row `dy`
/// are done.
pub open spec fn blit_progress(
    buf: Seq<u8>,
    k: int,
    data: Seq<u8>,
    sw: int,
    sh: int,
    x0: int,
    y0: int,
    dw: int,
    dh: int,
    alpha: u32,
    w: u32,
    h: u32,
    dy: int,
    dx: int,
) -> u8 {
    let p = k / 4;
    let rx = p % (w as int) - x0;
    let ry = p / (w as int) - y0;
    if canvas_byte(k, w as int, h as int, buf.len() as int) && 0 <= rx < dw && 0 <= ry < dh
        && sample_shown(data, rx, ry, sw, sh, dw, dh, alpha) && (ry < dy || (ry == dy && rx < dx)) {
        blended_fast(pixel_bytes(buf, p), emoji_fg(data, sample_index(rx, ry, sw, sh, dw, dh), alpha))[k
            % 4]
    } else {
        buf[k]
    }
}

/// `buf` with a `sw` x `sh` bitmap blitted at (`x0`, `y0`) scaled to
/// `dw` x `dh`.
pub open spec fn blitted(
    buf: Seq<u8>,
    data: Seq<u8>,
    sw: int,
    sh: int,
    x0: int,
    y0: int,
    dw: int,
    dh: int,
    alpha: u32,
    w: u32,
    h: u32,
) -> Seq<u8> {
    Seq::new(buf.len(), |k: int| blit_progress(buf, k, data, sw, sh, x0, y0, dw, dh, alpha, w, h, dh, 0))
}

/// A pixel inside the canvas has an index inside it.
proof fn lemma_pixel_in_canvas(px: int, py: int, w: int, h: int)
    requires
        0 <= px < w,
        0 <= py < h,
        w * h * 4 <= u32::MAX,
    ensures
        0 <= py * w + px < w * h,
        (py * w + px) * 4 + 3 <= u32::MAX,
{
    assert(py * w + px < w * h) by (nonlinear_arith)
        requires
            0 <= px < w,
            0 <= py < h,
    ;
    assert(0 <= py * w) by (nonlinear_arith)
        requires
            0 <= py,
            0 <= w,
    ;
}

/// The byte `k` of pixel `p = py * w + px` (with `px < w`) belongs to that
/// pixel, whose coordinates are recovered by division.
proof fn lemma_pixel_coords(k: int, p: int, px: int, py: int, w: int)
    requires
        0 <= px < w,
        0 <= py,
        p == py * w + px,
        4 * p <= k < 4 * p + 4,
    ensures
        k / 4 == p,
        k % 4 == k - 4 * p,
        p % w == px,
        p / w == py,
{
    lemma_fundamental_div_mod_converse(k, 4, p, k - 4 * p);
    lemma_fundamental_div_mod_converse(p, w, py, px);
}

/// Number of the first `n` barrages that are alive and drawn with an
/// alpha above one thousandth.
pub open spec fn visible_count(objs: Seq<BarrageObject>, n: int, global_alpha: u32) -> nat
    decreases n,
{
    if n <= 0 {
        0
    } else {
        visible_count(objs, n - 1, global_alpha) + if objs[n - 1].alive && draw_alpha(
            objs[n - 1],
            global_alpha,
        ) > 1 {
            1nat
        } else {
            0nat
        }
    }
}

/// A frame draws exactly the barrages that are alive with an alpha above
/// one thousandth, and when there is none the canvas (filled with the
/// background by `render`) and the emoji cache are left as they were.
pub proof fn law_render_counts_visible_barrages(
    frame: Seq<u8>,
    entries: Seq<(Seq<char>, BitmapView)>,
    objs: Seq<BarrageObject>,
    n: int,
    global_alpha: u32,
    w: u32,
    h: u32,
)
    requires
        0 <= n <= objs.len(),
    ensures
        frame_drawn(frame, entries, objs, n, global_alpha, w, h).2 == visible_count(objs, n, global_alpha),
        visible_count(objs, n, global_alpha) == 0 ==> frame_drawn(
            frame,
            entries,
            objs,
            n,
            global_alpha,
            w,
            h,
        ).0 == frame && frame_drawn(frame, entries, objs, n, global_alpha, w, h).1 == entries,
    decreases n,
{
    if n > 0 {
        law_render_counts_visible_barrages(frame, entries, objs, n - 1, global_alpha, w, h);
    }
}

} // verus!
