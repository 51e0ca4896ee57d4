//! Pixel helpers of the text effects: addressing RGBA pixels, reading and
//! writing them, the "over" blend, colour unpacking and the box blurs that
//! approximate a Gaussian blur. The effects themselves work in floating
//! point and live outside this library.
use vstd::prelude::*;

use vstd::arithmetic::div_mod::lemma_fundamental_div_mod_converse;

use crate::config::{ColorStop, GlowPreset, TextEffectConfig};
use crate::math::min;
use crate::utils::{blended, unpacked};

verus! {

/// Byte offset of pixel (`x`, `y`) in a buffer `width` pixels wide.
pub open spec fn pixel_offset(x: u32, y: u32, width: u32) -> int {
    (y * width + x) * 4
}

/// Byte offset of pixel (`x`, `y`) in a buffer `width` pixels wide.
pub fn pixel_index(x: u32, y: u32, width: u32) -> (r: usize)
    requires
        (y * width + x) * 4 <= u32::MAX,
    ensures
        r == pixel_offset(x, y, width),
{
    assert(y * width <= (y * width + x) * 4) by (nonlinear_arith)
        requires
            0 <= y * width,
    ;
    ((y * width + x) * 4) as usize
}

/// The four bytes of pixel (`x`, `y`).
pub fn get_pixel(rgba: &[u8], x: u32, y: u32, width: u32) -> (r: [u8; 4])
    requires
        (y * width + x) * 4 <= u32::MAX,
        pixel_offset(x, y, width) + 3 < rgba@.len(),
    ensures
        r@ == rgba@.subrange(pixel_offset(x, y, width), pixel_offset(x, y, width) + 4),
{
    let idx = pixel_index(x, y, width);
    let r: [u8; 4] = [rgba[idx], rgba[idx + 1], rgba[idx + 2], rgba[idx + 3]];
    assert(r@ =~= rgba@.subrange(idx as int, idx + 4));
    r
}

/// Writes `color` into pixel (`x`, `y`).
pub fn set_pixel(rgba: &mut [u8], x: u32, y: u32, width: u32, color: &[u8; 4])
    requires
        (y * width + x) * 4 <= u32::MAX,
        pixel_offset(x, y, width) + 3 < old(rgba)@.len(),
    ensures
        final(rgba)@ == old(rgba)@.subrange(0, pixel_offset(x, y, width)) + color@ + old(rgba)@.subrange(
            pixel_offset(x, y, width) + 4,
            old(rgba)@.len() as int,
        ),
{
    let idx = pixel_index(x, y, width);
    rgba[idx] = color[0];
    rgba[idx + 1] = color[1];
    rgba[idx + 2] = color[2];
    rgba[idx + 3] = color[3];
    assert(rgba@ =~= old(rgba)@.subrange(0, idx as int) + color@ + old(rgba)@.subrange(
        idx + 4,
        old(rgba)@.len() as int,
    ));
}

/// Whether pixel (`x`, `y`) is not fully transparent.
pub fn is_opaque(rgba: &[u8], x: u32, y: u32, width: u32) -> (r: bool)
    requires
        (y * width + x) * 4 <= u32::MAX,
        pixel_offset(x, y, width) + 3 < rgba@.len(),
    ensures
        r == (rgba@[pixel_offset(x, y, width) + 3] > 0),
{
    let idx = pixel_index(x, y, width) + 3;
    rgba[idx] > 0
}

/// The "over" blend of `fg` on `bg`.
pub fn blend_colors(bg: &[u8; 4], fg: &[u8; 4]) -> (r: [u8; 4])
    ensures
        r@ == blended(bg@, fg@),
{
    let f_a = fg[3] as u32;
    if f_a == 0 {
        return *bg;
    }
    if f_a == 255 {
        return *fg;
    }
    crate::utils::blend_alpha(bg, fg)
}

/// The channels `[r, g, b, a]` of a colour packed as `0xRRGGBBAA`.
pub fn rgba_u32_to_array(color: u32) -> (r: [u8; 4])
    ensures
        r@ == unpacked(color),
{
    crate::utils::rgba_from_u32(color)
}

/// The colour stops of a glow preset (positions in thousandths); none
/// without a preset.
pub open spec fn preset_stops(preset: GlowPreset) -> Seq<ColorStop> {
    match preset {
        GlowPreset::MonoBlue => seq![
            ColorStop { position: 0, rgba: 0x0044FF00 },
            ColorStop { position: 1000, rgba: 0x0044FF80 },
        ],
        GlowPreset::MonoRed => seq![
            ColorStop { position: 0, rgba: 0xFF004400 },
            ColorStop { position: 1000, rgba: 0xFF004480 },
        ],
        GlowPreset::MonoGreen => seq![
            ColorStop { position: 0, rgba: 0x00FF4400 },
            ColorStop { position: 1000, rgba: 0x00FF4480 },
        ],
        GlowPreset::MonoGold => seq![
            ColorStop { position: 0, rgba: 0xFFD70000 },
            ColorStop { position: 500, rgba: 0xFFA50040 },
            ColorStop { position: 1000, rgba: 0xFF8C0060 },
        ],
        GlowPreset::DuoBluePurple => seq![
            ColorStop { position: 0, rgba: 0x4444FF00 },
            ColorStop { position: 500, rgba: 0x8844FF40 },
            ColorStop { position: 1000, rgba: 0xFF44FF60 },
        ],
        GlowPreset::DuoRedOrange => seq![
            ColorStop { position: 0, rgba: 0xFF444400 },
            ColorStop { position: 500, rgba: 0xFF884440 },
            ColorStop { position: 1000, rgba: 0xFFAA4460 },
        ],
        GlowPreset::DuoCyanPink => seq![
            ColorStop { position: 0, rgba: 0x44FFFF00 },
            ColorStop { position: 500, rgba: 0xFF44FF40 },
            ColorStop { position: 1000, rgba: 0xFF88FF60 },
        ],
        GlowPreset::Rainbow => seq![
            ColorStop { position: 0, rgba: 0xFF0000FF },
            ColorStop { position: 170, rgba: 0xFFFF00FF },
            ColorStop { position: 330, rgba: 0x00FF00FF },
            ColorStop { position: 500, rgba: 0x00FFFFFF },
            ColorStop { position: 670, rgba: 0x0000FFFF },
            ColorStop { position: 830, rgba: 0x4B0082FF },
            ColorStop { position: 1000, rgba: 0x8F00FFFF },
        ],
        GlowPreset::NoPreset => Seq::empty(),
    }
}

/// The colour stops of a glow preset.
pub fn preset_color_stops(preset: GlowPreset) -> (r: Vec<ColorStop>)
    ensures
        r@ == preset_stops(preset),
{
    let r: Vec<ColorStop> = match preset {
        GlowPreset::MonoBlue => vec![
            ColorStop { position: 0, rgba: 0x0044FF00 },
            ColorStop { position: 1000, rgba: 0x0044FF80 },
        ],
        GlowPreset::MonoRed => vec![
            ColorStop { position: 0, rgba: 0xFF004400 },
            ColorStop { position: 1000, rgba: 0xFF004480 },
        ],
        GlowPreset::MonoGreen => vec![
            ColorStop { position: 0, rgba: 0x00FF4400 },
            ColorStop { position: 1000, rgba: 0x00FF4480 },
        ],
        GlowPreset::MonoGold => vec![
            ColorStop { position: 0, rgba: 0xFFD70000 },
            ColorStop { position: 500, rgba: 0xFFA50040 },
            ColorStop { position: 1000, rgba: 0xFF8C0060 },
        ],
        GlowPreset::DuoBluePurple => vec![
            ColorStop { position: 0, rgba: 0x4444FF00 },
            ColorStop { position: 500, rgba: 0x8844FF40 },
            ColorStop { position: 1000, rgba: 0xFF44FF60 },
        ],
        GlowPreset::DuoRedOrange => vec![
            ColorStop { position: 0, rgba: 0xFF444400 },
            ColorStop { position: 500, rgba: 0xFF884440 },
            ColorStop { position: 1000, rgba: 0xFFAA4460 },
        ],
        GlowPreset::DuoCyanPink => vec![
            ColorStop { position: 0, rgba: 0x44FFFF00 },
            ColorStop { position: 500, rgba: 0xFF44FF40 },
            ColorStop { position: 1000, rgba: 0xFF88FF60 },
        ],
        GlowPreset::Rainbow => vec![
            ColorStop { position: 0, rgba: 0xFF0000FF },
            ColorStop { position: 170, rgba: 0xFFFF00FF },
            ColorStop { position: 330, rgba: 0x00FF00FF },
            ColorStop { position: 500, rgba: 0x00FFFFFF },
            ColorStop { position: 670, rgba: 0x0000FFFF },
            ColorStop { position: 830, rgba: 0x4B0082FF },
            ColorStop { position: 1000, rgba: 0x8F00FFFF },
        ],
        GlowPreset::NoPreset => Vec::new(),
    };
    assert(r@ =~= preset_stops(preset));
    r
}

/// The first `n` custom stops, at most eight and at most as many as there are.
pub open spec fn custom_stops(stops: Seq<ColorStop>, n: u32) -> Seq<ColorStop> {
    stops.take(min(min(n as int, 8), stops.len() as int))
}

/// The stops of a glow: the preset's, else the custom ones.
pub open spec fn glow_stops_of(cfg: TextEffectConfig) -> Seq<ColorStop> {
    if cfg.glow_preset != GlowPreset::NoPreset {
        preset_stops(cfg.glow_preset)
    } else {
        custom_stops(cfg.glow_color_stops@, cfg.glow_color_stops_len)
    }
}

/// The stops of a gradient: the rainbow's, else the custom ones.
pub open spec fn gradient_stops_of(cfg: TextEffectConfig) -> Seq<ColorStop> {
    if cfg.rainbow_preset {
        preset_stops(GlowPreset::Rainbow)
    } else {
        custom_stops(cfg.gradient_color_stops@, cfg.gradient_color_stops_len)
    }
}

/// The first `n` of `stops`, at most eight.
fn first_stops(stops: &Vec<ColorStop>, n: u32) -> (r: Vec<ColorStop>)
    ensures
        r@ == custom_stops(stops@, n),
{
    let m: usize = if n > 8 {
        8
    } else {
        n as usize
    };
    let k: usize = if m < stops.len() {
        m
    } else {
        stops.len()
    };
    let mut r: Vec<ColorStop> = Vec::new();
    let mut i: usize = 0;
    while i < k
        invariant
            0 <= i <= k,
            k <= stops@.len(),
            r@ == stops@.take(i as int),
        decreases k - i,
    {
        r.push(stops[i]);
        i = i + 1;
        assert(r@ =~= stops@.take(i as int));
    }
    r
}

/// The colour stops of the configured glow.
pub fn glow_color_stops(config: &TextEffectConfig) -> (r: Vec<ColorStop>)
    ensures
        r@ == glow_stops_of(*config),
{
    if config.glow_preset != GlowPreset::NoPreset {
        preset_color_stops(config.glow_preset)
    } else {
        first_stops(&config.glow_color_stops, config.glow_color_stops_len)
    }
}

/// The colour stops of the configured gradient.
pub fn gradient_color_stops(config: &TextEffectConfig) -> (r: Vec<ColorStop>)
    ensures
        r@ == gradient_stops_of(*config),
{
    if config.rainbow_preset {
        preset_color_stops(GlowPreset::Rainbow)
    } else {
        first_stops(&config.gradient_color_stops, config.gradient_color_stops_len)
    }
}

/// Byte offset of pixel (`x`, `y`) of a buffer `w` pixels wide.
pub open spec fn offset_of(x: int, y: int, w: int) -> int {
    (y * w + x) * 4
}

/// First index of the window of radius `r` around `i`.
pub open spec fn win_lo(i: int, r: int) -> int {
    if i - r > 0 {
        i - r
    } else {
        0
    }
}

/// One past the last index of the window of radius `r` around `i`, in a
/// line of `n` pixels.
pub open spec fn win_hi(i: int, r: int, n: int) -> int {
    if i + r < n - 1 {
        i + r + 1
    } else {
        n
    }
}

/// Sum of channel `c` of the pixels `lo..hi` of row `y`.
pub open spec fn row_sum(buf: Seq<u8>, w: int, y: int, c: int, lo: int, hi: int) -> int
    decreases hi - lo,
{
    if hi <= lo {
        0
    } else {
        row_sum(buf, w, y, c, lo, hi - 1) + buf[offset_of(hi - 1, y, w) + c]
    }
}

/// Sum of channel `c` of the pixels `lo..hi` of column `x`.
pub open spec fn col_sum(buf: Seq<u8>, w: int, x: int, c: int, lo: int, hi: int) -> int
    decreases hi - lo,
{
    if hi <= lo {
        0
    } else {
        col_sum(buf, w, x, c, lo, hi - 1) + buf[offset_of(x, hi - 1, w) + c]
    }
}

/// `buf` (`w` x `h` RGBA) after a horizontal box blur of radius `r`: each
/// channel of each pixel becomes the truncated mean of that channel over the
/// pixels of its row at most `r` columns away.
pub open spec fn blurred_rows(buf: Seq<u8>, w: u32, h: u32, r: u32) -> Seq<u8> {
    Seq::new(
        buf.len(),
        |k: int|
            {
                let p = k / 4;
                let x = p % (w as int);
                let y = p / (w as int);
                let lo = win_lo(x, r as int);
                let hi = win_hi(x, r as int, w as int);
                (row_sum(buf, w as int, y, k % 4, lo, hi) / (hi - lo)) as u8
            },
    )
}

/// `buf` (`w` x `h` RGBA) after a vertical box blur of radius `r`: each
/// channel of each pixel becomes the truncated mean of that channel over the
/// pixels of its column at most `r` rows away.
pub open spec fn blurred_cols(buf: Seq<u8>, w: u32, h: u32, r: u32) -> Seq<u8> {
    Seq::new(
        buf.len(),
        |k: int|
            {
                let p = k / 4;
                let x = p % (w as int);
                let y = p / (w as int);
                let lo = win_lo(y, r as int);
                let hi = win_hi(y, r as int, h as int);
                (col_sum(buf, w as int, x, k % 4, lo, hi) / (hi - lo)) as u8
            },
    )
}

/// One horizontal then one vertical box blur.
pub open spec fn blur_pass(buf: Seq<u8>, w: u32, h: u32, r: u32) -> Seq<u8> {
    blurred_cols(blurred_rows(buf, w, h, r), w, h, r)
}

/// `n` blur passes.
pub open spec fn blur_passes(buf: Seq<u8>, w: u32, h: u32, r: u32, n: nat) -> Seq<u8>
    decreases n,
{
    if n == 0 {
        buf
    } else {
        blur_pass(blur_passes(buf, w, h, r, (n - 1) as nat), w, h, r)
    }
}

/// The approximate Gaussian blur: nothing for radius zero, else three
/// passes of a horizontal and a vertical box blur.
pub open spec fn gaussian_blurred(buf: Seq<u8>, w: u32, h: u32, r: u32) -> Seq<u8> {
    if r == 0 {
        buf
    } else {
        blur_pass(blur_pass(blur_pass(buf, w, h, r), w, h, r), w, h, r)
    }
}

/// Where the bytes of pixel (`x`, `y`) lie, and which pixel and channel a
/// byte of it is.
pub(crate) proof fn lemma_pixel_coords(w: int, h: int, x: int, y: int, c: int)
    requires
        0 <= x < w,
        0 <= y < h,
        0 <= c < 4,
    ensures
        0 <= y * w + x < w * h,
        offset_of(x, y, w) + 3 < w * h * 4,
        (offset_of(x, y, w) + c) / 4 == y * w + x,
        (offset_of(x, y, w) + c) % 4 == c,
        (y * w + x) % w == x,
        (y * w + x) / w == y,
{
    assert(0 <= y * w) by (nonlinear_arith)
        requires
            0 <= y,
            0 <= w,
    ;
    assert(y * w + x < w * h) by (nonlinear_arith)
        requires
            0 <= x < w,
            0 <= y < h,
    ;
    assert(w * h * 4 == (w * h) * 4);
    lemma_fundamental_div_mod_converse(offset_of(x, y, w) + c, 4, y * w + x, c);
    lemma_fundamental_div_mod_converse(y * w + x, w, y, x);
}

/// A row window of one colour sums to that colour times its width.
proof fn lemma_row_sum_uniform(buf: Seq<u8>, w: int, h: int, y: int, c: int, lo: int, hi: int, color: Seq<u8>)
    requires
        0 <= lo <= hi <= w,
        0 <= y < h,
        0 <= c < 4,
        color.len() == 4,
        buf.len() == w * h * 4,
        forall|k: int| 0 <= k < buf.len() ==> #[trigger] buf[k] == color[k % 4],
    ensures
        row_sum(buf, w, y, c, lo, hi) == color[c] * (hi - lo),
    decreases hi - lo,
{
    if hi > lo {
        lemma_row_sum_uniform(buf, w, h, y, c, lo, hi - 1, color);
        lemma_pixel_coords(w, h, hi - 1, y, c);
        assert(buf[offset_of(hi - 1, y, w) + c] == color[c]);
        assert(color[c] * (hi - lo) == color[c] * (hi - 1 - lo) + color[c]) by (nonlinear_arith);
    } else {
        assert(color[c] * (hi - lo) == 0) by (nonlinear_arith)
            requires
                hi == lo,
        ;
    }
}

/// A column window of one colour sums to that colour times its height.
proof fn lemma_col_sum_uniform(buf: Seq<u8>, w: int, h: int, x: int, c: int, lo: int, hi: int, color: Seq<u8>)
    requires
        0 <= lo <= hi <= h,
        0 <= x < w,
        0 <= c < 4,
        color.len() == 4,
        buf.len() == w * h * 4,
        forall|k: int| 0 <= k < buf.len() ==> #[trigger] buf[k] == color[k % 4],
    ensures
        col_sum(buf, w, x, c, lo, hi) == color[c] * (hi - lo),
    decreases hi - lo,
{
    if hi > lo {
        lemma_col_sum_uniform(buf, w, h, x, c, lo, hi - 1, color);
        lemma_pixel_coords(w, h, x, hi - 1, c);
        assert(buf[offset_of(x, hi - 1, w) + c] == color[c]);
        assert(color[c] * (hi - lo) == color[c] * (hi - 1 - lo) + color[c]) by (nonlinear_arith);
    } else {
        assert(color[c] * (hi - lo) == 0) by (nonlinear_arith)
            requires
                hi == lo,
        ;
    }
}

/// The mean of `n` copies of a value is the value.
proof fn lemma_mean_of_copies(v: int, n: int)
    requires
        n > 0,
    ensures
        (v * n) / n == v,
{
    assert((v * n) / n == v) by (nonlinear_arith)
        requires
            n > 0,
    ;
}

/// Blurring a buffer of one colour, horizontally or vertically, leaves it
/// as it is.
pub proof fn law_blur_keeps_uniform_color(buf: Seq<u8>, w: u32, h: u32, r: u32, color: Seq<u8>)
    requires
        color.len() == 4,
        buf.len() == w * h * 4,
        forall|k: int| 0 <= k < buf.len() ==> #[trigger] buf[k] == color[k % 4],
    ensures
        blurred_rows(buf, w, h, r) == buf,
        blurred_cols(buf, w, h, r) == buf,
{
    assert forall|k: int| 0 <= k < buf.len() implies #[trigger] blurred_rows(buf, w, h, r)[k] == buf[k] by {
        let p = k / 4;
        let x = p % (w as int);
        let y = p / (w as int);
        lemma_index_coords(k, w as int, h as int);
        let lo = win_lo(x, r as int);
        let hi = win_hi(x, r as int, w as int);
        lemma_row_sum_uniform(buf, w as int, h as int, y, k % 4, lo, hi, color);
        lemma_mean_of_copies(color[k % 4] as int, hi - lo);
    }
    assert forall|k: int| 0 <= k < buf.len() implies #[trigger] blurred_cols(buf, w, h, r)[k] == buf[k] by {
        let p = k / 4;
        let x = p % (w as int);
        let y = p / (w as int);
        lemma_index_coords(k, w as int, h as int);
        let lo = win_lo(y, r as int);
        let hi = win_hi(y, r as int, h as int);
        lemma_col_sum_uniform(buf, w as int, h as int, x, k % 4, lo, hi, color);
        lemma_mean_of_copies(color[k % 4] as int, hi - lo);
    }
    assert(blurred_rows(buf, w, h, r) =~= buf);
    assert(blurred_cols(buf, w, h, r) =~= buf);
}

/// A byte of a `w` x `h` buffer lies in pixel (`x`, `y`) inside the image.
proof fn lemma_index_coords(k: int, w: int, h: int)
    requires
        0 <= k < w * h * 4,
        w >= 0,
        h >= 0,
    ensures
        w > 0,
        0 <= (k / 4) % w < w,
        0 <= (k / 4) / w < h,
        0 <= k % 4 < 4,
{
    if w == 0 {
        assert(w * h * 4 == 0) by (nonlinear_arith)
            requires
                w == 0,
        ;
    }
    assert(k / 4 < w * h) by (nonlinear_arith)
        requires
            0 <= k < w * h * 4,
    ;
    assert((k / 4) / w < h) by (nonlinear_arith)
        requires
            0 <= k / 4 < w * h,
            w > 0,
    ;
}

/// Sum of channel `c` of the pixels `lo..hi` of row `y`.
fn row_window_sum(rgba: &[u8], width: u32, height: u32, y: u32, c: usize, lo: u32, hi: u32) -> (r: u64)
    requires
        width * height * 4 <= u32::MAX,
        rgba@.len() == width * height * 4,
        y < height,
        c < 4,
        lo <= hi <= width,
    ensures
        r == row_sum(rgba@, width as int, y as int, c as int, lo as int, hi as int),
        r <= 255 * (hi - lo),
{
    let mut s: u64 = 0;
    let mut kx: u32 = lo;
    while kx < hi
        invariant
            lo <= kx <= hi,
            hi <= width,
            y < height,
            c < 4,
            width * height * 4 <= u32::MAX,
            rgba@.len() == width * height * 4,
            s == row_sum(rgba@, width as int, y as int, c as int, lo as int, kx as int),
            s <= 255 * (kx - lo),
        decreases hi - kx,
    {
        proof {
            lemma_pixel_coords(width as int, height as int, kx as int, y as int, c as int);
        }
        let idx = pixel_index(kx, y, width);
        s = s + rgba[idx + c] as u64;
        kx = kx + 1;
    }
    s
}

/// Sum of channel `c` of the pixels `lo..hi` of column `x`.
fn col_window_sum(rgba: &[u8], width: u32, height: u32, x: u32, c: usize, lo: u32, hi: u32) -> (r: u64)
    requires
        width * height * 4 <= u32::MAX,
        rgba@.len() == width * height * 4,
        x < width,
        c < 4,
        lo <= hi <= height,
    ensures
        r == col_sum(rgba@, width as int, x as int, c as int, lo as int, hi as int),
        r <= 255 * (hi - lo),
{
    let mut s: u64 = 0;
    let mut ky: u32 = lo;
    while ky < hi
        invariant
            lo <= ky <= hi,
            hi <= height,
            x < width,
            c < 4,
            width * height * 4 <= u32::MAX,
            rgba@.len() == width * height * 4,
            s == col_sum(rgba@, width as int, x as int, c as int, lo as int, ky as int),
            s <= 255 * (ky - lo),
        decreases hi - ky,
    {
        proof {
            lemma_pixel_coords(width as int, height as int, x as int, ky as int, c as int);
        }
        let idx = pixel_index(x, ky, width);
        s = s + rgba[idx + c] as u64;
        ky = ky + 1;
    }
    s
}

/// The truncated mean of a window sum.
fn mean_of(sum: u64, count: u32) -> (r: u8)
    requires
        count > 0,
        sum <= 255 * count,
    ensures
        r == (sum as int) / (count as int),
{
    assert((sum as int) / (count as int) <= 255) by (nonlinear_arith)
        requires
            count > 0,
            sum <= 255 * count,
    ;
    (sum / count as u64) as u8
}

/// Horizontal box blur of radius `radius` of a `width` x `height` RGBA
/// buffer.
pub fn box_blur_horizontal(rgba: &mut [u8], width: u32, height: u32, radius: u32)
    requires
        width * height * 4 <= u32::MAX,
        old(rgba)@.len() == width * height * 4,
        width + radius <= 0x8000_0000,
    ensures
        final(rgba)@ == blurred_rows(old(rgba)@, width, height, radius),
{
    let len = rgba.len();
    let mut temp: Vec<u8> = vec![0u8; len];
    let ghost target = blurred_rows(old(rgba)@, width, height, radius);
    let mut y: u32 = 0;
    while y < height
        invariant
            0 <= y <= height,
            width * height * 4 <= u32::MAX,
            len == width * height * 4,
            rgba@ == old(rgba)@,
            old(rgba)@.len() == len,
            width + radius <= 0x8000_0000,
            target == blurred_rows(old(rgba)@, width, height, radius),
            temp@.len() == len,
            forall|k: int| 0 <= k < (y * width) * 4 ==> #[trigger] temp@[k] == target[k],
        decreases height - y,
    {
        let mut x: u32 = 0;
        while x < width
            invariant
                0 <= x <= width,
                y < height,
                width * height * 4 <= u32::MAX,
                len == width * height * 4,
                rgba@ == old(rgba)@,
                old(rgba)@.len() == len,
                width + radius <= 0x8000_0000,
                target == blurred_rows(old(rgba)@, width, height, radius),
                temp@.len() == len,
                forall|k: int| 0 <= k < (y * width + x) * 4 ==> #[trigger] temp@[k] == target[k],
            decreases width - x,
        {
            let lo: u32 = if x > radius {
                x - radius
            } else {
                0
            };
            let hi: u32 = if x + radius < width - 1 {
                x + radius + 1
            } else {
                width
            };
            proof {
                lemma_pixel_coords(width as int, height as int, x as int, y as int, 0);
            }
            let idx = pixel_index(x, y, width);
            let mut c: usize = 0;
            while c < 4
                invariant
                    0 <= c <= 4,
                    x < width,
                    y < height,
                    width * height * 4 <= u32::MAX,
                    len == width * height * 4,
                    rgba@ == old(rgba)@,
                    old(rgba)@.len() == len,
                    target == blurred_rows(old(rgba)@, width, height, radius),
                    temp@.len() == len,
                    idx == offset_of(x as int, y as int, width as int),
                    lo == win_lo(x as int, radius as int),
                    hi == win_hi(x as int, radius as int, width as int),
                    forall|k: int| 0 <= k < idx + c ==> #[trigger] temp@[k] == target[k],
                decreases 4 - c,
            {
                proof {
                    lemma_pixel_coords(width as int, height as int, x as int, y as int, c as int);
                }
                let s = row_window_sum(rgba, width, height, y, c, lo, hi);
                assert(target[idx + c] == (s as int / (hi - lo) as int) as u8);
                temp.set(idx + c, mean_of(s, hi - lo));
                c = c + 1;
            }
            x = x + 1;
        }
        assert((y + 1) * width == y * width + width) by (nonlinear_arith);
        y = y + 1;
    }
    assert(height * width == width * height) by (nonlinear_arith);
    let mut k: usize = 0;
    while k < len
        invariant
            0 <= k <= len,
            len == temp@.len(),
            rgba@.len() == len,
            forall|j: int| 0 <= j < len ==> #[trigger] temp@[j] == target[j],
            forall|j: int| 0 <= j < k ==> #[trigger] rgba@[j] == temp@[j],
        decreases len - k,
    {
        rgba[k] = temp[k];
        k = k + 1;
    }
    assert(rgba@ =~= target);
}

/// Vertical box blur of radius `radius` of a `width` x `height` RGBA
/// buffer.
pub fn box_blur_vertical(rgba: &mut [u8], width: u32, height: u32, radius: u32)
    requires
        width * height * 4 <= u32::MAX,
        old(rgba)@.len() == width * height * 4,
        height + radius <= 0x8000_0000,
    ensures
        final(rgba)@ == blurred_cols(old(rgba)@, width, height, radius),
{
    let len = rgba.len();
    let mut temp: Vec<u8> = vec![0u8; len];
    let ghost target = blurred_cols(old(rgba)@, width, height, radius);
    let mut y: u32 = 0;
    while y < height
        invariant
            0 <= y <= height,
            width * height * 4 <= u32::MAX,
            len == width * height * 4,
            rgba@ == old(rgba)@,
            old(rgba)@.len() == len,
            height + radius <= 0x8000_0000,
            target == blurred_cols(old(rgba)@, width, height, radius),
            temp@.len() == len,
            forall|k: int| 0 <= k < (y * width) * 4 ==> #[trigger] temp@[k] == target[k],
        decreases height - y,
    {
        let mut x: u32 = 0;
        while x < width
            invariant
                0 <= x <= width,
                y < height,
                width * height * 4 <= u32::MAX,
                len == width * height * 4,
                rgba@ == old(rgba)@,
                old(rgba)@.len() == len,
                height + radius <= 0x8000_0000,
                target == blurred_cols(old(rgba)@, width, height, radius),
                temp@.len() == len,
                forall|k: int| 0 <= k < (y * width + x) * 4 ==> #[trigger] temp@[k] == target[k],
            decreases width - x,
        {
            let lo: u32 = if y > radius {
                y - radius
            } else {
                0
            };
            let hi: u32 = if y + radius < height - 1 {
                y + radius + 1
            } else {
                height
            };
            proof {
                lemma_pixel_coords(width as int, height as int, x as int, y as int, 0);
            }
            let idx = pixel_index(x, y, width);
            let mut c: usize = 0;
            while c < 4
                invariant
                    0 <= c <= 4,
                    x < width,
                    y < height,
                    width * height * 4 <= u32::MAX,
                    len == width * height * 4,
                    rgba@ == old(rgba)@,
                    old(rgba)@.len() == len,
                    target == blurred_cols(old(rgba)@, width, height, radius),
                    temp@.len() == len,
                    idx == offset_of(x as int, y as int, width as int),
                    lo == win_lo(y as int, radius as int),
                    hi == win_hi(y as int, radius as int, height as int),
                    forall|k: int| 0 <= k < idx + c ==> #[trigger] temp@[k] == target[k],
                decreases 4 - c,
            {
                proof {
                    lemma_pixel_coords(width as int, height as int, x as int, y as int, c as int);
                }
                let s = col_window_sum(rgba, width, height, x, c, lo, hi);
                assert(target[idx + c] == (s as int / (hi - lo) as int) as u8);
                temp.set(idx + c, mean_of(s, hi - lo));
                c = c + 1;
            }
            x = x + 1;
        }
        assert((y + 1) * width == y * width + width) by (nonlinear_arith);
        y = y + 1;
    }
    assert(height * width == width * height) by (nonlinear_arith);
    let mut k: usize = 0;
    while k < len
        invariant
            0 <= k <= len,
            len == temp@.len(),
            rgba@.len() == len,
            forall|j: int| 0 <= j < len ==> #[trigger] temp@[j] == target[j],
            forall|j: int| 0 <= j < k ==> #[trigger] rgba@[j] == temp@[j],
        decreases len - k,
    {
        rgba[k] = temp[k];
        k = k + 1;
    }
    assert(rgba@ =~= target);
}

/// Approximate Gaussian blur of radius `radius`: three passes of a
/// horizontal and a vertical box blur; nothing for radius zero.
pub fn gaussian_blur(rgba: &mut [u8], width: u32, height: u32, radius: u32)
    requires
        width * height * 4 <= u32::MAX,
        old(rgba)@.len() == width * height * 4,
        width + radius <= 0x8000_0000,
        height + radius <= 0x8000_0000,
    ensures
        final(rgba)@ == gaussian_blurred(old(rgba)@, width, height, radius),
{
    if radius == 0 {
        return ;
    }
    let mut pass: u32 = 0;
    while pass < 3
        invariant
            0 <= pass <= 3,
            radius != 0,
            width * height * 4 <= u32::MAX,
            rgba@.len() == width * height * 4,
            width + radius <= 0x8000_0000,
            height + radius <= 0x8000_0000,
            rgba@ == blur_passes(old(rgba)@, width, height, radius, pass as nat),
        decreases 3 - pass,
    {
        box_blur_horizontal(rgba, width, height, radius);
        box_blur_vertical(rgba, width, height, radius);
        pass = pass + 1;
    }
    proof {
        reveal_with_fuel(blur_passes, 4);
    }
}

/// The four bytes of pixel `p` of `buf`.
pub open spec fn pixel_of(buf: Seq<u8>, p: int) -> Seq<u8> {
    buf.subrange(4 * p, 4 * p + 4)
}

/// `buf` with `layer` drawn under its first `n` bytes (whole pixels): each
/// pixel becomes the "over" blend of the buffer's pixel on the layer's.
pub open spec fn composited_under(buf: Seq<u8>, layer: Seq<u8>, n: int) -> Seq<u8> {
    Seq::new(
        buf.len(),
        |k: int|
            if k < n {
                blended(pixel_of(layer, k / 4), pixel_of(buf, k / 4))[k % 4]
            } else {
                buf[k]
            },
    )
}

/// Draws `layer` under the `width` x `height` RGBA pixels of `rgba`.
pub fn composite_under(rgba: &mut [u8], layer: &[u8], width: u32, height: u32)
    requires
        width * height * 4 <= u32::MAX,
        old(rgba)@.len() >= width * height * 4,
        layer@.len() >= width * height * 4,
    ensures
        final(rgba)@ == composited_under(old(rgba)@, layer@, width * height * 4),
{
    let len = (width * height * 4) as usize;
    let ghost target = composited_under(old(rgba)@, layer@, len as int);
    proof {
        lemma_fundamental_div_mod_converse(len as int, 4, (width * height) as int, 0);
    }
    let mut i: usize = 0;
    while i < len
        invariant
            0 <= i <= len,
            i % 4 == 0,
            len % 4 == 0,
            len <= rgba@.len(),
            len <= layer@.len(),
            rgba@.len() == old(rgba)@.len(),
            target == composited_under(old(rgba)@, layer@, len as int),
            forall|k: int| 0 <= k < i ==> #[trigger] rgba@[k] == target[k],
            forall|k: int| i <= k < rgba@.len() ==> #[trigger] rgba@[k] == old(rgba)@[k],
        decreases len - i,
    {
        let bg: [u8; 4] = [layer[i], layer[i + 1], layer[i + 2], layer[i + 3]];
        let fg: [u8; 4] = [rgba[i], rgba[i + 1], rgba[i + 2], rgba[i + 3]];
        let b = blend_colors(&bg, &fg);
        proof {
            let p = i / 4;
            assert(bg@ =~= pixel_of(layer@, p as int));
            assert(fg@ =~= pixel_of(old(rgba)@, p as int));
            assert forall|c: int| 0 <= c < 4 implies (#[trigger] (i + c)) / 4 == p && (i + c) % 4 == c by {
                lemma_fundamental_div_mod_converse(i + c, 4, p as int, c);
            }
            assert(target[i as int] == b@[0]);
            assert(target[i + 1] == b@[1]) by {
                assert((i + 1) / 4 == p && (i + 1) % 4 == 1);
            }
            assert(target[i + 2] == b@[2]) by {
                assert((i + 2) / 4 == p && (i + 2) % 4 == 2);
            }
            assert(target[i + 3] == b@[3]) by {
                assert((i + 3) / 4 == p && (i + 3) % 4 == 3);
            }
        }
        rgba[i] = b[0];
        rgba[i + 1] = b[1];
        rgba[i + 2] = b[2];
        rgba[i + 3] = b[3];
        i = i + 4;
    }
    assert(rgba@ =~= target);
}

/// One layer of a layered shadow over a `w` x `h` RGBA buffer: a pixel
/// whose source pixel, (`ox`, `oy`) before it, lies inside the buffer and
/// is visible takes the shadow colour, with alpha `source alpha * shadow
/// alpha / 255 / layers` (at most 255); every other pixel is transparent.
pub open spec fn shadow_layer_of(
    buf: Seq<u8>,
    w: u32,
    h: u32,
    ox: int,
    oy: int,
    color: Seq<u8>,
    layers: u32,
) -> Seq<u8> {
    Seq::new(
        (w * h * 4) as nat,
        |k: int|
            {
                let p = k / 4;
                let sx = p % (w as int) - ox;
                let sy = p / (w as int) - oy;
                if 0 <= sx < w && 0 <= sy < h && buf[offset_of(sx, sy, w as int) + 3] > 0 {
                    if k % 4 < 3 {
                        color[k % 4]
                    } else {
                        min(buf[offset_of(sx, sy, w as int) + 3] * color[3] / 255 / (layers as int), 255) as u8
                    }
                } else {
                    0
                }
            },
    )
}

/// One layer of a layered shadow (see `shadow_layer_of`): the buffer's
/// visible pixels moved by (`offset_x`, `offset_y`) in the shadow colour.
pub fn shadow_layer(
    rgba: &[u8],
    width: u32,
    height: u32,
    offset_x: i32,
    offset_y: i32,
    color: &[u8; 4],
    layers: u32,
) -> (r: Vec<u8>)
    requires
        width * height * 4 <= u32::MAX,
        rgba@.len() >= width * height * 4,
        layers > 0,
    ensures
        r@ == shadow_layer_of(rgba@, width, height, offset_x as int, offset_y as int, color@, layers),
{
    let len = (width * height * 4) as usize;
    let mut out: Vec<u8> = vec![0u8; len];
    let ghost target = shadow_layer_of(rgba@, width, height, offset_x as int, offset_y as int, color@, layers);
    let mut y: u32 = 0;
    while y < height
        invariant
            0 <= y <= height,
            width * height * 4 <= u32::MAX,
            len == width * height * 4,
            rgba@.len() >= len,
            layers > 0,
            out@.len() == len,
            target == shadow_layer_of(rgba@, width, height, offset_x as int, offset_y as int, color@, layers),
            forall|k: int| 0 <= k < (y * width) * 4 ==> #[trigger] out@[k] == target[k],
        decreases height - y,
    {
        let mut x: u32 = 0;
        while x < width
            invariant
                0 <= x <= width,
                y < height,
                width * height * 4 <= u32::MAX,
                len == width * height * 4,
                rgba@.len() >= len,
                layers > 0,
                out@.len() == len,
                target == shadow_layer_of(rgba@, width, height, offset_x as int, offset_y as int, color@, layers),
                forall|k: int| 0 <= k < (y * width + x) * 4 ==> #[trigger] out@[k] == target[k],
            decreases width - x,
        {
            proof {
                lemma_pixel_coords(width as int, height as int, x as int, y as int, 0);
            }
            let idx = pixel_index(x, y, width);
            let sx: i64 = x as i64 - offset_x as i64;
            let sy: i64 = y as i64 - offset_y as i64;
            let mut px: [u8; 4] = [0, 0, 0, 0];
            if 0 <= sx && sx < width as i64 && 0 <= sy && sy < height as i64 {
                proof {
                    lemma_pixel_coords(width as int, height as int, sx as int, sy as int, 3);
                }
                let src = pixel_index(sx as u32, sy as u32, width);
                let alpha = rgba[src + 3];
                if alpha > 0 {
                    assert(alpha * color[3] <= 255 * 255) by (nonlinear_arith)
                        requires
                            alpha <= 255,
                            color[3] <= 255,
                    ;
                    let add: u32 = (alpha as u32 * color[3] as u32) / 255 / layers;
                    let a: u32 = if add > 255 {
                        255
                    } else {
                        add
                    };
                    px = [color[0], color[1], color[2], a as u8];
                }
            }
            let mut c: usize = 0;
            while c < 4
                invariant
                    0 <= c <= 4,
                    x < width,
                    y < height,
                    width * height * 4 <= u32::MAX,
                    len == width * height * 4,
                    out@.len() == len,
                    idx == offset_of(x as int, y as int, width as int),
                    idx + 3 < len,
                    sx == x - offset_x,
                    sy == y - offset_y,
                    target == shadow_layer_of(rgba@, width, height, offset_x as int, offset_y as int, color@, layers),
                    forall|j: int|
                        0 <= j < 4 ==> #[trigger] px@[j] == (if 0 <= sx < width && 0 <= sy < height
                            && rgba@[offset_of(sx as int, sy as int, width as int) + 3] > 0 {
                            if j < 3 {
                                color@[j]
                            } else {
                                min(
                                    rgba@[offset_of(sx as int, sy as int, width as int) + 3] * color@[3] / 255
                                        / (layers as int),
                                    255,
                                ) as u8
                            }
                        } else {
                            0u8
                        }),
                    forall|k: int| 0 <= k < idx + c ==> #[trigger] out@[k] == target[k],
                decreases 4 - c,
            {
                proof {
                    lemma_pixel_coords(width as int, height as int, x as int, y as int, c as int);
                }
                out.set(idx + c, px[c]);
                c = c + 1;
            }
            x = x + 1;
        }
        assert((y + 1) * width == y * width + width) by (nonlinear_arith);
        y = y + 1;
    }
    assert(height * width == width * height) by (nonlinear_arith);
    assert(out@ =~= target);
    out
}

/// Whether the pixel (`dx`, `dy`) away from (`x`, `y`) lies within distance
/// `r` (Euclidean), inside the `w` x `h` buffer, and is visible.
pub open spec fn visible_near(buf: Seq<u8>, w: int, h: int, x: int, y: int, r: int, dx: int, dy: int) -> bool {
    &&& -r <= dx <= r
    &&& -r <= dy <= r
    &&& dx * dx + dy * dy <= r * r
    &&& 0 <= x + dx < w
    &&& 0 <= y + dy < h
    &&& buf[offset_of(x + dx, y + dy, w) + 3] > 0
}

/// Whether a visible pixel lies within distance `r` of (`x`, `y`).
pub open spec fn near_visible(buf: Seq<u8>, w: int, h: int, x: int, y: int, r: int) -> bool {
    exists|dx: int, dy: int| #[trigger] visible_near(buf, w, h, x, y, r, dx, dy)
}

/// The hard-edged outline layer of width `r` of a `w` x `h` RGBA buffer: a
/// transparent pixel within distance `r` of a visible one takes the outline
/// colour; every other pixel is transparent.
pub open spec fn outline_layer_of(buf: Seq<u8>, w: u32, h: u32, r: u32, color: Seq<u8>) -> Seq<u8> {
    Seq::new(
        (w * h * 4) as nat,
        |k: int|
            {
                let p = k / 4;
                let x = p % (w as int);
                let y = p / (w as int);
                if buf[offset_of(x, y, w as int) + 3] == 0 && near_visible(buf, w as int, h as int, x, y, r as int) {
                    color[k % 4]
                } else {
                    0
                }
            },
    )
}

/// Whether a visible pixel lies within distance `r` of (`x`, `y`),
/// searching row by row and stopping at the first.
fn find_visible_near(rgba: &[u8], width: u32, height: u32, x: u32, y: u32, r: u32) -> (found: bool)
    requires
        width * height * 4 <= u32::MAX,
        rgba@.len() >= width * height * 4,
        x < width,
        y < height,
        r <= 16,
    ensures
        found == near_visible(rgba@, width as int, height as int, x as int, y as int, r as int),
{
    let ri = r as i64;
    let mut dy: i64 = -ri;
    while dy <= ri
        invariant
            -ri <= dy <= ri + 1,
            ri == r,
            r <= 16,
            x < width,
            y < height,
            width * height * 4 <= u32::MAX,
            rgba@.len() >= width * height * 4,
            forall|ddx: int, ddy: int|
                -ri <= ddy < dy ==> !#[trigger] visible_near(
                    rgba@,
                    width as int,
                    height as int,
                    x as int,
                    y as int,
                    r as int,
                    ddx,
                    ddy,
                ),
        decreases ri + 1 - dy,
    {
        let mut dx: i64 = -ri;
        while dx <= ri
            invariant
                -ri <= dx <= ri + 1,
                -ri <= dy <= ri,
                ri == r,
                r <= 16,
                x < width,
                y < height,
                width * height * 4 <= u32::MAX,
                rgba@.len() >= width * height * 4,
                forall|ddx: int, ddy: int|
                    -ri <= ddy < dy ==> !#[trigger] visible_near(
                        rgba@,
                        width as int,
                        height as int,
                        x as int,
                        y as int,
                        r as int,
                        ddx,
                        ddy,
                    ),
                forall|ddx: int|
                    ddx < dx ==> !#[trigger] visible_near(
                        rgba@,
                        width as int,
                        height as int,
                        x as int,
                        y as int,
                        r as int,
                        ddx,
                        dy as int,
                    ),
            decreases ri + 1 - dx,
        {
            assert(0 <= dx * dx <= 256 && 0 <= dy * dy <= 256 && 0 <= ri * ri <= 256) by (nonlinear_arith)
                requires
                    -16 <= dx <= 16,
                    -16 <= dy <= 16,
                    0 <= ri <= 16,
            ;
            let nx: i64 = x as i64 + dx;
            let ny: i64 = y as i64 + dy;
            if dx * dx + dy * dy <= ri * ri && 0 <= nx && nx < width as i64 && 0 <= ny && ny < height as i64 {
                proof {
                    lemma_pixel_coords(width as int, height as int, nx as int, ny as int, 3);
                }
                let idx = pixel_index(nx as u32, ny as u32, width);
                if rgba[idx + 3] > 0 {
                    assert(visible_near(
                        rgba@,
                        width as int,
                        height as int,
                        x as int,
                        y as int,
                        r as int,
                        dx as int,
                        dy as int,
                    ));
                    return true;
                }
            }
            dx = dx + 1;
        }
        dy = dy + 1;
    }
    assert forall|ddx: int, ddy: int|
        !#[trigger] visible_near(rgba@, width as int, height as int, x as int, y as int, r as int, ddx, ddy) by {
        if -ri <= ddy <= ri {
        }
    }
    false
}

/// The hard-edged outline layer of width `r` (see `outline_layer_of`).
pub fn outline_layer(rgba: &[u8], width: u32, height: u32, r: u32, color: &[u8; 4]) -> (out: Vec<u8>)
    requires
        width * height * 4 <= u32::MAX,
        rgba@.len() >= width * height * 4,
        r <= 16,
    ensures
        out@ == outline_layer_of(rgba@, width, height, r, color@),
{
    let len = (width * height * 4) as usize;
    let mut out: Vec<u8> = vec![0u8; len];
    let ghost target = outline_layer_of(rgba@, width, height, r, color@);
    let mut y: u32 = 0;
    while y < height
        invariant
            0 <= y <= height,
            width * height * 4 <= u32::MAX,
            len == width * height * 4,
            rgba@.len() >= len,
            r <= 16,
            out@.len() == len,
            target == outline_layer_of(rgba@, width, height, r, color@),
            forall|k: int| 0 <= k < (y * width) * 4 ==> #[trigger] out@[k] == target[k],
        decreases height - y,
    {
        let mut x: u32 = 0;
        while x < width
            invariant
                0 <= x <= width,
                y < height,
                width * height * 4 <= u32::MAX,
                len == width * height * 4,
                rgba@.len() >= len,
                r <= 16,
                out@.len() == len,
                target == outline_layer_of(rgba@, width, height, r, color@),
                forall|k: int| 0 <= k < (y * width + x) * 4 ==> #[trigger] out@[k] == target[k],
            decreases width - x,
        {
            proof {
                lemma_pixel_coords(width as int, height as int, x as int, y as int, 3);
            }
            let idx = pixel_index(x, y, width);
            let outlined = rgba[idx + 3] == 0 && find_visible_near(rgba, width, height, x, y, r);
            let mut c: usize = 0;
            while c < 4
                invariant
                    0 <= c <= 4,
                    x < width,
                    y < height,
                    width * height * 4 <= u32::MAX,
                    len == width * height * 4,
                    rgba@.len() >= len,
                    out@.len() == len,
                    idx == offset_of(x as int, y as int, width as int),
                    idx + 3 < len,
                    outlined == (rgba@[idx + 3] == 0 && near_visible(
                        rgba@,
                        width as int,
                        height as int,
                        x as int,
                        y as int,
                        r as int,
                    )),
                    target == outline_layer_of(rgba@, width, height, r, color@),
                    forall|k: int| 0 <= k < idx + c ==> #[trigger] out@[k] == target[k],
                decreases 4 - c,
            {
                proof {
                    lemma_pixel_coords(width as int, height as int, x as int, y as int, c as int);
                }
                out.set(idx + c, if outlined { color[c] } else { 0 });
                c = c + 1;
            }
            x = x + 1;
        }
        assert((y + 1) * width == y * width + width) by (nonlinear_arith);
        y = y + 1;
    }
    assert(height * width == width * height) by (nonlinear_arith);
    assert(out@ =~= target);
    out
}

} // verus!
