//! Pixel and colour helpers: alpha blending of RGBA pixels, rectangle
//! clipping, nearest-neighbour scaling, packing RGBA into `u32` and back;
//! and the wall clock in milliseconds.
use vstd::prelude::*;

use std::time::{SystemTime, SystemTimeError, UNIX_EPOCH};

use crate::clock::whole_millis;
use crate::math::{max, min};
use crate::text_effect::{lemma_pixel_coords, offset_of};

verus! {

#[verifier::external_type_specification]
#[verifier::external_body]
pub struct ExSystemTime(SystemTime);

#[verifier::external_type_specification]
#[verifier::external_body]
pub struct ExSystemTimeError(SystemTimeError);

/// One colour channel of the "over" blend of a foreground channel `f` of
/// alpha `fa` on a background channel `b` of alpha `ba`, given the output
/// alpha `oa`.
pub open spec fn blend_channel(b: u8, ba: u8, f: u8, fa: u8, oa: int) -> u8 {
    min((f * fa + b * ba * (255 - fa) / 255) / oa, 255) as u8
}

/// The "over" blend of foreground `f` on background `b` (RGBA): an opaque
/// foreground wins, a transparent one leaves the background; else the
/// output alpha is `fa + ba - ba * fa / 255`.
pub open spec fn blended(b: Seq<u8>, f: Seq<u8>) -> Seq<u8>
    recommends
        b.len() == 4,
        f.len() == 4,
{
    if f[3] == 255 {
        f
    } else if f[3] == 0 {
        b
    } else {
        let oa: int = f[3] + b[3] - b[3] * f[3] / 255;
        if oa == 0 {
            seq![0u8, 0u8, 0u8, 0u8]
        } else {
            seq![
                blend_channel(b[0], b[3], f[0], f[3], oa),
                blend_channel(b[1], b[3], f[1], f[3], oa),
                blend_channel(b[2], b[3], f[2], f[3], oa),
                min(oa, 255) as u8,
            ]
        }
    }
}

/// The alpha-weighted average of foreground `f` and background `b`: an
/// opaque foreground wins; a transparent background gives the foreground, a
/// transparent foreground the background.
pub open spec fn blended_fast(b: Seq<u8>, f: Seq<u8>) -> Seq<u8>
    recommends
        b.len() == 4,
        f.len() == 4,
{
    if f[3] == 255 {
        f
    } else if b[3] == 0 {
        f
    } else if f[3] == 0 {
        b
    } else {
        let t: int = b[3] + f[3];
        seq![
            min((b[0] * b[3] + f[0] * f[3]) / t, 255) as u8,
            min((b[1] * b[3] + f[1] * f[3]) / t, 255) as u8,
            min((b[2] * b[3] + f[2] * f[3]) / t, 255) as u8,
            min(t, 255) as u8,
        ]
    }
}

/// The part of the rectangle at (`sx`, `sy`) of size `sw` x `sh` inside a
/// `cw` x `ch` canvas, as `(x, y, w, h)`; `None` when nothing is inside.
/// The far edges are computed in `i32`, as `sx + sw as i32` and `cw as i32`.
pub open spec fn clipped(sx: i32, sy: i32, sw: u32, sh: u32, cw: u32, ch: u32) -> Option<
    (u32, u32, u32, u32),
> {
    let x = max(sx as int, 0);
    let y = max(sy as int, 0);
    let right = max(min(sx + (sw as i32), (cw as i32) as int), 0);
    let bottom = max(min(sy + (sh as i32), (ch as i32) as int), 0);
    if x >= right || y >= bottom {
        None
    } else {
        Some((x as u32, y as u32, (right - x) as u32, (bottom - y) as u32))
    }
}

/// The channels `[r, g, b, a]` of a colour packed as `0xRRGGBBAA`.
pub open spec fn unpacked(color: u32) -> Seq<u8> {
    seq![
        ((color >> 24) & 0xFF) as u8,
        ((color >> 16) & 0xFF) as u8,
        ((color >> 8) & 0xFF) as u8,
        (color & 0xFF) as u8,
    ]
}

/// A colour `[r, g, b, a]` packed as `0xRRGGBBAA`.
pub open spec fn packed(c: Seq<u8>) -> u32
    recommends
        c.len() == 4,
{
    ((c[0] as u32) << 24) | ((c[1] as u32) << 16) | ((c[2] as u32) << 8) | (c[3] as u32)
}

/// Blends foreground `frgba` over background `brgba`.
pub fn blend_alpha(brgba: &[u8; 4], frgba: &[u8; 4]) -> (r: [u8; 4])
    ensures
        r@ == blended(brgba@, frgba@),
{
    let b_r = brgba[0] as u32;
    let b_g = brgba[1] as u32;
    let b_b = brgba[2] as u32;
    let b_a = brgba[3] as u32;
    let f_r = frgba[0] as u32;
    let f_g = frgba[1] as u32;
    let f_b = frgba[2] as u32;
    let f_a = frgba[3] as u32;
    if f_a == 255 {
        return *frgba;
    }
    if f_a == 0 {
        return *brgba;
    }
    assert(b_a * f_a <= 255 * 255) by (nonlinear_arith)
        requires
            b_a <= 255,
            f_a <= 255,
    ;
    assert(b_a * f_a / 255 <= b_a) by (nonlinear_arith)
        requires
            f_a <= 255,
    ;
    let out_a = f_a + b_a - (b_a * f_a) / 255;
    if out_a == 0 {
        let z: [u8; 4] = [0, 0, 0, 0];
        assert(z@ =~= seq![0u8, 0u8, 0u8, 0u8]);
        return z;
    }
    let out_r = blend_one(b_r, b_a, f_r, f_a, out_a);
    let out_g = blend_one(b_g, b_a, f_g, f_a, out_a);
    let out_b = blend_one(b_b, b_a, f_b, f_a, out_a);
    let oa: u8 = if out_a > 255 {
        255
    } else {
        out_a as u8
    };
    let r: [u8; 4] = [out_r, out_g, out_b, oa];
    assert(r@ =~= blended(brgba@, frgba@));
    r
}

/// One colour channel of the "over" blend.
fn blend_one(b: u32, ba: u32, f: u32, fa: u32, oa: u32) -> (r: u8)
    requires
        b <= 255,
        ba <= 255,
        f <= 255,
        1 <= fa <= 254,
        oa >= 1,
    ensures
        r == blend_channel(b as u8, ba as u8, f as u8, fa as u8, oa as int),
{
    assert(f * fa <= 255 * 255 && b * ba <= 255 * 255) by (nonlinear_arith)
        requires
            b <= 255,
            ba <= 255,
            f <= 255,
            fa <= 255,
    ;
    assert(b * ba * (255 - fa) <= 255 * 255 * 255) by (nonlinear_arith)
        requires
            b * ba <= 255 * 255,
            fa <= 255,
    ;
    let v = ((f * fa) + (b * ba * (255 - fa)) / 255) / oa;
    if v > 255 {
        255
    } else {
        v as u8
    }
}

/// Blends foreground `frgba` with background `brgba` by alpha-weighted
/// average.
pub fn blend_alpha_fast(brgba: &[u8; 4], frgba: &[u8; 4]) -> (r: [u8; 4])
    ensures
        r@ == blended_fast(brgba@, frgba@),
{
    let b_a = brgba[3] as u32;
    let f_a = frgba[3] as u32;
    if f_a == 255 {
        return *frgba;
    }
    if f_a == 0 || b_a == 0 {
        if b_a == 0 {
            return *frgba;
        }
        return *brgba;
    }
    let total_a = b_a + f_a;
    let out_r = weighted(brgba[0] as u32, b_a, frgba[0] as u32, f_a);
    let out_g = weighted(brgba[1] as u32, b_a, frgba[1] as u32, f_a);
    let out_b = weighted(brgba[2] as u32, b_a, frgba[2] as u32, f_a);
    let out_a: u8 = if total_a > 255 {
        255
    } else {
        total_a as u8
    };
    let r: [u8; 4] = [out_r, out_g, out_b, out_a];
    assert(r@ =~= blended_fast(brgba@, frgba@));
    r
}

/// The alpha-weighted average of two channels, bounded to 255.
fn weighted(b: u32, ba: u32, f: u32, fa: u32) -> (r: u8)
    requires
        b <= 255,
        ba <= 255,
        f <= 255,
        fa <= 255,
        ba + fa >= 1,
    ensures
        r == min((b * ba + f * fa) / (ba + fa) as int, 255),
{
    assert(b * ba <= 255 * 255 && f * fa <= 255 * 255) by (nonlinear_arith)
        requires
            b <= 255,
            ba <= 255,
            f <= 255,
            fa <= 255,
    ;
    let v = (b * ba + f * fa) / (ba + fa);
    if v > 255 {
        255
    } else {
        v as u8
    }
}

/// Clips the rectangle at (`sx`, `sy`) of size `sw` x `sh` to a `cw` x `ch`
/// canvas.
pub fn clip_rect(sx: i32, sy: i32, sw: u32, sh: u32, cw: u32, ch: u32) -> (r: Option<
    (u32, u32, u32, u32),
>)
    requires
        i32::MIN <= sx + (sw as i32) <= i32::MAX,
        i32::MIN <= sy + (sh as i32) <= i32::MAX,
    ensures
        r == clipped(sx, sy, sw, sh, cw, ch),
{
    let x: i32 = if sx > 0 {
        sx
    } else {
        0
    };
    let y: i32 = if sy > 0 {
        sy
    } else {
        0
    };
    let r0: i32 = sx + sw as i32;
    let r1: i32 = if r0 < cw as i32 {
        r0
    } else {
        cw as i32
    };
    let right: i32 = if r1 > 0 {
        r1
    } else {
        0
    };
    let b0: i32 = sy + sh as i32;
    let b1: i32 = if b0 < ch as i32 {
        b0
    } else {
        ch as i32
    };
    let bottom: i32 = if b1 > 0 {
        b1
    } else {
        0
    };
    if x >= right || y >= bottom {
        return None;
    }
    Some((x as u32, y as u32, (right - x) as u32, (bottom - y) as u32))
}

/// The source line sampled for destination line `d` when `s` lines are
/// scaled to `n`: the one under the centre of `d`, `floor((d + 1/2) * s / n)`,
/// at most the last.
pub open spec fn nearest_line(d: int, s: int, n: int) -> int {
    min((2 * d + 1) * s / (2 * n), s - 1)
}

/// `dst` after scaling the `sw` x `sh` image `src` to `dw` x `dh` into its
/// first `dw * dh * 4` bytes with nearest-neighbour sampling; unchanged when
/// it is shorter than that.
pub open spec fn resized(src: Seq<u8>, sw: u32, sh: u32, dst: Seq<u8>, dw: u32, dh: u32) -> Seq<u8> {
    if dst.len() < dw * dh * 4 {
        dst
    } else {
        Seq::new(
            dst.len(),
            |k: int|
                if k < dw * dh * 4 {
                    let p = k / 4;
                    let sx = nearest_line(p % (dw as int), sw as int, dw as int);
                    let sy = nearest_line(p / (dw as int), sh as int, dh as int);
                    src[offset_of(sx, sy, sw as int) + k % 4]
                } else {
                    dst[k]
                },
        )
    }
}

/// Scales the `src_w` x `src_h` RGBA image `src` to `dst_w` x `dst_h` into
/// `dst` with nearest-neighbour sampling; nothing happens when `dst` is too
/// short.
pub fn resize_nearest(src: &[u8], src_w: u32, src_h: u32, dst: &mut [u8], dst_w: u32, dst_h: u32)
    requires
        dst_w * dst_h * 4 <= u32::MAX,
        src_w * src_h * 4 <= u32::MAX,
        dst_h > 0 ==> src_h > 0,
        dst_w > 0 && dst_h > 0 ==> src_w > 0,
        src@.len() >= src_w * src_h * 4,
    ensures
        final(dst)@ == resized(src@, src_w, src_h, old(dst)@, dst_w, dst_h),
{
    let dst_len = (dst_w * dst_h * 4) as usize;
    if dst.len() < dst_len {
        return ;
    }
    let ghost target = resized(src@, src_w, src_h, old(dst)@, dst_w, dst_h);
    let mut dy: u32 = 0;
    while dy < dst_h
        invariant
            0 <= dy <= dst_h,
            dst_w * dst_h * 4 <= u32::MAX,
            src_w * src_h * 4 <= u32::MAX,
            dst_h > 0 ==> src_h > 0,
            dst_w > 0 && dst_h > 0 ==> src_w > 0,
            src@.len() >= src_w * src_h * 4,
            dst_len == dst_w * dst_h * 4,
            dst@.len() == old(dst)@.len(),
            dst@.len() >= dst_len,
            target == resized(src@, src_w, src_h, old(dst)@, dst_w, dst_h),
            forall|k: int| 0 <= k < (dy * dst_w) * 4 ==> #[trigger] dst@[k] == target[k],
            forall|k: int| dst_len <= k < dst@.len() ==> #[trigger] dst@[k] == old(dst)@[k],
        decreases dst_h - dy,
    {
        assert((2 * dy + 1) * src_h <= 0x3_0000_0000 * 0x1_0000_0000) by (nonlinear_arith)
            requires
                dy < 0x1_0000_0000,
                src_h < 0x1_0000_0000,
        ;
        let sy128: u128 = (2 * dy as u128 + 1) * src_h as u128 / (2 * dst_h as u128);
        let sy: u32 = if sy128 < src_h as u128 {
            sy128 as u32
        } else {
            src_h - 1
        };
        let mut dx: u32 = 0;
        while dx < dst_w
            invariant
                0 <= dx <= dst_w,
                dy < dst_h,
                dst_w * dst_h * 4 <= u32::MAX,
                src_w * src_h * 4 <= u32::MAX,
                src_h > 0,
                dst_w > 0 ==> src_w > 0,
                src@.len() >= src_w * src_h * 4,
                dst_len == dst_w * dst_h * 4,
                dst@.len() == old(dst)@.len(),
                dst@.len() >= dst_len,
                target == resized(src@, src_w, src_h, old(dst)@, dst_w, dst_h),
                sy == nearest_line(dy as int, src_h as int, dst_h as int),
                sy < src_h,
                forall|k: int| 0 <= k < (dy * dst_w + dx) * 4 ==> #[trigger] dst@[k] == target[k],
                forall|k: int| dst_len <= k < dst@.len() ==> #[trigger] dst@[k] == old(dst)@[k],
            decreases dst_w - dx,
        {
            assert((2 * dx + 1) * src_w <= 0x3_0000_0000 * 0x1_0000_0000) by (nonlinear_arith)
                requires
                    dx < 0x1_0000_0000,
                    src_w < 0x1_0000_0000,
            ;
            let sx128: u128 = (2 * dx as u128 + 1) * src_w as u128 / (2 * dst_w as u128);
            let sx: u32 = if sx128 < src_w as u128 {
                sx128 as u32
            } else {
                src_w - 1
            };
            proof {
                lemma_pixel_coords(src_w as int, src_h as int, sx as int, sy as int, 0);
                lemma_pixel_coords(dst_w as int, dst_h as int, dx as int, dy as int, 0);
            }
            let src_idx = ((sy * src_w + sx) * 4) as usize;
            let dst_idx = ((dy * dst_w + dx) * 4) as usize;
            let mut c: usize = 0;
            while c < 4
                invariant
                    0 <= c <= 4,
                    dx < dst_w,
                    dy < dst_h,
                    src_idx == offset_of(sx as int, sy as int, src_w as int),
                    dst_idx == offset_of(dx as int, dy as int, dst_w as int),
                    src_idx + 3 < src@.len(),
                    dst_idx + 3 < dst_len,
                    dst_len == dst_w * dst_h * 4,
                    dst@.len() == old(dst)@.len(),
                    dst@.len() >= dst_len,
                    target == resized(src@, src_w, src_h, old(dst)@, dst_w, dst_h),
                    sy == nearest_line(dy as int, src_h as int, dst_h as int),
                    sx == nearest_line(dx as int, src_w as int, dst_w as int),
                    forall|k: int| 0 <= k < dst_idx + c ==> #[trigger] dst@[k] == target[k],
                    forall|k: int| dst_len <= k < dst@.len() ==> #[trigger] dst@[k] == old(dst)@[k],
                decreases 4 - c,
            {
                proof {
                    lemma_pixel_coords(dst_w as int, dst_h as int, dx as int, dy as int, c as int);
                }
                dst[dst_idx + c] = src[src_idx + c];
                c = c + 1;
            }
            dx = dx + 1;
        }
        assert((dy + 1) * dst_w == dy * dst_w + dst_w) by (nonlinear_arith);
        dy = dy + 1;
    }
    assert(dst_h * dst_w == dst_w * dst_h) by (nonlinear_arith);
    assert(dst@ =~= target);
}

/// The channels `[r, g, b, a]` of a colour packed as `0xRRGGBBAA`.
pub fn rgba_from_u32(color: u32) -> (r: [u8; 4])
    ensures
        r@ == unpacked(color),
{
    let r: [u8; 4] = [
        ((color >> 24) & 0xFF) as u8,
        ((color >> 16) & 0xFF) as u8,
        ((color >> 8) & 0xFF) as u8,
        (color & 0xFF) as u8,
    ];
    assert(r@ =~= unpacked(color));
    r
}

/// A colour `[r, g, b, a]` packed as `0xRRGGBBAA`.
pub fn rgba_to_u32(rgba: &[u8; 4]) -> (r: u32)
    ensures
        r == packed(rgba@),
{
    ((rgba[0] as u32) << 24) | ((rgba[1] as u32) << 16) | ((rgba[2] as u32) << 8) | (rgba[3] as u32)
}

/// Calls `SystemTime::now`. Nothing is claimed of the reading: it is the
/// machine's wall clock.
#[verifier::external_body]
pub(crate) fn system_now() -> (r: SystemTime) {
    SystemTime::now()
}

/// Calls `SystemTime::duration_since` with the Unix epoch: the time since
/// the epoch, or an error for a clock set before it. Nothing is claimed of
/// the reading.
#[verifier::external_body]
pub(crate) fn since_unix_epoch(t: &SystemTime) -> (r: Result<std::time::Duration, SystemTimeError>) {
    t.duration_since(UNIX_EPOCH)
}

/// The wall clock in milliseconds since the Unix epoch; 0 for a clock set
/// before the epoch.
pub fn current_time_ms() -> (r: u64) {
    let now = system_now();
    match since_unix_epoch(&now) {
        Ok(d) => #[verifier::truncate] (whole_millis(&d) as u64),
        Err(_) => 0,
    }
}

/// Unpacking a packed colour gives back its channels.
pub proof fn law_pack_then_unpack(c: Seq<u8>)
    requires
        c.len() == 4,
    ensures
        unpacked(packed(c)) == c,
{
    let (a, b, d, e) = (c[0], c[1], c[2], c[3]);
    assert(((((a as u32) << 24) | ((b as u32) << 16) | ((d as u32) << 8) | (e as u32)) >> 24) & 0xFF
        == a as u32) by (bit_vector);
    assert(((((a as u32) << 24) | ((b as u32) << 16) | ((d as u32) << 8) | (e as u32)) >> 16) & 0xFF
        == b as u32) by (bit_vector);
    assert(((((a as u32) << 24) | ((b as u32) << 16) | ((d as u32) << 8) | (e as u32)) >> 8) & 0xFF
        == d as u32) by (bit_vector);
    assert((((a as u32) << 24) | ((b as u32) << 16) | ((d as u32) << 8) | (e as u32)) & 0xFF == e as u32)
        by (bit_vector);
    assert(unpacked(packed(c)) =~= c);
}

/// Packing the channels of a colour gives back the colour.
pub proof fn law_unpack_then_pack(color: u32)
    ensures
        packed(unpacked(color)) == color,
{
    assert(((((color >> 24) & 0xFF) as u8 as u32) << 24) | ((((color >> 16) & 0xFF) as u8 as u32)
        << 16) | ((((color >> 8) & 0xFF) as u8 as u32) << 8) | (((color & 0xFF) as u8) as u32)
        == color) by (bit_vector);
}

} // verus!
