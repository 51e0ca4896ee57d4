//! The checks and bounds applied to requests of the host application
//! before they reach the engine: numeric track kinds, text length, font
//! size, alpha and duration of a sent barrage.
use vstd::prelude::*;

use std::sync::Arc;

use vstd::string::StringSliceAdditionalSpecFns;
use vstd::utf8::{
    encode_utf8, encode_utf8_valid_utf8, is_char_boundary, is_char_boundary_start_end_of_seq, valid_utf8,
};

use crate::config::{TextEffectConfig, TrackMode};
use crate::engine::BarrageMessage;
use crate::math::{clamp, clamp_u32, min, min_u32};

verus! {

/// Longest text of a sent barrage, in bytes.
pub const MAX_TEXT_BYTES: usize = 1024;

/// The track kind a number selects: 0 scroll, 1 top, 2 bottom, 3 reverse;
/// any other number scrolls.
pub open spec fn mode_of(track_type: i32) -> TrackMode {
    if track_type == 1 {
        TrackMode::Top
    } else if track_type == 2 {
        TrackMode::Bottom
    } else if track_type == 3 {
        TrackMode::Reverse
    } else {
        TrackMode::Scroll
    }
}

/// The track kind a number selects.
pub fn track_mode_of(track_type: i32) -> (r: TrackMode)
    ensures
        r == mode_of(track_type),
{
    match track_type {
        0 => TrackMode::Scroll,
        1 => TrackMode::Top,
        2 => TrackMode::Bottom,
        3 => TrackMode::Reverse,
        _ => TrackMode::Scroll,
    }
}

/// The last character boundary of `bytes` at or before `i` (0 at worst).
pub open spec fn last_boundary(bytes: Seq<u8>, i: int) -> int
    decreases i,
{
    if i <= 0 {
        0
    } else if is_char_boundary(bytes, i) {
        i
    } else {
        last_boundary(bytes, i - 1)
    }
}

/// The bytes of the text of a sent barrage: the text when it is at most
/// 1024 bytes long, else its bytes up to the last character boundary at
/// or before byte 1024.
pub open spec fn clipped_bytes(text: &str) -> Seq<u8> {
    if text.spec_bytes().len() <= 1024 {
        text.spec_bytes()
    } else {
        text.spec_bytes().subrange(0, last_boundary(text.spec_bytes(), 1024))
    }
}

/// The last boundary at or before `i` is a boundary, and no later index up
/// to `i` is one.
proof fn lemma_last_boundary(bytes: Seq<u8>, i: int)
    requires
        valid_utf8(bytes),
    ensures
        0 <= last_boundary(bytes, i),
        i >= 0 ==> last_boundary(bytes, i) <= i,
        is_char_boundary(bytes, last_boundary(bytes, i)),
        forall|j: int| last_boundary(bytes, i) < j <= i ==> !is_char_boundary(bytes, j),
    decreases i,
{
    if i > 0 && !is_char_boundary(bytes, i) {
        lemma_last_boundary(bytes, i - 1);
    }
}

/// The text of a sent barrage is the longest prefix of the text's bytes
/// that is at most 1024 bytes long and ends on a character boundary.
pub proof fn law_clipped_text_is_longest_boundary_prefix(text: &str)
    ensures
        clipped_bytes(text).len() <= 1024,
        clipped_bytes(text) == text.spec_bytes().subrange(0, clipped_bytes(text).len() as int),
        is_char_boundary(text.spec_bytes(), clipped_bytes(text).len() as int),
        forall|j: int|
            clipped_bytes(text).len() < j <= 1024 && j <= text.spec_bytes().len() ==> !is_char_boundary(
                text.spec_bytes(),
                j,
            ),
{
    let b = text.spec_bytes();
    encode_utf8_valid_utf8(text@);
    is_char_boundary_start_end_of_seq(b);
    lemma_last_boundary(b, 1024);
    if b.len() <= 1024 {
        assert(b.subrange(0, b.len() as int) =~= b);
    }
}

/// The text cut to its first 1024 bytes, moved back to the last character
/// boundary.
pub fn clipped_text(text: &str) -> (r: &str)
    ensures
        r.spec_bytes() == clipped_bytes(text),
        text.spec_bytes().len() <= 1024 ==> r@ == text@,
{
    if text.as_bytes().len() > MAX_TEXT_BYTES {
        proof {
            encode_utf8_valid_utf8(text@);
            lemma_last_boundary(text.spec_bytes(), 1024);
        }
        let mut cut: usize = MAX_TEXT_BYTES;
        while cut > 0 && !text.is_char_boundary(cut)
            invariant
                0 <= cut <= 1024,
                valid_utf8(text.spec_bytes()),
                last_boundary(text.spec_bytes(), cut as int) == last_boundary(text.spec_bytes(), 1024),
            decreases cut,
        {
            cut = cut - 1;
        }
        let (head, _tail) = text.split_at(cut);
        head
    } else {
        text
    }
}

/// The message a send request makes: none for an empty text; otherwise
/// the text cut to at most 1024 bytes on a character boundary, the track kind its number selects, the font
/// size bounded to 8..=120, the alpha (thousandths) to at most 1000 and the
/// duration to 100..=60000 ms, without segments.
pub fn send_request(
    text: &str,
    track_type: i32,
    color_rgba: u32,
    font_size: u32,
    alpha: u32,
    duration_ms: u32,
    effect_config: Option<Arc<TextEffectConfig>>,
) -> (r: Option<BarrageMessage>)
    ensures
        r is None <==> text@.len() == 0,
        r matches Some(m) ==> {
            &&& encode_utf8(m.text@) == clipped_bytes(text)
            &&& text.spec_bytes().len() <= 1024 ==> m.text@ == text@
            &&& m.segments@.len() == 0
            &&& m.track_type == mode_of(track_type)
            &&& m.color_rgba == color_rgba
            &&& m.font_size == clamp(font_size as int, 8, 120)
            &&& m.alpha == min(alpha as int, 1000)
            &&& m.duration_ms == clamp(duration_ms as int, 100, 60000)
            &&& m.effect_config == effect_config
        },
{
    if text.is_empty() {
        return None;
    }
    let cut = clipped_text(text);
    Some(
        BarrageMessage {
            text: cut.to_owned(),
            segments: Vec::new(),
            track_type: track_mode_of(track_type),
            color_rgba,
            font_size: clamp_u32(font_size, 8, 120),
            alpha: min_u32(alpha, 1000),
            duration_ms: clamp_u32(duration_ms, 100, 60000),
            effect_config,
        },
    )
}

} // verus!
