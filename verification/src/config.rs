//! Engine configuration: track, filter, text-effect, emoji-cache and global
//! settings, each with its defaults and a `validate` that bounds every
//! numeric field to its legal range.
use vstd::prelude::*;

use crate::text::{before_nul, keyword_list, same_text, split_keywords, views};
use crate::math::{clamp, clamp_i32, clamp_u32, clamp_u64, max, max_u32, min, min_u32};

verus! {

/// How a track moves its barrages.
#[derive(Debug, Clone, Copy, PartialEq, Eq, Structural)]
pub enum TrackMode {
    /// Scrolls from right to left (the default).
    Scroll,
    /// Fixed near the top of the canvas.
    Top,
    /// Fixed near the bottom of the canvas.
    Bottom,
    /// Scrolls from left to right.
    Reverse,
}

/// What a full track does with a new barrage.
#[derive(Debug, Clone, Copy, PartialEq, Eq, Structural)]
pub enum CongestionStrategy {
    /// The barrage waits in the track's pending queue.
    Queue,
    /// The barrage is discarded.
    Drop,
}

/// Settings of one track.
#[derive(Debug, Clone, Copy)]
pub struct BarrageTrackConfig {
    pub mode: TrackMode,
    pub congestion_strategy: CongestionStrategy,
    /// Most barrages shown at once (1..=100, default 10).
    pub max_concurrent: u32,
    /// Track height in pixels (16..=200, default 40).
    pub track_height: u32,
    /// Gap between barrages in pixels (0..=100, default 10).
    pub spacing: u32,
    /// Scroll speed in thousandths of a pixel per second
    /// (20_000..=2_000_000, default 200_000).
    pub scroll_speed: u32,
}

impl Default for BarrageTrackConfig {
    fn default() -> (r: Self)
        ensures
            r.mode == TrackMode::Scroll,
            r.congestion_strategy == CongestionStrategy::Queue,
            r.max_concurrent == 10,
            r.track_height == 40,
            r.spacing == 10,
            r.scroll_speed == 200_000,
    {
        BarrageTrackConfig {
            mode: TrackMode::Scroll,
            congestion_strategy: CongestionStrategy::Queue,
            max_concurrent: 10,
            track_height: 40,
            spacing: 10,
            scroll_speed: 200_000,
        }
    }
}

impl BarrageTrackConfig {
    /// The configuration with every numeric field bounded to its range.
    pub open spec fn validated(self) -> BarrageTrackConfig {
        BarrageTrackConfig {
            max_concurrent: clamp(self.max_concurrent as int, 1, 100) as u32,
            track_height: clamp(self.track_height as int, 16, 200) as u32,
            spacing: min(self.spacing as int, 100) as u32,
            scroll_speed: clamp(self.scroll_speed as int, 20_000, 2_000_000) as u32,
            ..self
        }
    }

    /// Bounds every numeric field to its legal range.
    pub fn validate(&mut self)
        ensures
            *final(self) == old(self).validated(),
    {
        self.max_concurrent = clamp_u32(self.max_concurrent, 1, 100);
        self.track_height = clamp_u32(self.track_height, 16, 200);
        self.spacing = min_u32(self.spacing, 100);
        self.scroll_speed = clamp_u32(self.scroll_speed, 20_000, 2_000_000);
    }
}

/// Settings of the barrage filter.
#[derive(Debug, Clone)]
pub struct BarrageFilterConfig {
    /// Whether the keyword blacklist is applied.
    pub keyword_blacklist_enabled: bool,
    /// Comma separated blacklist keywords (`None` when absent).
    pub keyword_data: Option<String>,
    /// Length of the keyword data; zero means "no keywords".
    pub keyword_len: u32,
    /// Whether barrages shorter than `min_duration_ms` are dropped.
    pub short_duration_filter_enabled: bool,
    /// Shortest accepted duration in milliseconds (default 500, at most 30000).
    pub min_duration_ms: u32,
    /// Whether every barrage gets `global_font_size`.
    pub global_font_size_enabled: bool,
    /// Global font size in pixels (8..=120, default 28).
    pub global_font_size: u32,
    /// Whether every barrage's alpha is scaled by `global_alpha`.
    pub global_alpha_enabled: bool,
    /// Global alpha in thousandths (0..=1000, default 1000).
    pub global_alpha: u32,
    pub enable_scroll: bool,
    pub enable_top: bool,
    pub enable_bottom: bool,
    pub enable_reverse: bool,
}

impl Default for BarrageFilterConfig {
    fn default() -> (r: Self)
        ensures
            r == BarrageFilterConfig::default_spec(),
    {
        BarrageFilterConfig {
            keyword_blacklist_enabled: false,
            keyword_data: None,
            keyword_len: 0,
            short_duration_filter_enabled: false,
            min_duration_ms: 500,
            global_font_size_enabled: false,
            global_font_size: 28,
            global_alpha_enabled: false,
            global_alpha: 1000,
            enable_scroll: true,
            enable_top: true,
            enable_bottom: true,
            enable_reverse: true,
        }
    }
}

impl BarrageFilterConfig {
    /// The default filter configuration: every kind enabled, nothing
    /// filtered, no keywords, font size 28, alpha 1000.
    pub open spec fn default_spec() -> BarrageFilterConfig {
        BarrageFilterConfig {
            keyword_blacklist_enabled: false,
            keyword_data: None,
            keyword_len: 0,
            short_duration_filter_enabled: false,
            min_duration_ms: 500,
            global_font_size_enabled: false,
            global_font_size: 28,
            global_alpha_enabled: false,
            global_alpha: 1000,
            enable_scroll: true,
            enable_top: true,
            enable_bottom: true,
            enable_reverse: true,
        }
    }

    /// The configuration with every numeric field bounded to its range.
    pub open spec fn validated(self) -> BarrageFilterConfig {
        BarrageFilterConfig {
            min_duration_ms: min(self.min_duration_ms as int, 30000) as u32,
            global_font_size: clamp(self.global_font_size as int, 8, 120) as u32,
            global_alpha: min(self.global_alpha as int, 1000) as u32,
            ..self
        }
    }

    /// The blacklist keywords the configuration carries: none without
    /// keyword data or with a zero length; else the comma-separated pieces
    /// of the data up to its first NUL, trimmed, without the empty ones.
    pub open spec fn keywords(self) -> Seq<Seq<char>> {
        match self.keyword_data {
            Some(data) => if self.keyword_len == 0 {
                Seq::empty()
            } else {
                keyword_list(data@.take(before_nul(data@) as int))
            },
            None => Seq::empty(),
        }
    }

    /// The blacklist keywords of the configuration.
    pub fn get_keywords(&self) -> (r: Vec<String>)
        ensures
            views(r@) == self.keywords(),
    {
        match &self.keyword_data {
            Some(data) => {
                if self.keyword_len == 0 {
                    let r: Vec<String> = Vec::new();
                    assert(views(r@) =~= Seq::empty());
                    r
                } else {
                    split_keywords(data.as_str())
                }
            },
            None => {
                let r: Vec<String> = Vec::new();
                assert(views(r@) =~= Seq::empty());
                r
            },
        }
    }

    /// Bounds every numeric field to its legal range.
    pub fn validate(&mut self)
        ensures
            *final(self) == old(self).validated(),
    {
        self.min_duration_ms = min_u32(self.min_duration_ms, 30000);
        self.global_font_size = clamp_u32(self.global_font_size, 8, 120);
        self.global_alpha = min_u32(self.global_alpha, 1000);
    }
}

/// Kind of colour gradient.
#[derive(Debug, Clone, Copy, PartialEq, Eq, Structural)]
pub enum GradientType {
    Linear,
    Radial,
}

/// Glow colour presets.
#[derive(Debug, Clone, Copy, PartialEq, Eq, Structural)]
pub enum GlowPreset {
    /// No preset: the custom colour stops are used.
    NoPreset,
    MonoBlue,
    MonoRed,
    MonoGreen,
    MonoGold,
    DuoBluePurple,
    DuoRedOrange,
    DuoCyanPink,
    Rainbow,
}

/// The glow preset a name selects (`None` for an unknown name).
pub open spec fn preset_named(name: Seq<char>) -> GlowPreset {
    if name == "MonoBlue"@ {
        GlowPreset::MonoBlue
    } else if name == "MonoRed"@ {
        GlowPreset::MonoRed
    } else if name == "MonoGreen"@ {
        GlowPreset::MonoGreen
    } else if name == "MonoGold"@ {
        GlowPreset::MonoGold
    } else if name == "DuoBluePurple"@ {
        GlowPreset::DuoBluePurple
    } else if name == "DuoRedOrange"@ {
        GlowPreset::DuoRedOrange
    } else if name == "DuoCyanPink"@ {
        GlowPreset::DuoCyanPink
    } else if name == "Rainbow"@ {
        GlowPreset::Rainbow
    } else {
        GlowPreset::NoPreset
    }
}

/// The name of a glow preset.
pub open spec fn preset_name(p: GlowPreset) -> Seq<char> {
    match p {
        GlowPreset::MonoBlue => "MonoBlue"@,
        GlowPreset::MonoRed => "MonoRed"@,
        GlowPreset::MonoGreen => "MonoGreen"@,
        GlowPreset::MonoGold => "MonoGold"@,
        GlowPreset::DuoBluePurple => "DuoBluePurple"@,
        GlowPreset::DuoRedOrange => "DuoRedOrange"@,
        GlowPreset::DuoCyanPink => "DuoCyanPink"@,
        GlowPreset::Rainbow => "Rainbow"@,
        GlowPreset::NoPreset => "None"@,
    }
}

/// A glow preset read back from its name is the same preset.
pub proof fn law_preset_name_round_trip(p: GlowPreset)
    ensures
        preset_named(preset_name(p)) == p,
{
    reveal_strlit("MonoBlue");
    reveal_strlit("MonoRed");
    reveal_strlit("MonoGreen");
    reveal_strlit("MonoGold");
    reveal_strlit("DuoBluePurple");
    reveal_strlit("DuoRedOrange");
    reveal_strlit("DuoCyanPink");
    reveal_strlit("Rainbow");
    reveal_strlit("None");
    assert("MonoBlue"@.len() == 8 && "MonoRed"@.len() == 7 && "MonoGreen"@.len() == 9);
    assert("MonoGold"@.len() == 8 && "DuoBluePurple"@.len() == 13 && "DuoRedOrange"@.len() == 12);
    assert("DuoCyanPink"@.len() == 11 && "Rainbow"@.len() == 7 && "None"@.len() == 4);
    assert("MonoBlue"@[4] != "MonoGold"@[4]);
    assert("MonoRed"@[0] != "Rainbow"@[0]);
}

/// A gradient type read back from its name is the same type.
pub proof fn law_gradient_name_round_trip(t: GradientType)
    ensures
        (if (if t == GradientType::Radial {
            "Radial"@
        } else {
            "Linear"@
        }) == "Radial"@ {
            GradientType::Radial
        } else {
            GradientType::Linear
        }) == t,
{
    reveal_strlit("Radial");
    reveal_strlit("Linear");
    assert("Radial"@[0] != "Linear"@[0]);
}

impl GlowPreset {
    /// The preset of a name; an unknown name is no preset.
    pub fn from_name(name: &str) -> (r: GlowPreset)
        ensures
            r == preset_named(name@),
    {
        if same_text(name, "MonoBlue") {
            GlowPreset::MonoBlue
        } else if same_text(name, "MonoRed") {
            GlowPreset::MonoRed
        } else if same_text(name, "MonoGreen") {
            GlowPreset::MonoGreen
        } else if same_text(name, "MonoGold") {
            GlowPreset::MonoGold
        } else if same_text(name, "DuoBluePurple") {
            GlowPreset::DuoBluePurple
        } else if same_text(name, "DuoRedOrange") {
            GlowPreset::DuoRedOrange
        } else if same_text(name, "DuoCyanPink") {
            GlowPreset::DuoCyanPink
        } else if same_text(name, "Rainbow") {
            GlowPreset::Rainbow
        } else {
            GlowPreset::NoPreset
        }
    }

    /// The name of the preset (`None` for no preset).
    pub fn name(self) -> (r: &'static str)
        ensures
            r@ == preset_name(self),
    {
        match self {
            GlowPreset::MonoBlue => "MonoBlue",
            GlowPreset::MonoRed => "MonoRed",
            GlowPreset::MonoGreen => "MonoGreen",
            GlowPreset::MonoGold => "MonoGold",
            GlowPreset::DuoBluePurple => "DuoBluePurple",
            GlowPreset::DuoRedOrange => "DuoRedOrange",
            GlowPreset::DuoCyanPink => "DuoCyanPink",
            GlowPreset::Rainbow => "Rainbow",
            GlowPreset::NoPreset => "None",
        }
    }
}

impl GradientType {
    /// The gradient type of a name: `Radial`, or else linear.
    pub fn from_name(name: &str) -> (r: GradientType)
        ensures
            r == (if name@ == "Radial"@ {
                GradientType::Radial
            } else {
                GradientType::Linear
            }),
    {
        if same_text(name, "Radial") {
            GradientType::Radial
        } else {
            GradientType::Linear
        }
    }

    /// The name of the gradient type.
    pub fn name(self) -> (r: &'static str)
        ensures
            r@ == (if self == GradientType::Radial {
                "Radial"@
            } else {
                "Linear"@
            }),
    {
        match self {
            GradientType::Radial => "Radial",
            GradientType::Linear => "Linear",
        }
    }
}

/// A colour stop of a gradient or a glow.
#[derive(Debug, Clone, Copy, PartialEq, Eq, Structural)]
pub struct ColorStop {
    /// Position along the gradient in thousandths (0..=1000).
    pub position: u32,
    /// Colour as 0xRRGGBBAA.
    pub rgba: u32,
}

/// Text effect settings: outline, shadow, glow and gradient.
#[derive(Debug, Clone)]
pub struct TextEffectConfig {
    pub outline_enabled: bool,
    /// Outline width in pixels (0..=16, default 2).
    pub outline_width: u32,
    /// Outline colour (default 0x000000FF).
    pub outline_color_rgba: u32,
    /// Soft edge radius (0 = hard edge, at most 4).
    pub outline_soft_edge: u32,

    pub shadow_enabled: bool,
    /// Number of shadow layers (1..=8, default 2).
    pub shadow_layers: u32,
    /// Shadow offsets in pixels (-32..=32, default 2).
    pub shadow_offset_x: i32,
    pub shadow_offset_y: i32,
    /// Shadow blur radius (0..=16, default 2).
    pub shadow_blur_radius: u32,
    /// Shadow colour (default 0x00000080).
    pub shadow_color_rgba: u32,
    /// Light direction in thousandths of a degree (0..=360_000, default 45_000).
    pub shadow_light_dir: u32,

    pub glow_enabled: bool,
    /// Glow radius in pixels (1..=32, default 8).
    pub glow_radius: u32,
    /// Custom glow colour stops.
    pub glow_color_stops: Vec<ColorStop>,
    /// Number of custom glow stops to use (at most 8).
    pub glow_color_stops_len: u32,
    /// Glow intensity in thousandths (0..=1000, default 600).
    pub glow_intensity: u32,
    pub glow_preset: GlowPreset,

    pub gradient_enabled: bool,
    pub gradient_type: GradientType,
    /// Gradient angle in thousandths of a degree (0..=360_000).
    pub gradient_angle: u32,
    /// Custom gradient colour stops.
    pub gradient_color_stops: Vec<ColorStop>,
    /// Number of custom gradient stops to use (at most 8).
    pub gradient_color_stops_len: u32,
    /// Whether the rainbow stops replace the custom ones.
    pub rainbow_preset: bool,
}

/// The radius and intensity that a glow preset imposes on a configuration.
pub open spec fn glow_preset_applied(
    preset: GlowPreset,
    radius: u32,
    intensity: u32,
) -> (u32, u32) {
    match preset {
        GlowPreset::MonoBlue | GlowPreset::MonoRed | GlowPreset::MonoGreen => (
            max(radius as int, 4) as u32,
            700,
        ),
        GlowPreset::MonoGold => (max(radius as int, 6) as u32, 800),
        GlowPreset::DuoBluePurple | GlowPreset::DuoRedOrange | GlowPreset::DuoCyanPink => (
            max(radius as int, 8) as u32,
            600,
        ),
        GlowPreset::Rainbow => (max(radius as int, 12) as u32, 800),
        GlowPreset::NoPreset => (radius, intensity),
    }
}

impl TextEffectConfig {
    /// Creates the default configuration, with every effect off.
    pub fn new() -> (r: Self)
        ensures
            r.outline_enabled == false,
            r.outline_width == 2,
            r.outline_color_rgba == 0x000000FF,
            r.outline_soft_edge == 0,
            r.shadow_enabled == false,
            r.shadow_layers == 2,
            r.shadow_offset_x == 2,
            r.shadow_offset_y == 2,
            r.shadow_blur_radius == 2,
            r.shadow_color_rgba == 0x00000080,
            r.shadow_light_dir == 45_000,
            r.glow_enabled == false,
            r.glow_radius == 8,
            r.glow_color_stops@.len() == 0,
            r.glow_color_stops_len == 0,
            r.glow_intensity == 600,
            r.glow_preset == GlowPreset::NoPreset,
            r.gradient_enabled == false,
            r.gradient_type == GradientType::Linear,
            r.gradient_angle == 0,
            r.gradient_color_stops@.len() == 0,
            r.gradient_color_stops_len == 0,
            r.rainbow_preset == false,
    {
        TextEffectConfig {
            outline_enabled: false,
            outline_width: 2,
            outline_color_rgba: 0x000000FF,
            outline_soft_edge: 0,
            shadow_enabled: false,
            shadow_layers: 2,
            shadow_offset_x: 2,
            shadow_offset_y: 2,
            shadow_blur_radius: 2,
            shadow_color_rgba: 0x00000080,
            shadow_light_dir: 45_000,
            glow_enabled: false,
            glow_radius: 8,
            glow_color_stops: Vec::new(),
            glow_color_stops_len: 0,
            glow_intensity: 600,
            glow_preset: GlowPreset::NoPreset,
            gradient_enabled: false,
            gradient_type: GradientType::Linear,
            gradient_angle: 0,
            gradient_color_stops: Vec::new(),
            gradient_color_stops_len: 0,
            rainbow_preset: false,
        }
    }

    /// Whether `r` is `self` after `validate`: every field bounded, then the
    /// glow preset and the rainbow preset applied.
    pub open spec fn is_validated_from(self, r: TextEffectConfig) -> bool {
        let radius = clamp(self.glow_radius as int, 1, 32) as u32;
        let intensity = min(self.glow_intensity as int, 1000) as u32;
        let glow = glow_preset_applied(self.glow_preset, radius, intensity);
        &&& r.outline_enabled == self.outline_enabled
        &&& r.outline_width == min(self.outline_width as int, 16)
        &&& r.outline_color_rgba == self.outline_color_rgba
        &&& r.outline_soft_edge == min(self.outline_soft_edge as int, 4)
        &&& r.shadow_enabled == self.shadow_enabled
        &&& r.shadow_layers == clamp(self.shadow_layers as int, 1, 8)
        &&& r.shadow_offset_x == clamp(self.shadow_offset_x as int, -32, 32)
        &&& r.shadow_offset_y == clamp(self.shadow_offset_y as int, -32, 32)
        &&& r.shadow_blur_radius == min(self.shadow_blur_radius as int, 16)
        &&& r.shadow_color_rgba == self.shadow_color_rgba
        &&& r.shadow_light_dir == min(self.shadow_light_dir as int, 360_000)
        &&& r.glow_enabled == self.glow_enabled
        &&& r.glow_radius == glow.0
        &&& r.glow_color_stops@ == self.glow_color_stops@
        &&& r.glow_color_stops_len == min(self.glow_color_stops_len as int, 8)
        &&& r.glow_intensity == glow.1
        &&& r.glow_preset == self.glow_preset
        &&& r.gradient_enabled == self.gradient_enabled
        &&& r.gradient_type == self.gradient_type
        &&& r.gradient_angle == (if self.rainbow_preset {
            0
        } else {
            min(self.gradient_angle as int, 360_000)
        })
        &&& r.gradient_color_stops@ == self.gradient_color_stops@
        &&& r.gradient_color_stops_len == min(self.gradient_color_stops_len as int, 8)
        &&& r.rainbow_preset == self.rainbow_preset
    }

    /// Bounds every numeric field to its range, then applies the glow preset
    /// (which raises the radius and sets the intensity) and the rainbow preset
    /// (which resets the gradient angle).
    pub fn validate(&mut self)
        ensures
            old(self).is_validated_from(*final(self)),
    {
        self.outline_width = min_u32(self.outline_width, 16);
        self.outline_soft_edge = min_u32(self.outline_soft_edge, 4);
        self.shadow_layers = clamp_u32(self.shadow_layers, 1, 8);
        self.shadow_offset_x = clamp_i32(self.shadow_offset_x, -32, 32);
        self.shadow_offset_y = clamp_i32(self.shadow_offset_y, -32, 32);
        self.shadow_blur_radius = min_u32(self.shadow_blur_radius, 16);
        self.shadow_light_dir = min_u32(self.shadow_light_dir, 360_000);
        self.glow_radius = clamp_u32(self.glow_radius, 1, 32);
        self.glow_intensity = min_u32(self.glow_intensity, 1000);
        self.glow_color_stops_len = min_u32(self.glow_color_stops_len, 8);
        self.gradient_angle = min_u32(self.gradient_angle, 360_000);
        self.gradient_color_stops_len = min_u32(self.gradient_color_stops_len, 8);

        if self.glow_preset != GlowPreset::NoPreset {
            self.apply_glow_preset();
        }
        if self.rainbow_preset {
            self.apply_rainbow_preset();
        }
    }

    /// Raises the glow radius and sets the glow intensity for the preset.
    fn apply_glow_preset(&mut self)
        ensures
            (final(self).glow_radius, final(self).glow_intensity) == glow_preset_applied(
                old(self).glow_preset,
                old(self).glow_radius,
                old(self).glow_intensity,
            ),
            *final(self) == (TextEffectConfig {
                glow_radius: final(self).glow_radius,
                glow_intensity: final(self).glow_intensity,
                ..*old(self)
            }),
    {
        match self.glow_preset {
            GlowPreset::MonoBlue | GlowPreset::MonoRed | GlowPreset::MonoGreen => {
                self.glow_radius = max_u32(self.glow_radius, 4);
                self.glow_intensity = 700;
            },
            GlowPreset::MonoGold => {
                self.glow_radius = max_u32(self.glow_radius, 6);
                self.glow_intensity = 800;
            },
            GlowPreset::DuoBluePurple | GlowPreset::DuoRedOrange | GlowPreset::DuoCyanPink => {
                self.glow_radius = max_u32(self.glow_radius, 8);
                self.glow_intensity = 600;
            },
            GlowPreset::Rainbow => {
                self.glow_radius = max_u32(self.glow_radius, 12);
                self.glow_intensity = 800;
            },
            GlowPreset::NoPreset => {},
        }
    }

    /// The rainbow gradient always starts at angle zero.
    fn apply_rainbow_preset(&mut self)
        ensures
            *final(self) == (TextEffectConfig { gradient_angle: 0, ..*old(self) }),
    {
        self.gradient_angle = 0;
    }
}

impl Default for TextEffectConfig {
    fn default() -> (r: Self)
        ensures
            r.outline_enabled == false,
            r.outline_width == 2,
            r.shadow_layers == 2,
            r.glow_radius == 8,
            r.glow_intensity == 600,
            r.glow_preset == GlowPreset::NoPreset,
            r.gradient_type == GradientType::Linear,
            r.rainbow_preset == false,
    {
        Self::new()
    }
}

/// Settings of the emoji bitmap cache.
#[derive(Debug, Clone)]
pub struct EmojiCacheConfig {
    /// Most cached entries (16..=1024, default 256).
    pub max_entries: u32,
    /// Largest single bitmap in bytes (1024..=32 MiB, default 4 MiB).
    pub max_bitmap_bytes: u64,
    /// Largest total cache size in bytes (64 KiB..=512 MiB, default 64 MiB).
    pub max_total_cache_bytes: u64,
    /// Directory of the disk cache, if any.
    pub disk_cache_dir: Option<String>,
    /// Lifetime of disk cache entries in seconds (default one day, at most a week).
    pub disk_cache_ttl_secs: u64,
}

impl Default for EmojiCacheConfig {
    fn default() -> (r: Self)
        ensures
            r.max_entries == 256,
            r.max_bitmap_bytes == 4 * 1024 * 1024,
            r.max_total_cache_bytes == 64 * 1024 * 1024,
            r.disk_cache_dir is None,
            r.disk_cache_ttl_secs == 86400,
    {
        EmojiCacheConfig {
            max_entries: 256,
            max_bitmap_bytes: 4 * 1024 * 1024,
            max_total_cache_bytes: 64 * 1024 * 1024,
            disk_cache_dir: None,
            disk_cache_ttl_secs: 86400,
        }
    }
}

impl EmojiCacheConfig {
    /// The configuration with every numeric field bounded to its range.
    pub open spec fn validated(self) -> EmojiCacheConfig {
        EmojiCacheConfig {
            max_entries: clamp(self.max_entries as int, 16, 1024) as u32,
            max_bitmap_bytes: clamp(self.max_bitmap_bytes as int, 1024, 33554432) as u64,
            max_total_cache_bytes: clamp(self.max_total_cache_bytes as int, 65536, 536870912)
                as u64,
            disk_cache_ttl_secs: min(self.disk_cache_ttl_secs as int, 604800) as u64,
            ..self
        }
    }

    /// Bounds every numeric field to its legal range.
    pub fn validate(&mut self)
        ensures
            *final(self) == old(self).validated(),
    {
        self.max_entries = clamp_u32(self.max_entries, 16, 1024);
        self.max_bitmap_bytes = clamp_u64(self.max_bitmap_bytes, 1024, 32 * 1024 * 1024);
        self.max_total_cache_bytes = clamp_u64(
            self.max_total_cache_bytes,
            65536,
            512 * 1024 * 1024,
        );
        self.disk_cache_ttl_secs = if self.disk_cache_ttl_secs > 7 * 86400 {
            7 * 86400
        } else {
            self.disk_cache_ttl_secs
        };
    }
}

/// Global engine settings.
#[derive(Debug, Clone)]
pub struct BarrageGlobalConfig {
    /// Canvas size in pixels (320..=7680 by 240..=4320, default 1920x1080).
    pub canvas_width: u32,
    pub canvas_height: u32,
    /// Number of tracks (1..=100, default 20).
    pub track_count: u32,
    /// Default barrage duration in ms (500..=60000, default 5000).
    pub default_duration_ms: u32,
    /// Default font size (8..=120, default 28).
    pub default_font_size: u32,
    /// Default colour (default white).
    pub default_color_rgba: u32,
    /// Default alpha in thousandths (0..=1000, default 1000).
    pub default_alpha: u32,
    /// Whether barrages may overlap.
    pub allow_overlap: bool,
    /// Pre-allocated pool slots (32..=4096, default 256).
    pub pool_capacity: u32,
    /// Pool growth step (16..=512, default 64).
    pub pool_grow_step: u32,
    /// Per-track settings; empty means "one uniform default".
    pub track_configs: Vec<BarrageTrackConfig>,
    /// Number of per-track settings to use.
    pub track_configs_len: u32,
}

impl Default for BarrageGlobalConfig {
    fn default() -> (r: Self)
        ensures
            r.canvas_width == 1920,
            r.canvas_height == 1080,
            r.track_count == 20,
            r.default_duration_ms == 5000,
            r.default_font_size == 28,
            r.default_color_rgba == 0xFFFFFFFF,
            r.default_alpha == 1000,
            !r.allow_overlap,
            r.pool_capacity == 256,
            r.pool_grow_step == 64,
            r.track_configs@.len() == 0,
            r.track_configs_len == 0,
    {
        BarrageGlobalConfig {
            canvas_width: 1920,
            canvas_height: 1080,
            track_count: 20,
            default_duration_ms: 5000,
            default_font_size: 28,
            default_color_rgba: 0xFFFFFFFF,
            default_alpha: 1000,
            allow_overlap: false,
            pool_capacity: 256,
            pool_grow_step: 64,
            track_configs: Vec::new(),
            track_configs_len: 0,
        }
    }
}

/// Number of per-track settings that `validate` and the engine read.
pub open spec fn used_track_configs(len: u32, available: nat) -> nat {
    min(min(len as int, 100), available as int) as nat
}

impl BarrageGlobalConfig {
    /// Whether `r` is `self` after `validate`.
    pub open spec fn is_validated_from(self, r: BarrageGlobalConfig) -> bool {
        let n = used_track_configs(self.track_configs_len, self.track_configs@.len());
        &&& r.canvas_width == clamp(self.canvas_width as int, 320, 7680)
        &&& r.canvas_height == clamp(self.canvas_height as int, 240, 4320)
        &&& r.track_count == clamp(self.track_count as int, 1, 100)
        &&& r.default_duration_ms == clamp(self.default_duration_ms as int, 500, 60000)
        &&& r.default_font_size == clamp(self.default_font_size as int, 8, 120)
        &&& r.default_color_rgba == self.default_color_rgba
        &&& r.default_alpha == min(self.default_alpha as int, 1000)
        &&& r.allow_overlap == self.allow_overlap
        &&& r.pool_capacity == clamp(self.pool_capacity as int, 32, 4096)
        &&& r.pool_grow_step == clamp(self.pool_grow_step as int, 16, 512)
        &&& r.track_configs_len == self.track_configs_len
        &&& r.track_configs@.len() == self.track_configs@.len()
        &&& forall|i: int|
            0 <= i < r.track_configs@.len() ==> #[trigger] r.track_configs@[i] == if i < n {
                self.track_configs@[i].validated()
            } else {
                self.track_configs@[i]
            }
    }

    /// Bounds every numeric field to its range and validates the first
    /// `min(track_configs_len, 100)` per-track settings.
    pub fn validate(&mut self)
        ensures
            old(self).is_validated_from(*final(self)),
    {
        self.canvas_width = clamp_u32(self.canvas_width, 320, 7680);
        self.canvas_height = clamp_u32(self.canvas_height, 240, 4320);
        self.track_count = clamp_u32(self.track_count, 1, 100);
        self.default_duration_ms = clamp_u32(self.default_duration_ms, 500, 60000);
        self.default_font_size = clamp_u32(self.default_font_size, 8, 120);
        self.default_alpha = min_u32(self.default_alpha, 1000);
        self.pool_capacity = clamp_u32(self.pool_capacity, 32, 4096);
        self.pool_grow_step = clamp_u32(self.pool_grow_step, 16, 512);

        let len = min_u32(self.track_configs_len, 100) as usize;
        let n = if len < self.track_configs.len() {
            len
        } else {
            self.track_configs.len()
        };
        let ghost before = self.track_configs@;
        let ghost pre = *self;
        let mut i: usize = 0;
        while i < n
            invariant
                self.canvas_width == pre.canvas_width,
                self.canvas_height == pre.canvas_height,
                self.track_count == pre.track_count,
                self.default_duration_ms == pre.default_duration_ms,
                self.default_font_size == pre.default_font_size,
                self.default_color_rgba == pre.default_color_rgba,
                self.default_alpha == pre.default_alpha,
                self.allow_overlap == pre.allow_overlap,
                self.pool_capacity == pre.pool_capacity,
                self.pool_grow_step == pre.pool_grow_step,
                self.track_configs_len == pre.track_configs_len,
                pre.track_configs@ == before,
                n == used_track_configs(old(self).track_configs_len, before.len()),
                n <= self.track_configs@.len(),
                self.track_configs@.len() == before.len(),
                0 <= i <= n,
                forall|j: int|
                    0 <= j < self.track_configs@.len() ==> #[trigger] self.track_configs@[j]
                        == if j < i {
                        before[j].validated()
                    } else {
                        before[j]
                    },
            decreases n - i,
        {
            let mut cfg = self.track_configs[i];
            cfg.validate();
            self.track_configs[i] = cfg;
            i = i + 1;
        }
    }
}

} // verus!
