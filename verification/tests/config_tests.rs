use rs_ffi_barrage::config::{
    BarrageFilterConfig, BarrageGlobalConfig, BarrageTrackConfig, CongestionStrategy, EmojiCacheConfig,
    GlowPreset, GradientType, TextEffectConfig, TrackMode,
};

#[test]
fn test_track_config_default() {
    let cfg = BarrageTrackConfig::default();
    assert_eq!(cfg.mode, TrackMode::Scroll);
    assert_eq!(cfg.max_concurrent, 10);
    assert_eq!(cfg.scroll_speed, 200_000);
}

#[test]
fn test_track_config_validate() {
    let mut cfg = BarrageTrackConfig { max_concurrent: 999, scroll_speed: 9_999_000, ..Default::default() };
    cfg.validate();
    assert_eq!(cfg.max_concurrent, 100);
    assert_eq!(cfg.scroll_speed, 2_000_000);
}

#[test]
fn test_text_effect_config_default() {
    let cfg = TextEffectConfig::new();
    assert!(!cfg.outline_enabled);
    assert_eq!(cfg.outline_width, 2);
    assert_eq!(cfg.shadow_layers, 2);
}

#[test]
fn test_global_config_default() {
    let cfg = BarrageGlobalConfig::default();
    assert_eq!(cfg.canvas_width, 1920);
    assert_eq!(cfg.track_count, 20);
}

#[test]
fn test_global_config_validate() {
    let mut cfg = BarrageGlobalConfig { canvas_width: 100, track_count: 999, ..Default::default() };
    cfg.validate();
    assert_eq!(cfg.canvas_width, 320);
    assert_eq!(cfg.track_count, 100);
}

#[test]
fn test_text_effect_outline_config() {
    let mut cfg = TextEffectConfig::new();
    assert!(!cfg.outline_enabled);

    cfg.outline_enabled = true;
    cfg.outline_width = 3;
    cfg.outline_color_rgba = 0xFF0000FF;
    cfg.validate();

    assert_eq!(cfg.outline_width, 3);
    assert_eq!(cfg.outline_color_rgba, 0xFF0000FF);
}

#[test]
fn test_text_effect_shadow_config() {
    let mut cfg = TextEffectConfig::new();
    cfg.shadow_enabled = true;
    cfg.shadow_layers = 5;
    cfg.shadow_blur_radius = 4;
    cfg.validate();

    assert_eq!(cfg.shadow_layers, 5);
    assert_eq!(cfg.shadow_blur_radius, 4);
}

#[test]
fn test_text_effect_glow_preset() {
    let mut cfg = TextEffectConfig::new();
    cfg.glow_enabled = true;
    cfg.glow_preset = GlowPreset::MonoBlue;
    cfg.glow_intensity = 800;
    cfg.validate();

    assert_eq!(cfg.glow_preset, GlowPreset::MonoBlue);
}

#[test]
fn test_text_effect_gradient_rainbow() {
    let mut cfg = TextEffectConfig::new();
    cfg.gradient_enabled = true;
    cfg.rainbow_preset = true;
    cfg.validate();
    cfg.gradient_type = GradientType::Radial;
    cfg.validate();

    assert!(cfg.rainbow_preset);
    assert_eq!(cfg.gradient_type, GradientType::Radial);
}

#[test]
fn test_text_effect_validate_clamping() {
    let mut cfg = TextEffectConfig::new();
    cfg.outline_width = 999;
    cfg.shadow_layers = 999;
    cfg.glow_radius = 999;
    cfg.validate();

    assert_eq!(cfg.outline_width, 16);
    assert_eq!(cfg.shadow_layers, 8);
    assert_eq!(cfg.glow_radius, 32);
}

#[test]
fn glow_presets_set_radius_and_intensity() {
    let mut cfg = TextEffectConfig::new();
    cfg.glow_preset = GlowPreset::MonoBlue;
    cfg.glow_radius = 2;
    cfg.glow_intensity = 100;
    cfg.validate();
    assert_eq!(cfg.glow_radius, 4);
    assert_eq!(cfg.glow_intensity, 700);

    let mut cfg = TextEffectConfig::new();
    cfg.glow_preset = GlowPreset::Rainbow;
    cfg.validate();
    assert_eq!(cfg.glow_radius, 12);
    assert_eq!(cfg.glow_intensity, 800);

    let mut cfg = TextEffectConfig::new();
    cfg.glow_intensity = 5000;
    cfg.glow_radius = 0;
    cfg.validate();
    assert_eq!(cfg.glow_radius, 1);
    assert_eq!(cfg.glow_intensity, 1000);
}

#[test]
fn rainbow_preset_resets_angle() {
    let mut cfg = TextEffectConfig::new();
    cfg.gradient_angle = 90_000;
    cfg.validate();
    assert_eq!(cfg.gradient_angle, 90_000);
    cfg.rainbow_preset = true;
    cfg.validate();
    assert_eq!(cfg.gradient_angle, 0);
}

#[test]
fn shadow_offsets_are_bounded() {
    let mut cfg = TextEffectConfig::new();
    cfg.shadow_offset_x = -100;
    cfg.shadow_offset_y = 100;
    cfg.shadow_layers = 0;
    cfg.validate();
    assert_eq!(cfg.shadow_offset_x, -32);
    assert_eq!(cfg.shadow_offset_y, 32);
    assert_eq!(cfg.shadow_layers, 1);
}

#[test]
fn track_config_validate_lower_bounds() {
    let mut cfg = BarrageTrackConfig {
        max_concurrent: 0,
        track_height: 1,
        spacing: 500,
        scroll_speed: 1,
        congestion_strategy: CongestionStrategy::Drop,
        mode: TrackMode::Reverse,
    };
    cfg.validate();
    assert_eq!(cfg.max_concurrent, 1);
    assert_eq!(cfg.track_height, 16);
    assert_eq!(cfg.spacing, 100);
    assert_eq!(cfg.scroll_speed, 20_000);
    assert_eq!(cfg.mode, TrackMode::Reverse);
}

#[test]
fn filter_config_keywords_from_data() {
    let mut cfg = BarrageFilterConfig::default();
    assert!(cfg.get_keywords().is_empty());
    cfg.keyword_data = Some(" spam , ads,,\0ignored".to_string());
    cfg.keyword_len = 3;
    let kws = cfg.get_keywords();
    assert_eq!(kws, vec!["spam".to_string(), "ads".to_string()]);
    cfg.keyword_len = 0;
    assert!(cfg.get_keywords().is_empty());
}

#[test]
fn filter_config_validate_bounds() {
    let mut cfg = BarrageFilterConfig::default();
    cfg.min_duration_ms = 99_999;
    cfg.global_font_size = 2;
    cfg.global_alpha = 5000;
    cfg.validate();
    assert_eq!(cfg.min_duration_ms, 30000);
    assert_eq!(cfg.global_font_size, 8);
    assert_eq!(cfg.global_alpha, 1000);
}

#[test]
fn global_config_validate_all_fields() {
    let mut cfg = BarrageGlobalConfig {
        canvas_height: 10_000,
        default_duration_ms: 1,
        default_font_size: 500,
        default_alpha: 2000,
        pool_capacity: 1,
        pool_grow_step: 9999,
        ..Default::default()
    };
    cfg.validate();
    assert_eq!(cfg.canvas_height, 4320);
    assert_eq!(cfg.default_duration_ms, 500);
    assert_eq!(cfg.default_font_size, 120);
    assert_eq!(cfg.default_alpha, 1000);
    assert_eq!(cfg.pool_capacity, 32);
    assert_eq!(cfg.pool_grow_step, 512);
}

#[test]
fn emoji_cache_config_default() {
    let cfg = EmojiCacheConfig::default();
    assert_eq!(cfg.max_entries, 256);
    assert_eq!(cfg.max_bitmap_bytes, 4 * 1024 * 1024);
    assert_eq!(cfg.max_total_cache_bytes, 64 * 1024 * 1024);
    assert_eq!(cfg.disk_cache_ttl_secs, 86400);
}

#[test]
fn preset_names_round_trip() {
    let all = [
        GlowPreset::NoPreset,
        GlowPreset::MonoBlue,
        GlowPreset::MonoRed,
        GlowPreset::MonoGreen,
        GlowPreset::MonoGold,
        GlowPreset::DuoBluePurple,
        GlowPreset::DuoRedOrange,
        GlowPreset::DuoCyanPink,
        GlowPreset::Rainbow,
    ];
    for p in all {
        assert_eq!(GlowPreset::from_name(p.name()), p);
    }
    assert_eq!(GlowPreset::NoPreset.name(), "None");
    assert_eq!(GlowPreset::from_name("monoblue"), GlowPreset::NoPreset);
    assert_eq!(GlowPreset::from_name(""), GlowPreset::NoPreset);
}

#[test]
fn gradient_names_round_trip() {
    assert_eq!(GradientType::from_name(GradientType::Radial.name()), GradientType::Radial);
    assert_eq!(GradientType::from_name(GradientType::Linear.name()), GradientType::Linear);
    assert_eq!(GradientType::from_name("anything"), GradientType::Linear);
}
