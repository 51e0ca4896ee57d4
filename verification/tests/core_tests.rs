use rs_ffi_barrage::config::{BarrageFilterConfig, BarrageGlobalConfig, TextEffectConfig, TrackMode};
use rs_ffi_barrage::engine::{BarrageCore, BarrageMessage};
use std::sync::Arc;

fn speed_ratio(s: u32) -> f64 {
    s as f64 / 1000.0
}

#[test]
fn test_core_creation() {
    let core = BarrageCore::with_default_config();
    let stats = core.get_stats();
    assert!(!stats.paused);
    assert_eq!(stats.engine_time_ms, 0);
}

#[test]
fn test_core_send_barrage() {
    let mut core = BarrageCore::with_default_config();
    core.send_barrage("测试弹幕", TrackMode::Scroll, 0xFFFFFFFF, 28, 1000, 5000, None);
    core.update(16);
    let stats = core.get_stats();
    assert_eq!(stats.alive_barrages, 1);
}

#[test]
fn test_core_performance() {
    let mut core = BarrageCore::with_default_config();
    for i in 0..100 {
        core.send_barrage(&format!("弹幕{}", i), TrackMode::Scroll, 0xFFFFFFFF, 28, 1000, 10000, None);
    }
    core.update(16);
    let stats = core.get_stats();
    assert!(stats.alive_barrages > 0);
}

#[test]
fn test_core_pause_resume() {
    let mut core = BarrageCore::with_default_config();
    assert!(!core.get_stats().paused);
    core.pause();
    assert!(core.get_stats().paused);
    core.resume();
    assert!(!core.get_stats().paused);
}

#[test]
fn test_core_clear() {
    let mut core = BarrageCore::with_default_config();
    core.send_barrage("测试", TrackMode::Scroll, 0xFFFFFFFF, 28, 1000, 5000, None);
    core.update(16);
    assert!(core.get_stats().alive_barrages > 0);
    core.clear();
    assert_eq!(core.get_stats().alive_barrages, 0);
}

#[test]
fn test_core_set_speed() {
    let mut core = BarrageCore::with_default_config();
    core.set_speed(2000);
    let stats = core.get_stats();
    assert!((speed_ratio(stats.speed) - 2.0).abs() < 0.001);
}

#[test]
fn test_core_seek() {
    let mut core = BarrageCore::with_default_config();
    core.seek(5000);
    let stats = core.get_stats();
    assert_eq!(stats.engine_time_ms, 5000);
}

#[test]
fn test_core_emoji_rgba() {
    let mut core = BarrageCore::with_default_config();
    let rgba = vec![255u8; 16 * 16 * 4];
    assert!(core.register_emoji_rgba("test", &rgba, 16, 16).is_ok());

    let info = core.get_emoji_info("test");
    assert!(info.is_some());
    let (w, h, _bytes) = info.unwrap();
    assert_eq!(w, 16);
    assert_eq!(h, 16);
}

#[test]
fn test_render_output() {
    let mut core = BarrageCore::with_default_config();
    core.send_barrage("渲染测试", TrackMode::Scroll, 0xFFFFFFFF, 28, 1000, 5000, None);
    core.update(16);
    let mut buffer = vec![0u8; 100 * 100 * 4];
    let count = core.render(&mut buffer, 100, 100);
    assert!(count >= 0);
}

#[test]
fn update_with_takes_in_messages_and_advances_time() {
    let mut core = BarrageCore::with_default_config();
    let msgs = vec![
        BarrageMessage {
            text: "a".to_string(),
            segments: Vec::new(),
            track_type: TrackMode::Top,
            color_rgba: 0xFFFFFFFF,
            font_size: 28,
            alpha: 1000,
            duration_ms: 5000,
            effect_config: None,
        },
        BarrageMessage {
            text: "b".to_string(),
            segments: Vec::new(),
            track_type: TrackMode::Bottom,
            color_rgba: 0xFFFFFFFF,
            font_size: 28,
            alpha: 1000,
            duration_ms: 5000,
            effect_config: None,
        },
    ];
    core.update_with(20, msgs);
    let stats = core.get_stats();
    assert_eq!(stats.alive_barrages, 2);
    assert_eq!(stats.engine_time_ms, 20);
    assert_eq!(stats.pool_free, stats.pool_capacity - 2);
}

#[test]
fn paused_engine_time_stands_still() {
    let mut core = BarrageCore::with_default_config();
    core.update(16);
    core.pause();
    core.update(16);
    core.update(16);
    assert_eq!(core.get_stats().engine_time_ms, 16);
    core.resume();
    core.update(16);
    assert_eq!(core.get_stats().engine_time_ms, 32);
}

#[test]
fn double_speed_doubles_engine_time() {
    let mut core = BarrageCore::with_default_config();
    core.set_speed(2000);
    core.update(16);
    assert_eq!(core.get_stats().engine_time_ms, 32);
    core.set_speed(100_000);
    assert_eq!(core.get_stats().speed, 4000);
    core.set_speed(-5);
    assert_eq!(core.get_stats().speed, 250);
}

#[test]
fn filter_blocks_disabled_kind() {
    let mut core = BarrageCore::with_default_config();
    let mut cfg = BarrageFilterConfig::default();
    cfg.enable_top = false;
    core.set_filter(cfg);
    core.send_barrage("top", TrackMode::Top, 0xFFFFFFFF, 28, 1000, 5000, None);
    core.send_barrage("scroll", TrackMode::Scroll, 0xFFFFFFFF, 28, 1000, 5000, None);
    core.update(16);
    assert_eq!(core.get_stats().alive_barrages, 1);
}

#[test]
fn global_effect_set_and_read() {
    let mut core = BarrageCore::with_default_config();
    assert!(core.global_effect().is_none());
    let mut cfg = TextEffectConfig::new();
    cfg.outline_enabled = true;
    core.set_global_effect(Some(Arc::new(cfg)));
    assert!(core.global_effect().unwrap().outline_enabled);
    core.set_global_effect(None);
    assert!(core.global_effect().is_none());
}

#[test]
fn custom_config_pool_capacity() {
    let config = BarrageGlobalConfig { pool_capacity: 64, ..Default::default() };
    let core = BarrageCore::new(config);
    let stats = core.get_stats();
    assert_eq!(stats.pool_capacity, 64);
    assert_eq!(stats.pool_free, 64);
    assert_eq!(stats.alive_barrages, 0);
}

#[test]
fn emoji_bytes_through_core() {
    let mut core = BarrageCore::with_default_config();
    let rgba = vec![9u8, 8, 7, 6];
    core.register_emoji_rgba("one", &rgba, 1, 1).unwrap();
    assert_eq!(core.get_emoji_bitmap_bytes("one"), Some(rgba.clone()));
    let mut buf = vec![0u8; 4];
    assert!(core.copy_emoji_bitmap("one", &mut buf, 4));
    assert_eq!(buf, rgba);
    assert_eq!(core.get_emoji_cache_size(), 4);
    assert!(core.register_emoji_rgba("", &rgba, 1, 1).is_err());
}

#[test]
fn paused_frames_neither_age_nor_expire() {
    let mut core = BarrageCore::with_default_config();
    core.send_barrage("x", TrackMode::Scroll, 0xFFFFFFFF, 28, 1000, 5000, None);
    core.update(16);
    core.pause();
    core.update(10000);
    let s = core.get_stats();
    assert_eq!(s.engine_time_ms, 16);
    assert_eq!(s.alive_barrages, 1);
    core.send_barrage("y", TrackMode::Scroll, 0xFFFFFFFF, 28, 1000, 5000, None);
    core.update(16);
    assert_eq!(core.get_stats().alive_barrages, 2);
}

#[test]
fn clear_frees_queued_barrages() {
    let mut core = BarrageCore::with_default_config();
    for i in 0..11 {
        core.send_barrage(&format!("b{}", i), TrackMode::Scroll, 0xFFFFFFFF, 28, 1000, 5000, None);
    }
    core.update(16);
    assert_eq!(core.get_stats().alive_barrages, 11);
    core.clear();
    let s = core.get_stats();
    assert_eq!(s.alive_barrages, 0);
    assert_eq!(s.engine_time_ms, 0);
    assert_eq!(s.speed, 1000);
    assert!(!s.paused);
}

#[test]
fn barrage_message_bounds_alpha() {
    let m = rs_ffi_barrage::engine::barrage_message("t", TrackMode::Top, 7, 30, 5000, 900, None);
    assert_eq!(m.text, "t");
    assert!(m.segments.is_empty());
    assert_eq!(m.track_type, TrackMode::Top);
    assert_eq!(m.color_rgba, 7);
    assert_eq!(m.font_size, 30);
    assert_eq!(m.alpha, 1000);
    assert_eq!(m.duration_ms, 900);
    assert_eq!(rs_ffi_barrage::engine::barrage_message("t", TrackMode::Top, 7, 30, 400, 900, None).alpha, 400);
}

#[test]
fn frame_acceptance_checks_the_clock() {
    let core = BarrageCore::with_default_config();
    assert!(core.frame_accepted(16));
    assert!(core.frame_accepted(rs_ffi_barrage::engine::MAX_FRAME_MS));
    assert!(!core.frame_accepted(rs_ffi_barrage::engine::MAX_FRAME_MS + 1));
}

#[test]
fn sent_barrages_are_taken_in_at_the_next_update_only() {
    let mut core = BarrageCore::with_default_config();
    core.send_barrage("a", TrackMode::Scroll, 0xFFFFFFFF, 28, 1000, 5000, None);
    core.send_barrage("b", TrackMode::Scroll, 0xFFFFFFFF, 28, 1000, 5000, None);
    assert_eq!(core.get_stats().alive_barrages, 0);
    core.update(16);
    assert_eq!(core.get_stats().alive_barrages, 2);
    core.update(16);
    assert_eq!(core.get_stats().alive_barrages, 2);
}
