use rs_ffi_barrage::barrage::BarrageObject;
use rs_ffi_barrage::config::{BarrageFilterConfig, TrackMode};
use rs_ffi_barrage::filter::{FilterEngine, FilterResult};

fn alpha_ratio(a: u32) -> f64 {
    a as f64 / 1000.0
}

#[test]
fn test_filter_keyword_block() {
    let mut config = BarrageFilterConfig::default();
    config.keyword_blacklist_enabled = true;
    let mut engine = FilterEngine::new(config);
    engine.add_keyword("广告");

    let obj = BarrageObject::new(1, "这是一个广告弹幕", TrackMode::Scroll, 0, 0xFFFFFFFF, 28, 1000, 5000, 0);
    assert_eq!(engine.filter(&obj), FilterResult::BlockedByKeyword);
}

#[test]
fn test_filter_keyword_pass() {
    let mut engine = FilterEngine::with_default_config();
    engine.add_keyword("广告");

    let obj = BarrageObject::new(1, "正常弹幕内容", TrackMode::Scroll, 0, 0xFFFFFFFF, 28, 1000, 5000, 0);
    assert_eq!(engine.filter(&obj), FilterResult::Pass);
}

#[test]
fn test_filter_type_block() {
    let mut config = BarrageFilterConfig::default();
    config.enable_top = false;
    let engine = FilterEngine::new(config);

    let obj = BarrageObject::new(1, "顶部弹幕", TrackMode::Top, 0, 0xFFFFFFFF, 28, 1000, 5000, 0);
    assert_eq!(engine.filter(&obj), FilterResult::BlockedByType);
}

#[test]
fn test_filter_duration_block() {
    let mut config = BarrageFilterConfig::default();
    config.short_duration_filter_enabled = true;
    config.min_duration_ms = 1000;
    let engine = FilterEngine::new(config);

    let obj = BarrageObject::new(1, "短弹幕", TrackMode::Scroll, 0, 0xFFFFFFFF, 28, 1000, 200, 0);
    assert_eq!(engine.filter(&obj), FilterResult::BlockedByDuration);
}

#[test]
fn test_global_adjustments() {
    let mut config = BarrageFilterConfig::default();
    config.global_font_size_enabled = true;
    config.global_font_size = 36;
    config.global_alpha_enabled = true;
    config.global_alpha = 500;
    let engine = FilterEngine::new(config);

    let mut obj = BarrageObject::new(1, "测试弹幕", TrackMode::Scroll, 0, 0xFFFFFFFF, 28, 1000, 5000, 0);
    engine.apply_global_adjustments(&mut obj);
    assert_eq!(obj.font_size, 36);
    assert!((alpha_ratio(obj.alpha) - 0.5).abs() < 0.001);
}

#[test]
fn test_add_clear_keywords() {
    let mut engine = FilterEngine::with_default_config();
    assert!(engine.keywords().is_empty());

    engine.add_keyword("关键词1");
    engine.add_keyword("关键词2");
    assert_eq!(engine.keywords().len(), 2);

    engine.clear_keywords();
    assert!(engine.keywords().is_empty());
}

#[test]
fn test_filter_passes_clean_barrage() {
    let engine = FilterEngine::with_default_config();
    let obj = BarrageObject::new(1, "正常弹幕", TrackMode::Scroll, 0, 0xFFFFFFFF, 28, 1000, 5000, 0);
    assert_eq!(engine.filter(&obj), FilterResult::Pass);
}

#[test]
fn test_filter_keyword_matching() {
    let mut engine = FilterEngine::with_default_config();
    engine.add_keyword("广告");
    engine.add_keyword("推广");

    let obj = BarrageObject::new(1, "这是一个推广消息", TrackMode::Scroll, 0, 0xFFFFFFFF, 28, 1000, 5000, 0);
    assert_eq!(engine.filter(&obj), FilterResult::BlockedByKeyword);

    let obj = BarrageObject::new(2, "正常消息", TrackMode::Scroll, 0, 0xFFFFFFFF, 28, 1000, 5000, 0);
    assert_eq!(engine.filter(&obj), FilterResult::Pass);
}

#[test]
fn test_filter_type_control() {
    let mut config = BarrageFilterConfig::default();
    config.enable_top = false;
    config.enable_bottom = false;
    let engine = FilterEngine::new(config);

    let scroll = BarrageObject::new(1, "滚动", TrackMode::Scroll, 0, 0xFFFFFFFF, 28, 1000, 5000, 0);
    assert_eq!(engine.filter(&scroll), FilterResult::Pass);

    let top = BarrageObject::new(2, "顶部", TrackMode::Top, 0, 0xFFFFFFFF, 28, 1000, 5000, 0);
    assert_eq!(engine.filter(&top), FilterResult::BlockedByType);
}

#[test]
fn test_filter_duration_filtering() {
    let mut config = BarrageFilterConfig::default();
    config.short_duration_filter_enabled = true;
    config.min_duration_ms = 1000;
    let engine = FilterEngine::new(config);

    let short = BarrageObject::new(1, "短", TrackMode::Scroll, 0, 0xFFFFFFFF, 28, 1000, 100, 0);
    assert_eq!(engine.filter(&short), FilterResult::BlockedByDuration);

    let long = BarrageObject::new(2, "长弹幕", TrackMode::Scroll, 0, 0xFFFFFFFF, 28, 1000, 5000, 0);
    assert_eq!(engine.filter(&long), FilterResult::Pass);
}

#[test]
fn test_filter_global_adjustments() {
    let mut config = BarrageFilterConfig::default();
    config.global_font_size_enabled = true;
    config.global_font_size = 48;
    config.global_alpha_enabled = true;
    config.global_alpha = 750;
    let engine = FilterEngine::new(config);

    let mut obj = BarrageObject::new(1, "调整测试", TrackMode::Scroll, 0, 0xFFFFFFFF, 28, 1000, 5000, 0);
    engine.apply_global_adjustments(&mut obj);

    assert_eq!(obj.font_size, 48);
    assert!((alpha_ratio(obj.alpha) - 0.75).abs() < 0.001);
}

#[test]
fn keyword_matching_ignores_case_and_spaces() {
    let mut engine = FilterEngine::with_default_config();
    engine.add_keyword("  SPAM ");
    assert_eq!(engine.keywords().to_vec(), vec!["spam".to_string()]);
    let obj = BarrageObject::new(1, "Buy SpAm now", TrackMode::Scroll, 0, 0xFFFFFFFF, 28, 1000, 5000, 0);
    assert_eq!(engine.filter(&obj), FilterResult::BlockedByKeyword);
}

#[test]
fn adding_keyword_twice_keeps_one() {
    let mut engine = FilterEngine::with_default_config();
    engine.add_keyword("ad");
    engine.add_keyword("AD");
    engine.add_keyword("   ");
    assert_eq!(engine.keywords().len(), 1);
    assert!(engine.config().keyword_blacklist_enabled);
}

#[test]
fn type_check_comes_before_keywords() {
    let mut config = BarrageFilterConfig::default();
    config.enable_reverse = false;
    config.short_duration_filter_enabled = true;
    config.min_duration_ms = 10_000;
    let mut engine = FilterEngine::new(config);
    engine.add_keyword("x");
    let obj = BarrageObject::new(1, "x", TrackMode::Reverse, 0, 0xFFFFFFFF, 28, 1000, 5000, 0);
    assert_eq!(engine.filter(&obj), FilterResult::BlockedByType);
    let obj = BarrageObject::new(1, "x", TrackMode::Scroll, 0, 0xFFFFFFFF, 28, 1000, 5000, 0);
    assert_eq!(engine.filter(&obj), FilterResult::BlockedByDuration);
}

#[test]
fn config_keywords_are_loaded_in_lower_case() {
    let mut config = BarrageFilterConfig::default();
    config.keyword_blacklist_enabled = true;
    config.keyword_data = Some("Foo, BAR".to_string());
    config.keyword_len = 8;
    let engine = FilterEngine::new(config);
    assert_eq!(engine.keywords().to_vec(), vec!["foo".to_string(), "bar".to_string()]);
    let obj = BarrageObject::new(1, "a bar b", TrackMode::Scroll, 0, 0xFFFFFFFF, 28, 1000, 5000, 0);
    assert_eq!(engine.filter(&obj), FilterResult::BlockedByKeyword);
}

#[test]
fn disabled_blacklist_passes_keywords() {
    let mut config = BarrageFilterConfig::default();
    config.keyword_data = Some("bad".to_string());
    config.keyword_len = 3;
    let engine = FilterEngine::new(config);
    let obj = BarrageObject::new(1, "bad", TrackMode::Scroll, 0, 0xFFFFFFFF, 28, 1000, 5000, 0);
    assert_eq!(engine.filter(&obj), FilterResult::Pass);
}

#[test]
fn set_config_replaces_configuration() {
    let mut engine = FilterEngine::with_default_config();
    let mut config = BarrageFilterConfig::default();
    config.enable_scroll = false;
    engine.set_config(config);
    assert!(!engine.config().enable_scroll);
    engine.config_mut().enable_scroll = true;
    assert!(engine.config().enable_scroll);
}
