use rs_ffi_barrage::barrage::{BarrageObject, BarrageObjectPool, EmojiSegment};
use rs_ffi_barrage::config::{BarrageGlobalConfig, TrackMode};
use rs_ffi_barrage::emoji::EmojiManager;
use rs_ffi_barrage::engine::BarrageCore;

#[test]
fn test_engine_lifecycle() {
    let core = BarrageCore::with_default_config();
    let stats = core.get_stats();
    assert_eq!(stats.alive_barrages, 0);
    assert!(!stats.paused);
    assert_eq!(stats.engine_time_ms, 0);

    let config = BarrageGlobalConfig {
        canvas_width: 1280,
        canvas_height: 720,
        track_count: 15,
        default_duration_ms: 3000,
        ..Default::default()
    };
    let core2 = BarrageCore::new(config);
    let stats2 = core2.get_stats();
    assert_eq!(stats2.engine_time_ms, 0);
}

#[test]
fn test_engine_update_loop() {
    let mut core = BarrageCore::with_default_config();
    for _ in 0..60 {
        core.send_barrage("帧测试", TrackMode::Scroll, 0xFFFFFFFF, 28, 1000, 5000, None);
        core.update(16);
    }
    let stats = core.get_stats();
    assert!(stats.engine_time_ms > 0);
}

#[test]
fn test_barrage_send_and_dispatch() {
    let mut core = BarrageCore::with_default_config();
    core.send_barrage("滚动弹幕", TrackMode::Scroll, 0xFFFFFFFF, 28, 1000, 5000, None);
    core.send_barrage("顶部弹幕", TrackMode::Top, 0xFFFF0000, 32, 1000, 5000, None);
    core.send_barrage("底部弹幕", TrackMode::Bottom, 0xFF00FF00, 24, 800, 5000, None);
    core.send_barrage("逆向弹幕", TrackMode::Reverse, 0xFF0000FF, 36, 500, 5000, None);

    core.update(16);

    let stats = core.get_stats();
    assert_eq!(stats.alive_barrages, 4);
}

#[test]
fn test_barrage_batch_send() {
    let mut core = BarrageCore::with_default_config();
    for i in 0..100 {
        core.send_barrage(&format!("批量弹幕 {}", i), TrackMode::Scroll, 0xFFFFFFFF, 28, 1000, 10000, None);
    }
    core.update(16);
    let stats = core.get_stats();
    assert!(stats.alive_barrages > 0);
    assert!(stats.alive_barrages <= 100);
}

#[test]
fn test_barrage_expiration() {
    let mut core = BarrageCore::with_default_config();
    core.send_barrage("短时弹幕", TrackMode::Scroll, 0xFFFFFFFF, 28, 1000, 50, None);
    core.update(16);
    assert_eq!(core.get_stats().alive_barrages, 1);

    for _ in 0..10 {
        core.update(16);
    }
    assert_eq!(core.get_stats().alive_barrages, 0);
}

#[test]
fn test_emoji_register_rgba() {
    let mut mgr = EmojiManager::with_default_config();
    let rgba = vec![255u8; 32 * 32 * 4];
    assert!(mgr.register_from_rgba("emoji_a", 32, 32, &rgba).is_ok());
    assert!(mgr.has_emoji("emoji_a"));
}

#[test]
fn test_emoji_register_rgba_invalid_data() {
    let mut mgr = EmojiManager::with_default_config();
    let wrong_data = vec![255u8; 10];
    let result = mgr.register_from_rgba("bad_emoji", 10, 10, &wrong_data);
    assert!(result.is_err());
}

#[test]
fn test_emoji_query_exists() {
    let mut mgr = EmojiManager::with_default_config();
    let rgba = vec![1u8, 2, 3, 4];
    mgr.register_from_rgba("query_test", 1, 1, &rgba).unwrap();

    let info = mgr.get_emoji_info("query_test");
    assert!(info.is_some());
    let (w, h, bytes) = info.unwrap();
    assert_eq!(w, 1);
    assert_eq!(h, 1);
    assert_eq!(bytes, 4);

    let mut buf = vec![0u8; 4];
    assert!(mgr.copy_emoji_bitmap("query_test", &mut buf, 4));
    assert_eq!(buf, vec![1, 2, 3, 4]);

    let bytes = mgr.get_emoji_bitmap_bytes("query_test");
    assert_eq!(bytes, Some(vec![1, 2, 3, 4]));
}

#[test]
fn test_emoji_query_not_exists() {
    let mut mgr = EmojiManager::with_default_config();
    assert!(mgr.get_emoji_info("not_exist").is_none());
    let mut buf = vec![0u8; 4];
    assert!(!mgr.copy_emoji_bitmap("not_exist", &mut buf, 4));
    assert!(mgr.get_emoji_bitmap_bytes("not_exist").is_none());
}

#[test]
fn test_pixel_copy_integrity() {
    let mut mgr = EmojiManager::with_default_config();
    let width = 8u32;
    let height = 8u32;
    let pixel_count = (width * height * 4) as usize;

    let mut rgba = vec![0u8; pixel_count];
    for y in 0..height {
        for x in 0..width {
            let idx = ((y * width + x) * 4) as usize;
            if (x + y) % 2 == 0 {
                rgba[idx] = 255;
                rgba[idx + 1] = 0;
                rgba[idx + 2] = 0;
                rgba[idx + 3] = 255;
            } else {
                rgba[idx] = 0;
                rgba[idx + 1] = 0;
                rgba[idx + 2] = 255;
                rgba[idx + 3] = 255;
            }
        }
    }

    mgr.register_from_rgba("checkerboard", width, height, &rgba).unwrap();

    let mut buffer = vec![0u8; pixel_count];
    assert!(mgr.copy_emoji_bitmap("checkerboard", &mut buffer, pixel_count));
    assert_eq!(buffer, rgba);

    assert_eq!(buffer[0], 255);
    assert_eq!(buffer[32], 0);
}

#[test]
fn test_pixel_copy_truncated() {
    let mut mgr = EmojiManager::with_default_config();
    let rgba = vec![255u8; 16 * 16 * 4];
    mgr.register_from_rgba("trunc_test", 16, 16, &rgba).unwrap();

    let mut small_buf = vec![0u8; 4];
    assert!(!mgr.copy_emoji_bitmap("trunc_test", &mut small_buf, 4));
}

#[test]
fn integration_tests_test_object_pool_reuse() {
    let mut pool = BarrageObjectPool::new(16, 8);

    let mut indices = Vec::new();
    for i in 0..5 {
        let obj = BarrageObject::new(i, &format!("obj{}", i), TrackMode::Scroll, 0, 0xFFFFFFFF, 28, 1000, 5000, 0);
        let (idx, _) = pool.allocate(obj).expect("分配失败");
        indices.push(idx);
    }

    assert_eq!(pool.alive_count(), 5);

    for i in 0..3 {
        pool.deallocate(indices[i]);
    }

    assert_eq!(pool.alive_count(), 2);
    assert_eq!(pool.free_count(), pool.capacity() - 2);

    let obj = BarrageObject::new(100, "reuse", TrackMode::Scroll, 0, 0xFFFFFFFF, 28, 1000, 5000, 0);
    let (new_idx, _) = pool.allocate(obj).expect("分配失败");
    assert_eq!(new_idx, indices[2]);
}

#[test]
fn test_object_pool_grow() {
    let mut pool = BarrageObjectPool::new(8, 4);
    for i in 0..20 {
        let obj = BarrageObject::new(i, &format!("obj{}", i), TrackMode::Scroll, 0, 0xFFFFFFFF, 28, 1000, 5000, 0);
        let result = pool.allocate(obj);
        assert!(result.is_some(), "第 {} 个对象分配失败", i);
    }
    assert!(pool.capacity() >= 20);
}

#[test]
fn test_object_pool_clear() {
    let mut pool = BarrageObjectPool::new(32, 16);
    for i in 0..10 {
        let obj = BarrageObject::new(i, "test", TrackMode::Scroll, 0, 0xFFFFFFFF, 28, 1000, 5000, 0);
        pool.allocate(obj).unwrap();
    }
    assert_eq!(pool.alive_count(), 10);
    pool.clear();
    assert_eq!(pool.alive_count(), 0);
    assert_eq!(pool.free_count(), pool.capacity());
}

#[test]
fn test_barrage_object_reset() {
    let mut obj = BarrageObject::new(42, "原始文本", TrackMode::Top, 5, 0xFF0000FF, 36, 800, 10000, 1000);
    obj.alive = true;

    obj.reset();

    assert!(!obj.alive);
    assert!(obj.text.is_empty());
    assert_eq!(obj.track_mode, TrackMode::Scroll);
    assert_eq!(obj.track_index, 0);
    assert_eq!(obj.font_size, 28);
}

#[test]
fn test_full_pipeline() {
    let mut core = BarrageCore::with_default_config();

    let rgba = vec![200u8; 16 * 16 * 4];
    assert!(core.register_emoji_rgba("face", &rgba, 16, 16).is_ok());

    core.send_barrage("集成测试弹幕", TrackMode::Scroll, 0xFFFFFFFF, 28, 1000, 5000, None);

    core.update(16);
    assert!(core.get_stats().alive_barrages > 0);

    let mut buffer = vec![0u8; 320 * 240 * 4];
    let count = core.render(&mut buffer, 320, 240);
    assert!(count >= 0);

    core.pause();
    assert!(core.get_stats().paused);
    core.resume();
    assert!(!core.get_stats().paused);

    core.set_speed(1500);
    assert!((core.get_stats().speed as f64 / 1000.0 - 1.5).abs() < 0.001);

    core.clear();
    let stats = core.get_stats();
    assert_eq!(stats.alive_barrages, 0);
}

#[test]
fn test_concurrent_stress() {
    let mut core = BarrageCore::with_default_config();
    for i in 0..500 {
        core.send_barrage(
            &format!("Stress #{}", i),
            if i % 2 == 0 { TrackMode::Scroll } else { TrackMode::Top },
            0xFFFFFFFF,
            28,
            1000,
            60000,
            None,
        );
    }
    for _ in 0..10 {
        core.update(16);
    }
    let stats = core.get_stats();
    println!("高并发测试: {} 活跃弹幕, 池容量 {}", stats.alive_barrages, stats.pool_capacity);
    assert!(stats.alive_barrages > 0);
}

#[test]
fn test_mixed_text_and_emoji() {
    let text_seg = EmojiSegment::text("Hello");
    assert!(!text_seg.is_emoji);
    assert_eq!(text_seg.text, "Hello");

    let emoji_seg = EmojiSegment::emoji("smile");
    assert!(emoji_seg.is_emoji);
    assert_eq!(emoji_seg.emoji_id, "smile");

    let _segments = vec![EmojiSegment::text("前面"), EmojiSegment::emoji("face_001"), EmojiSegment::text("后面")];

    let mut core = BarrageCore::with_default_config();
    core.send_barrage("纯文本弹幕", TrackMode::Scroll, 0xFFFFFFFF, 28, 1000, 5000, None);
    core.update(16);

    let stats = core.get_stats();
    assert!(stats.alive_barrages > 0);
}

#[test]
fn test_emoji_cache_management() {
    let mut core = BarrageCore::with_default_config();
    let rgba = vec![100u8; 8 * 8 * 4];
    core.register_emoji_rgba("cache_test", &rgba, 8, 8).unwrap();
    assert!(core.get_emoji_cache_size() > 0);
    core.clear_emoji_cache();
    assert_eq!(core.get_emoji_cache_size(), 0);
}

#[test]
fn test_emoji_remove() {
    let mut core = BarrageCore::with_default_config();
    let rgba = vec![100u8; 4 * 4 * 4];
    core.register_emoji_rgba("remove_test", &rgba, 4, 4).unwrap();
    assert!(core.remove_emoji("remove_test"));
    assert!(!core.remove_emoji("not_exist"));
}

#[test]
fn test_filter_integration() {
    let mut core = BarrageCore::with_default_config();
    core.add_blacklist_keyword("敏感词");

    core.send_barrage("包含敏感词的内容", TrackMode::Scroll, 0xFFFFFFFF, 28, 1000, 5000, None);
    core.update(16);
    assert_eq!(core.get_stats().alive_barrages, 0);

    core.send_barrage("正常内容", TrackMode::Scroll, 0xFFFFFFFF, 28, 1000, 5000, None);
    core.update(16);
    assert_eq!(core.get_stats().alive_barrages, 1);
}

#[test]
fn test_multiple_render_calls() {
    let mut core = BarrageCore::with_default_config();
    for i in 0..10 {
        core.send_barrage(&format!("渲染测试{}", i), TrackMode::Scroll, 0xFFFFFFFF, 28, 1000, 5000, None);
    }
    core.update(16);

    let mut buffer = vec![0u8; 100 * 100 * 4];
    for _ in 0..5 {
        let count = core.render(&mut buffer, 100, 100);
        assert!(count >= 0);
    }
}

#[test]
fn test_engine_stats() {
    let mut core = BarrageCore::with_default_config();

    let stats = core.get_stats();
    assert_eq!(stats.pool_capacity, 256);
    assert_eq!(stats.pool_free, 256);
    assert_eq!(stats.emoji_cache_entries, 0);

    core.send_barrage("统计测试", TrackMode::Scroll, 0xFFFFFFFF, 28, 1000, 5000, None);
    core.update(16);

    let stats = core.get_stats();
    assert_eq!(stats.alive_barrages, 1);
    assert!(stats.engine_time_ms > 0);
}

#[test]
fn test_emoji_info_query_integrated() {
    let mut core = BarrageCore::with_default_config();
    assert!(core.get_emoji_info("not_exist").is_none());

    let rgba = vec![200u8; 64 * 64 * 4];
    core.register_emoji_rgba("big_emoji", &rgba, 64, 64).unwrap();

    let info = core.get_emoji_info("big_emoji");
    assert!(info.is_some());
    let (w, h, bytes) = info.unwrap();
    assert_eq!(w, 64);
    assert_eq!(h, 64);
    assert_eq!(bytes, 64 * 64 * 4);
}
