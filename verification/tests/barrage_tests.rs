use rs_ffi_barrage::barrage::{BarrageObject, BarrageObjectPool, EmojiSegment};
use rs_ffi_barrage::config::TrackMode;

fn progress_ratio(p: u32) -> f64 {
    p as f64 / 1000.0
}

#[test]
fn test_barrage_object_creation() {
    let obj = BarrageObject::new(1, "测试弹幕", TrackMode::Scroll, 0, 0xFFFFFFFF, 28, 1000, 5000, 0);
    assert_eq!(obj.id, 1);
    assert_eq!(obj.text, "测试弹幕");
    assert!(obj.alive);
    assert!(obj.effect_config.is_none());
}

#[test]
fn test_barrage_object_lifetime() {
    let mut obj = BarrageObject::new(1, "test", TrackMode::Scroll, 0, 0xFFFFFFFF, 28, 1000, 1000, 0);
    assert!(obj.alive);
    obj.update(1500, 1000);
    assert!(!obj.alive);
}

#[test]
fn test_object_pool_allocate_deallocate() {
    let mut pool = BarrageObjectPool::new(32, 16);
    let initial_free = pool.free_count();

    let obj = BarrageObject::new(1, "test", TrackMode::Scroll, 0, 0xFFFFFFFF, 28, 1000, 5000, 0);
    let (idx, _) = pool.allocate(obj).unwrap();
    assert!(idx < 32);
    assert_eq!(pool.alive_count(), 1);
    assert_eq!(pool.free_count(), initial_free - 1);

    pool.deallocate(idx);
    assert_eq!(pool.alive_count(), 0);
}

#[test]
fn barrage_test_object_pool_reuse() {
    let mut pool = BarrageObjectPool::new(32, 16);

    let obj1 = BarrageObject::new(1, "first", TrackMode::Scroll, 0, 0xFFFFFFFF, 28, 1000, 5000, 0);
    let (idx1, _) = pool.allocate(obj1).unwrap();

    pool.deallocate(idx1);

    let obj2 = BarrageObject::new(2, "second", TrackMode::Scroll, 0, 0xFFFFFFFF, 28, 1000, 5000, 0);
    let (idx2, _) = pool.allocate(obj2).unwrap();

    assert_eq!(idx1, idx2);
}

#[test]
fn barrage_test_barrage_progress() {
    let mut obj = BarrageObject::new(1, "test", TrackMode::Scroll, 0, 0xFFFFFFFF, 28, 1000, 1000, 0);
    assert!((progress_ratio(obj.progress()) - 0.0).abs() < 0.01);
    obj.update(500, 1000);
    assert!((progress_ratio(obj.progress()) - 0.5).abs() < 0.01);
}

#[test]
fn test_emoji_segment() {
    let seg_text = EmojiSegment::text("hello");
    assert!(!seg_text.is_emoji);
    assert_eq!(seg_text.text, "hello");

    let seg_emoji = EmojiSegment::emoji("emoji_001");
    assert!(seg_emoji.is_emoji);
    assert_eq!(seg_emoji.emoji_id, "emoji_001");
}

#[test]
fn barrage_new_bounds_alpha_and_duration() {
    let obj = BarrageObject::new(7, "x", TrackMode::Top, 3, 0x11223344, 20, 5000, 10, 42);
    assert_eq!(obj.alpha, 1000);
    assert_eq!(obj.duration_ms, 100);
    assert_eq!(obj.created_at_ms, 42);
    assert_eq!(obj.track_index, 3);
    assert_eq!(obj.elapsed_ms, 0);
}

#[test]
fn barrage_moves_by_speed_times_multiplier() {
    let mut obj = BarrageObject::new(1, "m", TrackMode::Scroll, 0, 0xFFFFFFFF, 28, 1000, 5000, 0);
    obj.speed_x = -200_000;
    obj.x = 1_000_000;
    // 100 ms at double speed: -200 px/s * 0.1 s * 2 = -40 px.
    obj.update(100, 2000);
    assert_eq!(obj.x, 1_000_000 - 40_000);
    assert_eq!(obj.elapsed_ms, 100);
    assert!(obj.alive);
}

#[test]
fn dead_barrage_does_not_change_on_update() {
    let mut obj = BarrageObject::new(1, "d", TrackMode::Scroll, 0, 0xFFFFFFFF, 28, 1000, 100, 0);
    obj.update(200, 1000);
    assert!(!obj.alive);
    let elapsed = obj.elapsed_ms;
    obj.update(200, 1000);
    assert_eq!(obj.elapsed_ms, elapsed);
}

#[test]
fn current_alpha_fades_at_end_of_life() {
    let mut obj = BarrageObject::new(1, "f", TrackMode::Scroll, 0, 0xFFFFFFFF, 28, 1000, 1000, 0);
    assert_eq!(obj.current_alpha(1000), 1000);
    obj.update(950, 1000);
    // 95% of life: fade factor (1000 - 950) * 10 = 500.
    assert_eq!(obj.current_alpha(1000), 500);
    assert_eq!(obj.current_alpha(500), 250);
}

#[test]
fn reset_keeps_id_and_kills() {
    let mut obj = BarrageObject::new(42, "原始文本", TrackMode::Top, 5, 0xFF0000FF, 36, 800, 10000, 1000);
    obj.reset();
    assert_eq!(obj.id, 42);
    assert!(!obj.alive);
    assert_eq!(obj.duration_ms, 5000);
    assert_eq!(obj.alpha, 1000);
    assert_eq!(obj.color_rgba, 0xFFFFFFFF);
}

#[test]
fn pool_get_and_iter_alive() {
    let mut pool = BarrageObjectPool::new(32, 16);
    let a = BarrageObject::new(1, "a", TrackMode::Scroll, 0, 0xFFFFFFFF, 28, 1000, 5000, 0);
    let b = BarrageObject::new(2, "b", TrackMode::Scroll, 0, 0xFFFFFFFF, 28, 1000, 5000, 0);
    let (ia, _) = pool.allocate(a).unwrap();
    let (ib, _) = pool.allocate(b).unwrap();
    assert_eq!(pool.get(ia).unwrap().id, 1);
    assert_eq!(pool.get(ib).unwrap().id, 2);
    assert!(pool.get(1000).is_none());
    let alive = pool.iter_alive();
    assert_eq!(alive.len(), 2);
    pool.get_mut(ia).unwrap().alive = false;
    pool.reap_expired();
    assert_eq!(pool.alive_count(), 1);
    assert!(pool.get(ia).is_none());
}

#[test]
fn pool_new_raises_capacity_and_ignores_bad_index() {
    let mut pool = BarrageObjectPool::new(4, 1);
    assert_eq!(pool.capacity(), 32);
    assert_eq!(pool.free_count(), 32);
    pool.deallocate(999);
    assert_eq!(pool.free_count(), 32);
}

#[test]
fn pool_grows_by_step_when_full() {
    let mut pool = BarrageObjectPool::new(32, 16);
    for i in 0..33 {
        let obj = BarrageObject::new(i, "g", TrackMode::Scroll, 0, 0xFFFFFFFF, 28, 1000, 5000, 0);
        assert!(pool.allocate(obj).is_some());
    }
    assert_eq!(pool.capacity(), 48);
    assert_eq!(pool.alive_count(), 33);
}

#[test]
fn pool_allocation_fails_only_when_exhausted() {
    let mut pool = BarrageObjectPool::new(32, 512);
    let mut n = 0u64;
    while pool.allocate(BarrageObject::new(n, "x", TrackMode::Scroll, 0, 0xFFFFFFFF, 28, 1000, 5000, 0)).is_some() {
        n += 1;
        assert!(n <= 8192);
    }
    assert_eq!(n, 8192);
    assert_eq!(pool.capacity(), 8192);
    assert_eq!(pool.free_count(), 0);
    pool.deallocate(17);
    let (idx, _) = pool.allocate(BarrageObject::new(0, "y", TrackMode::Scroll, 0, 0xFFFFFFFF, 28, 1000, 5000, 0)).unwrap();
    assert_eq!(idx, 17);
}

#[test]
fn alive_slots_can_be_changed_in_place() {
    let mut pool = BarrageObjectPool::new(32, 16);
    let a = BarrageObject::new(1, "a", TrackMode::Scroll, 0, 0xFFFFFFFF, 28, 1000, 5000, 0);
    let b = BarrageObject::new(2, "b", TrackMode::Scroll, 0, 0xFFFFFFFF, 28, 1000, 5000, 0);
    let (ia, _) = pool.allocate(a).unwrap();
    let (ib, _) = pool.allocate(b).unwrap();
    let mut idxs = pool.alive_slot_indices();
    let mut want = vec![ia, ib];
    want.sort();
    idxs.sort();
    assert_eq!(idxs, want);
    for i in pool.alive_slot_indices() {
        pool.get_mut(i).unwrap().update(6000, 1000);
    }
    assert!(pool.alive_slot_indices().is_empty());
    pool.reap_expired();
    assert_eq!(pool.free_count(), 32);
}

#[test]
fn pool_serves_twenty_allocations() {
    let mut pool = BarrageObjectPool::new(8, 4);
    for i in 0..20u64 {
        let o = BarrageObject::new(i, "g", TrackMode::Scroll, 0, 0xFFFFFFFF, 28, 1000, 5000, 0);
        assert!(pool.allocate(o).is_some());
    }
    assert!(pool.capacity() >= 20);
}
