use rs_ffi_barrage::barrage::{BarrageObject, BarrageObjectPool};
use rs_ffi_barrage::config::{BarrageTrackConfig, CongestionStrategy, TrackMode};
use rs_ffi_barrage::track::TrackManager;

fn obj(id: u64, text: &str) -> BarrageObject {
    BarrageObject::new(id, text, TrackMode::Scroll, 0, 0xFFFFFFFF, 28, 1000, 5000, 0)
}

#[test]
fn test_track_manager_creation() {
    let tm = TrackManager::new(10, 1920, 1080, false, 40, 10, 200_000);
    assert_eq!(tm.tracks.len(), 10);
    assert_eq!(tm.track_count(), 10);
}

#[test]
fn test_track_modes_distribution() {
    let tm = TrackManager::new(8, 1920, 1080, false, 40, 10, 200_000);
    assert_eq!(tm.tracks[0].mode, TrackMode::Scroll);
    assert_eq!(tm.tracks[1].mode, TrackMode::Top);
    assert_eq!(tm.tracks[2].mode, TrackMode::Bottom);
    assert_eq!(tm.tracks[3].mode, TrackMode::Reverse);
    assert_eq!(tm.tracks[4].mode, TrackMode::Scroll);
}

#[test]
fn test_track_full_drop() {
    let mut tm = TrackManager::new(2, 1920, 1080, false, 40, 10, 200_000);
    let mut pool = BarrageObjectPool::new(64, 16);

    tm.tracks[0].max_concurrent = 2;

    let (idx1, _) = pool.allocate(obj(1, "a")).unwrap();
    assert!(tm.add_barrage(&mut pool, idx1, 0, 0).is_ok());

    let (idx2, _) = pool.allocate(obj(2, "b")).unwrap();
    assert!(tm.add_barrage(&mut pool, idx2, 0, 0).is_ok());

    tm.tracks[0].congestion_strategy = CongestionStrategy::Drop;
    let (idx3, _) = pool.allocate(obj(3, "c")).unwrap();
    assert!(tm.add_barrage(&mut pool, idx3, 0, 0).is_err());
}

#[test]
fn test_track_manager_congestion() {
    let mut tm = TrackManager::new(2, 640, 480, false, 40, 10, 200_000);
    let mut pool = BarrageObjectPool::new(64, 16);

    tm.tracks[0].max_concurrent = 1;
    tm.tracks[0].congestion_strategy = CongestionStrategy::Drop;

    let (idx1, _) = pool.allocate(obj(1, "弹幕1")).unwrap();
    assert!(tm.add_barrage(&mut pool, idx1, 0, 0).is_ok());

    let (idx2, _) = pool.allocate(obj(2, "弹幕2")).unwrap();
    let result = tm.add_barrage(&mut pool, idx2, 0, 0);
    assert_eq!(result, Err(()));
}

#[test]
fn track_count_is_bounded() {
    assert_eq!(TrackManager::new(0, 640, 480, false, 40, 10, 200_000).track_count(), 1);
    assert_eq!(TrackManager::new(500, 640, 480, false, 40, 10, 200_000).track_count(), 100);
}

#[test]
fn dropped_barrage_frees_its_slot() {
    let mut tm = TrackManager::new(1, 640, 480, false, 40, 10, 200_000);
    let mut pool = BarrageObjectPool::new(32, 16);
    tm.tracks[0].max_concurrent = 1;
    tm.tracks[0].congestion_strategy = CongestionStrategy::Drop;
    let (a, _) = pool.allocate(obj(1, "a")).unwrap();
    tm.add_barrage(&mut pool, a, 0, 0).unwrap();
    let (b, _) = pool.allocate(obj(2, "b")).unwrap();
    assert_eq!(pool.alive_count(), 2);
    assert!(tm.add_barrage(&mut pool, b, 0, 0).is_err());
    assert_eq!(pool.alive_count(), 1);
    assert!(pool.get(b).is_none());
}

#[test]
fn queued_barrage_enters_when_room_frees() {
    let mut tm = TrackManager::new(1, 640, 480, false, 40, 10, 200_000);
    let mut pool = BarrageObjectPool::new(32, 16);
    tm.tracks[0].max_concurrent = 1;
    let short = BarrageObject::new(1, "s", TrackMode::Scroll, 0, 0xFFFFFFFF, 28, 1000, 100, 0);
    let (a, _) = pool.allocate(short).unwrap();
    tm.add_barrage(&mut pool, a, 0, 0).unwrap();
    let (b, _) = pool.allocate(obj(2, "q")).unwrap();
    assert!(tm.add_barrage(&mut pool, b, 0, 0).is_ok());
    assert_eq!(tm.tracks[0].active_barrages, vec![a]);
    assert_eq!(tm.tracks[0].pending_queue.len(), 1);
    // The short barrage expires; the queued one takes its place.
    tm.update(&mut pool, 200, 1000, 200);
    assert_eq!(tm.tracks[0].active_barrages, vec![b]);
    assert_eq!(tm.tracks[0].pending_queue.len(), 0);
    assert!(pool.get(a).is_none());
}

#[test]
fn unknown_track_index_is_error() {
    let mut tm = TrackManager::new(2, 640, 480, false, 40, 10, 200_000);
    let mut pool = BarrageObjectPool::new(32, 16);
    let (a, _) = pool.allocate(obj(1, "a")).unwrap();
    assert!(tm.add_barrage(&mut pool, a, 5, 0).is_err());
    assert_eq!(pool.alive_count(), 1);
}

#[test]
fn scroll_barrage_starts_right_of_canvas_and_moves_left() {
    let mut tm = TrackManager::new(1, 640, 480, false, 40, 10, 200_000);
    let mut pool = BarrageObjectPool::new(32, 16);
    let (a, _) = pool.allocate(obj(1, "ab")).unwrap();
    tm.add_barrage(&mut pool, a, 0, 0).unwrap();
    let o = pool.get(a).unwrap();
    assert_eq!(o.x, 640_000);
    assert!(o.speed_x < 0);
    let x0 = o.x;
    tm.update(&mut pool, 100, 1000, 100);
    let o = pool.get(a).unwrap();
    assert!(o.x < x0);
}

#[test]
fn clear_frees_everything() {
    let mut tm = TrackManager::new(4, 640, 480, false, 40, 10, 200_000);
    let mut pool = BarrageObjectPool::new(32, 16);
    for i in 0..4u32 {
        let (a, _) = pool.allocate(obj(i as u64, "c")).unwrap();
        tm.add_barrage(&mut pool, a, i, 0).unwrap();
    }
    assert_eq!(tm.get_all_barrages(&pool).len(), 4);
    assert_eq!(tm.get_track_barrages(0, &pool).len(), 1);
    assert!(tm.get_track_barrages(99, &pool).is_empty());
    tm.clear(&mut pool);
    assert_eq!(pool.alive_count(), 0);
    assert!(tm.get_all_barrages(&pool).is_empty());
}

#[test]
fn configured_tracks_follow_configs() {
    let cfgs = vec![
        BarrageTrackConfig { mode: TrackMode::Top, ..Default::default() },
        BarrageTrackConfig { mode: TrackMode::Bottom, max_concurrent: 3, ..Default::default() },
    ];
    let tm = TrackManager::new_with_configs(&cfgs, 640, 480, false);
    assert_eq!(tm.track_count(), 2);
    assert_eq!(tm.tracks[0].mode, TrackMode::Top);
    assert_eq!(tm.tracks[1].mode, TrackMode::Bottom);
    assert_eq!(tm.tracks[1].max_concurrent, 3);
}

#[test]
fn set_canvas_size_keeps_tracks() {
    let mut tm = TrackManager::new(3, 640, 480, false, 40, 10, 200_000);
    tm.set_canvas_size(1280, 720);
    assert_eq!(tm.track_count(), 3);
}

#[test]
fn queued_barrages_enter_in_order() {
    let mut tm = TrackManager::new(1, 640, 480, false, 40, 10, 200_000);
    let mut pool = BarrageObjectPool::new(32, 16);
    tm.tracks[0].max_concurrent = 1;
    let short = BarrageObject::new(1, "s", TrackMode::Scroll, 0, 0xFFFFFFFF, 28, 1000, 100, 0);
    let (a, _) = pool.allocate(short).unwrap();
    tm.add_barrage(&mut pool, a, 0, 0).unwrap();
    let (b, _) = pool.allocate(obj(2, "first")).unwrap();
    let (c, _) = pool.allocate(obj(3, "second")).unwrap();
    tm.add_barrage(&mut pool, b, 0, 0).unwrap();
    tm.add_barrage(&mut pool, c, 0, 0).unwrap();
    assert_eq!(tm.tracks[0].pending_queue.len(), 2);
    tm.update(&mut pool, 200, 1000, 200);
    assert_eq!(tm.tracks[0].active_barrages, vec![b]);
    assert_eq!(tm.tracks[0].pending_queue.len(), 1);
    assert_eq!(tm.tracks[0].pending_queue[0].pool_idx, c);
}
