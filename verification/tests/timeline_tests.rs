use rs_ffi_barrage::timeline::TimelineController;

fn ratio(v: u32) -> f64 {
    v as f64 / 1000.0
}

#[test]
fn test_timeline_creation() {
    let tl = TimelineController::new();
    assert_eq!(tl.speed(), 1000);
    assert!(!tl.is_paused());
    assert_eq!(tl.engine_time_ms(), 0);
}

#[test]
fn test_timeline_speed_clamp() {
    let mut tl = TimelineController::new();
    tl.set_speed(10_000);
    assert!((ratio(tl.speed()) - 4.0).abs() < 0.001);

    tl.set_speed(-1000);
    assert!((ratio(tl.speed()) - 0.25).abs() < 0.001);

    tl.set_speed(2000);
    assert!((ratio(tl.speed()) - 2.0).abs() < 0.001);
}

#[test]
fn test_timeline_pause_resume() {
    let mut tl = TimelineController::new();
    assert!(!tl.is_paused());

    tl.pause();
    assert!(tl.is_paused());

    let delta = tl.update();
    assert_eq!(delta, 0);

    tl.resume();
    assert!(!tl.is_paused());
}

#[test]
fn timeline_test_timeline_seek() {
    let mut tl = TimelineController::new();
    tl.seek(5000);
    assert_eq!(tl.engine_time_ms(), 5000);

    tl.seek(0);
    assert_eq!(tl.engine_time_ms(), 0);
}

#[test]
fn timeline_test_timeline_clear() {
    let mut tl = TimelineController::new();
    tl.seek(10000);
    tl.set_speed(2000);
    tl.pause();

    tl.clear();
    assert_eq!(tl.engine_time_ms(), 0);
    assert!((ratio(tl.speed()) - 1.0).abs() < 0.001);
    assert!(!tl.is_paused());
}

#[test]
fn test_barrage_visibility() {
    let mut tl = TimelineController::new();
    tl.seek(1000);
    assert!(tl.is_barrage_visible(500, 2000));
    assert!(!tl.is_barrage_visible(0, 500));
}

#[test]
fn timeline_test_barrage_progress() {
    let mut tl = TimelineController::new();
    tl.seek(500);
    let progress = tl.get_barrage_progress(0, 1000);
    assert!((ratio(progress) - 0.5).abs() < 0.01);
}

#[test]
fn test_timeline_speed_control() {
    let mut tl = TimelineController::new();
    assert!((ratio(tl.speed()) - 1.0).abs() < 0.001);

    tl.set_speed(2000);
    assert!((ratio(tl.speed()) - 2.0).abs() < 0.001);

    tl.set_speed(500);
    assert!((ratio(tl.speed()) - 0.5).abs() < 0.001);

    tl.set_speed(10_000);
    assert!((ratio(tl.speed()) - 4.0).abs() < 0.001);
}

#[test]
fn test_timeline_pause() {
    let mut tl = TimelineController::new();
    assert!(!tl.is_paused());

    tl.pause();
    assert!(tl.is_paused());

    let delta = tl.update();
    assert_eq!(delta, 0);

    tl.resume();
    assert!(!tl.is_paused());
}

#[test]
fn integration_tests_test_timeline_seek() {
    let mut tl = TimelineController::new();
    tl.seek(10000);
    assert_eq!(tl.engine_time_ms(), 10000);

    tl.seek(0);
    assert_eq!(tl.engine_time_ms(), 0);
}

#[test]
fn integration_tests_test_timeline_clear() {
    let mut tl = TimelineController::new();
    tl.set_speed(2000);
    tl.seek(5000);
    tl.pause();

    tl.clear();
    assert_eq!(tl.engine_time_ms(), 0);
    assert!((ratio(tl.speed()) - 1.0).abs() < 0.001);
    assert!(!tl.is_paused());
}

#[test]
fn test_timeline_barrage_visibility() {
    let mut tl = TimelineController::new();
    assert!(tl.is_barrage_visible(1000, 2000));
    assert!(tl.is_barrage_visible(500, 2000));

    tl.seek(5000);
    assert!(!tl.is_barrage_visible(1000, 2000));
    assert!(tl.is_barrage_visible(4000, 2000));
}

#[test]
fn advance_by_scales_with_speed() {
    let mut tl = TimelineController::with_speed(2000);
    assert_eq!(tl.advance_by(100), 200);
    assert_eq!(tl.engine_time_ms(), 200);
    tl.pause();
    assert_eq!(tl.advance_by(100), 0);
    assert_eq!(tl.engine_time_ms(), 200);
    tl.resume();
    tl.set_speed(250);
    assert_eq!(tl.advance_by(100), 25);
    assert_eq!(tl.engine_time_ms(), 225);
}

#[test]
fn paused_timeline_shows_everything() {
    let mut tl = TimelineController::new();
    tl.seek(100_000);
    assert!(!tl.is_barrage_visible(0, 10));
    tl.pause();
    assert!(tl.is_barrage_visible(0, 10));
}

#[test]
fn toggle_pause_and_state() {
    let mut tl = TimelineController::new();
    tl.toggle_pause();
    assert!(tl.is_paused());
    assert_eq!(tl.get_state(), (0, 1000, false));
    tl.toggle_pause();
    assert_eq!(tl.get_state(), (0, 1000, true));
}

#[test]
fn progress_edge_cases() {
    let mut tl = TimelineController::new();
    tl.seek(10);
    assert_eq!(tl.get_barrage_progress(0, 0), 1000);
    assert_eq!(tl.get_barrage_progress(100, 1000), 0);
    assert_eq!(tl.get_barrage_progress(0, 5), 1000);
}

#[test]
fn stats_follow_advances() {
    let mut tl = TimelineController::new();
    tl.advance_by(40);
    let s = tl.get_stats();
    assert_eq!(s.engine_time_ms, 40);
    assert_eq!(s.total_wall_time_ms, 40);
    assert_eq!(s.total_engine_time_ms, 40);
    assert_eq!(s.speed, 1000);
    assert!(!s.paused);
}

#[test]
fn can_advance_by_guards_the_counters() {
    let mut tl = TimelineController::new();
    assert!(tl.can_advance_by(u64::MAX));
    tl.advance_by(1000);
    assert!(tl.can_advance_by(1000));
    assert!(!tl.can_advance_by(u64::MAX));
    tl.pause();
    assert!(tl.can_advance_by(u64::MAX));
}
