use rs_ffi_barrage::config::TrackMode;
use rs_ffi_barrage::requests::{clipped_text, send_request, track_mode_of};

#[test]
fn track_numbers_select_modes() {
    assert_eq!(track_mode_of(0), TrackMode::Scroll);
    assert_eq!(track_mode_of(1), TrackMode::Top);
    assert_eq!(track_mode_of(2), TrackMode::Bottom);
    assert_eq!(track_mode_of(3), TrackMode::Reverse);
    assert_eq!(track_mode_of(-1), TrackMode::Scroll);
    assert_eq!(track_mode_of(99), TrackMode::Scroll);
}

#[test]
fn long_text_is_cut_to_1024_bytes() {
    let long = "a".repeat(3000);
    assert_eq!(clipped_text(&long).len(), 1024);
    assert_eq!(clipped_text("short"), "short");
    let wide = "弹".repeat(400);
    // 1023 bytes of three-byte characters, then 1 byte: "x" ends at byte 1024.
    let mixed = format!("{}x{}", "弹".repeat(341), "弹".repeat(10));
    assert_eq!(clipped_text(&mixed), format!("{}x", "弹".repeat(341)));
    assert_eq!(wide.len(), 1200);
    // Byte 1024 falls inside the 342nd character: the cut moves back to 1023.
    assert_eq!(clipped_text(&wide), "弹".repeat(341));
    let m = send_request(&"弹".repeat(342), 0, 0xFFFFFFFF, 28, 1000, 5000, None).unwrap();
    assert_eq!(m.text, "弹".repeat(341));
}

#[test]
fn send_request_bounds_values() {
    assert!(send_request("", 0, 0, 28, 1000, 5000, None).is_none());
    let m = send_request("hi", 2, 0x11223344, 500, 5000, 10, None).unwrap();
    assert_eq!(m.text, "hi");
    assert_eq!(m.track_type, TrackMode::Bottom);
    assert_eq!(m.color_rgba, 0x11223344);
    assert_eq!(m.font_size, 120);
    assert_eq!(m.alpha, 1000);
    assert_eq!(m.duration_ms, 100);
    assert!(m.segments.is_empty());
    let m = send_request("hi", 7, 0, 1, 300, 100_000, None).unwrap();
    assert_eq!(m.track_type, TrackMode::Scroll);
    assert_eq!(m.font_size, 8);
    assert_eq!(m.alpha, 300);
    assert_eq!(m.duration_ms, 60000);
}
