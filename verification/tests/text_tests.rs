use rs_ffi_barrage::math::{clamp_i32, clamp_u32, max_u32, min_u32};
use rs_ffi_barrage::text::{chars_of, contains, is_white_space_char, split_keywords, trim};
use rs_ffi_barrage::config::{ColorStop, GlowPreset, TextEffectConfig};
use rs_ffi_barrage::text_effect::{
    blend_colors, composite_under, glow_color_stops, gradient_color_stops, outline_layer, preset_color_stops,
    shadow_layer, box_blur_horizontal, box_blur_vertical, gaussian_blur, get_pixel, is_opaque, pixel_index,
    rgba_u32_to_array, set_pixel,
};

#[test]
fn trim_matches_std() {
    for s in ["  a b  ", "\t\n x\u{3000}", "", "   ", "abc"] {
        assert_eq!(trim(s), s.trim());
    }
}

#[test]
fn white_space_chars() {
    assert!(is_white_space_char(' '));
    assert!(is_white_space_char('\u{3000}'));
    assert!(!is_white_space_char('a'));
    assert!(!is_white_space_char('\0'));
}

#[test]
fn contains_matches_std() {
    assert!(contains("hello world", "lo w"));
    assert!(contains("abc", ""));
    assert!(!contains("abc", "abcd"));
    assert!(!contains("弹幕内容", "广告"));
    assert!(contains("这是一个广告弹幕", "广告"));
}

#[test]
fn split_keywords_pieces() {
    assert_eq!(split_keywords("a, b ,,c"), vec!["a".to_string(), "b".to_string(), "c".to_string()]);
    assert_eq!(split_keywords("x\0y,z"), vec!["x".to_string()]);
    assert!(split_keywords("").is_empty());
    assert!(split_keywords(" , ").is_empty());
}

#[test]
fn chars_of_lists_chars() {
    assert_eq!(chars_of("a弹"), vec!['a', '弹']);
}

#[test]
fn pixel_helpers() {
    assert_eq!(pixel_index(2, 1, 4), 24);
    let mut buf = vec![0u8; 4 * 4 * 4];
    set_pixel(&mut buf, 2, 1, 4, &[1, 2, 3, 4]);
    assert_eq!(get_pixel(&buf, 2, 1, 4), [1, 2, 3, 4]);
    assert_eq!(&buf[24..28], &[1, 2, 3, 4]);
    assert!(is_opaque(&buf, 2, 1, 4));
    assert!(!is_opaque(&buf, 0, 0, 4));
    assert_eq!(buf.iter().filter(|&&b| b != 0).count(), 4);
}

#[test]
fn blend_colors_cases() {
    assert_eq!(blend_colors(&[1, 2, 3, 4], &[9, 9, 9, 0]), [1, 2, 3, 4]);
    assert_eq!(blend_colors(&[1, 2, 3, 4], &[9, 9, 9, 255]), [9, 9, 9, 255]);
    assert_eq!(blend_colors(&[255, 0, 0, 255], &[0, 255, 0, 128]), [127, 128, 0, 255]);
}

#[test]
fn unpack_color() {
    assert_eq!(rgba_u32_to_array(0xFF0000FF), [255, 0, 0, 255]);
}

#[test]
fn math_helpers() {
    assert_eq!(clamp_u32(5, 10, 20), 10);
    assert_eq!(clamp_u32(25, 10, 20), 20);
    assert_eq!(clamp_i32(-50, -32, 32), -32);
    assert_eq!(min_u32(3, 4), 3);
    assert_eq!(max_u32(3, 4), 4);
}

fn row(vals: &[u8]) -> Vec<u8> {
    vals.iter().flat_map(|&v| [v, v, v, v]).collect()
}

#[test]
fn box_blur_horizontal_means() {
    let mut buf = row(&[0, 30, 60]);
    box_blur_horizontal(&mut buf, 3, 1, 1);
    assert_eq!(buf, row(&[15, 30, 45]));
}

#[test]
fn box_blur_vertical_means() {
    let mut buf = row(&[0, 30, 60]);
    box_blur_vertical(&mut buf, 1, 3, 1);
    assert_eq!(buf, row(&[15, 30, 45]));
    let mut flat = row(&[0, 30, 60]);
    box_blur_vertical(&mut flat, 3, 1, 1);
    assert_eq!(flat, row(&[0, 30, 60]));
}

#[test]
fn gaussian_blur_three_passes() {
    let mut buf = row(&[0, 30, 60]);
    gaussian_blur(&mut buf, 3, 1, 1);
    assert_eq!(buf, row(&[26, 29, 33]));
    let mut same = row(&[0, 30, 60]);
    gaussian_blur(&mut same, 3, 1, 0);
    assert_eq!(same, row(&[0, 30, 60]));
}

#[test]
fn blur_keeps_flat_colour() {
    let flat: Vec<u8> = (0..12).flat_map(|_| [10u8, 20, 30, 40]).collect();
    let mut h = flat.clone();
    box_blur_horizontal(&mut h, 4, 3, 2);
    assert_eq!(h, flat);
    let mut v = flat.clone();
    box_blur_vertical(&mut v, 4, 3, 5);
    assert_eq!(v, flat);
    let mut g = flat.clone();
    gaussian_blur(&mut g, 4, 3, 3);
    assert_eq!(g, flat);
}

#[test]
fn preset_stops_table() {
    assert!(preset_color_stops(GlowPreset::NoPreset).is_empty());
    let rainbow = preset_color_stops(GlowPreset::Rainbow);
    assert_eq!(rainbow.len(), 7);
    assert_eq!(rainbow[1].position, 170);
    assert_eq!(rainbow[1].rgba, 0xFFFF00FF);
    let gold = preset_color_stops(GlowPreset::MonoGold);
    assert_eq!(gold.iter().map(|s| s.position).collect::<Vec<_>>(), vec![0, 500, 1000]);
}

fn px(buf: &[u8], w: usize, x: usize, y: usize) -> [u8; 4] {
    let i = (y * w + x) * 4;
    [buf[i], buf[i + 1], buf[i + 2], buf[i + 3]]
}

#[test]
fn outline_layer_marks_ring() {
    let mut buf = vec![0u8; 5 * 5 * 4];
    set_pixel(&mut buf, 2, 2, 5, &[9, 9, 9, 255]);
    let color = [1, 2, 3, 4];
    let layer = outline_layer(&buf, 5, 5, 1, &color);
    assert_eq!(px(&layer, 5, 1, 2), color);
    assert_eq!(px(&layer, 5, 3, 2), color);
    assert_eq!(px(&layer, 5, 2, 1), color);
    assert_eq!(px(&layer, 5, 2, 3), color);
    assert_eq!(px(&layer, 5, 1, 1), [0, 0, 0, 0]);
    assert_eq!(px(&layer, 5, 2, 2), [0, 0, 0, 0]);
    assert_eq!(layer.iter().filter(|&&b| b != 0).count(), 16);
    let wide = outline_layer(&buf, 5, 5, 2, &color);
    assert_eq!(px(&wide, 5, 1, 1), color);
    assert_eq!(px(&wide, 5, 0, 0), [0, 0, 0, 0]);
}

#[test]
fn shadow_layer_moves_alpha() {
    let mut buf = vec![0u8; 3 * 3 * 4];
    set_pixel(&mut buf, 0, 0, 3, &[5, 5, 5, 200]);
    let color = [10, 20, 30, 255];
    let layer = shadow_layer(&buf, 3, 3, 1, 1, &color, 2);
    assert_eq!(px(&layer, 3, 1, 1), [10, 20, 30, 100]);
    assert_eq!(layer.iter().filter(|&&b| b != 0).count(), 4);
    let gone = shadow_layer(&buf, 3, 3, -1, 0, &color, 2);
    assert!(gone.iter().all(|&b| b == 0));
}

#[test]
fn composite_under_keeps_text_on_top() {
    let mut buf = vec![0u8; 2 * 1 * 4];
    set_pixel(&mut buf, 1, 0, 2, &[0, 0, 255, 255]);
    let layer = vec![255, 0, 0, 255, 255, 0, 0, 255];
    composite_under(&mut buf, &layer, 2, 1);
    assert_eq!(buf, vec![255, 0, 0, 255, 0, 0, 255, 255]);
}

#[test]
fn effect_stop_selection() {
    let mut cfg = TextEffectConfig::new();
    assert!(glow_color_stops(&cfg).is_empty());
    assert!(gradient_color_stops(&cfg).is_empty());
    let stops: Vec<ColorStop> = (0..10).map(|i| ColorStop { position: i * 100, rgba: i }).collect();
    cfg.glow_color_stops = stops.clone();
    cfg.glow_color_stops_len = 20;
    assert_eq!(glow_color_stops(&cfg), stops[..8].to_vec());
    cfg.glow_color_stops_len = 3;
    assert_eq!(glow_color_stops(&cfg), stops[..3].to_vec());
    cfg.glow_preset = GlowPreset::MonoRed;
    assert_eq!(glow_color_stops(&cfg), preset_color_stops(GlowPreset::MonoRed));
    cfg.gradient_color_stops = stops[..2].to_vec();
    cfg.gradient_color_stops_len = 5;
    assert_eq!(gradient_color_stops(&cfg), stops[..2].to_vec());
    cfg.rainbow_preset = true;
    assert_eq!(gradient_color_stops(&cfg).len(), 7);
}
