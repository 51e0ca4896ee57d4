use rs_ffi_barrage::barrage::{BarrageObject, EmojiSegment};
use rs_ffi_barrage::config::TrackMode;
use rs_ffi_barrage::emoji::EmojiManager;
use rs_ffi_barrage::renderer::{BitmapFont, RenderOptions, Renderer};

#[test]
fn test_renderer_creation() {
    let renderer = Renderer::new(1920, 1080);
    assert_eq!(renderer.dimensions(), (1920, 1080));
    assert_eq!(renderer.frame_buffer().len(), 1920 * 1080 * 4);
}

#[test]
fn test_clear_buffer() {
    let mut renderer = Renderer::with_background(100, 100, 0x00000000);
    renderer.clear_buffer();
    assert_eq!(renderer.frame_buffer()[0], 0);
    assert_eq!(renderer.frame_buffer()[1], 0);
    assert_eq!(renderer.frame_buffer()[2], 0);
    assert_eq!(renderer.frame_buffer()[3], 0);
}

#[test]
fn test_clear_buffer_with_bg() {
    let mut renderer = Renderer::with_background(100, 100, 0xFF0000FF);
    renderer.clear_buffer();
    assert_eq!(renderer.frame_buffer()[0], 0xFF);
    assert_eq!(renderer.frame_buffer()[3], 0xFF);
}

#[test]
fn test_resize() {
    let mut renderer = Renderer::new(100, 100);
    renderer.resize(200, 200);
    assert_eq!(renderer.dimensions(), (200, 200));
    assert_eq!(renderer.frame_buffer().len(), 200 * 200 * 4);
}

#[test]
fn test_copy_frame() {
    let renderer = Renderer::new(10, 10);
    let mut buffer = vec![0u8; 10 * 10 * 4];
    assert!(renderer.copy_frame(&mut buffer));
}

#[test]
fn test_copy_frame_insufficient() {
    let renderer = Renderer::new(100, 100);
    let mut buffer = vec![0u8; 10];
    assert!(!renderer.copy_frame(&mut buffer));
}

#[test]
fn measure_text_half_font_per_char() {
    assert_eq!(BitmapFont::measure_text("abc", 28), (42, 28));
    assert_eq!(BitmapFont::measure_text("", 28), (0, 28));
    assert_eq!(BitmapFont::measure_text("弹幕", 1), (0, 1));
}

#[test]
fn render_text_paints_cell_interior_only() {
    // One character of font size 4: a 2x4 cell at (0, 0); its interior
    // (strictly inside, border blank) is empty for a 2-pixel-wide cell.
    let mut buf = vec![0u8; 8 * 8 * 4];
    BitmapFont::render_text(&mut buf, "a", 0, 0, 8, 8, &[255, 0, 0, 255], 4);
    assert!(buf.iter().all(|&b| b == 0));
    // Font size 8: a 4x8 cell; interior pixels x in 1..3, y in 1..7.
    BitmapFont::render_text(&mut buf, "a", 0, 0, 8, 8, &[255, 0, 0, 255], 8);
    let px = |x: usize, y: usize| &buf[(y * 8 + x) * 4..(y * 8 + x) * 4 + 4];
    assert_eq!(px(1, 1), &[255, 0, 0, 255]);
    assert_eq!(px(2, 6), &[255, 0, 0, 255]);
    assert_eq!(px(0, 1), &[0, 0, 0, 0]);
    assert_eq!(px(3, 1), &[0, 0, 0, 0]);
    assert_eq!(px(1, 7), &[0, 0, 0, 0]);
}

#[test]
fn render_counts_live_barrages() {
    let mut renderer = Renderer::new(64, 64);
    let mut mgr = EmojiManager::with_default_config();
    let live = BarrageObject::new(1, "hi", TrackMode::Scroll, 0, 0xFFFFFFFF, 8, 1000, 5000, 0);
    let mut dead = BarrageObject::new(2, "x", TrackMode::Scroll, 0, 0xFFFFFFFF, 8, 1000, 5000, 0);
    dead.alive = false;
    let n = renderer.render(&[&live, &dead], &mut mgr);
    assert_eq!(n, 1);
    assert_eq!(renderer.render_stats().barrages_rendered, 1);
    // The first glyph cell's interior is painted white.
    let fb = renderer.frame_buffer();
    assert_eq!(&fb[(64 + 1) * 4..(64 + 1) * 4 + 4], &[255, 255, 255, 255]);
    renderer.reset_stats();
    assert_eq!(renderer.render_stats().barrages_rendered, 0);
}

#[test]
fn render_draws_cached_emoji_segments() {
    let mut renderer = Renderer::new(64, 64);
    let mut mgr = EmojiManager::with_default_config();
    mgr.register_from_rgba("e", 1, 1, &[0, 255, 0, 255]).unwrap();
    let mut obj = BarrageObject::new(1, "", TrackMode::Scroll, 0, 0xFFFFFFFF, 8, 1000, 5000, 0);
    obj.segments = vec![EmojiSegment::emoji("e"), EmojiSegment::emoji("missing")];
    let n = renderer.render(&[&obj], &mut mgr);
    assert_eq!(n, 1);
    assert_eq!(renderer.render_stats().emojis_rendered, 1);
    let fb = renderer.frame_buffer();
    assert_eq!(&fb[0..4], &[0, 255, 0, 255]);
    assert_eq!(&fb[(7 * 64 + 7) * 4..(7 * 64 + 7) * 4 + 4], &[0, 255, 0, 255]);
    assert_eq!(&fb[8 * 4..8 * 4 + 4], &[0, 0, 0, 0]);
}

#[test]
fn options_round_trip() {
    let mut renderer = Renderer::new(4, 4);
    assert_eq!(*renderer.options(), RenderOptions::default());
    let opts = RenderOptions { enable_effects: false, use_global_effects: false, global_alpha: 500, background_color: 7 };
    renderer.set_options(opts);
    assert_eq!(*renderer.options(), opts);
}

#[test]
fn copy_frame_copies_prefix() {
    let renderer = Renderer::with_background(1, 1, 0x01020304);
    let mut buffer = vec![9u8; 6];
    assert!(renderer.copy_frame(&mut buffer));
    assert_eq!(buffer, vec![1, 2, 3, 4, 9, 9]);
}

#[test]
fn render_barrage_to_buffer_sizes() {
    let renderer = Renderer::new(4, 4);
    let mut mgr = EmojiManager::with_default_config();
    let obj = BarrageObject::new(1, "ab", TrackMode::Scroll, 0, 0xFF0000FF, 8, 1000, 5000, 0);
    let buf = renderer.render_barrage_to_buffer(&obj, &mut mgr).unwrap();
    assert_eq!(buf.len(), 8 * 8 * 4);
    assert_eq!(&buf[(8 + 1) * 4..(8 + 1) * 4 + 4], &[255, 0, 0, 255]);
    let mut dead = obj.clone();
    dead.alive = false;
    assert!(renderer.render_barrage_to_buffer(&dead, &mut mgr).is_none());
}

#[test]
fn frame_buffer_mut_writes_through() {
    let mut renderer = Renderer::new(2, 2);
    renderer.frame_buffer_mut()[5] = 42;
    assert_eq!(renderer.frame_buffer()[5], 42);
}

#[test]
fn render_with_nothing_visible_leaves_background() {
    let mut renderer = Renderer::new(16, 16);
    renderer.set_options(RenderOptions {
        enable_effects: true,
        use_global_effects: true,
        global_alpha: 1000,
        background_color: 0x11223344,
    });
    let mut mgr = EmojiManager::with_default_config();
    let faint = BarrageObject::new(1, "a", TrackMode::Scroll, 0, 0xFFFFFFFF, 8, 1, 5000, 0);
    let mut dead = BarrageObject::new(2, "b", TrackMode::Scroll, 0, 0xFFFFFFFF, 8, 1000, 5000, 0);
    dead.alive = false;
    assert_eq!(renderer.render(&[&faint, &dead], &mut mgr), 0);
    for px in renderer.frame_buffer().chunks(4) {
        assert_eq!(px, &[0x11, 0x22, 0x33, 0x44]);
    }
}
