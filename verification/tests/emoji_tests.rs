use std::io::Cursor;

use rs_ffi_barrage::config::EmojiCacheConfig;
use rs_ffi_barrage::emoji::{EmojiBitmap, EmojiManager, RegisterMethod};

#[test]
fn test_register_from_rgba() {
    let mut mgr = EmojiManager::with_default_config();
    let rgba = vec![255u8; 64 * 64 * 4];
    assert!(mgr.register_from_rgba("test_emoji", 64, 64, &rgba).is_ok());
    assert!(mgr.has_emoji("test_emoji"));
}

#[test]
fn test_register_invalid_size() {
    let mut mgr = EmojiManager::with_default_config();
    let rgba = vec![255u8; 100];
    let result = mgr.register_from_rgba("bad_emoji", 10, 10, &rgba);
    assert!(result.is_err());
}

#[test]
fn test_register_zero_dimensions() {
    let mut mgr = EmojiManager::with_default_config();
    let result = mgr.register_from_rgba("zero", 0, 0, &[]);
    assert!(result.is_err());
}

#[test]
fn test_get_emoji_info() {
    let mut mgr = EmojiManager::with_default_config();
    let rgba = vec![128u8; 32 * 32 * 4];
    mgr.register_from_rgba("info_test", 32, 32, &rgba).unwrap();

    let info = mgr.get_emoji_info("info_test");
    assert!(info.is_some());
    let (w, h, bytes) = info.unwrap();
    assert_eq!(w, 32);
    assert_eq!(h, 32);
    assert_eq!(bytes, (32 * 32 * 4) as u64);
}

#[test]
fn test_get_emoji_info_not_found() {
    let mut mgr = EmojiManager::with_default_config();
    assert!(mgr.get_emoji_info("nonexistent").is_none());
}

#[test]
fn test_copy_emoji_bitmap() {
    let mut mgr = EmojiManager::with_default_config();
    let rgba = vec![1u8, 2, 3, 4];
    mgr.register_from_rgba("copy_test", 1, 1, &rgba).unwrap();

    let mut buffer = vec![0u8; 4];
    let result = mgr.copy_emoji_bitmap("copy_test", &mut buffer, 4);
    assert!(result);
    assert_eq!(buffer, vec![1, 2, 3, 4]);
}

#[test]
fn test_copy_emoji_bitmap_insufficient_buffer() {
    let mut mgr = EmojiManager::with_default_config();
    let rgba = vec![255u8; 16 * 16 * 4];
    mgr.register_from_rgba("buf_test", 16, 16, &rgba).unwrap();

    let mut buffer = vec![0u8; 4];
    let result = mgr.copy_emoji_bitmap("buf_test", &mut buffer, 4);
    assert!(!result);
}

#[test]
fn test_get_emoji_bitmap_bytes() {
    let mut mgr = EmojiManager::with_default_config();
    let rgba = vec![0xAB; 8 * 8 * 4];
    mgr.register_from_rgba("bytes_test", 8, 8, &rgba).unwrap();

    let result = mgr.get_emoji_bitmap_bytes("bytes_test");
    assert!(result.is_some());
    assert_eq!(result.unwrap(), rgba);
}

#[test]
fn test_remove_emoji() {
    let mut mgr = EmojiManager::with_default_config();
    let rgba = vec![255u8; 4 * 4 * 4];
    mgr.register_from_rgba("remove_test", 4, 4, &rgba).unwrap();

    assert!(mgr.has_emoji("remove_test"));
    assert!(mgr.remove_emoji("remove_test"));
    assert!(!mgr.has_emoji("remove_test"));
}

#[test]
fn test_clear_cache() {
    let mut mgr = EmojiManager::with_default_config();
    let rgba = vec![255u8; 4 * 4 * 4];
    mgr.register_from_rgba("a", 4, 4, &rgba).unwrap();
    mgr.register_from_rgba("b", 4, 4, &rgba).unwrap();

    assert_eq!(mgr.cache_entries(), 2);
    mgr.clear_cache();
    assert_eq!(mgr.cache_entries(), 0);
    assert_eq!(mgr.cache_size(), 0);
}

#[test]
fn test_cache_size_limits() {
    let mut mgr = EmojiManager::new(EmojiCacheConfig { max_total_cache_bytes: 64, ..Default::default() });

    let rgba1 = vec![255u8; 32];
    assert!(mgr.register_from_rgba("a", 1, 8, &rgba1).is_ok());

    let rgba2 = vec![128u8; 32];
    assert!(mgr.register_from_rgba("b", 1, 8, &rgba2).is_ok());

    let rgba3 = vec![64u8; 32];
    let result = mgr.register_from_rgba("c", 1, 8, &rgba3);
    assert!(result.is_ok());
}

#[test]
fn test_register_invalid_id() {
    let mut mgr = EmojiManager::with_default_config();
    let result = mgr.register_from_rgba("", 1, 1, &[255u8; 4]);
    assert!(result.is_err());
}

#[test]
fn byte_budget_evicts_least_recent() {
    let mut mgr = EmojiManager::new(EmojiCacheConfig { max_total_cache_bytes: 64, ..Default::default() });
    mgr.register_from_rgba("a", 1, 8, &[1u8; 32]).unwrap();
    mgr.register_from_rgba("b", 1, 8, &[2u8; 32]).unwrap();
    assert_eq!(mgr.cache_size(), 64);
    mgr.register_from_rgba("c", 1, 8, &[3u8; 32]).unwrap();
    assert_eq!(mgr.cache_size(), 64);
    assert_eq!(mgr.cache_entries(), 2);
    assert!(!mgr.has_emoji("a"));
    assert!(mgr.has_emoji("b"));
    assert!(mgr.has_emoji("c"));
}

#[test]
fn reregistering_replaces_bitmap() {
    let mut mgr = EmojiManager::with_default_config();
    mgr.register_from_rgba("x", 1, 1, &[1, 2, 3, 4]).unwrap();
    mgr.register_from_rgba("x", 1, 1, &[5, 6, 7, 8]).unwrap();
    assert_eq!(mgr.cache_entries(), 1);
    assert_eq!(mgr.cache_size(), 4);
    assert_eq!(mgr.get_emoji_bitmap_bytes("x"), Some(vec![5, 6, 7, 8]));
}

#[test]
fn oversized_bitmap_is_refused() {
    let mut mgr = EmojiManager::new(EmojiCacheConfig { max_bitmap_bytes: 8, ..Default::default() });
    assert!(mgr.register_from_rgba("big", 1, 4, &[0u8; 16]).is_err());
    assert!(mgr.register_from_rgba("ok", 1, 2, &[0u8; 8]).is_ok());
}

#[test]
fn invalid_ids_are_refused() {
    assert!(EmojiManager::emoji_id_valid("face_01-a"));
    assert!(!EmojiManager::emoji_id_valid(""));
    assert!(!EmojiManager::emoji_id_valid(&"a".repeat(129)));
    assert!(EmojiManager::emoji_id_valid(&"a".repeat(128)));
    let mut mgr = EmojiManager::with_default_config();
    assert!(mgr.register_from_rgba("a\0b", 1, 1, &[0u8; 4]).is_err());
    assert!(mgr.register_from_rgba("side", 1025, 1, &[0u8; 4100]).is_err());
}

#[test]
fn remove_missing_emoji_is_false() {
    let mut mgr = EmojiManager::with_default_config();
    assert!(!mgr.remove_emoji("nothing"));
}

#[test]
fn url_registration_checks() {
    assert!(EmojiManager::validate_url_registration("u1", "https://example.com/a.png").is_ok());
    assert!(EmojiManager::validate_url_registration("u1", "ftp://example.com/a.png").is_err());
    assert!(EmojiManager::validate_url_registration("", "https://example.com/a.png").is_err());
}

#[test]
fn register_url_image_rejects_undecodable_bytes() {
    let mut mgr = EmojiManager::with_default_config();
    let r = mgr.register_url_image("net", "https://example.com/a.png", &[1, 2, 3]);
    assert!(r.is_err());
    assert!(!mgr.has_emoji("net"));
}

#[test]
fn emoji_bitmap_new_checks_length() {
    let ok = EmojiBitmap::new("b", 1, 1, vec![1, 2, 3, 4]).unwrap();
    assert_eq!(ok.pixel_count(), 1);
    assert_eq!(ok.as_bytes(), &[1, 2, 3, 4]);
    assert_eq!(ok.cached_size_bytes, 4);
    assert_eq!(ok.register_method, RegisterMethod::Rgba);
    assert!(EmojiBitmap::new("b", 2, 2, vec![0; 4]).is_err());
}

#[test]
fn emoji_ref_and_reload_source() {
    let mut mgr = EmojiManager::with_default_config();
    mgr.register_from_rgba("r", 1, 1, &[1, 1, 1, 1]).unwrap();
    let b = mgr.get_emoji_ref("r").unwrap();
    assert_eq!(b.width, 1);
    assert!(mgr.get_emoji_ref("none").is_none());
    assert!(mgr.reload_source("r").is_none());
}

fn png_bytes(w: u32, h: u32) -> (Vec<u8>, Vec<u8>) {
    let mut img = image::RgbaImage::new(w, h);
    for (x, y, px) in img.enumerate_pixels_mut() {
        *px = image::Rgba([x as u8, y as u8, 7, 255]);
    }
    let raw = img.clone().into_raw();
    let mut bytes = Vec::new();
    image::DynamicImage::ImageRgba8(img)
        .write_to(&mut Cursor::new(&mut bytes), image::ImageOutputFormat::Png)
        .unwrap();
    (bytes, raw)
}

#[test]
fn register_url_image_decodes_png() {
    let (bytes, raw) = png_bytes(3, 2);
    let mut mgr = EmojiManager::with_default_config();
    assert!(mgr.register_url_image("net", "https://example.com/a.png", &bytes).is_ok());
    assert_eq!(mgr.get_emoji_info("net"), Some((3, 2, 24)));
    assert_eq!(mgr.get_emoji_bitmap_bytes("net"), Some(raw));
    assert!(mgr.reload_source("net").is_none());
}

#[test]
fn decoded_url_pixels_are_registered() {
    let mut mgr = EmojiManager::with_default_config();
    mgr.register_decoded_url("u", "https://example.com/u.png", 1, 1, vec![9, 8, 7, 6]).unwrap();
    assert_eq!(mgr.get_emoji_info("u"), Some((1, 1, 4)));
    assert_eq!(mgr.get_emoji_bitmap_bytes("u"), Some(vec![9, 8, 7, 6]));
    assert!(mgr.reload_source("u").is_none());
    assert!(mgr.register_decoded_url("v", "ftp://example.com/v.png", 1, 1, vec![0; 4]).is_err());
    assert!(mgr.register_decoded_url("w", "https://example.com/w.png", 2, 1, vec![0; 4]).is_err());
    assert!(!mgr.has_emoji("v"));
    assert!(!mgr.has_emoji("w"));
}

#[test]
fn decoded_file_is_registered_and_reloadable() {
    let mut mgr = EmojiManager::with_default_config();
    mgr.register_decoded_file("f", "/tmp/x.png", 1, 1, vec![1, 2, 3, 4], Some(42)).unwrap();
    assert_eq!(mgr.reload_source("f"), Some("/tmp/x.png".to_string()));
    assert!(!mgr.cached_file_changed("f", 42));
    assert!(mgr.cached_file_changed("f", 43));
    mgr.reload_with("f", "/tmp/x.png".to_string(), Some((1, 1, vec![9, 9, 9, 9], Some(43))));
    assert_eq!(mgr.get_emoji_bitmap_bytes("f"), Some(vec![9, 9, 9, 9]));
    assert!(!mgr.cached_file_changed("f", 43));
    mgr.reload_with("f", "/tmp/x.png".to_string(), None);
    assert!(!mgr.has_emoji("f"));
    assert!(mgr.register_decoded_file("", "/tmp/x.png", 1, 1, vec![0; 4], None).is_err());
}

#[test]
fn budget_evicts_until_the_new_bitmap_fits() {
    let mut mgr = EmojiManager::new(EmojiCacheConfig { max_total_cache_bytes: 64, ..Default::default() });
    mgr.register_from_rgba("a", 1, 8, &[255u8; 32]).unwrap();
    mgr.register_from_rgba("b", 1, 12, &[128u8; 48]).unwrap();
    assert!(mgr.has_emoji("b"));
    assert!(!mgr.has_emoji("a"));
    assert_eq!(mgr.cache_size(), 48);
    assert_eq!(mgr.cache_entries(), 1);
}

#[test]
fn full_cache_drops_least_recent_bytes() {
    let mut mgr = EmojiManager::new(EmojiCacheConfig { max_entries: 16, ..Default::default() });
    for i in 0..17 {
        mgr.register_from_rgba(&format!("e{}", i), 1, 1, &[0u8; 4]).unwrap();
    }
    assert_eq!(mgr.cache_entries(), 16);
    assert_eq!(mgr.cache_size(), 64);
    assert!(!mgr.has_emoji("e0"));
}

#[test]
fn test_emoji_register_file() {
    let (bytes, raw) = png_bytes(16, 16);
    let mut mgr = EmojiManager::with_default_config();
    let result = mgr.register_file_bytes("file_emoji", "/tmp/emoji_test.png", &bytes, Some(7));
    assert!(result.is_ok());
    assert!(mgr.has_emoji("file_emoji"));
    assert_eq!(mgr.get_emoji_bitmap_bytes("file_emoji"), Some(raw));
    assert_eq!(mgr.reload_source("file_emoji"), Some("/tmp/emoji_test.png".to_string()));
}

#[test]
fn test_emoji_register_file_not_found() {
    let mut mgr = EmojiManager::with_default_config();
    let result = mgr.register_file_bytes("missing_emoji", "/nonexistent/path.png", &[], None);
    assert!(result.is_err());
    assert!(!mgr.has_emoji("missing_emoji"));
}

#[test]
fn file_bytes_follow_the_extension() {
    let (bytes, _) = png_bytes(2, 2);
    let mut mgr = EmojiManager::with_default_config();
    assert!(mgr.register_file_bytes("noext", "/tmp/picture", &bytes, None).is_err());
    assert!(mgr.register_file_bytes("", "/tmp/a.png", &bytes, None).is_err());
    assert!(mgr.register_file_bytes("big", "/tmp/a.png", &vec![0u8; 32 * 1024 * 1024 + 1], None).is_err());
    assert_eq!(mgr.cache_entries(), 0);
}

#[test]
fn reload_from_bytes_replaces_the_bitmap() {
    let (bytes, _) = png_bytes(2, 2);
    let (bytes3, raw3) = png_bytes(3, 1);
    let mut mgr = EmojiManager::with_default_config();
    mgr.register_file_bytes("r", "/tmp/r.png", &bytes, Some(1)).unwrap();
    assert_eq!(mgr.cache_size(), 16);
    mgr.reload_from_bytes("r", "/tmp/r.png".to_string(), Some(&bytes3), Some(2));
    assert_eq!(mgr.get_emoji_bitmap_bytes("r"), Some(raw3));
    assert_eq!(mgr.cache_size(), 12);
    assert!(!mgr.cached_file_changed("r", 2));
    mgr.reload_from_bytes("r", "/tmp/r.png".to_string(), None, None);
    assert!(!mgr.has_emoji("r"));
    assert_eq!(mgr.cache_size(), 0);
}
