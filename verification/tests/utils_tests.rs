use rs_ffi_barrage::utils::{
    blend_alpha, blend_alpha_fast, clip_rect, current_time_ms, resize_nearest, rgba_from_u32, rgba_to_u32,
};

#[test]
fn test_blend_alpha_opaque() {
    let bg = [255, 0, 0, 255];
    let fg = [0, 255, 0, 255];
    let result = blend_alpha(&bg, &fg);
    assert_eq!(result, fg);
}

#[test]
fn test_blend_alpha_transparent() {
    let bg = [255, 0, 0, 255];
    let fg = [0, 255, 0, 0];
    let result = blend_alpha(&bg, &fg);
    assert_eq!(result, bg);
}

#[test]
fn test_clip_rect_inside() {
    let result = clip_rect(10, 10, 50, 50, 200, 200);
    assert_eq!(result, Some((10, 10, 50, 50)));
}

#[test]
fn test_clip_rect_outside() {
    let result = clip_rect(300, 300, 50, 50, 200, 200);
    assert_eq!(result, None);
}

#[test]
fn test_current_time_ms() {
    let t = current_time_ms();
    assert!(t > 1_700_000_000_000);
}

#[test]
fn test_rgba_conversion() {
    let rgba = [0x12, 0x34, 0x56, 0x78];
    let encoded = rgba_to_u32(&rgba);
    let decoded = rgba_from_u32(encoded);
    assert_eq!(rgba, decoded);
}

#[test]
fn test_utils_functions() {
    let bg = [255, 0, 0, 255];
    let fg = [0, 255, 0, 128];
    let blended = blend_alpha(&bg, &fg);
    assert!(blended[0] < 255);

    assert!(clip_rect(0, 0, 100, 100, 200, 200).is_some());
    assert!(clip_rect(300, 300, 100, 100, 200, 200).is_none());

    let rgba = [0x12, 0x34, 0x56, 0x78];
    let encoded = rgba_to_u32(&rgba);
    let decoded = rgba_from_u32(encoded);
    assert_eq!(rgba, decoded);

    let t = current_time_ms();
    assert!(t > 1700000000000u64);
}

#[test]
fn blend_half_alpha_exact() {
    // oa = 128 + 255 - 255*128/255 = 255; red = (0*128 + 255*255*127/255)/255 = 127.
    let r = blend_alpha(&[255, 0, 0, 255], &[0, 255, 0, 128]);
    assert_eq!(r, [127, 128, 0, 255]);
}

#[test]
fn blend_fast_cases() {
    assert_eq!(blend_alpha_fast(&[1, 2, 3, 0], &[9, 9, 9, 10]), [9, 9, 9, 10]);
    assert_eq!(blend_alpha_fast(&[1, 2, 3, 50], &[9, 9, 9, 0]), [1, 2, 3, 50]);
    assert_eq!(blend_alpha_fast(&[0, 0, 0, 100], &[200, 100, 0, 100]), [100, 50, 0, 200]);
    assert_eq!(blend_alpha_fast(&[0, 0, 0, 200], &[0, 0, 0, 200]), [0, 0, 0, 255]);
}

#[test]
fn clip_rect_partial() {
    assert_eq!(clip_rect(-10, -20, 50, 50, 200, 200), Some((0, 0, 40, 30)));
    assert_eq!(clip_rect(180, 190, 50, 50, 200, 200), Some((180, 190, 20, 10)));
    assert_eq!(clip_rect(0, 0, 0, 10, 200, 200), None);
}

#[test]
fn pack_and_unpack_exact() {
    assert_eq!(rgba_to_u32(&[0xAA, 0xBB, 0xCC, 0xDD]), 0xAABBCCDD);
    assert_eq!(rgba_from_u32(0x01020304), [1, 2, 3, 4]);
    assert_eq!(rgba_to_u32(&rgba_from_u32(0xDEADBEEF)), 0xDEADBEEF);
}

#[test]
fn resize_nearest_scales_up_and_down() {
    let a = [1u8, 1, 1, 1];
    let b = [2u8, 2, 2, 2];
    let src: Vec<u8> = [a, b].concat();
    let mut dst = vec![0u8; 4 * 4];
    resize_nearest(&src, 2, 1, &mut dst, 4, 1);
    assert_eq!(dst, [a, a, b, b].concat());

    let src4: Vec<u8> = (0u8..4).flat_map(|v| [v, v, v, v]).collect();
    let mut half = vec![9u8; 2 * 4 + 3];
    resize_nearest(&src4, 4, 1, &mut half, 2, 1);
    assert_eq!(&half[..8], &[1, 1, 1, 1, 3, 3, 3, 3]);
    assert_eq!(&half[8..], &[9, 9, 9]);

    let mut short = vec![7u8; 3];
    resize_nearest(&src, 2, 1, &mut short, 4, 1);
    assert_eq!(short, vec![7, 7, 7]);
}
