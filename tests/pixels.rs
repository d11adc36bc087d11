use hm_hub::image::{
    animation_delay_ms, image_kind_of_extension, image_kind_of_lowercase, rgb565_to_rgba,
    rgba_to_rgb565, GifCanvas, ImageKind, Region,
};

#[test]
fn rgba_to_rgb565_values() {
    let rgba = [255u8, 0, 0, 255, 0, 255, 0, 255, 0, 0, 255, 255, 0x12, 0x34, 0x56, 0];
    let out = rgba_to_rgb565(&rgba, 2, 2);
    assert_eq!(out, vec![0xF8, 0x00, 0x07, 0xE0, 0x00, 0x1F, 0x11, 0xAA]);
    assert!(rgba_to_rgb565(&[], 0, 5).is_empty());
}

#[test]
fn rgb565_to_rgba_values() {
    let out = rgb565_to_rgba(&[0xF8, 0x00, 0x07, 0xE0, 0xFF], 2, 2);
    assert_eq!(out.len(), 16);
    assert_eq!(&out[0..4], &[255, 0, 0, 255]);
    assert_eq!(&out[4..8], &[0, 255, 0, 255]);
    assert_eq!(&out[8..16], &[0; 8]);
    let back = rgb565_to_rgba(&[0x11, 0xAA], 1, 1);
    assert_eq!(back, vec![0x10, 0x34, 0x52, 255]);
}

#[test]
fn image_kinds() {
    assert_eq!(image_kind_of_extension("GIF"), Some(ImageKind::Animated));
    assert_eq!(image_kind_of_extension("Jpeg"), Some(ImageKind::Still));
    assert_eq!(image_kind_of_extension("webp"), Some(ImageKind::Still));
    assert_eq!(image_kind_of_extension("tiff"), None);
    assert_eq!(image_kind_of_lowercase("PNG"), None);
    assert_eq!(image_kind_of_lowercase("bmp"), Some(ImageKind::Still));
}

#[test]
fn animation_delay() {
    assert_eq!(animation_delay_ms(0, 0), 0);
    assert_eq!(animation_delay_ms(0, 7), 70);
    assert_eq!(animation_delay_ms(70, 9), 70);
    assert_eq!(animation_delay_ms(0, 7000), u16::MAX);
}

#[test]
fn gif_canvas_compositing() {
    let mut canvas = GifCanvas::new(3, 2);
    assert_eq!(canvas.pixels(), &[0u8; 24][..]);
    let frame = [1u8, 2, 3, 255, 9, 9, 9, 0, 4, 5, 6, 7, 8, 8, 8, 8];
    canvas.draw_frame(&frame, Region { left: 1, top: 0, width: 2, height: 2 });
    let px = canvas.pixels();
    assert_eq!(&px[0..4], &[0, 0, 0, 0]);
    assert_eq!(&px[4..8], &[1, 2, 3, 255]);
    assert_eq!(&px[8..12], &[0, 0, 0, 0]);
    assert_eq!(&px[16..20], &[4, 5, 6, 7]);
    assert_eq!(&px[20..24], &[8, 8, 8, 8]);
    let big = [200u8; 4 * 4 * 4];
    canvas.draw_frame(&big, Region { left: 2, top: 1, width: 4, height: 4 });
    assert_eq!(&canvas.pixels()[20..24], &[200, 200, 200, 200]);
    assert_eq!(&canvas.pixels()[16..20], &[4, 5, 6, 7]);
    canvas.clear_region(Region { left: 0, top: 1, width: 2, height: 1 });
    assert_eq!(&canvas.pixels()[12..20], &[0u8; 8]);
    assert_eq!(&canvas.pixels()[20..24], &[200, 200, 200, 200]);
    assert_eq!(&canvas.pixels()[4..8], &[1, 2, 3, 255]);
    assert_eq!((canvas.width(), canvas.height()), (3, 2));
}
