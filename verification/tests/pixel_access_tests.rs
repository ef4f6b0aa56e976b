use vason::pixel_access::{AlphaAccess, NoAlphaAccess, PixelAccess};
use vason::{Canvas, Color};

#[test]
fn blend_with_full_alpha_takes_the_new_color() {
    assert_eq!(AlphaAccess::blend(0x11223344, 0xFF556677), 0x11556677);
}

#[test]
fn blend_with_no_alpha_keeps_the_old_color() {
    assert_eq!(AlphaAccess::blend(0x11223344, 0x00556677), 0x11223344);
}

#[test]
fn blend_weighs_the_channels() {
    // alpha 0x80 = 128: (under * 127 + over * 128) / 255
    let got = AlphaAccess::blend(0x00_00_FF_64, 0x80_FF_00_C8);
    let r = (0 * 127 + 255 * 128) / 255;
    let g = (255 * 127 + 0 * 128) / 255;
    let b = (100 * 127 + 200 * 128) / 255;
    assert_eq!(got, (r << 16) | (g << 8) | b);
    assert_eq!(got, 0x00_80_7F_96);
}

#[test]
fn no_alpha_access_overwrites() {
    let mut buffer = vec![1u32, 2, 3, 4, 5, 6];
    NoAlphaAccess::set_pixel_unchecked(&mut buffer, 1, 1, 3, 9);
    assert_eq!(buffer, vec![1, 2, 3, 4, 9, 6]);
    NoAlphaAccess::fill(&mut buffer, 7);
    assert_eq!(buffer, vec![7; 6]);
}

#[test]
fn alpha_access_blends() {
    let mut buffer = vec![0x00000000u32, 0x000000FF, 0x00FF0000, 0x0000FF00];
    AlphaAccess::set_pixel_unchecked(&mut buffer, 0, 1, 2, 0xFF123456);
    assert_eq!(buffer, vec![0x00000000, 0x000000FF, 0x00123456, 0x0000FF00]);
    AlphaAccess::fill(&mut buffer, 0x00FFFFFF);
    assert_eq!(buffer, vec![0x00000000, 0x000000FF, 0x00123456, 0x0000FF00]);
    AlphaAccess::fill(&mut buffer, 0xFF010203);
    assert_eq!(buffer, vec![0x00010203; 4]);
}

#[test]
fn buffer_mut_writes_through() {
    let mut c = Canvas::new(vec![0u32; 4], 2, 2).unwrap();
    for (k, p) in c.buffer_mut().iter_mut().enumerate() {
        if k % 3 != 0 {
            *p = Color::RED;
        }
    }
    assert_eq!(c.buffer(), &[0, Color::RED, Color::RED, 0][..]);
    assert_eq!(c.get_pixel(1, 0), Some(Color::RED));
}
