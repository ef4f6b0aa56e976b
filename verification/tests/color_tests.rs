use vason::Color;

#[test]
fn conversions() {
    assert_eq!(u32::from(Color::rgb(12, 1, 231)), 786_919);
    assert_eq!(Color::from(786_919u32).to_rgb(), (12, 1, 231));
}

#[test]
fn rgb_packs_blue_lowest() {
    assert_eq!(Color::rgb(0x12, 0x34, 0x56).0, 0x0012_3456);
    assert_eq!(Color::rgb(255, 0, 0).0, Color::RED);
    assert_eq!(Color::rgb(0, 255, 255).0, Color::CYAN);
    assert_eq!(Color::rgb(255, 255, 0).to_rgb(), (255, 255, 0));
}

#[test]
fn to_rgb_ignores_fourth_byte() {
    assert_eq!(Color(0xAB01_0203).to_rgb(), (1, 2, 3));
}

#[test]
fn rgb_round_trip_on_samples() {
    for r in [0u8, 1, 127, 128, 255] {
        for g in [0u8, 7, 200, 255] {
            for b in [0u8, 3, 99, 255] {
                assert_eq!(Color::rgb(r, g, b).to_rgb(), (r, g, b));
            }
        }
    }
}

#[test]
fn gray_is_rgb_of_equal_channels() {
    assert_eq!(Color::gray(0x80), Color::rgb(0x80, 0x80, 0x80));
    assert_eq!(Color::gray(0x80).0, Color::GRAY);
    assert_eq!(Color::from(9u8), Color::gray(9));
    assert_eq!(Color::from((1u8, 2u8, 3u8)), Color::rgb(1, 2, 3));
}
