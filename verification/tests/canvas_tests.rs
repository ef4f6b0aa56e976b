use vason::canvas::SizeMismatch;
use vason::{Canvas, Color};

fn blank(width: usize, height: usize) -> Canvas {
    Canvas::new(vec![0u32; width * height], width, height).unwrap()
}

fn picture(canvas: &Canvas) -> Vec<String> {
    let width = canvas.width();
    canvas
        .buffer()
        .chunks(width)
        .map(|row| row.iter().map(|p| if *p == 0 { '.' } else { '#' }).collect())
        .collect()
}

#[test]
fn new_rejects_storage_of_wrong_length() {
    let r = Canvas::new(vec![0u32; 10], 4, 3);
    assert_eq!(r.err(), Some(SizeMismatch { len: 10, width: 4, height: 3 }));
}

#[test]
fn new_accepts_storage_of_right_length() {
    let c = Canvas::new(vec![7u32; 12], 4, 3).unwrap();
    assert_eq!(c.width(), 4);
    assert_eq!(c.height(), 3);
    assert_eq!(c.buffer(), &[7u32; 12][..]);
    assert_eq!(c.into_buffer(), vec![7u32; 12]);
}

#[test]
fn new_accepts_empty_canvas() {
    let mut c = Canvas::new(Vec::new(), 0, 5).unwrap();
    c.fill_rect(-3, -3, 10, 10, Color(1));
    c.fill_circle(0, 0, 4, Color(1));
    c.line(-2, -2, 3, 3, Color(1));
    c.flood_fill(0, 0, Color(1));
    assert_eq!(c.buffer().len(), 0);
}

#[test]
fn zeroed_is_all_zero() {
    let c = Canvas::zeroed(3, 2);
    assert_eq!(c.width(), 3);
    assert_eq!(c.height(), 2);
    assert_eq!(c.buffer(), &[0u32; 6][..]);
}

#[test]
fn set_pixel_then_read() {
    let mut c = blank(4, 3);
    c.set_pixel(2, 1, Color::rgb(1, 2, 3));
    assert_eq!(c.get_pixel(2, 1), Some(0x0001_0203));
    assert_eq!(c.buffer()[1 * 4 + 2], 0x0001_0203);
    let changed = c.buffer().iter().filter(|p| **p != 0).count();
    assert_eq!(changed, 1);
}

#[test]
fn set_pixel_outside_changes_nothing() {
    let mut c = blank(4, 3);
    for (x, y) in [(-1, 0), (0, -1), (4, 0), (0, 3), (i32::MAX, i32::MAX), (i32::MIN, 1)] {
        c.set_pixel(x, y, Color(9));
        assert_eq!(c.get_pixel(x, y), None);
    }
    assert_eq!(c.buffer(), &[0u32; 12][..]);
}

#[test]
fn set_pixel_unchecked_writes_inside() {
    let mut c = blank(2, 2);
    c.set_pixel_unchecked(1, 1, Color(5));
    assert_eq!(c.buffer(), &[0, 0, 0, 5][..]);
}

#[test]
fn clear_overwrites_everything() {
    let mut c = blank(3, 3);
    c.set_pixel(1, 1, Color(4));
    c.clear(Color(0xABCDEF));
    assert_eq!(c.buffer(), &[0xABCDEFu32; 9][..]);
}

#[test]
fn pixel_iter_gives_coordinates() {
    let mut c = blank(2, 2);
    c.set_pixel(0, 1, Color(Color::RED));
    assert_eq!(
        c.pixel_iter(),
        vec![(0, 0, 0), (1, 0, 0), (0, 1, Color::RED), (1, 1, 0)]
    );
}

#[test]
fn clamp_rect_keeps_the_part_inside() {
    let c = blank(16, 8);
    assert_eq!(c.clamp_rect_i32(3, 10, 2, 5), (3, 10, 2, 5));
    assert_eq!(c.clamp_rect_i32(-4, 20, -1, 9), (0, 16, 0, 8));
    let (fx, tx, fy, ty) = c.clamp_rect_i32(20, 30, 2, 5);
    assert_eq!((fx, tx), (16, 16));
    assert_eq!((fy, ty), (2, 5));
    let (fx, tx, _, _) = c.clamp_rect_i32(5, 2, 0, 1);
    assert_eq!(fx, tx);
}

#[test]
fn fill_rect_fills_the_block() {
    let mut c = blank(8, 8);
    c.fill_rect(2, 2, 4, 4, Color(0xFF0000));
    for y in 0..8 {
        for x in 0..8 {
            let inside = (2..6).contains(&x) && (2..6).contains(&y);
            assert_eq!(c.get_pixel(x, y), Some(if inside { 0xFF0000 } else { 0 }));
        }
    }
}

#[test]
fn fill_rect_without_size_draws_nothing() {
    let mut c = blank(8, 8);
    c.fill_rect(2, 2, 0, 4, Color(1));
    c.fill_rect(2, 2, 4, 0, Color(1));
    c.fill_rect(2, 2, -3, 4, Color(1));
    c.fill_rect(2, 2, 4, -1, Color(1));
    c.fill_rect(2, 2, i32::MIN, i32::MIN, Color(1));
    assert_eq!(c.buffer(), &[0u32; 64][..]);
}

#[test]
fn fill_rect_is_clipped() {
    let mut c = blank(4, 3);
    c.fill_rect(-2, -2, 4, 4, Color(1));
    assert_eq!(picture(&c), vec!["##..", "##..", "...."]);
    c.clear(Color(0));
    c.fill_rect(100, 0, 5, 3, Color(1));
    c.fill_rect(0, 100, 4, 5, Color(1));
    c.fill_rect(-100, 0, 5, 3, Color(1));
    assert_eq!(picture(&c), vec!["....", "....", "...."]);
    c.fill_rect(i32::MAX - 1, 0, i32::MAX, 3, Color(1));
    c.fill_rect(2, 1, i32::MAX, i32::MAX, Color(1));
    assert_eq!(picture(&c), vec!["....", "..##", "..##"]);
}

#[test]
fn outline_rect_draws_the_border() {
    let mut c = blank(8, 6);
    c.outline_rect(1, 1, 5, 4, Color(1));
    assert_eq!(
        picture(&c),
        vec!["........", ".#####..", ".#...#..", ".#...#..", ".#####..", "........"]
    );
}

#[test]
fn outline_rect_without_size_draws_nothing() {
    let mut c = blank(8, 6);
    c.outline_rect(1, 1, 0, 4, Color(1));
    c.outline_rect(1, 1, 5, -2, Color(1));
    c.thick_outline_rect(1, 1, 5, 4, 0, Color(1));
    c.thick_outline_rect(1, 1, 5, 4, -3, Color(1));
    c.thick_outline_rect(1, 1, 0, 4, 2, Color(1));
    assert_eq!(c.buffer(), &[0u32; 48][..]);
}

#[test]
fn thick_outline_rect_of_thickness_one_is_outline_rect() {
    for (x, y, w, h) in [(1, 1, 5, 4), (-2, -1, 6, 4), (3, 2, 1, 1), (6, 4, 9, 9), (0, 0, 8, 6)] {
        let mut a = blank(8, 6);
        let mut b = blank(8, 6);
        a.outline_rect(x, y, w, h, Color(3));
        b.thick_outline_rect(x, y, w, h, 1, Color(3));
        assert_eq!(a.buffer(), b.buffer());
    }
}

#[test]
fn thick_outline_rect_draws_four_bands() {
    let mut c = blank(10, 9);
    c.thick_outline_rect(3, 3, 4, 3, 2, Color(1));
    assert_eq!(
        picture(&c),
        vec![
            "..........",
            "..........",
            "..######..",
            "..######..",
            "..##..##..",
            "..######..",
            "..######..",
            "..........",
            "..........",
        ]
    );
}

#[test]
fn hline_and_vline_take_end_points_in_either_order() {
    let mut a = blank(6, 6);
    let mut b = blank(6, 6);
    a.hline(2, 1, 4, Color(1));
    b.hline(2, 4, 1, Color(1));
    assert_eq!(a.buffer(), b.buffer());
    assert_eq!(picture(&a)[2], ".####.");
    a.vline(3, 5, 0, Color(1));
    b.vline(3, 0, 5, Color(1));
    assert_eq!(a.buffer(), b.buffer());
    assert_eq!(a.get_pixel(3, 0), Some(1));
    assert_eq!(a.get_pixel(3, 5), Some(1));
}

#[test]
fn hline_and_vline_are_clipped() {
    let mut c = blank(4, 3);
    c.hline(1, -10, 10, Color(1));
    c.hline(-1, 0, 3, Color(1));
    c.hline(3, 0, 3, Color(1));
    c.hline(0, 7, 9, Color(1));
    c.vline(2, i32::MIN, i32::MAX, Color(1));
    c.vline(4, 0, 2, Color(1));
    assert_eq!(picture(&c), vec!["..#.", "####", "..#."]);
}

#[test]
fn thick_hline_is_a_band_below_the_row() {
    let mut c = blank(6, 6);
    c.thick_hline(1, 4, 1, 2, Color(1));
    assert_eq!(
        picture(&c),
        vec!["......", "......", ".###..", ".###..", "......", "......"]
    );
    let before = c.buffer().to_vec();
    c.thick_hline(1, 1, 4, -5, Color(1));
    c.thick_hline(1, 1, 4, 0, Color(1));
    assert_eq!(c.buffer(), &before[..]);
}

#[test]
fn thick_vline_is_a_band_around_the_column() {
    let mut c = blank(6, 6);
    c.thick_vline(3, 5, 1, 3, Color(1));
    assert_eq!(
        picture(&c),
        vec!["......", "..###.", "..###.", "..###.", "..###.", "......"]
    );
}
