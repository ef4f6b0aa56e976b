use vason::ppm::{encode_buffer, encode_canvas};
use vason::shape::{Circle, Draw, Ellipse, Line, Rectangle, Triangle};
use vason::{Canvas, Color};

fn blank(width: usize, height: usize) -> Canvas {
    Canvas::new(vec![0u32; width * height], width, height).unwrap()
}

#[test]
fn rectangle_from_points_orders_the_corners() {
    let r = Rectangle::from_points(7, 2, 3, 9);
    assert_eq!((r.x, r.y, r.width, r.height), (3, 2, 4, 7));
    assert_eq!(r.fill_color, Some(0));
    assert_eq!(r.outline_color, None);
    assert_eq!(r.outline_thickness, 1);
}

#[test]
fn shapes_start_filled_with_zero() {
    let c = Circle::new(1, 2, 3);
    assert_eq!((c.x, c.y, c.radius, c.outline_thickness), (1, 2, 3, 1));
    assert_eq!((c.fill_color, c.outline_color), (Some(0), None));
    let e = Ellipse::new(1, 2, 3, 4);
    assert_eq!((e.x, e.y, e.a, e.b), (1, 2, 3, 4));
    let t = Triangle::new(1, 2, 3, 4, 5, 6);
    assert_eq!((t.x1, t.y1, t.x2, t.y2, t.x3, t.y3), (1, 2, 3, 4, 5, 6));
    assert_eq!((t.fill_color, t.outline_color, t.outline_thickness), (Some(0), None, 1));
    let l = Line::new(1, 2, 3, 4);
    assert_eq!((l.x1, l.y1, l.x2, l.y2, l.thickness), (1, 2, 3, 4, 1));
    assert_eq!(l.fill_color, Some(0));
}

#[test]
fn line_setters_change_one_field() {
    let mut l = Line::new(1, 2, 3, 4);
    l.set_fill_color(Some(Color::rgb(1, 2, 3))).set_thickness(5);
    assert_eq!(l.fill_color, Some(0x010203));
    assert_eq!(l.thickness, 5);
    l.set_fill_color(None::<Color>);
    assert_eq!(l.fill_color, None);
    assert_eq!((l.x1, l.y1, l.x2, l.y2), (1, 2, 3, 4));
}

#[test]
fn rectangle_draws_fill_then_outline() {
    let mut shape = Rectangle::new(1, 1, 4, 3);
    shape.set_fill_color(Some(7u32)).set_outline_color(Some((0u8, 0u8, 9u8)));
    let mut a = blank(6, 5);
    a.draw(&shape);
    let mut b = blank(6, 5);
    b.fill_rect(1, 1, 4, 3, Color(7));
    b.outline_rect(1, 1, 4, 3, Color(9));
    assert_eq!(a.buffer(), b.buffer());
    assert_eq!(a.get_pixel(2, 2), Some(7));
    assert_eq!(a.get_pixel(1, 1), Some(9));
}

#[test]
fn circle_and_ellipse_draw_through_the_canvas() {
    let mut circle = Circle::new(5, 5, 3);
    circle
        .set_fill_color(None::<u32>)
        .set_outline_color(Some(Color(2)))
        .set_outline_thickness(2);
    let mut a = blank(11, 11);
    circle.draw_to(&mut a);
    let mut b = blank(11, 11);
    b.thick_outline_circle(5, 5, 3, 2, Color(2));
    assert_eq!(a.buffer(), b.buffer());

    let mut ellipse = Ellipse::new(5, 5, 4, 2);
    ellipse.set_fill_color(Some(Color(3)));
    ellipse.set_outline_color(Some(Color(4)));
    ellipse.set_outline_thickness(6);
    let mut a = blank(11, 11);
    a.draw(&ellipse);
    let mut b = blank(11, 11);
    b.fill_ellipse(5, 5, 4, 2, Color(3));
    b.outline_ellipse(5, 5, 4, 2, Color(4));
    assert_eq!(a.buffer(), b.buffer());
}

#[test]
fn encode_buffer_writes_header_and_three_bytes_a_pixel() {
    let bytes = encode_buffer(&[0x00112233, 0xFF445566], 2, 1);
    let mut want = b"P6 2 1 255\n".to_vec();
    want.extend_from_slice(&[0x11, 0x22, 0x33, 0x44, 0x55, 0x66]);
    assert_eq!(bytes, want);
}

#[test]
fn encode_buffer_writes_dimensions_in_decimal() {
    let bytes = encode_buffer(&[], 1204, 0);
    assert_eq!(bytes, b"P6 1204 0 255\n".to_vec());
    let bytes = encode_buffer(&[], 0, 10);
    assert_eq!(bytes, b"P6 0 10 255\n".to_vec());
}

#[test]
fn encode_canvas_has_three_bytes_for_every_pixel() {
    let mut c = blank(64, 64);
    c.clear(Color(Color::BLUE));
    let bytes = encode_canvas(&c);
    let header = b"P6 64 64 255\n";
    assert_eq!(&bytes[..header.len()], &header[..]);
    assert_eq!(bytes.len(), header.len() + 64 * 64 * 3);
    assert_eq!(&bytes[header.len()..header.len() + 6], &[0, 0, 255, 0, 0, 255]);
}

#[test]
fn fill_rows_fills_each_row_between_its_columns() {
    let mut c = blank(6, 5);
    c.fill_rows(1, &vec![(1, 3), (4, 2), (5, 5)], Color(1));
    let got: Vec<String> = c
        .buffer()
        .chunks(6)
        .map(|r| r.iter().map(|p| if *p == 0 { '.' } else { '#' }).collect())
        .collect();
    assert_eq!(got, vec!["......", ".###..", "..###.", ".....#", "......"]);
}

#[test]
fn fill_rows_is_clipped() {
    let mut c = blank(3, 3);
    c.fill_rows(-1, &vec![(0, 2), (-5, 0), (2, 9), (1, 1), (0, 2), (0, 2)], Color(1));
    let got: Vec<String> = c
        .buffer()
        .chunks(3)
        .map(|r| r.iter().map(|p| if *p == 0 { '.' } else { '#' }).collect())
        .collect();
    assert_eq!(got, vec!["#..", "..#", ".#."]);
    c.fill_rows(7, &vec![(0, 2)], Color(2));
    c.fill_rows(0, &Vec::new(), Color(2));
    assert_eq!(c.buffer().iter().filter(|p| **p == 2).count(), 0);
}
