use vason::{Canvas, Color};

fn blank(width: usize, height: usize) -> Canvas {
    Canvas::new(vec![0u32; width * height], width, height).unwrap()
}

fn picture(canvas: &Canvas) -> Vec<String> {
    let width = canvas.width();
    canvas
        .buffer()
        .chunks(width)
        .map(|row| row.iter().map(|p| if *p == 0 { '.' } else { '#' }).collect())
        .collect()
}

#[test]
fn thick_line_rows_below_one_draws_nothing() {
    let mut c = blank(6, 4);
    let rows = vec![(0, 5), (0, 5)];
    c.thick_line_rows(0, 0, 5, 3, 0, 0, &rows, 2, &rows, Color(1));
    c.thick_line_rows(0, 0, 5, 3, -7, 0, &rows, 2, &rows, Color(1));
    assert_eq!(c.buffer(), &[0u32; 24][..]);
}

#[test]
fn thick_line_rows_of_thickness_one_is_the_line() {
    let rows = vec![(0, 5), (0, 5)];
    let mut a = blank(6, 4);
    let mut b = blank(6, 4);
    a.thick_line_rows(0, 0, 5, 3, 1, 0, &rows, 2, &rows, Color(1));
    b.line(0, 0, 5, 3, Color(1));
    assert_eq!(a.buffer(), b.buffer());
}

#[test]
fn thick_line_rows_fills_the_rows_of_both_triangles() {
    let mut c = blank(6, 5);
    c.thick_line_rows(0, 0, 5, 4, 3, 0, &vec![(0, 1), (1, 2)], 2, &vec![(4, 2), (5, 3), (9, 5)], Color(1));
    assert_eq!(picture(&c), vec!["##....", ".##...", "..###.", "...###", ".....#"]);
}

#[test]
fn thick_line_along_an_axis_of_thickness_one_is_the_line() {
    let none: Vec<(i32, i32)> = Vec::new();
    for (x1, y1, x2, y2) in [(1, 3, 5, 3), (5, 3, 1, 3), (2, 0, 2, 4), (2, 4, 2, 0), (3, 3, 3, 3), (0, 1, 4, 3)] {
        let mut a = blank(7, 5);
        let mut b = blank(7, 5);
        a.thick_line_maybe_axis_aligned_rows(x1, y1, x2, y2, 1, 0, &none, 0, &none, Color(1));
        b.line(x1, y1, x2, y2, Color(1));
        assert_eq!(a.buffer(), b.buffer());
    }
    let mut c = blank(7, 5);
    c.thick_line_maybe_axis_aligned_rows(1, 3, 5, 3, 1, 0, &none, 0, &none, Color(1));
    assert_eq!(c.get_pixel(5, 3), Some(1));
}

#[test]
fn thick_line_along_an_axis_is_a_band() {
    let none: Vec<(i32, i32)> = Vec::new();
    let mut a = blank(7, 6);
    let mut b = blank(7, 6);
    a.thick_line_maybe_axis_aligned_rows(1, 1, 5, 1, 2, 0, &none, 0, &none, Color(1));
    b.thick_hline(1, 1, 5, 2, Color(1));
    assert_eq!(a.buffer(), b.buffer());
    assert_eq!(picture(&a), vec![".......", ".......", ".####..", ".####..", ".......", "......."]);
    let mut a = blank(7, 6);
    let mut b = blank(7, 6);
    a.thick_line_maybe_axis_aligned_rows(3, 5, 3, 1, 3, 0, &none, 0, &none, Color(1));
    b.thick_vline(3, 5, 1, 3, Color(1));
    assert_eq!(a.buffer(), b.buffer());
    let mut c = blank(7, 6);
    c.thick_line_maybe_axis_aligned_rows(3, 5, 3, 1, 0, 0, &none, 0, &none, Color(1));
    assert_eq!(c.buffer(), &[0u32; 42][..]);
}

#[test]
fn thick_line_off_the_axes_takes_the_rows() {
    let mut a = blank(6, 5);
    let mut b = blank(6, 5);
    let rows_a = vec![(0, 1), (1, 2)];
    let rows_b = vec![(4, 2), (5, 3)];
    a.thick_line_maybe_axis_aligned_rows(0, 0, 5, 4, 3, 0, &rows_a, 2, &rows_b, Color(1));
    b.thick_line_rows(0, 0, 5, 4, 3, 0, &rows_a, 2, &rows_b, Color(1));
    assert_eq!(a.buffer(), b.buffer());
    assert_eq!(a.get_pixel(5, 3), Some(1));
}

#[test]
fn thick_triangle_joints_are_three_discs() {
    let mut a = blank(12, 12);
    let mut b = blank(12, 12);
    a.thick_triangle_joints(2, 2, 9, 3, 5, 9, 5, Color(1));
    b.fill_circle(2, 2, 2, Color(1));
    b.fill_circle(9, 3, 2, Color(1));
    b.fill_circle(5, 9, 2, Color(1));
    assert_eq!(a.buffer(), b.buffer());
    assert_eq!(a.get_pixel(2, 4), Some(1));
}

#[test]
fn thick_triangle_joints_below_two_draw_nothing() {
    let mut c = blank(12, 12);
    for t in [1, 0, -1, -4, i32::MIN] {
        c.thick_triangle_joints(2, 2, 9, 3, 5, 9, t, Color(1));
    }
    assert_eq!(c.buffer(), &[0u32; 144][..]);
}
