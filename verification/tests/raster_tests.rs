use vason::{Canvas, Color};

fn blank(width: usize, height: usize) -> Canvas {
    Canvas::new(vec![0u32; width * height], width, height).unwrap()
}

fn picture(canvas: &Canvas) -> Vec<String> {
    let width = canvas.width();
    canvas
        .buffer()
        .chunks(width)
        .map(|row| row.iter().map(|p| if *p == 0 { '.' } else { '#' }).collect())
        .collect()
}

#[test]
fn fill_circle_draws_the_disc() {
    let mut c = blank(9, 9);
    c.fill_circle(4, 4, 3, Color(1));
    assert_eq!(
        picture(&c),
        vec![
            ".........",
            "...###...",
            "..#####..",
            ".#######.",
            ".#######.",
            ".#######.",
            "..#####..",
            "...###...",
            ".........",
        ]
    );
}

#[test]
fn fill_circle_without_radius_draws_nothing() {
    let mut c = blank(9, 9);
    c.fill_circle(4, 4, 0, Color(1));
    c.fill_circle(4, 4, -3, Color(1));
    c.outline_circle(4, 4, 0, Color(1));
    c.thick_outline_circle(4, 4, 0, 3, Color(1));
    c.thick_outline_circle(4, 4, 3, 0, Color(1));
    c.thick_outline_circle(4, 4, 3, -2, Color(1));
    assert_eq!(c.buffer(), &[0u32; 81][..]);
}

#[test]
fn fill_circle_is_clipped() {
    let mut c = blank(6, 6);
    c.fill_circle(0, 0, 3, Color(1));
    assert_eq!(
        picture(&c),
        vec!["####..", "####..", "###...", "##....", "......", "......"]
    );
    let before = c.buffer().to_vec();
    c.fill_circle(-100, 3, 5, Color(2));
    c.fill_circle(3, 1000, 5, Color(2));
    c.fill_circle(i32::MAX, i32::MIN, 7, Color(2));
    assert_eq!(c.buffer(), &before[..]);
}

#[test]
fn outline_circle_draws_the_ring() {
    let mut c = blank(9, 9);
    c.outline_circle(4, 4, 3, Color(1));
    assert_eq!(
        picture(&c),
        vec![
            ".........",
            "...#.#...",
            "..#...#..",
            ".#.....#.",
            ".#.....#.",
            ".#.....#.",
            "..#...#..",
            "...#.#...",
            ".........",
        ]
    );
}

#[test]
fn outline_circle_lies_inside_fill_circle() {
    for r in 1..12 {
        for (x, y) in [(12, 12), (0, 0), (3, 20), (24, 9)] {
            let mut o = blank(25, 25);
            let mut f = blank(25, 25);
            o.outline_circle(x, y, r, Color(1));
            f.fill_circle(x, y, r, Color(1));
            for (a, b) in o.buffer().iter().zip(f.buffer().iter()) {
                assert!(*a == 0 || *b == 1);
            }
        }
    }
}

#[test]
fn thick_outline_circle_of_thickness_one_is_outline_circle() {
    for r in 0..8 {
        let mut a = blank(17, 17);
        let mut b = blank(17, 17);
        a.outline_circle(8, 8, r, Color(1));
        b.thick_outline_circle(8, 8, r, 1, Color(1));
        assert_eq!(a.buffer(), b.buffer());
    }
}

#[test]
fn thick_outline_circle_draws_the_band() {
    let mut c = blank(13, 13);
    c.thick_outline_circle(6, 6, 4, 3, Color(1));
    assert_eq!(
        picture(&c),
        vec![
            ".............",
            "....#####....",
            "...#######...",
            "..#########..",
            ".####...####.",
            ".###.....###.",
            ".###.....###.",
            ".###.....###.",
            ".####...####.",
            "..#########..",
            "...#######...",
            "....#####....",
            ".............",
        ]
    );
}

#[test]
fn fill_ellipse_draws_the_disc() {
    let mut c = blank(13, 9);
    c.fill_ellipse(6, 4, 5, 3, Color(1));
    assert_eq!(
        picture(&c),
        vec![
            ".............",
            "....#####....",
            "..#########..",
            ".###########.",
            ".###########.",
            ".###########.",
            "..#########..",
            "....#####....",
            ".............",
        ]
    );
}

#[test]
fn outline_ellipse_draws_the_ring() {
    let mut c = blank(13, 9);
    c.outline_ellipse(6, 4, 5, 3, Color(1));
    assert_eq!(
        picture(&c),
        vec![
            ".............",
            "....#####....",
            "..##.....##..",
            ".#.........#.",
            ".#.........#.",
            ".#.........#.",
            "..##.....##..",
            "....#####....",
            ".............",
        ]
    );
}

#[test]
fn narrow_ellipse_gets_its_tip() {
    let mut c = blank(5, 13);
    c.outline_ellipse(2, 6, 1, 5, Color(1));
    assert_eq!(
        picture(&c),
        vec![
            ".....", "..#..", "..#..", ".#.#.", ".#.#.", ".#.#.", ".#.#.", ".#.#.", ".#.#.", ".#.#.",
            "..#..", "..#..", ".....",
        ]
    );
}

#[test]
fn ellipse_without_axis_draws_nothing() {
    let mut c = blank(9, 9);
    c.fill_ellipse(4, 4, 0, 3, Color(1));
    c.fill_ellipse(4, 4, 3, 0, Color(1));
    c.outline_ellipse(4, 4, -1, 3, Color(1));
    c.outline_ellipse(4, 4, 3, -1, Color(1));
    assert_eq!(c.buffer(), &[0u32; 81][..]);
}

#[test]
fn outline_ellipse_lies_inside_fill_ellipse() {
    for a in 1..9 {
        for b in 1..9 {
            let mut o = blank(21, 21);
            let mut f = blank(21, 21);
            o.outline_ellipse(10, 10, a, b, Color(1));
            f.fill_ellipse(10, 10, a, b, Color(1));
            for (p, q) in o.buffer().iter().zip(f.buffer().iter()) {
                assert!(*p == 0 || *q == 1);
            }
        }
    }
}

#[test]
fn large_shapes_far_away_leave_the_canvas_alone() {
    let mut c = blank(4, 4);
    c.fill_ellipse(i32::MIN, i32::MAX, 3, 2, Color(1));
    c.outline_ellipse(-50, -50, 20, 10, Color(1));
    c.outline_circle(100, 100, 50, Color(1));
    c.line(-5, 10, 10, 12, Color(1));
    assert_eq!(c.buffer(), &[0u32; 16][..]);
}

#[test]
fn line_draws_from_end_to_end() {
    let mut c = blank(8, 6);
    c.line(0, 0, 7, 3, Color(1));
    assert_eq!(
        picture(&c),
        vec!["##......", "..##....", "....##..", "......##", "........", "........"]
    );
    let mut d = blank(8, 6);
    d.line(6, 5, 1, 0, Color(1));
    assert_eq!(
        picture(&d),
        vec![".#......", "..#.....", "...#....", "....#...", ".....#..", "......#."]
    );
}

#[test]
fn line_of_one_point() {
    let mut c = blank(3, 3);
    c.line(1, 1, 1, 1, Color(1));
    assert_eq!(picture(&c), vec!["...", ".#.", "..."]);
}

#[test]
fn line_crossing_the_canvas_is_clipped() {
    let mut c = blank(4, 4);
    c.line(-3, -3, 6, 6, Color(1));
    assert_eq!(picture(&c), vec!["#...", ".#..", "..#.", "...#"]);
}

#[test]
fn axis_aligned_line_is_the_same_either_way() {
    for (x1, y1, x2, y2) in [(1, 2, 6, 2), (6, 2, 1, 2), (3, 0, 3, 5), (3, 5, 3, 0), (2, 2, 2, 2), (-3, 1, 9, 1)] {
        let mut a = blank(8, 6);
        let mut b = blank(8, 6);
        let mut m = blank(8, 6);
        a.line(x1, y1, x2, y2, Color(1));
        b.line(x2, y2, x1, y1, Color(1));
        m.line_maybe_axis_aligned(x1, y1, x2, y2, Color(1));
        assert_eq!(a.buffer(), b.buffer());
        assert_eq!(a.buffer(), m.buffer());
    }
}

#[test]
fn line_maybe_axis_aligned_draws_slanted_lines_as_line_does() {
    let mut a = blank(8, 6);
    let mut b = blank(8, 6);
    a.line(0, 5, 7, 1, Color(1));
    b.line_maybe_axis_aligned(0, 5, 7, 1, Color(1));
    assert_eq!(a.buffer(), b.buffer());
}

#[test]
fn outline_triangle_draws_three_sides() {
    let mut c = blank(9, 9);
    c.outline_triangle(1, 1, 4, 1, 1, 7, Color(1));
    assert_eq!(
        picture(&c),
        vec![
            ".........",
            ".####....",
            ".#.#.....",
            ".#.#.....",
            ".##......",
            ".##......",
            ".#.......",
            ".#.......",
            ".........",
        ]
    );
}

#[test]
fn flood_fill_recolors_the_block() {
    let mut c = blank(8, 8);
    c.clear(Color(0));
    c.fill_rect(2, 2, 4, 4, Color(0xFF0000));
    c.flood_fill(3, 3, Color(0x00FF00));
    for y in 0..8 {
        for x in 0..8 {
            let inside = (2..6).contains(&x) && (2..6).contains(&y);
            assert_eq!(c.get_pixel(x, y), Some(if inside { 0x00FF00 } else { 0 }));
        }
    }
}

#[test]
fn flood_fill_stays_inside_the_boundary() {
    let mut c = blank(9, 9);
    c.outline_rect(1, 1, 7, 7, Color(5));
    c.flood_fill(4, 4, Color(8));
    for y in 0..9 {
        for x in 0..9 {
            let border = (x == 1 || x == 7 || y == 1 || y == 7) && (1..8).contains(&x) && (1..8).contains(&y);
            let inside = (2..7).contains(&x) && (2..7).contains(&y);
            let want = if border { 5 } else if inside { 8 } else { 0 };
            assert_eq!(c.get_pixel(x, y), Some(want));
        }
    }
}

#[test]
fn flood_fill_follows_bends_but_not_diagonals() {
    let rows = ["#.###", "#.#.#", "#...#", "###.#", ".#..#"];
    let mut c = blank(5, 5);
    for (y, row) in rows.iter().enumerate() {
        for (x, ch) in row.chars().enumerate() {
            if ch == '#' {
                c.set_pixel(x as i32, y as i32, Color(1));
            }
        }
    }
    c.flood_fill(1, 0, Color(2));
    let got: Vec<String> = c
        .buffer()
        .chunks(5)
        .map(|r| r.iter().map(|p| match *p { 0 => '.', 1 => '#', _ => 'o' }).collect())
        .collect();
    assert_eq!(got, vec!["#o###", "#o#o#", "#ooo#", "###o#", ".#oo#"]);
}

#[test]
fn flood_fill_with_the_seed_color_changes_nothing() {
    let mut c = blank(4, 4);
    c.fill_rect(1, 1, 2, 2, Color(3));
    let before = c.buffer().to_vec();
    c.flood_fill(1, 1, Color(3));
    c.flood_fill(0, 0, Color(0));
    c.flood_fill(-1, 2, Color(9));
    c.flood_fill(2, 4, Color(9));
    assert_eq!(c.buffer(), &before[..]);
}

#[test]
fn flood_fill_of_the_whole_canvas() {
    let mut c = blank(40, 30);
    c.flood_fill(39, 29, Color(6));
    assert_eq!(c.buffer(), &[6u32; 1200][..]);
}

#[test]
fn thick_outline_ellipse_draws_the_band() {
    let mut c = blank(21, 15);
    c.thick_outline_ellipse(10, 7, 7, 4, 3, Color(1));
    assert_eq!(
        picture(&c),
        vec![
            ".....................",
            ".....................",
            ".......########......",
            ".....############....",
            "....####.....####....",
            "...###.........###...",
            "..###...........###..",
            "..###...........###..",
            "..###...........###..",
            "...###.........###...",
            "....####.....####....",
            ".....############....",
            ".......########......",
            ".....................",
            ".....................",
        ]
    );
}

#[test]
fn thick_outline_ellipse_of_a_tall_ellipse() {
    let mut c = blank(15, 21);
    c.thick_outline_ellipse(7, 10, 3, 7, 4, Color(1));
    assert_eq!(
        picture(&c),
        vec![
            "...............",
            "......####.....",
            ".....######....",
            "....#######....",
            "...#########...",
            "...#########...",
            "...####.####...",
            "..#####.#####..",
            "..#####.#####..",
            "..#####.#####..",
            "..#####.#####..",
            "..#####.#####..",
            "..#####.#####..",
            "..#####.#####..",
            "...####.####...",
            "...#########...",
            "...#########...",
            "....#######....",
            ".....######....",
            "......####.....",
            "...............",
        ]
    );
}

#[test]
fn thick_outline_ellipse_thicker_than_the_ellipse_is_filled() {
    let mut c = blank(11, 11);
    c.thick_outline_ellipse(5, 5, 2, 2, 6, Color(1));
    assert_eq!(
        picture(&c),
        vec![
            "...######..",
            "..########.",
            ".#########.",
            "###########",
            "###########",
            "###########",
            "###########",
            "###########",
            ".#########.",
            "..########.",
            "...######..",
        ]
    );
}

#[test]
fn thick_outline_ellipse_is_clipped() {
    let mut c = blank(13, 9);
    c.thick_outline_ellipse(2, 4, 6, 2, 2, Color(1));
    assert_eq!(
        picture(&c),
        vec![
            ".............",
            "########.....",
            "##########...",
            "......####...",
            ".......###...",
            "......####...",
            "##########...",
            "########.....",
            ".............",
        ]
    );
}

#[test]
fn thick_outline_ellipse_of_thickness_one_is_outline_ellipse() {
    for (a, b) in [(5, 3), (1, 5), (4, 4), (0, 3), (3, -1)] {
        let mut p = blank(15, 15);
        let mut q = blank(15, 15);
        p.outline_ellipse(7, 7, a, b, Color(1));
        q.thick_outline_ellipse(7, 7, a, b, 1, Color(1));
        assert_eq!(p.buffer(), q.buffer());
    }
}

#[test]
fn thick_outline_ellipse_without_size_draws_nothing() {
    let mut c = blank(9, 9);
    c.thick_outline_ellipse(4, 4, 0, 3, 2, Color(1));
    c.thick_outline_ellipse(4, 4, 3, 0, 2, Color(1));
    c.thick_outline_ellipse(4, 4, 3, 3, 0, Color(1));
    c.thick_outline_ellipse(4, 4, 3, 3, -4, Color(1));
    assert_eq!(c.buffer(), &[0u32; 81][..]);
}

#[test]
fn thick_outline_ellipse_takes_the_largest_axes() {
    let mut c = blank(8, 8);
    c.thick_outline_ellipse(4, 4, 1_048_574, 1_048_574, 4, Color(1));
    assert_eq!(c.buffer(), &[0u32; 64][..]);
    c.thick_outline_ellipse(4, 1_048_578, 1_048_574, 1_048_574, 4, Color(1));
    assert_eq!(c.get_pixel(4, 2), Some(1));
    assert_eq!(c.get_pixel(4, 7), Some(0));
}

#[test]
fn line_is_the_same_from_either_end() {
    for x2 in -9..10 {
        for y2 in -9..10 {
            let mut a = blank(21, 21);
            let mut b = blank(21, 21);
            a.line(10, 10, 10 + x2, 10 + y2, Color(1));
            b.line(10 + x2, 10 + y2, 10, 10, Color(1));
            assert_eq!(a.buffer(), b.buffer());
            assert_eq!(a.get_pixel(10, 10), Some(1));
            assert_eq!(a.get_pixel(10 + x2, 10 + y2), Some(1));
        }
    }
}

#[test]
fn line_starts_at_the_end_that_comes_first() {
    let mut a = blank(3, 2);
    a.line(0, 0, 2, 1, Color(1));
    assert_eq!(picture(&a), vec!["#..", ".##"]);
    let mut b = blank(3, 2);
    b.line(2, 1, 0, 0, Color(1));
    assert_eq!(picture(&b), vec!["#..", ".##"]);
}

#[test]
fn colors_can_be_given_in_several_forms() {
    let mut c = blank(4, 1);
    c.set_pixel(0, 0, Color::rgb(1, 2, 3));
    c.set_pixel(1, 0, 0x010203u32);
    c.set_pixel(2, 0, (1u8, 2u8, 3u8));
    c.set_pixel(3, 0, 9u8);
    assert_eq!(c.buffer(), &[0x010203, 0x010203, 0x010203, 0x090909][..]);
    c.clear((180u8, 255u8, 100u8));
    assert_eq!(c.buffer(), &[0xB4FF64u32; 4][..]);
    c.fill_rect(0, 0, 2, 1, Color::GREEN);
    assert_eq!(c.buffer(), &[0x00FF00, 0x00FF00, 0xB4FF64, 0xB4FF64][..]);
}

#[test]
fn flood_fill_reaches_around_obstacles() {
    let rows = [
        "..........",
        ".########.",
        ".#......#.",
        ".#.####.#.",
        ".#.#..#.#.",
        ".#.#.##.#.",
        ".#.#....#.",
        ".#.######.",
        ".#.......#",
        ".#########",
    ];
    let mut c = blank(10, 10);
    for (y, row) in rows.iter().enumerate() {
        for (x, ch) in row.chars().enumerate() {
            if ch == '#' {
                c.set_pixel(x as i32, y as i32, Color(1));
            }
        }
    }
    c.flood_fill(4, 4, Color(2));
    let got: Vec<String> = c
        .buffer()
        .chunks(10)
        .map(|r| r.iter().map(|p| match *p { 0 => '.', 1 => '#', _ => 'o' }).collect())
        .collect();
    assert_eq!(
        got,
        vec![
            "..........",
            ".########.",
            ".#oooooo#.",
            ".#o####o#.",
            ".#o#oo#o#.",
            ".#o#o##o#.",
            ".#o#oooo#.",
            ".#o######.",
            ".#ooooooo#",
            ".#########",
        ]
    );
    c.flood_fill(0, 9, Color(3));
    assert_eq!(c.get_pixel(0, 0), Some(3));
    assert_eq!(c.get_pixel(9, 7), Some(3));
    assert_eq!(c.get_pixel(8, 8), Some(2));
    assert_eq!(c.buffer().iter().filter(|p| **p == 0).count(), 0);
}

#[test]
fn flood_fill_from_any_pixel_of_a_region_fills_the_same() {
    let mut want = blank(7, 7);
    want.fill_circle(3, 3, 3, Color(1));
    let mut filled = blank(7, 7);
    filled.fill_circle(3, 3, 3, Color(2));
    for y in 0..7 {
        for x in 0..7 {
            if want.get_pixel(x, y) == Some(1) {
                let mut c = blank(7, 7);
                c.fill_circle(3, 3, 3, Color(1));
                c.flood_fill(x, y, Color(2));
                assert_eq!(c.buffer(), filled.buffer());
            }
        }
    }
}

#[test]
fn try_thick_outline_ellipse_tells_whether_it_drew() {
    let mut c = blank(21, 15);
    let mut d = blank(21, 15);
    assert!(c.try_thick_outline_ellipse(10, 7, 7, 4, 3, Color(1)));
    d.thick_outline_ellipse(10, 7, 7, 4, 3, Color(1));
    assert_eq!(c.buffer(), d.buffer());
    assert!(c.try_thick_outline_ellipse(10, 7, 2_000_000, 4, 2, Color(2)));
    let before = c.buffer().to_vec();
    assert!(!c.try_thick_outline_ellipse(10, 7, 1_073_741_824, 4, 2, Color(3)));
    assert!(!c.try_thick_outline_ellipse(10, 7, 4, 1_073_741_820, 10, Color(3)));
    assert!(!c.try_thick_outline_ellipse(10, 7, 4, i32::MAX, i32::MAX, Color(3)));
    assert_eq!(c.buffer(), &before[..]);
    assert!(c.try_thick_outline_ellipse(10, 7, i32::MAX, i32::MAX, 0, Color(3)));
    assert!(c.try_thick_outline_ellipse(10, 7, 0, i32::MAX, 9, Color(3)));
    assert_eq!(c.buffer(), &before[..]);
}

#[test]
fn line_is_as_long_as_its_longer_axis() {
    for (x2, y2) in [(9, 4), (4, 9), (-7, 3), (0, 0), (6, 6), (2, -8), (10, 0)] {
        let mut c = blank(25, 25);
        c.line(12, 12, 12 + x2, 12 + y2, Color(1));
        let count = c.buffer().iter().filter(|p| **p == 1).count();
        let longer = i32::max(i32::abs(x2), i32::abs(y2));
        assert_eq!(count, longer as usize + 1);
    }
}

#[test]
fn shapes_stay_in_their_boxes() {
    let mut c = blank(31, 31);
    c.fill_circle(15, 15, 6, Color(1));
    c.thick_outline_circle(15, 15, 6, 5, Color(1));
    c.fill_ellipse(15, 15, 8, 3, Color(1));
    for y in 0..31 {
        for x in 0..31 {
            if c.get_pixel(x, y) == Some(1) {
                assert!((7..=23).contains(&x) && (7..=23).contains(&y));
            }
        }
    }
    assert_eq!(c.get_pixel(7, 15), Some(1));
    assert_eq!(c.get_pixel(23, 15), Some(1));
}
