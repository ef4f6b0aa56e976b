use vason::Canvas;

fn blank(width: usize, height: usize) -> Canvas {
    Canvas::new(vec![0u32; width * height], width, height).unwrap()
}

// Folds the pixels of a canvas into a running 64-bit FNV-1a hash.
fn fold(canvas: &Canvas, mut h: u64) -> u64 {
    for p in canvas.buffer() {
        h ^= u64::from(*p);
        h = h.wrapping_mul(0x100_0000_01B3);
    }
    h
}

const START: u64 = 0xcbf2_9ce4_8422_2325;

#[test]
fn thick_outline_ellipse_over_many_sizes() {
    let mut h = START;
    for a in 1..9 {
        for b in 1..9 {
            for t in 2..7 {
                let mut c = blank(31, 31);
                c.thick_outline_ellipse(15, 15, a, b, t, 1u32);
                h = fold(&c, h);
            }
        }
    }
    assert_eq!(h, 0x56e6_8a9e_0595_ae79);
}

#[test]
fn thick_outline_ellipse_over_many_places() {
    let mut h = START;
    for (cx, cy) in [(0, 0), (30, 5), (-3, 12), (12, 33)] {
        for a in [1, 3, 5, 7] {
            for b in [2, 5, 8] {
                for t in [2, 3, 5] {
                    let mut c = blank(31, 31);
                    c.thick_outline_ellipse(cx, cy, a, b, t, 1u32);
                    h = fold(&c, h);
                }
            }
        }
    }
    assert_eq!(h, 0xb928_ae24_b433_00a6);
}

#[test]
fn circles_over_many_sizes_and_places() {
    let mut h = START;
    for r in 0..12 {
        for (cx, cy) in [(15, 15), (0, 0), (29, 3), (-4, 16)] {
            let mut c = blank(31, 31);
            c.fill_circle(cx, cy, r, 1u32);
            h = fold(&c, h);
            let mut c = blank(31, 31);
            c.outline_circle(cx, cy, r, 1u32);
            h = fold(&c, h);
            for t in [2, 3, 4, 7] {
                let mut c = blank(31, 31);
                c.thick_outline_circle(cx, cy, r, t, 1u32);
                h = fold(&c, h);
            }
        }
    }
    assert_eq!(h, 0xbce1_2dff_f097_6692);
}

#[test]
fn ellipses_over_many_sizes_and_places() {
    let mut h = START;
    for a in 0..10 {
        for b in 0..10 {
            for (cx, cy) in [(15, 15), (2, 29)] {
                let mut c = blank(31, 31);
                c.fill_ellipse(cx, cy, a, b, 1u32);
                h = fold(&c, h);
                let mut c = blank(31, 31);
                c.outline_ellipse(cx, cy, a, b, 1u32);
                h = fold(&c, h);
            }
        }
    }
    assert_eq!(h, 0x18f1_6228_fcc9_915b);
}

#[test]
fn lines_over_many_end_points() {
    let mut h = START;
    for x2 in (-3..20).step_by(2) {
        for y2 in (-3..20).step_by(3) {
            for (x1, y1) in [(0, 0), (15, 7), (8, 19)] {
                let mut c = blank(17, 17);
                c.line(x1, y1, x2, y2, 1u32);
                h = fold(&c, h);
            }
        }
    }
    assert_eq!(h, 0xe738_8124_fc81_8b1f);
}
