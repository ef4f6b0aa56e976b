use vstd::prelude::*;
use crate::canvas::Canvas;
use crate::circle::circle_fill;
use crate::color::{Color, ToColor};
use crate::line::{lemma_line_horizontal, lemma_line_vertical, line_pixels};
use crate::rect::rect;
use crate::triangle::rows_from;
use crate::view::{lemma_paint_empty, lemma_paint_union};

verus! {

/// The pixels of a line of thickness `t` whose body the caller has laid out
/// as the scan lines of two triangles, `rows_a` from row `first_a` on and
/// `rows_b` from row `first_b` on: nothing for `t < 1`, the thin line for
/// `t == 1`, and the scan lines otherwise.
pub open spec fn thick_line_pixels(
    x1: int,
    y1: int,
    x2: int,
    y2: int,
    t: int,
    first_a: int,
    rows_a: Seq<(i32, i32)>,
    first_b: int,
    rows_b: Seq<(i32, i32)>,
) -> Set<(int, int)> {
    if t < 1 {
        Set::empty()
    } else if t == 1 {
        line_pixels(x1, y1, x2, y2)
    } else {
        rows_from(first_a, rows_a).union(rows_from(first_b, rows_b))
    }
}

/// The band that stands for a thick line along a column: `t` columns from
/// column `x - t / 2` on, in the rows between `y1` and `y2`, the last one
/// excluded.
pub open spec fn thick_vline_pixels(x: int, y1: int, y2: int, t: int) -> Set<(int, int)> {
    rect(
        x - vstd::math::max(t, 0) / 2,
        vstd::math::min(y1, y2),
        vstd::math::max(t, 0),
        vstd::math::max(y1, y2) - vstd::math::min(y1, y2),
    )
}

/// The band that stands for a thick line along a row: `t` rows from row
/// `y + t / 2` on, in the columns between `x1` and `x2`, the last one
/// excluded.
pub open spec fn thick_hline_pixels(y: int, x1: int, x2: int, t: int) -> Set<(int, int)> {
    rect(
        vstd::math::min(x1, x2),
        y + vstd::math::max(t, 0) / 2,
        vstd::math::max(x1, x2) - vstd::math::min(x1, x2),
        vstd::math::max(t, 0),
    )
}

/// What [`Canvas::thick_line_maybe_axis_aligned_rows`] draws: nothing for
/// `t < 1`; the thin line for `t == 1`; for a thicker line the band along
/// the column or the row that the end points share, and the scan lines
/// where they share none.
pub open spec fn thick_line_or_axis_pixels(
    x1: int,
    y1: int,
    x2: int,
    y2: int,
    t: int,
    first_a: int,
    rows_a: Seq<(i32, i32)>,
    first_b: int,
    rows_b: Seq<(i32, i32)>,
) -> Set<(int, int)> {
    if t < 1 {
        Set::empty()
    } else if t == 1 {
        line_pixels(x1, y1, x2, y2)
    } else if x1 == x2 {
        thick_vline_pixels(x1, y1, y2, t)
    } else if y1 == y2 {
        thick_hline_pixels(y1, x1, x2, t)
    } else {
        rows_from(first_a, rows_a).union(rows_from(first_b, rows_b))
    }
}

/// The three filled circles of radius `t / 2` that cover the joints of a
/// triangle's sides of thickness `t`; empty for `t < 2`.
pub open spec fn triangle_joints(x1: int, y1: int, x2: int, y2: int, x3: int, y3: int, t: int) -> Set<
    (int, int),
> {
    circle_fill(x1, y1, t / 2).union(circle_fill(x2, y2, t / 2)).union(circle_fill(x3, y3, t / 2))
}

impl Canvas {
    /// Draws a line of thickness `thickness` from `(x1, y1)` to `(x2, y2)`.
    /// Below 1 nothing is drawn, and with 1 the thin line. A thicker line is
    /// a quad of two triangles, whose scan lines the caller hands in: the
    /// corners of the quad lie off the line by a square root that this
    /// library does not compute.
    pub fn thick_line_rows<C: ToColor>(
        &mut self,
        x1: i32,
        y1: i32,
        x2: i32,
        y2: i32,
        thickness: i32,
        first_a: i32,
        rows_a: &Vec<(i32, i32)>,
        first_b: i32,
        rows_b: &Vec<(i32, i32)>,
        color: C,
    )
        requires
            old(self).wf(),
            first_a + rows_a@.len() <= i64::MAX,
            first_b + rows_b@.len() <= i64::MAX,
        ensures
            final(self).wf(),
            final(self)@ == old(self)@.paint(
                thick_line_pixels(
                    x1 as int,
                    y1 as int,
                    x2 as int,
                    y2 as int,
                    thickness as int,
                    first_a as int,
                    rows_a@,
                    first_b as int,
                    rows_b@,
                ),
                color.color_spec().0,
            ),
            thickness < 1 ==> final(self)@ == old(self)@,
            thickness == 1 ==> final(self)@ == old(self)@.paint(
                line_pixels(x1 as int, y1 as int, x2 as int, y2 as int),
                color.color_spec().0,
            ),
            thickness >= 2 ==> final(self)@ == old(self)@.paint(
                rows_from(first_a as int, rows_a@).union(rows_from(first_b as int, rows_b@)),
                color.color_spec().0,
            ),
    {
        let color: Color = color.to_color();
        let ghost before = self@;
        if thickness < 1 {
            proof {
                lemma_paint_empty(before, color.0);
            }
        } else if thickness == 1 {
            self.line(x1, y1, x2, y2, color);
        } else {
            self.fill_rows(first_a, rows_a, color);
            self.fill_rows(first_b, rows_b, color);
            proof {
                lemma_paint_union(
                    before,
                    rows_from(first_a as int, rows_a@),
                    rows_from(first_b as int, rows_b@),
                    color.0,
                );
            }
        }
    }

    /// Draws a line of thickness `thickness` from `(x1, y1)` to `(x2, y2)`,
    /// taking the band along an axis where the end points share a column or
    /// a row. With thickness 1 the line along an axis is the thin line, as
    /// it is for any other line; below 1 nothing is drawn.
    pub fn thick_line_maybe_axis_aligned_rows<C: ToColor>(
        &mut self,
        x1: i32,
        y1: i32,
        x2: i32,
        y2: i32,
        thickness: i32,
        first_a: i32,
        rows_a: &Vec<(i32, i32)>,
        first_b: i32,
        rows_b: &Vec<(i32, i32)>,
        color: C,
    )
        requires
            old(self).wf(),
            first_a + rows_a@.len() <= i64::MAX,
            first_b + rows_b@.len() <= i64::MAX,
        ensures
            final(self).wf(),
            final(self)@ == old(self)@.paint(
                thick_line_or_axis_pixels(
                    x1 as int,
                    y1 as int,
                    x2 as int,
                    y2 as int,
                    thickness as int,
                    first_a as int,
                    rows_a@,
                    first_b as int,
                    rows_b@,
                ),
                color.color_spec().0,
            ),
            thickness < 1 ==> final(self)@ == old(self)@,
            thickness == 1 ==> final(self)@ == old(self)@.paint(
                line_pixels(x1 as int, y1 as int, x2 as int, y2 as int),
                color.color_spec().0,
            ),
            thickness >= 2 && x1 != x2 && y1 != y2 ==> final(self)@ == old(self)@.paint(
                thick_line_pixels(
                    x1 as int,
                    y1 as int,
                    x2 as int,
                    y2 as int,
                    thickness as int,
                    first_a as int,
                    rows_a@,
                    first_b as int,
                    rows_b@,
                ),
                color.color_spec().0,
            ),
    {
        let color: Color = color.to_color();
        let ghost before = self@;
        if thickness < 1 {
            proof {
                lemma_paint_empty(before, color.0);
            }
        } else if x1 == x2 {
            if thickness == 1 {
                proof {
                    lemma_line_vertical(x1 as int, y1 as int, y2 as int);
                }
                self.vline(x1, y1, y2, color);
            } else {
                self.thick_vline(x1, y1, y2, thickness, color);
            }
        } else if y1 == y2 {
            if thickness == 1 {
                proof {
                    lemma_line_horizontal(y1 as int, x1 as int, x2 as int);
                }
                self.hline(y1, x1, x2, color);
            } else {
                self.thick_hline(y1, x1, x2, thickness, color);
            }
        } else {
            self.thick_line_rows(x1, y1, x2, y2, thickness, first_a, rows_a, first_b, rows_b, color);
        }
    }

    /// Covers the joints of a triangle's sides of thickness `thickness`: a
    /// filled circle of radius `thickness / 2` at each corner. Nothing is
    /// drawn for a thickness below 2.
    pub fn thick_triangle_joints<C: ToColor>(
        &mut self,
        x1: i32,
        y1: i32,
        x2: i32,
        y2: i32,
        x3: i32,
        y3: i32,
        thickness: i32,
        color: C,
    )
        requires
            old(self).wf(),
        ensures
            final(self).wf(),
            final(self)@ == old(self)@.paint(
                triangle_joints(
                    x1 as int,
                    y1 as int,
                    x2 as int,
                    y2 as int,
                    x3 as int,
                    y3 as int,
                    thickness as int,
                ),
                color.color_spec().0,
            ),
            thickness < 2 ==> final(self)@ == old(self)@,
    {
        let color: Color = color.to_color();
        let ghost before = self@;
        let ghost t = thickness as int;
        if thickness < 2 {
            proof {
                assert(t / 2 < 1);
                assert(triangle_joints(
                    x1 as int,
                    y1 as int,
                    x2 as int,
                    y2 as int,
                    x3 as int,
                    y3 as int,
                    t,
                ) =~= Set::empty());
                lemma_paint_empty(before, color.0);
            }
            return ;
        }
        let half: i32 = thickness / 2;
        let ghost a = circle_fill(x1 as int, y1 as int, half as int);
        let ghost b = circle_fill(x2 as int, y2 as int, half as int);
        let ghost c = circle_fill(x3 as int, y3 as int, half as int);
        self.fill_circle(x1, y1, half, color);
        self.fill_circle(x2, y2, half, color);
        self.fill_circle(x3, y3, half, color);
        proof {
            lemma_paint_union(before, a, b, color.0);
            lemma_paint_union(before, a.union(b), c, color.0);
        }
    }
}

} // verus!
