use vstd::prelude::*;
use crate::canvas::Canvas;
use crate::color::{Color, ToColor};
use crate::view::{block, hspan, vspan, lemma_paint_agree, lemma_paint_empty, lemma_paint_union};

verus! {

/// `v` limited to the range from `lo` to `hi`.
pub open spec fn clip(v: int, lo: int, hi: int) -> int {
    if v < lo {
        lo
    } else if v > hi {
        hi
    } else {
        v
    }
}

/// The pixels of the rectangle with top-left corner `(x, y)`, `w` columns
/// and `h` rows; empty when `w <= 0` or `h <= 0`.
pub open spec fn rect(x: int, y: int, w: int, h: int) -> Set<(int, int)> {
    Set::new(|p: (int, int)| x <= p.0 < x + w && y <= p.1 < y + h)
}

/// The border, one pixel wide, of the rectangle with top-left corner
/// `(x, y)`, `w` columns and `h` rows; empty when `w <= 0` or `h <= 0`.
pub open spec fn rect_outline(x: int, y: int, w: int, h: int) -> Set<(int, int)> {
    if w <= 0 || h <= 0 {
        Set::empty()
    } else {
        hspan(y, x, x + w - 1).union(hspan(y + h - 1, x, x + w - 1)).union(
            vspan(x, y, y + h - 1),
        ).union(vspan(x + w - 1, y, y + h - 1))
    }
}

/// The border of thickness `t` of the rectangle with top-left corner
/// `(x, y)`, `w` columns and `h` rows. For `t >= 2` it is made of four bands
/// centered on the lines `y`, `y + h`, `x` and `x + w`, each reaching `t / 2`
/// to either side; for `t == 1` it is the thin border; it is empty when
/// `w`, `h` or `t` is not positive.
pub open spec fn rect_thick_outline(x: int, y: int, w: int, h: int, t: int) -> Set<(int, int)> {
    let half = t / 2;
    if w <= 0 || h <= 0 || t <= 0 {
        Set::empty()
    } else if t == 1 {
        rect_outline(x, y, w, h)
    } else {
        block(x - half, x + w + half - 1, y - half, y + half - 1).union(
            block(x - half, x + w + half - 1, y + h - half, y + h + half - 1),
        ).union(block(x - half, x + half - 1, y, y + h - 1)).union(
            block(x + w - half, x + w + half - 1, y, y + h - 1),
        )
    }
}

/// The pixels of row `y` between the columns `a` and `b`, both included, in
/// either order.
pub open spec fn hseg(y: int, a: int, b: int) -> Set<(int, int)> {
    hspan(y, vstd::math::min(a, b), vstd::math::max(a, b))
}

/// The pixels of column `x` between the rows `a` and `b`, both included, in
/// either order.
pub open spec fn vseg(x: int, a: int, b: int) -> Set<(int, int)> {
    vspan(x, vstd::math::min(a, b), vstd::math::max(a, b))
}

fn clip_to(v: i64, lo: i64, hi: i64) -> (r: i64)
    ensures
        r == clip(v as int, lo as int, hi as int),
{
    if v < lo {
        lo
    } else if v > hi {
        hi
    } else {
        v
    }
}

impl Canvas {
    /// The part of the half-open request `[xmin, xmax) x [ymin, ymax)` that
    /// lies inside the canvas, as half-open bounds `(from_x, to_x, from_y,
    /// to_y)`. A request that misses the canvas, or is empty, gives an empty
    /// range.
    pub fn clamp_rect_i32(&self, xmin: i32, xmax: i32, ymin: i32, ymax: i32) -> (r: (
        i32,
        i32,
        i32,
        i32,
    ))
        requires
            self.wf(),
        ensures
            r.0 == clip(xmin as int, 0, clip(self@.width, 0, i32::MAX as int)),
            r.1 == clip(xmax as int, r.0 as int, clip(self@.width, 0, i32::MAX as int)),
            r.2 == clip(ymin as int, 0, clip(self@.height, 0, i32::MAX as int)),
            r.3 == clip(ymax as int, r.2 as int, clip(self@.height, 0, i32::MAX as int)),
            0 <= r.0 <= r.1 <= self@.width,
            0 <= r.2 <= r.3 <= self@.height,
            forall|x: int, y: int|
                (r.0 <= x < r.1 && r.2 <= y < r.3) <==> (self@.contains(x, y) && xmin <= x < xmax
                    && ymin <= y < ymax),
    {
        proof {
            self.lemma_wf();
        }
        let w: usize = self.width();
        let h: usize = self.height();
        let cw: i32 = if w as u64 > 0x7fff_ffffu64 { 0x7fff_ffffi32 } else { w as i32 };
        let ch: i32 = if h as u64 > 0x7fff_ffffu64 { 0x7fff_ffffi32 } else { h as i32 };
        let from_x: i64 = clip_to(xmin as i64, 0, cw as i64);
        let to_x: i64 = clip_to(xmax as i64, from_x, cw as i64);
        let from_y: i64 = clip_to(ymin as i64, 0, ch as i64);
        let to_y: i64 = clip_to(ymax as i64, from_y, ch as i64);
        (from_x as i32, to_x as i32, from_y as i32, to_y as i32)
    }

    /// Paints the columns `x1 ..= x2` of the rows `y1 ..= y2`.
    pub(crate) fn fill_block(&mut self, x1: i64, x2: i64, y1: i64, y2: i64, raw: u32)
        requires
            old(self).wf(),
            x1 < i64::MAX,
            x2 < i64::MAX,
            y1 < i64::MAX,
            y2 < i64::MAX,
        ensures
            final(self).wf(),
            final(self)@ == old(self)@.paint(block(x1 as int, x2 as int, y1 as int, y2 as int), raw),
    {
        let ghost before = self@;
        proof {
            self.lemma_wf();
        }
        let h: usize = self.height();
        let last: i64 = if h as u64 > 0x7fff_ffff_ffff_fffeu64 {
            0x7fff_ffff_ffff_fffei64
        } else {
            h as i64 - 1
        };
        let from: i64 = if y1 < 0 { 0 } else { y1 };
        let to: i64 = if y2 < last { y2 } else { last };
        let mut k: i64 = from;
        proof {
            lemma_paint_agree(before, block(x1 as int, x2 as int, from as int, k - 1), Set::empty(), raw);
            lemma_paint_empty(before, raw);
        }
        while k <= to
            invariant
                self.wf(),
                before.wf(),
                0 <= from <= k,
                from <= to ==> k <= to + 1,
                from > to ==> k == from,
                to < i64::MAX,
                from == vstd::math::max(y1 as int, 0),
                y2 <= to || before.height <= to + 1,
                to <= y2,
                x1 < i64::MAX,
                x2 < i64::MAX,
                self@ == before.paint(block(x1 as int, x2 as int, from as int, k - 1), raw),
            decreases to + 1 - k,
        {
            self.span(k, x1, x2, raw);
            proof {
                lemma_paint_union(
                    before,
                    block(x1 as int, x2 as int, from as int, k - 1),
                    hspan(k as int, x1 as int, x2 as int),
                    raw,
                );
                assert(block(x1 as int, x2 as int, from as int, k - 1).union(
                    hspan(k as int, x1 as int, x2 as int),
                ) =~= block(x1 as int, x2 as int, from as int, k as int));
            }
            k = k + 1;
        }
        proof {
            lemma_paint_agree(
                before,
                block(x1 as int, x2 as int, from as int, k - 1),
                block(x1 as int, x2 as int, y1 as int, y2 as int),
                raw,
            );
        }
    }

    /// Fills the rectangle with top-left corner `(x, y)`, `w` columns and `h`
    /// rows. Nothing is drawn when `w <= 0` or `h <= 0`.
    pub fn fill_rect<C: ToColor>(&mut self, x: i32, y: i32, w: i32, h: i32, color: C)
        requires
            old(self).wf(),
        ensures
            final(self).wf(),
            final(self)@ == old(self)@.paint(
                rect(x as int, y as int, w as int, h as int),
                color.color_spec().0,
            ),
            w <= 0 || h <= 0 ==> final(self)@ == old(self)@,
    {
        let color: Color = color.to_color();
        let ghost before = self@;
        let x1: i64 = x as i64;
        let y1: i64 = y as i64;
        self.fill_block(x1, x1 + w as i64 - 1, y1, y1 + h as i64 - 1, color.0);
        proof {
            assert(block(x as int, x + w - 1, y as int, y + h - 1) =~= rect(
                x as int,
                y as int,
                w as int,
                h as int,
            ));
            if w <= 0 || h <= 0 {
                assert(rect(x as int, y as int, w as int, h as int) =~= Set::empty());
                lemma_paint_empty(before, color.0);
            }
        }
    }

    /// Draws the border, one pixel wide, of the rectangle with top-left
    /// corner `(x, y)`, `w` columns and `h` rows. Nothing is drawn when
    /// `w <= 0` or `h <= 0`.
    pub fn outline_rect<C: ToColor>(&mut self, x: i32, y: i32, w: i32, h: i32, color: C)
        requires
            old(self).wf(),
        ensures
            final(self).wf(),
            final(self)@ == old(self)@.paint(
                rect_outline(x as int, y as int, w as int, h as int),
                color.color_spec().0,
            ),
            w <= 0 || h <= 0 ==> final(self)@ == old(self)@,
    {
        let color: Color = color.to_color();
        let ghost before = self@;
        if w <= 0 || h <= 0 {
            proof {
                lemma_paint_empty(before, color.0);
            }
            return ;
        }
        let x1: i64 = x as i64;
        let x2: i64 = x as i64 + w as i64 - 1;
        let y1: i64 = y as i64;
        let y2: i64 = y as i64 + h as i64 - 1;
        let ghost top = hspan(y1 as int, x1 as int, x2 as int);
        let ghost bottom = hspan(y2 as int, x1 as int, x2 as int);
        let ghost left = vspan(x1 as int, y1 as int, y2 as int);
        let ghost right = vspan(x2 as int, y1 as int, y2 as int);
        self.span(y1, x1, x2, color.0);
        self.span(y2, x1, x2, color.0);
        self.column(x1, y1, y2, color.0);
        self.column(x2, y1, y2, color.0);
        proof {
            lemma_paint_union(before, top, bottom, color.0);
            lemma_paint_union(before, top.union(bottom), left, color.0);
            lemma_paint_union(before, top.union(bottom).union(left), right, color.0);
        }
    }

    /// Draws the border of thickness `thickness` of the rectangle with
    /// top-left corner `(x, y)`, `w` columns and `h` rows. Nothing is drawn
    /// when `w`, `h` or `thickness` is not positive; with thickness 1 the
    /// result is that of [`Canvas::outline_rect`].
    pub fn thick_outline_rect<C: ToColor>(&mut self, x: i32, y: i32, w: i32, h: i32, thickness: i32, color: C)
        requires
            old(self).wf(),
        ensures
            final(self).wf(),
            final(self)@ == old(self)@.paint(
                rect_thick_outline(x as int, y as int, w as int, h as int, thickness as int),
                color.color_spec().0,
            ),
            w <= 0 || h <= 0 || thickness <= 0 ==> final(self)@ == old(self)@,
            thickness == 1 ==> final(self)@ == old(self)@.paint(
                rect_outline(x as int, y as int, w as int, h as int),
                color.color_spec().0,
            ),
    {
        let color: Color = color.to_color();
        let ghost before = self@;
        if w <= 0 || h <= 0 || thickness <= 0 {
            proof {
                lemma_paint_empty(before, color.0);
            }
            return ;
        } else if thickness == 1 {
            self.outline_rect(x, y, w, h, color);
            return ;
        }
        let half: i64 = (thickness / 2) as i64;
        let x1: i64 = x as i64;
        let x2: i64 = x as i64 + w as i64;
        let y1: i64 = y as i64;
        let y2: i64 = y as i64 + h as i64;
        let ghost top = block(x1 - half, x2 + half - 1, y1 - half, y1 + half - 1);
        let ghost bottom = block(x1 - half, x2 + half - 1, y2 - half, y2 + half - 1);
        let ghost left = block(x1 - half, x1 + half - 1, y1 as int, y2 - 1);
        let ghost right = block(x2 - half, x2 + half - 1, y1 as int, y2 - 1);
        self.fill_block(x1 - half, x2 + half - 1, y1 - half, y1 + half - 1, color.0);
        self.fill_block(x1 - half, x2 + half - 1, y2 - half, y2 + half - 1, color.0);
        self.fill_block(x1 - half, x1 + half - 1, y1, y2 - 1, color.0);
        self.fill_block(x2 - half, x2 + half - 1, y1, y2 - 1, color.0);
        proof {
            lemma_paint_union(before, top, bottom, color.0);
            lemma_paint_union(before, top.union(bottom), left, color.0);
            lemma_paint_union(before, top.union(bottom).union(left), right, color.0);
        }
    }

    /// Paints the pixels of row `y` between the columns `a` and `b`.
    pub(crate) fn hstroke(&mut self, y: i64, a: i64, b: i64, raw: u32)
        requires
            old(self).wf(),
            y < i64::MAX,
            a < i64::MAX,
            b < i64::MAX,
        ensures
            final(self).wf(),
            final(self)@ == old(self)@.paint(hseg(y as int, a as int, b as int), raw),
    {
        if a > b {
            self.span(y, b, a, raw);
        } else {
            self.span(y, a, b, raw);
        }
    }

    /// Paints the pixels of column `x` between the rows `a` and `b`.
    pub(crate) fn vstroke(&mut self, x: i64, a: i64, b: i64, raw: u32)
        requires
            old(self).wf(),
            x < i64::MAX,
            a < i64::MAX,
            b < i64::MAX,
        ensures
            final(self).wf(),
            final(self)@ == old(self)@.paint(vseg(x as int, a as int, b as int), raw),
    {
        if a > b {
            self.column(x, b, a, raw);
        } else {
            self.column(x, a, b, raw);
        }
    }

    /// Draws the pixels of row `y` between the columns `x1` and `x2`, both
    /// included, in either order.
    pub fn hline<C: ToColor>(&mut self, y: i32, x1: i32, x2: i32, color: C)
        requires
            old(self).wf(),
        ensures
            final(self).wf(),
            final(self)@ == old(self)@.paint(hseg(y as int, x1 as int, x2 as int), color.color_spec().0),
    {
        let color: Color = color.to_color();
        self.hstroke(y as i64, x1 as i64, x2 as i64, color.0);
    }

    /// Draws the pixels of column `x` between the rows `y1` and `y2`, both
    /// included, in either order.
    pub fn vline<C: ToColor>(&mut self, x: i32, y1: i32, y2: i32, color: C)
        requires
            old(self).wf(),
        ensures
            final(self).wf(),
            final(self)@ == old(self)@.paint(vseg(x as int, y1 as int, y2 as int), color.color_spec().0),
    {
        let color: Color = color.to_color();
        self.vstroke(x as i64, y1 as i64, y2 as i64, color.0);
    }

    /// Draws a horizontal band between the columns `x1` and `x2`, in either
    /// order, the last one excluded: the rectangle of `max(thickness, 0)`
    /// rows that starts in row `y + max(thickness, 0) / 2`.
    pub fn thick_hline<C: ToColor>(&mut self, y: i32, x1: i32, x2: i32, thickness: i32, color: C)
        requires
            old(self).wf(),
        ensures
            final(self).wf(),
            final(self)@ == old(self)@.paint(
                rect(
                    vstd::math::min(x1 as int, x2 as int),
                    y + vstd::math::max(thickness as int, 0) / 2,
                    vstd::math::max(x1 as int, x2 as int) - vstd::math::min(x1 as int, x2 as int),
                    vstd::math::max(thickness as int, 0),
                ),
                color.color_spec().0,
            ),
    {
        let color: Color = color.to_color();
        let t: i64 = if thickness < 0 { 0 } else { thickness as i64 };
        let lo: i64 = if x1 > x2 { x2 as i64 } else { x1 as i64 };
        let hi: i64 = if x1 > x2 { x1 as i64 } else { x2 as i64 };
        let top: i64 = y as i64 + t / 2;
        self.fill_block(lo, hi - 1, top, top + t - 1, color.0);
        proof {
            assert(block(lo as int, hi - 1, top as int, top + t - 1) =~= rect(
                lo as int,
                top as int,
                hi - lo,
                t as int,
            ));
        }
    }

    /// Draws a vertical band between the rows `y1` and `y2`, in either order,
    /// the last one excluded: the rectangle of `max(thickness, 0)` columns
    /// that starts in column `x - max(thickness, 0) / 2`.
    pub fn thick_vline<C: ToColor>(&mut self, x: i32, y1: i32, y2: i32, thickness: i32, color: C)
        requires
            old(self).wf(),
        ensures
            final(self).wf(),
            final(self)@ == old(self)@.paint(
                rect(
                    x - vstd::math::max(thickness as int, 0) / 2,
                    vstd::math::min(y1 as int, y2 as int),
                    vstd::math::max(thickness as int, 0),
                    vstd::math::max(y1 as int, y2 as int) - vstd::math::min(y1 as int, y2 as int),
                ),
                color.color_spec().0,
            ),
    {
        let color: Color = color.to_color();
        let t: i64 = if thickness < 0 { 0 } else { thickness as i64 };
        let lo: i64 = if y1 > y2 { y2 as i64 } else { y1 as i64 };
        let hi: i64 = if y1 > y2 { y1 as i64 } else { y2 as i64 };
        let left: i64 = x as i64 - t / 2;
        self.fill_block(left, left + t - 1, lo, hi - 1, color.0);
        proof {
            assert(block(left as int, left + t - 1, lo as int, hi - 1) =~= rect(
                left as int,
                lo as int,
                t as int,
                hi - lo,
            ));
        }
    }
}

} // verus!
