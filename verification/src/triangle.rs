use vstd::prelude::*;
use crate::canvas::{Canvas, saturated};
use crate::color::{Color, ToColor};
use crate::rect::hseg;
use crate::view::{lemma_paint_agree, lemma_paint_empty, lemma_paint_union};

verus! {

/// The pair `(p, q)` with the point of the smaller `y` first; points of
/// equal `y` keep their order.
pub open spec fn by_y(p: (i32, i32), q: (i32, i32)) -> ((i32, i32), (i32, i32)) {
    if p.1 > q.1 {
        (q, p)
    } else {
        (p, q)
    }
}

/// The three points ordered from top to bottom by three exchanges: of the
/// second and third, of the first and second, and of the second and third
/// again.
pub open spec fn sorted_by_y(p1: (i32, i32), p2: (i32, i32), p3: (i32, i32)) -> (
    (i32, i32),
    (i32, i32),
    (i32, i32),
) {
    let low = by_y(p2, p3);
    let top = by_y(p1, low.0);
    let rest = by_y(top.1, low.1);
    (top.0, rest.0, rest.1)
}

/// Orders the corners of a triangle from top to bottom.
pub fn sort_by_y(p1: (i32, i32), p2: (i32, i32), p3: (i32, i32)) -> (r: (
    (i32, i32),
    (i32, i32),
    (i32, i32),
))
    ensures
        r == sorted_by_y(p1, p2, p3),
        r.0.1 <= r.1.1 <= r.2.1,
{
    let mut a = p1;
    let mut b = p2;
    let mut c = p3;
    if b.1 > c.1 {
        let t = b;
        b = c;
        c = t;
    }
    if a.1 > b.1 {
        let t = a;
        a = b;
        b = t;
    }
    if b.1 > c.1 {
        let t = b;
        b = c;
        c = t;
    }
    (a, b, c)
}

/// The pixels of consecutive rows from row `y` on: in row `y + k` the
/// stretch between the two columns of `spans[k]`, in either order.
pub open spec fn rows_from(y: int, spans: Seq<(i32, i32)>) -> Set<(int, int)> {
    Set::new(
        |p: (int, int)|
            0 <= p.1 - y < spans.len() && hseg(
                p.1,
                spans[p.1 - y].0 as int,
                spans[p.1 - y].1 as int,
            ).contains(p),
    )
}

impl Canvas {
    /// Fills consecutive rows from row `y` on, each between the two columns
    /// given for it: the scan lines of a shape whose edges the caller has
    /// laid out. The number of the last row has to fit an `i64`.
    pub fn fill_rows<C: ToColor>(&mut self, y: i32, spans: &Vec<(i32, i32)>, color: C)
        requires
            old(self).wf(),
            y + spans@.len() <= i64::MAX,
        ensures
            final(self).wf(),
            final(self)@ == old(self)@.paint(rows_from(y as int, spans@), color.color_spec().0),
    {
        let color: Color = color.to_color();
        let ghost before = self@;
        proof {
            self.lemma_wf();
        }
        let limit: i64 = saturated(self.height());
        let n: usize = spans.len();
        let mut k: usize = 0;
        let mut row: i64 = y as i64;
        proof {
            lemma_paint_agree(before, rows_from(y as int, spans@.take(0)), Set::empty(), color.0);
            lemma_paint_empty(before, color.0);
        }
        while k < n && row < limit
            invariant
                self.wf(),
                before.wf(),
                k <= n,
                n == spans@.len(),
                row == y + k,
                y + n <= i64::MAX,
                limit == crate::canvas::saturate(before.height),
                self@ == before.paint(rows_from(y as int, spans@.take(k as int)), color.0),
            decreases n - k,
        {
            let span: (i32, i32) = spans[k];
            self.hstroke(row, span.0 as i64, span.1 as i64, color.0);
            proof {
                let done = rows_from(y as int, spans@.take(k as int));
                let next = rows_from(y as int, spans@.take(k + 1));
                lemma_paint_union(before, done, hseg(row as int, span.0 as int, span.1 as int), color.0);
                assert(done.union(hseg(row as int, span.0 as int, span.1 as int)) =~= next);
            }
            k = k + 1;
            row = row + 1;
        }
        proof {
            if k == n {
                assert(spans@.take(k as int) =~= spans@);
            }
            lemma_paint_agree(
                before,
                rows_from(y as int, spans@.take(k as int)),
                rows_from(y as int, spans@),
                color.0,
            );
        }
    }
}

} // verus!
