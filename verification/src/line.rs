use vstd::prelude::*;
use crate::canvas::Canvas;
use crate::color::{Color, ToColor};
use crate::trace::{Trace, steps_all, steps_upto, lemma_steps_done};
use crate::view::{point, lemma_paint_union};
use crate::rect::{hseg, vseg};

verus! {

/// The distance between two coordinates.
pub open spec fn dist(a: int, b: int) -> int {
    if a < b {
        b - a
    } else {
        a - b
    }
}

/// The coordinate `k` steps from `from` in the direction of `to`.
pub open spec fn toward(from: int, to: int, k: int) -> int {
    if from < to {
        from + k
    } else {
        from - k
    }
}

/// The error term of the line walk over `d` columns and `e` rows after `kx`
/// steps in x and `ky` steps in y.
pub open spec fn line_err(d: int, e: int, kx: int, ky: int) -> int {
    d * (1 + ky) - e * (1 + kx)
}

/// One step of the line walk: a step in x when twice the error term is at
/// least `-e`, a step in y when it is at most `d`, both when both hold.
pub open spec fn line_next(d: int, e: int, s: (int, int)) -> (int, int) {
    let err2 = 2 * line_err(d, e, s.0, s.1);
    (
        if err2 >= -e {
            s.0 + 1
        } else {
            s.0
        },
        if err2 <= d {
            s.1 + 1
        } else {
            s.1
        },
    )
}

/// The numbers of steps in x and in y that the line walk has made after `n`
/// steps.
pub open spec fn line_walk(d: int, e: int, n: nat) -> (int, int)
    decreases n,
{
    if n == 0 {
        (0, 0)
    } else {
        line_next(d, e, line_walk(d, e, (n - 1) as nat))
    }
}

/// The point that step `m` of the walk from `(x1, y1)` to `(x2, y2)` marks;
/// nothing once the walk has passed the end point.
pub open spec fn line_trace(x1: int, y1: int, x2: int, y2: int) -> Trace {
    |m: nat|
        {
            let s = line_walk(dist(x1, x2), dist(y1, y2), m);
            if s.0 <= dist(x1, x2) && s.1 <= dist(y1, y2) {
                point(toward(x1, x2, s.0), toward(y1, y2, s.1))
            } else {
                Set::empty()
            }
        }
}

/// The pixels that the walk from `(x1, y1)` to `(x2, y2)` marks, both ends
/// included.
pub open spec fn walk_pixels(x1: int, y1: int, x2: int, y2: int) -> Set<(int, int)> {
    steps_all(line_trace(x1, y1, x2, y2))
}

/// Whether `(x1, y1)` comes before `(x2, y2)`, or is the same point: it
/// lies in a row above, or in the same row and not to the right.
pub open spec fn comes_first(x1: int, y1: int, x2: int, y2: int) -> bool {
    y1 < y2 || (y1 == y2 && x1 <= x2)
}

/// The pixels of the line between `(x1, y1)` and `(x2, y2)`, both included:
/// those of the walk from the end that comes first to the other.
pub open spec fn line_pixels(x1: int, y1: int, x2: int, y2: int) -> Set<(int, int)> {
    if comes_first(x1, y1, x2, y2) {
        walk_pixels(x1, y1, x2, y2)
    } else {
        walk_pixels(x2, y2, x1, y1)
    }
}

/// What [`Canvas::line_maybe_axis_aligned`] draws: a column or a row
/// between the end points where they share one, and the line otherwise.
pub open spec fn line_or_axis(x1: int, y1: int, x2: int, y2: int) -> Set<(int, int)> {
    if x1 == x2 {
        vseg(x1, y1, y2)
    } else if y1 == y2 {
        hseg(y1, x1, x2)
    } else {
        line_pixels(x1, y1, x2, y2)
    }
}

/// The pixels of the three sides of a triangle.
pub open spec fn triangle_outline(x1: int, y1: int, x2: int, y2: int, x3: int, y3: int) -> Set<
    (int, int),
> {
    line_pixels(x1, y1, x2, y2).union(line_pixels(x1, y1, x3, y3)).union(
        line_pixels(x2, y2, x3, y3),
    )
}

/// The walk only moves forward, by at least one step in x or in y.
pub proof fn lemma_line_walk_grows(d: int, e: int, n: nat)
    requires
        0 <= d,
        0 <= e,
    ensures
        line_walk(d, e, n).0 <= line_walk(d, e, n + 1).0,
        line_walk(d, e, n).1 <= line_walk(d, e, n + 1).1,
        line_walk(d, e, n).0 + line_walk(d, e, n).1 < line_walk(d, e, n + 1).0 + line_walk(
            d,
            e,
            n + 1,
        ).1,
{
    assert(line_walk(d, e, n + 1) == line_next(d, e, line_walk(d, e, n)));
}

/// Once the walk has left the box of the line it stays outside.
pub proof fn lemma_line_walk_over(d: int, e: int, n: nat, m: nat)
    requires
        0 <= d,
        0 <= e,
        line_walk(d, e, n).0 > d || line_walk(d, e, n).1 > e,
        m >= n,
    ensures
        line_walk(d, e, m).0 > d || line_walk(d, e, m).1 > e,
    decreases m,
{
    if m > n {
        lemma_line_walk_over(d, e, n, (m - 1) as nat);
        lemma_line_walk_grows(d, e, (m - 1) as nat);
    }
}

/// Between two points of one column the walk only steps in y.
proof fn lemma_line_walk_vertical(e: int, n: nat)
    requires
        0 < e,
    ensures
        line_walk(0, e, n) == (0int, n as int),
    decreases n,
{
    if n > 0 {
        lemma_line_walk_vertical(e, (n - 1) as nat);
        assert(line_err(0, e, 0, n - 1) == -e) by (nonlinear_arith);
    }
}

/// Between two points of one row the walk only steps in x.
proof fn lemma_line_walk_horizontal(d: int, n: nat)
    requires
        0 < d,
    ensures
        line_walk(d, 0, n) == (n as int, 0int),
    decreases n,
{
    if n > 0 {
        lemma_line_walk_horizontal(d, (n - 1) as nat);
        assert(line_err(d, 0, n - 1, 0) == d) by (nonlinear_arith);
    }
}

/// The walk between a point and itself marks that point alone.
proof fn lemma_line_single(x: int, y: int)
    ensures
        walk_pixels(x, y, x, y) == point(x, y),
{
    let t = line_trace(x, y, x, y);
    assert(line_walk(0, 0, 1) == line_next(0, 0, line_walk(0, 0, 0)));
    assert(line_err(0, 0, 0, 0) == 0) by (nonlinear_arith);
    assert forall|m: nat| m >= 1 implies #[trigger] t(m) == Set::<(int, int)>::empty() by {
        lemma_line_walk_over(0, 0, 1, m);
    }
    lemma_steps_done(t, 1);
    assert(steps_upto(t, 0) =~= Set::<(int, int)>::empty());
    assert(steps_upto(t, 1) =~= steps_upto(t, 0).union(t(0)));
    assert(steps_upto(t, 1) =~= point(x, y));
}

/// The line between two points of one column is the column between them.
pub proof fn lemma_line_vertical(x: int, y1: int, y2: int)
    ensures
        line_pixels(x, y1, x, y2) == vseg(x, y1, y2),
{
    lemma_walk_vertical(x, y1, y2);
    lemma_walk_vertical(x, y2, y1);
    assert(vseg(x, y1, y2) =~= vseg(x, y2, y1));
}

/// The line between two points of one row is the row between them.
pub proof fn lemma_line_horizontal(y: int, x1: int, x2: int)
    ensures
        line_pixels(x1, y, x2, y) == hseg(y, x1, x2),
{
    lemma_walk_horizontal(y, x1, x2);
    lemma_walk_horizontal(y, x2, x1);
    assert(hseg(y, x1, x2) =~= hseg(y, x2, x1));
}

proof fn lemma_walk_vertical(x: int, y1: int, y2: int)
    ensures
        walk_pixels(x, y1, x, y2) == vseg(x, y1, y2),
{
    let e = dist(y1, y2);
    let t = line_trace(x, y1, x, y2);
    if e == 0 {
        lemma_line_single(x, y1);
        assert(point(x, y1) =~= vseg(x, y1, y2));
    } else {
        assert forall|p: (int, int)| steps_all(t).contains(p) <==> vseg(x, y1, y2).contains(p) by {
            if steps_all(t).contains(p) {
                let m = choose|m: nat| (#[trigger] t(m)).contains(p);
                lemma_line_walk_vertical(e, m);
            }
            if vseg(x, y1, y2).contains(p) {
                let m = dist(y1, p.1) as nat;
                lemma_line_walk_vertical(e, m);
                assert(t(m).contains(p));
            }
        }
        assert(steps_all(t) =~= vseg(x, y1, y2));
    }
}

proof fn lemma_walk_horizontal(y: int, x1: int, x2: int)
    ensures
        walk_pixels(x1, y, x2, y) == hseg(y, x1, x2),
{
    let d = dist(x1, x2);
    let t = line_trace(x1, y, x2, y);
    if d == 0 {
        lemma_line_single(x1, y);
        assert(point(x1, y) =~= hseg(y, x1, x2));
    } else {
        assert forall|p: (int, int)| steps_all(t).contains(p) <==> hseg(y, x1, x2).contains(p) by {
            if steps_all(t).contains(p) {
                let m = choose|m: nat| (#[trigger] t(m)).contains(p);
                lemma_line_walk_horizontal(d, m);
            }
            if hseg(y, x1, x2).contains(p) {
                let m = dist(x1, p.0) as nat;
                lemma_line_walk_horizontal(d, m);
                assert(t(m).contains(p));
            }
        }
        assert(steps_all(t) =~= hseg(y, x1, x2));
    }
}

/// The shorter way along an axis draws what the line walk draws.
pub proof fn lemma_line_or_axis(x1: int, y1: int, x2: int, y2: int)
    ensures
        line_or_axis(x1, y1, x2, y2) == line_pixels(x1, y1, x2, y2),
{
    if x1 == x2 {
        lemma_line_vertical(x1, y1, y2);
    } else if y1 == y2 {
        lemma_line_horizontal(y1, x1, x2);
    }
}

/// A line is the same from either end.
pub proof fn lemma_line_symmetric(x1: int, y1: int, x2: int, y2: int)
    ensures
        line_pixels(x1, y1, x2, y2) == line_pixels(x2, y2, x1, y1),
{
}

/// Along the longer axis the walk moves one pixel with every step: after
/// `n` steps, up to the length of that axis, the walk has made `n` steps
/// along it and lies inside the box of the line.
pub proof fn lemma_line_walk_major(d: int, e: int, n: nat)
    requires
        0 <= d,
        0 <= e,
        n <= vstd::math::max(d, e),
    ensures
        0 <= line_walk(d, e, n).0 <= d,
        0 <= line_walk(d, e, n).1 <= e,
        e <= d ==> line_walk(d, e, n).0 == n && 2 * line_err(d, e, n as int, line_walk(d, e, n).1) >= -e,
        d < e ==> line_walk(d, e, n).1 == n && 2 * line_err(d, e, line_walk(d, e, n).0, n as int) <= d,
    decreases n,
{
    if n == 0 {
        assert(line_err(d, e, 0, 0) == d - e) by (nonlinear_arith);
    } else {
        lemma_line_walk_major(d, e, (n - 1) as nat);
        let s = line_walk(d, e, (n - 1) as nat);
        lemma_line_step_inside(d, e, s.0, s.1);
        assert(line_err(d, e, s.0 + 1, s.1) == line_err(d, e, s.0, s.1) - e) by (nonlinear_arith);
        assert(line_err(d, e, s.0, s.1 + 1) == line_err(d, e, s.0, s.1) + d) by (nonlinear_arith);
        assert(line_err(d, e, s.0 + 1, s.1 + 1) == line_err(d, e, s.0, s.1) - e + d)
            by (nonlinear_arith);
    }
}

/// A line is as long as its longer axis: the walk arrives at the end point
/// with the step of that number, having moved one pixel along the longer
/// axis at every step, and marks nothing afterwards. So the line holds one
/// pixel for each column, or each row, of its longer axis.
pub proof fn lemma_line_length(x1: int, y1: int, x2: int, y2: int)
    ensures
        line_walk(dist(x1, x2), dist(y1, y2), vstd::math::max(dist(x1, x2), dist(y1, y2)) as nat) == (
            dist(x1, x2),
            dist(y1, y2),
        ),
        forall|m: nat|
            m > vstd::math::max(dist(x1, x2), dist(y1, y2)) ==> #[trigger] line_trace(x1, y1, x2, y2)(m)
                == Set::<(int, int)>::empty(),
        forall|m: nat|
            m <= vstd::math::max(dist(x1, x2), dist(y1, y2)) ==> #[trigger] line_trace(x1, y1, x2, y2)(m)
                == point(
                toward(x1, x2, line_walk(dist(x1, x2), dist(y1, y2), m).0),
                toward(y1, y2, line_walk(dist(x1, x2), dist(y1, y2), m).1),
            ),
{
    let d = dist(x1, x2);
    let e = dist(y1, y2);
    let len = vstd::math::max(d, e) as nat;
    let t = line_trace(x1, y1, x2, y2);
    lemma_line_walk_major(d, e, len);
    let s = line_walk(d, e, len);
    if e <= d {
        if s.1 < e {
            assert(2 * (d * (1 + s.1) - e * (1 + d)) < -e) by (nonlinear_arith)
                requires
                    0 <= s.1 < e,
                    0 <= d,
            ;
        }
    } else {
        if s.0 < d {
            assert(2 * (d * (1 + e) - e * (1 + s.0)) > d) by (nonlinear_arith)
                requires
                    0 <= s.0 < d,
                    0 <= e,
            ;
        }
    }
    assert(s == (d, e));
    lemma_line_step_from_end(d, e);
    assert(line_walk(d, e, len + 1) == line_next(d, e, line_walk(d, e, len)));
    assert forall|m: nat| m > len implies #[trigger] t(m) == Set::<(int, int)>::empty() by {
        lemma_line_walk_over(d, e, len + 1, m);
    }
    assert forall|m: nat| m <= len implies #[trigger] t(m) == point(
        toward(x1, x2, line_walk(d, e, m).0),
        toward(y1, y2, line_walk(d, e, m).1),
    ) by {
        lemma_line_walk_major(d, e, m);
    }
}

/// Inside the box and short of the end point, the next step stays inside
/// the box.
proof fn lemma_line_step_inside(d: int, e: int, kx: int, ky: int)
    requires
        0 <= kx <= d,
        0 <= ky <= e,
        kx < d || ky < e,
    ensures
        line_next(d, e, (kx, ky)).0 <= d,
        line_next(d, e, (kx, ky)).1 <= e,
{
    let err = line_err(d, e, kx, ky);
    if kx == d {
        assert(2 * (d * (1 + ky) - e * (1 + kx)) < -e) by (nonlinear_arith)
            requires
                kx == d,
                0 <= ky < e,
                0 <= d,
        ;
    }
    if ky == e {
        assert(2 * (d * (1 + ky) - e * (1 + kx)) > d) by (nonlinear_arith)
            requires
                ky == e,
                0 <= kx < d,
                0 <= e,
        ;
    }
}

/// The step from the end point leaves the box.
proof fn lemma_line_step_from_end(d: int, e: int)
    requires
        0 <= d,
        0 <= e,
    ensures
        line_next(d, e, (d, e)).0 > d || line_next(d, e, (d, e)).1 > e,
{
    assert(d * (1 + e) - e * (1 + d) == d - e) by (nonlinear_arith);
}

/// How the error term changes with a step, and how large it can be.
proof fn lemma_line_err(d: int, e: int, kx: int, ky: int)
    requires
        0 <= kx <= d <= 0x1_0000_0000,
        0 <= ky <= e <= 0x1_0000_0000,
    ensures
        line_err(d, e, kx + 1, ky) == line_err(d, e, kx, ky) - e,
        line_err(d, e, kx, ky + 1) == line_err(d, e, kx, ky) + d,
        line_err(d, e, kx + 1, ky + 1) == line_err(d, e, kx, ky) - e + d,
        -0x1_0000_0001_0000_0000 <= line_err(d, e, kx, ky) <= 0x1_0000_0001_0000_0000,
{
    assert(d * (1 + (ky + 1)) == d * (1 + ky) + d) by (nonlinear_arith);
    assert(e * (1 + (kx + 1)) == e * (1 + kx) + e) by (nonlinear_arith);
    assert(0 <= d * (1 + ky) <= 0x1_0000_0000 * 0x1_0000_0001) by (nonlinear_arith)
        requires
            0 <= d <= 0x1_0000_0000,
            0 <= ky <= 0x1_0000_0000,
    ;
    assert(0 <= e * (1 + kx) <= 0x1_0000_0000 * 0x1_0000_0001) by (nonlinear_arith)
        requires
            0 <= e <= 0x1_0000_0000,
            0 <= kx <= 0x1_0000_0000,
    ;
}

impl Canvas {
    /// Draws the line between `(x1, y1)` and `(x2, y2)`, both included, by
    /// the integer error-term walk. The walk starts at the end that comes
    /// first, so that the line is the same from either end. Every point is
    /// tested against the canvas on its own.
    pub fn line<C: ToColor>(&mut self, x1: i32, y1: i32, x2: i32, y2: i32, color: C)
        requires
            old(self).wf(),
        ensures
            final(self).wf(),
            final(self)@ == old(self)@.paint(
                line_pixels(x1 as int, y1 as int, x2 as int, y2 as int),
                color.color_spec().0,
            ),
    {
        let color: Color = color.to_color();
        if y1 < y2 || (y1 == y2 && x1 <= x2) {
            self.walk(x1, y1, x2, y2, color);
        } else {
            self.walk(x2, y2, x1, y1, color);
        }
    }

    /// Marks the points of the walk from `(x1, y1)` to `(x2, y2)`.
    fn walk(&mut self, x1: i32, y1: i32, x2: i32, y2: i32, color: Color)
        requires
            old(self).wf(),
        ensures
            final(self).wf(),
            final(self)@ == old(self)@.paint(
                walk_pixels(x1 as int, y1 as int, x2 as int, y2 as int),
                color.0,
            ),
    {
        let ghost before = self@;
        let d: i64 = if x1 < x2 { x2 as i64 - x1 as i64 } else { x1 as i64 - x2 as i64 };
        let e: i64 = if y1 < y2 { y2 as i64 - y1 as i64 } else { y1 as i64 - y2 as i64 };
        let sx: i64 = if x1 < x2 { 1 } else { -1 };
        let sy: i64 = if y1 < y2 { 1 } else { -1 };
        let mut x: i64 = x1 as i64;
        let mut y: i64 = y1 as i64;
        let mut err: i128 = d as i128 - e as i128;
        let ghost t = line_trace(x1 as int, y1 as int, x2 as int, y2 as int);
        let ghost mut kx: int = 0;
        let ghost mut ky: int = 0;
        let ghost mut n: nat = 0;
        self.dot(x, y, color.0);
        proof {
            assert(line_err(d as int, e as int, 0, 0) == d - e) by (nonlinear_arith);
            assert(t(0) == point(x as int, y as int));
            assert(steps_upto(t, 0) =~= Set::<(int, int)>::empty());
            assert(steps_upto(t, 1) =~= steps_upto(t, 0).union(t(0)));
            assert(steps_upto(t, 1) =~= point(x as int, y as int));
        }
        while !(x == x2 as i64 && y == y2 as i64)
            invariant
                self.wf(),
                d == dist(x1 as int, x2 as int),
                e == dist(y1 as int, y2 as int),
                sx == (if x1 < x2 { 1int } else { -1int }),
                sy == (if y1 < y2 { 1int } else { -1int }),
                0 <= kx <= d,
                0 <= ky <= e,
                x == toward(x1 as int, x2 as int, kx),
                y == toward(y1 as int, y2 as int, ky),
                err == line_err(d as int, e as int, kx, ky),
                line_walk(d as int, e as int, n) == (kx, ky),
                t == line_trace(x1 as int, y1 as int, x2 as int, y2 as int),
                self@ == before.paint(steps_upto(t, n + 1), color.0),
            decreases (d - kx) + (e - ky),
        {
            proof {
                lemma_line_step_inside(d as int, e as int, kx, ky);
                lemma_line_err(d as int, e as int, kx, ky);
                lemma_line_walk_grows(d as int, e as int, n);
            }
            let ghost next = line_next(d as int, e as int, (kx, ky));
            let e2: i128 = 2 * err;
            if e2 >= -(e as i128) {
                err = err - e as i128;
                x = x + sx;
            }
            if e2 <= d as i128 {
                err = err + d as i128;
                y = y + sy;
            }
            proof {
                kx = next.0;
                ky = next.1;
                n = n + 1;
            }
            let ghost done = steps_upto(t, n);
            self.dot(x, y, color.0);
            proof {
                lemma_paint_union(before, done, point(x as int, y as int), color.0);
                assert(t(n) == point(x as int, y as int));
                assert(steps_upto(t, n + 1) =~= done.union(t(n)));
            }
        }
        proof {
            lemma_line_step_from_end(d as int, e as int);
            assert(line_walk(d as int, e as int, n + 1) == line_next(
                d as int,
                e as int,
                line_walk(d as int, e as int, n),
            ));
            assert forall|m: nat| m >= n + 1 implies #[trigger] t(m) == Set::<(int, int)>::empty() by {
                lemma_line_walk_over(d as int, e as int, n + 1, m);
            }
            lemma_steps_done(t, n + 1);
        }
    }

    /// Draws the line from `(x1, y1)` to `(x2, y2)`, taking the shorter way
    /// of a single column or row where the end points share one.
    pub fn line_maybe_axis_aligned<C: ToColor>(&mut self, x1: i32, y1: i32, x2: i32, y2: i32, color: C)
        requires
            old(self).wf(),
        ensures
            final(self).wf(),
            final(self)@ == old(self)@.paint(
                line_pixels(x1 as int, y1 as int, x2 as int, y2 as int),
                color.color_spec().0,
            ),
            final(self)@ == old(self)@.paint(
                line_or_axis(x1 as int, y1 as int, x2 as int, y2 as int),
                color.color_spec().0,
            ),
    {
        let color: Color = color.to_color();
        proof {
            lemma_line_or_axis(x1 as int, y1 as int, x2 as int, y2 as int);
        }
        if x1 == x2 {
            self.vline(x1, y1, y2, color);
        } else if y1 == y2 {
            self.hline(y1, x1, x2, color);
        } else {
            self.line(x1, y1, x2, y2, color);
        }
    }

    /// Draws the three sides of the triangle with the given corners.
    pub fn outline_triangle<C: ToColor>(
        &mut self,
        x1: i32,
        y1: i32,
        x2: i32,
        y2: i32,
        x3: i32,
        y3: i32,
        color: C,
    )
        requires
            old(self).wf(),
        ensures
            final(self).wf(),
            final(self)@ == old(self)@.paint(
                triangle_outline(x1 as int, y1 as int, x2 as int, y2 as int, x3 as int, y3 as int),
                color.color_spec().0,
            ),
    {
        let color: Color = color.to_color();
        let ghost before = self@;
        let ghost a = line_pixels(x1 as int, y1 as int, x2 as int, y2 as int);
        let ghost b = line_pixels(x1 as int, y1 as int, x3 as int, y3 as int);
        let ghost c = line_pixels(x2 as int, y2 as int, x3 as int, y3 as int);
        self.line(x1, y1, x2, y2, color);
        self.line(x1, y1, x3, y3, color);
        self.line(x2, y2, x3, y3, color);
        proof {
            lemma_paint_union(before, a, b, color.0);
            lemma_paint_union(before, a.union(b), c, color.0);
        }
    }
}

} // verus!
