use vstd::prelude::*;
use crate::canvas::Canvas;
use crate::color::{Color, ToColor};
use crate::trace::{Trace, steps_all, steps_upto, lemma_steps_done, lemma_steps_subset};
use crate::view::{block, hspan, point, lemma_paint_empty, lemma_paint_union};
use crate::rect::{hseg, vseg};

verus! {

/// The error term of the midpoint circle walk of radius `r` at `(i, j)`.
pub open spec fn circle_err(r: int, i: int, j: int) -> int {
    (i + 1) * (i + 1) + (j + 1) * (j + 1) - r * r
}

/// One step of the midpoint circle walk: `j` advances when the error term
/// is at most `j`; `i` advances when the error term was above `i`, or is
/// above `j` after `j` has moved.
pub open spec fn circle_next(r: int, s: (int, int)) -> (int, int) {
    let e = circle_err(r, s.0, s.1);
    let j = if e <= s.1 { s.1 + 1 } else { s.1 };
    let i = if e > s.0 || circle_err(r, s.0, j) > j { s.0 + 1 } else { s.0 };
    (i, j)
}

/// The position `(i, j)` of the midpoint circle walk of radius `r` after `n`
/// steps; it starts at `(-r, 0)` and is over once `i` has reached 0.
pub open spec fn circle_walk(r: int, n: nat) -> (int, int)
    decreases n,
{
    if n == 0 {
        (-r, 0)
    } else {
        circle_next(r, circle_walk(r, (n - 1) as nat))
    }
}

/// The two rows that step `m` of the walk fills: `cy - j` and `cy + j`, from
/// column `cx + i` to column `cx - i`.
pub open spec fn circle_fill_trace(cx: int, cy: int, r: int) -> Trace {
    |m: nat|
        {
            let s = circle_walk(r, m);
            if s.0 < 0 {
                hspan(cy - s.1, cx + s.0, cx - s.0).union(hspan(cy + s.1, cx + s.0, cx - s.0))
            } else {
                Set::empty()
            }
        }
}

/// The four points that step `m` of the walk marks: `(cx +- i, cy +- j)`.
pub open spec fn circle_outline_trace(cx: int, cy: int, r: int) -> Trace {
    |m: nat|
        {
            let s = circle_walk(r, m);
            if s.0 < 0 {
                point(cx - s.0, cy - s.1).union(point(cx - s.0, cy + s.1)).union(
                    point(cx + s.0, cy - s.1),
                ).union(point(cx + s.0, cy + s.1))
            } else {
                Set::empty()
            }
        }
}

/// The pixels of the filled circle with center `(cx, cy)` and radius `r`;
/// empty when `r < 1`.
pub open spec fn circle_fill(cx: int, cy: int, r: int) -> Set<(int, int)> {
    if r < 1 {
        Set::empty()
    } else {
        steps_all(circle_fill_trace(cx, cy, r))
    }
}

/// The pixels of the circle line with center `(cx, cy)` and radius `r`;
/// empty when `r < 1`.
pub open spec fn circle_outline(cx: int, cy: int, r: int) -> Set<(int, int)> {
    if r < 1 {
        Set::empty()
    } else {
        steps_all(circle_outline_trace(cx, cy, r))
    }
}

/// The state of the two midpoint walks that draw a ring: the outer and the
/// inner boundary `xo` and `xi` at the offset `j` from the center, with the
/// error term of each.
pub struct RingState {
    pub xo: int,
    pub xi: int,
    pub j: int,
    pub erro: int,
    pub erri: int,
}

/// The outer radius of the ring of radius `r` and thickness `t`.
pub open spec fn ring_outer(r: int, t: int) -> int {
    r + t / 2
}

/// The inner radius of the ring of radius `r` and thickness `t`.
pub open spec fn ring_inner(r: int, t: int) -> int {
    ring_outer(r, t) - t + 1
}

/// One step of the ring walk: `j` advances by one, and each boundary either
/// stays or moves in by one as its error term says; beyond the inner radius
/// the inner boundary follows the diagonal.
pub open spec fn ring_next(ri: int, s: RingState) -> RingState {
    let j = s.j + 1;
    let xo = if s.erro < 0 { s.xo } else { s.xo - 1 };
    let erro = if s.erro < 0 { s.erro + 2 * j + 1 } else { s.erro + 2 * (j - xo) + 1 };
    let xi = if j > ri { j } else if s.erri < 0 { s.xi } else { s.xi - 1 };
    let erri = if j > ri {
        s.erri
    } else if s.erri < 0 {
        s.erri + 2 * j + 1
    } else {
        s.erri + 2 * (j - xi) + 1
    };
    RingState { xo, xi, j, erro, erri }
}

/// The state of the ring walk after `n` steps.
pub open spec fn ring_walk(r: int, t: int, n: nat) -> RingState
    decreases n,
{
    if n == 0 {
        RingState {
            xo: ring_outer(r, t),
            xi: ring_inner(r, t),
            j: 0,
            erro: 1 - ring_outer(r, t),
            erri: 1 - ring_inner(r, t),
        }
    } else {
        ring_next(ring_inner(r, t), ring_walk(r, t, (n - 1) as nat))
    }
}

/// The eight strokes of one step of the ring walk: in each octant the
/// stretch between the inner and the outer boundary at offset `j`.
pub open spec fn ring_strokes(cx: int, cy: int, s: RingState) -> Set<(int, int)> {
    hseg(cy + s.j, cx + s.xi, cx + s.xo).union(vseg(cx + s.j, cy + s.xi, cy + s.xo)).union(
        hseg(cy + s.j, cx - s.xo, cx - s.xi),
    ).union(vseg(cx - s.j, cy + s.xi, cy + s.xo)).union(
        hseg(cy - s.j, cx - s.xo, cx - s.xi),
    ).union(vseg(cx - s.j, cy - s.xo, cy - s.xi)).union(
        hseg(cy - s.j, cx + s.xi, cx + s.xo),
    ).union(vseg(cx + s.j, cy - s.xo, cy - s.xi))
}

/// What step `m` of the ring walk draws; nothing once `j` has passed the
/// outer boundary.
pub open spec fn ring_trace(cx: int, cy: int, r: int, t: int) -> Trace {
    |m: nat|
        {
            let s = ring_walk(r, t, m);
            if s.xo >= s.j {
                ring_strokes(cx, cy, s)
            } else {
                Set::empty()
            }
        }
}

/// The pixels of the circle line of thickness `t` with center `(cx, cy)` and
/// radius `r`, which is the middle of the stroke: the thin circle line for
/// `t == 1`, empty when `t <= 0` or (for `t >= 2`) `r < 1`.
pub open spec fn circle_thick_outline(cx: int, cy: int, r: int, t: int) -> Set<(int, int)> {
    if t == 1 {
        circle_outline(cx, cy, r)
    } else if t <= 0 || r < 1 {
        Set::empty()
    } else {
        steps_all(ring_trace(cx, cy, r, t))
    }
}

/// Once `j` has passed the outer boundary it stays beyond it.
pub proof fn lemma_ring_walk_over(r: int, t: int, n: nat, m: nat)
    requires
        ring_walk(r, t, n).xo < ring_walk(r, t, n).j,
        m >= n,
    ensures
        ring_walk(r, t, m).xo < ring_walk(r, t, m).j,
    decreases m,
{
    if m > n {
        lemma_ring_walk_over(r, t, n, (m - 1) as nat);
    }
}

/// The circle line lies inside the filled circle of the same center and
/// radius.
pub proof fn lemma_circle_outline_in_fill(cx: int, cy: int, r: int)
    ensures
        circle_outline(cx, cy, r).subset_of(circle_fill(cx, cy, r)),
{
    if r >= 1 {
        let a = circle_outline_trace(cx, cy, r);
        let b = circle_fill_trace(cx, cy, r);
        assert forall|m: nat| (#[trigger] a(m)).subset_of(b(m)) by {
            let s = circle_walk(r, m);
            let am = a(m);
            let bm = b(m);
            assert forall|p: (int, int)| #[trigger] am.contains(p) implies bm.contains(p) by {}
        }
        lemma_steps_subset(a, b);
    }
}

/// The walk never moves `i` back: once it is over, it stays over.
pub proof fn lemma_circle_walk_over(r: int, n: nat, m: nat)
    requires
        circle_walk(r, n).0 >= 0,
        m >= n,
    ensures
        circle_walk(r, m).0 >= 0,
    decreases m,
{
    if m > n {
        lemma_circle_walk_over(r, n, (m - 1) as nat);
    }
}

/// Bounds of the error term while the walk is inside its quadrant.
proof fn lemma_circle_err_bound(r: int, i: int, j: int)
    requires
        1 <= r <= i32::MAX,
        -r <= i <= 0,
        0 <= j <= r,
    ensures
        -4611686014132420609 <= circle_err(r, i, j) <= 9223372032559808513,
{
    assert(0 <= (i + 1) * (i + 1) <= r * r) by (nonlinear_arith)
        requires
            -r <= i <= 0,
            1 <= r,
    ;
    assert(0 <= (j + 1) * (j + 1) <= (r + 1) * (r + 1)) by (nonlinear_arith)
        requires
            0 <= j <= r,
    ;
    assert(r * r <= 4611686014132420609) by (nonlinear_arith)
        requires
            1 <= r <= 2147483647,
    ;
    assert((r + 1) * (r + 1) <= 4611686018427387904) by (nonlinear_arith)
        requires
            1 <= r <= 2147483647,
    ;
}

/// While the error term is at most `j`, `j` is still below the radius.
proof fn lemma_circle_j_below(r: int, i: int, j: int)
    requires
        1 <= r,
        0 <= j,
        circle_err(r, i, j) <= j,
    ensures
        j < r,
{
    assert(j < r) by (nonlinear_arith)
        requires
            1 <= r,
            0 <= j,
            (i + 1) * (i + 1) + (j + 1) * (j + 1) - r * r <= j,
    ;
}

/// How the error term changes with a step of `j` or of `i`.
proof fn lemma_circle_err_step(r: int, i: int, j: int)
    ensures
        circle_err(r, i, j + 1) == circle_err(r, i, j) + 2 * (j + 1) + 1,
        circle_err(r, i + 1, j) == circle_err(r, i, j) + 2 * (i + 1) + 1,
{
    assert((j + 2) * (j + 2) == (j + 1) * (j + 1) + 2 * (j + 1) + 1) by (nonlinear_arith);
    assert((i + 2) * (i + 2) == (i + 1) * (i + 1) + 2 * (i + 1) + 1) by (nonlinear_arith);
}

/// The walk stays in its quadrant: `i` does not go below `-r`, and `j` stays
/// between 0 and `r`.
pub proof fn lemma_circle_walk_range(r: int, n: nat)
    requires
        1 <= r,
    ensures
        -r <= circle_walk(r, n).0,
        0 <= circle_walk(r, n).1 <= r,
    decreases n,
{
    if n > 0 {
        lemma_circle_walk_range(r, (n - 1) as nat);
        let s = circle_walk(r, (n - 1) as nat);
        if circle_err(r, s.0, s.1) <= s.1 {
            lemma_circle_j_below(r, s.0, s.1);
        }
    }
}

/// The filled circle lies in the square of side `2 r + 1` around its center.
pub proof fn lemma_circle_fill_box(cx: int, cy: int, r: int)
    ensures
        circle_fill(cx, cy, r).subset_of(block(cx - r, cx + r, cy - r, cy + r)),
{
    if r >= 1 {
        let t = circle_fill_trace(cx, cy, r);
        assert forall|p: (int, int)| circle_fill(cx, cy, r).contains(p) implies block(
            cx - r,
            cx + r,
            cy - r,
            cy + r,
        ).contains(p) by {
            let m = choose|m: nat| (#[trigger] t(m)).contains(p);
            lemma_circle_walk_range(r, m);
        }
    }
}

/// What the ring walk keeps: `j` counts the steps, the outer boundary does
/// not grow, and the inner boundary stays between 0 and the inner radius
/// until `j` passes that radius, from where on it is `j`.
pub proof fn lemma_ring_walk_range(r: int, t: int, n: nat)
    ensures
        ring_walk(r, t, n).j == n,
        ring_walk(r, t, n).xo <= ring_outer(r, t),
        n == 0 ==> ring_walk(r, t, n).xi == ring_inner(r, t),
        0 < n <= ring_inner(r, t) ==> ring_inner(r, t) - n <= ring_walk(r, t, n).xi <= ring_inner(r, t),
        n > 0 && n > ring_inner(r, t) ==> ring_walk(r, t, n).xi == n,
    decreases n,
{
    if n > 0 {
        lemma_ring_walk_range(r, t, (n - 1) as nat);
    }
}

/// The circle line of thickness `t` lies in the square around its center
/// that reaches as far as the outer radius.
pub proof fn lemma_circle_thick_outline_box(cx: int, cy: int, r: int, t: int)
    ensures
        circle_thick_outline(cx, cy, r, t).subset_of(
            block(
                cx - ring_outer(r, t),
                cx + ring_outer(r, t),
                cy - ring_outer(r, t),
                cy + ring_outer(r, t),
            ),
        ),
{
    let ro = ring_outer(r, t);
    let ri = ring_inner(r, t);
    let frame = block(cx - ro, cx + ro, cy - ro, cy + ro);
    if t == 1 {
        lemma_circle_outline_in_fill(cx, cy, r);
        lemma_circle_fill_box(cx, cy, r);
        assert(ro == r);
    } else if t >= 2 && r >= 1 {
        let tr = ring_trace(cx, cy, r, t);
        assert(-ro <= ri <= ro);
        assert forall|p: (int, int)| circle_thick_outline(cx, cy, r, t).contains(p) implies frame.contains(
            p,
        ) by {
            let m = choose|m: nat| (#[trigger] tr(m)).contains(p);
            lemma_ring_walk_range(r, t, m);
            let s = ring_walk(r, t, m);
            assert(s.xo >= s.j);
            assert(0 <= s.j <= ro);
            assert(-ro <= s.xi <= ro);
            assert(0 <= s.xo <= ro);
        }
    }
}

/// The state of the circle walk as the drawing loops hold it.
pub(crate) struct CircleStep {
    pub i: i64,
    pub j: i64,
    pub err: i64,
}

impl CircleStep {
    pub(crate) open spec fn inv(&self, r: int, n: nat) -> bool {
        &&& 1 <= r <= i32::MAX
        &&& -r <= self.i <= 0
        &&& 0 <= self.j <= r
        &&& (self.i as int, self.j as int) == circle_walk(r, n)
        &&& self.err == circle_err(r, self.i as int, self.j as int)
    }

    /// The start of the walk.
    pub(crate) fn start(r: i32) -> (s: CircleStep)
        requires
            1 <= r,
        ensures
            s.inv(r as int, 0),
    {
        proof {
            assert(circle_err(r as int, -(r as int), 0) == 2 - 2 * r) by (nonlinear_arith);
        }
        CircleStep { i: -(r as i64), j: 0, err: 2 - 2 * (r as i64) }
    }

    /// One step of the walk, from a state in which `i < 0`.
    pub(crate) fn advance(&mut self, r: i32, Ghost(n): Ghost<nat>)
        requires
            old(self).inv(r as int, n),
            old(self).i < 0,
        ensures
            final(self).inv(r as int, n + 1),
            r - final(self).j - final(self).i < r - old(self).j - old(self).i,
    {
        let ghost rr = r as int;
        proof {
            lemma_circle_err_step(rr, self.i as int, self.j as int);
            lemma_circle_err_bound(rr, self.i as int, self.j as int);
        }
        let e: i64 = self.err;
        if e <= self.j {
            proof {
                lemma_circle_j_below(rr, self.i as int, self.j as int);
                lemma_circle_err_bound(rr, self.i as int, self.j + 1);
            }
            self.j = self.j + 1;
            self.err = self.err + (2 * self.j + 1);
        }
        if e > self.i || self.err > self.j {
            proof {
                lemma_circle_err_step(rr, self.i as int, self.j as int);
                lemma_circle_err_bound(rr, self.i + 1, self.j as int);
            }
            self.i = self.i + 1;
            self.err = self.err + (2 * self.i + 1);
        }
        proof {
            assert(circle_walk(rr, n + 1) == circle_next(rr, circle_walk(rr, n)));
        }
    }
}

impl Canvas {
    /// Fills the circle with center `(x, y)` and radius `r` by the midpoint
    /// walk, two rows to a step. Nothing is drawn when `r < 1`.
    pub fn fill_circle<C: ToColor>(&mut self, x: i32, y: i32, r: i32, color: C)
        requires
            old(self).wf(),
        ensures
            final(self).wf(),
            final(self)@ == old(self)@.paint(circle_fill(x as int, y as int, r as int), color.color_spec().0),
            r < 1 ==> final(self)@ == old(self)@,
    {
        let color: Color = color.to_color();
        let ghost before = self@;
        if r < 1 {
            proof {
                lemma_paint_empty(before, color.0);
            }
            return ;
        }
        let cx: i64 = x as i64;
        let cy: i64 = y as i64;
        let mut s = CircleStep::start(r);
        let ghost t = circle_fill_trace(cx as int, cy as int, r as int);
        let ghost mut n: nat = 0;
        proof {
            lemma_paint_empty(before, color.0);
        }
        while s.i < 0
            invariant
                self.wf(),
                i32::MIN <= cx <= i32::MAX,
                i32::MIN <= cy <= i32::MAX,
                s.inv(r as int, n),
                t == circle_fill_trace(cx as int, cy as int, r as int),
                self@ == before.paint(steps_upto(t, n), color.0),
            decreases r - s.j - s.i,
        {
            let i: i64 = s.i;
            let j: i64 = s.j;
            let ghost done = steps_upto(t, n);
            let ghost upper = hspan(cy - j, cx + i, cx - i);
            let ghost lower = hspan(cy + j, cx + i, cx - i);
            self.span(cy - j, cx + i, cx - i, color.0);
            self.span(cy + j, cx + i, cx - i, color.0);
            proof {
                lemma_paint_union(before, done, upper, color.0);
                lemma_paint_union(before, done.union(upper), lower, color.0);
                assert(t(n) == upper.union(lower));
                assert(steps_upto(t, n + 1) =~= done.union(upper).union(lower));
            }
            s.advance(r, Ghost(n));
            proof {
                n = n + 1;
            }
        }
        proof {
            assert forall|m: nat| m >= n implies #[trigger] t(m) == Set::<(int, int)>::empty() by {
                lemma_circle_walk_over(r as int, n, m);
            }
            lemma_steps_done(t, n);
        }
    }

    /// Draws the circle line with center `(x, y)` and radius `r` by the
    /// midpoint walk, four points to a step. Nothing is drawn when `r < 1`.
    pub fn outline_circle<C: ToColor>(&mut self, x: i32, y: i32, r: i32, color: C)
        requires
            old(self).wf(),
        ensures
            final(self).wf(),
            final(self)@ == old(self)@.paint(
                circle_outline(x as int, y as int, r as int),
                color.color_spec().0,
            ),
            r < 1 ==> final(self)@ == old(self)@,
    {
        let color: Color = color.to_color();
        let ghost before = self@;
        if r < 1 {
            proof {
                lemma_paint_empty(before, color.0);
            }
            return ;
        }
        let cx: i64 = x as i64;
        let cy: i64 = y as i64;
        let mut s = CircleStep::start(r);
        let ghost t = circle_outline_trace(cx as int, cy as int, r as int);
        let ghost mut n: nat = 0;
        proof {
            lemma_paint_empty(before, color.0);
        }
        while s.i < 0
            invariant
                self.wf(),
                i32::MIN <= cx <= i32::MAX,
                i32::MIN <= cy <= i32::MAX,
                s.inv(r as int, n),
                t == circle_outline_trace(cx as int, cy as int, r as int),
                self@ == before.paint(steps_upto(t, n), color.0),
            decreases r - s.j - s.i,
        {
            let i: i64 = s.i;
            let j: i64 = s.j;
            let ghost done = steps_upto(t, n);
            let ghost p1 = point(cx - i, cy - j);
            let ghost p2 = point(cx - i, cy + j);
            let ghost p3 = point(cx + i, cy - j);
            let ghost p4 = point(cx + i, cy + j);
            self.dot(cx - i, cy - j, color.0);
            self.dot(cx - i, cy + j, color.0);
            self.dot(cx + i, cy - j, color.0);
            self.dot(cx + i, cy + j, color.0);
            proof {
                lemma_paint_union(before, done, p1, color.0);
                lemma_paint_union(before, done.union(p1), p2, color.0);
                lemma_paint_union(before, done.union(p1).union(p2), p3, color.0);
                lemma_paint_union(before, done.union(p1).union(p2).union(p3), p4, color.0);
                assert(t(n) == p1.union(p2).union(p3).union(p4));
                assert(steps_upto(t, n + 1) =~= done.union(p1).union(p2).union(p3).union(p4));
            }
            s.advance(r, Ghost(n));
            proof {
                n = n + 1;
            }
        }
        proof {
            assert forall|m: nat| m >= n implies #[trigger] t(m) == Set::<(int, int)>::empty() by {
                lemma_circle_walk_over(r as int, n, m);
            }
            lemma_steps_done(t, n);
        }
    }

    /// Draws the circle line of thickness `thickness` with center `(x, y)`;
    /// the radius `r` is the middle of the stroke. With thickness 1 the
    /// result is that of [`Canvas::outline_circle`]; nothing is drawn when
    /// `thickness <= 0` or `r < 1`.
    pub fn thick_outline_circle<C: ToColor>(&mut self, x: i32, y: i32, r: i32, thickness: i32, color: C)
        requires
            old(self).wf(),
        ensures
            final(self).wf(),
            final(self)@ == old(self)@.paint(
                circle_thick_outline(x as int, y as int, r as int, thickness as int),
                color.color_spec().0,
            ),
            thickness == 1 ==> final(self)@ == old(self)@.paint(
                circle_outline(x as int, y as int, r as int),
                color.color_spec().0,
            ),
            thickness <= 0 || r < 1 ==> final(self)@ == old(self)@,
    {
        let color: Color = color.to_color();
        let ghost before = self@;
        if thickness == 1 {
            self.outline_circle(x, y, r, color);
            return ;
        } else if thickness <= 0 || r < 1 {
            proof {
                lemma_paint_empty(before, color.0);
            }
            return ;
        }
        let cx: i64 = x as i64;
        let cy: i64 = y as i64;
        let ro: i64 = r as i64 + (thickness / 2) as i64;
        let ri: i64 = ro - thickness as i64 + 1;
        let mut xo: i64 = ro;
        let mut xi: i64 = ri;
        let mut j: i64 = 0;
        let mut erro: i128 = 1 - ro as i128;
        let mut erri: i128 = 1 - ri as i128;
        let ghost t = ring_trace(cx as int, cy as int, r as int, thickness as int);
        let ghost mut n: nat = 0;
        proof {
            lemma_paint_empty(before, color.0);
        }
        while xo >= j
            invariant
                self.wf(),
                i32::MIN <= cx <= i32::MAX,
                i32::MIN <= cy <= i32::MAX,
                1 <= r,
                2 <= thickness,
                ro == ring_outer(r as int, thickness as int),
                ri == ring_inner(r as int, thickness as int),
                0 <= j,
                j - 2 <= xo <= ro,
                ri - j <= xi,
                xi <= ri || xi <= j,
                -0x10_0000_0000 - j * 0x10_0000_0000 <= erro <= 0x10_0000_0000 + j * 0x10_0000_0000,
                -0x10_0000_0000 - j * 0x10_0000_0000 <= erri <= 0x10_0000_0000 + j * 0x10_0000_0000,
                ring_walk(r as int, thickness as int, n) == (RingState {
                    xo: xo as int,
                    xi: xi as int,
                    j: j as int,
                    erro: erro as int,
                    erri: erri as int,
                }),
                t == ring_trace(cx as int, cy as int, r as int, thickness as int),
                self@ == before.paint(steps_upto(t, n), color.0),
            decreases xo - j + 2,
        {
            let ghost done = steps_upto(t, n);
            let ghost s = ring_walk(r as int, thickness as int, n);
            let ghost s1 = hseg(cy + j, cx + xi, cx + xo);
            let ghost s2 = vseg(cx + j, cy + xi, cy + xo);
            let ghost s3 = hseg(cy + j, cx - xo, cx - xi);
            let ghost s4 = vseg(cx - j, cy + xi, cy + xo);
            let ghost s5 = hseg(cy - j, cx - xo, cx - xi);
            let ghost s6 = vseg(cx - j, cy - xo, cy - xi);
            let ghost s7 = hseg(cy - j, cx + xi, cx + xo);
            let ghost s8 = vseg(cx + j, cy - xo, cy - xi);
            self.hstroke(cy + j, cx + xi, cx + xo, color.0);
            self.vstroke(cx + j, cy + xi, cy + xo, color.0);
            self.hstroke(cy + j, cx - xo, cx - xi, color.0);
            self.vstroke(cx - j, cy + xi, cy + xo, color.0);
            self.hstroke(cy - j, cx - xo, cx - xi, color.0);
            self.vstroke(cx - j, cy - xo, cy - xi, color.0);
            self.hstroke(cy - j, cx + xi, cx + xo, color.0);
            self.vstroke(cx + j, cy - xo, cy - xi, color.0);
            proof {
                let u1 = done.union(s1);
                let u2 = u1.union(s2);
                let u3 = u2.union(s3);
                let u4 = u3.union(s4);
                let u5 = u4.union(s5);
                let u6 = u5.union(s6);
                let u7 = u6.union(s7);
                lemma_paint_union(before, done, s1, color.0);
                lemma_paint_union(before, u1, s2, color.0);
                lemma_paint_union(before, u2, s3, color.0);
                lemma_paint_union(before, u3, s4, color.0);
                lemma_paint_union(before, u4, s5, color.0);
                lemma_paint_union(before, u5, s6, color.0);
                lemma_paint_union(before, u6, s7, color.0);
                lemma_paint_union(before, u7, s8, color.0);
                assert(t(n) == ring_strokes(cx as int, cy as int, s));
                assert(steps_upto(t, n + 1) =~= u7.union(s8));
            }
            j = j + 1;
            if erro < 0 {
                erro = erro + (2 * j as i128 + 1);
            } else {
                xo = xo - 1;
                erro = erro + (2 * (j as i128 - xo as i128) + 1);
            }
            if j > ri {
                xi = j;
            } else if erri < 0 {
                erri = erri + (2 * j as i128 + 1);
            } else {
                xi = xi - 1;
                erri = erri + (2 * (j as i128 - xi as i128) + 1);
            }
            proof {
                n = n + 1;
            }
        }
        proof {
            assert forall|m: nat| m >= n implies #[trigger] t(m) == Set::<(int, int)>::empty() by {
                lemma_ring_walk_over(r as int, thickness as int, n, m);
            }
            lemma_steps_done(t, n);
        }
    }
}

} // verus!
