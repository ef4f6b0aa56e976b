use vstd::prelude::*;
use crate::canvas::Canvas;
use crate::color::{Color, ToColor};
use crate::trace::{Trace, steps_all, steps_upto, lemma_steps_settled, lemma_steps_subset};
use crate::view::{block, hspan, vspan, point, lemma_paint_empty, lemma_paint_union};

verus! {

/// The square of `x`.
pub open spec fn sq(x: int) -> int {
    x * x
}

/// The error term of the midpoint ellipse walk with semi-axes `a` and `b`
/// at `(i, j)`.
pub open spec fn ellipse_err(a: int, b: int, i: int, j: int) -> int {
    sq(b) * sq(i + 1) + sq(a) * sq(j + 1) - sq(a) * sq(b)
}

/// One step of the midpoint ellipse walk. Both tests look at the error term
/// before the step: `i` advances when twice the error term is at least
/// `(2 i + 1) b^2`, `j` advances when it is at most `(2 j + 1) a^2`. Once `i`
/// is positive the walk is over and stays where it is.
pub open spec fn ellipse_next(a: int, b: int, s: (int, int)) -> (int, int) {
    let e2 = 2 * ellipse_err(a, b, s.0, s.1);
    if s.0 > 0 {
        s
    } else {
        (
            if e2 >= (2 * s.0 + 1) * sq(b) {
                s.0 + 1
            } else {
                s.0
            },
            if e2 <= (2 * s.1 + 1) * sq(a) {
                s.1 + 1
            } else {
                s.1
            },
        )
    }
}

/// The position `(i, j)` of the midpoint ellipse walk after `n` steps; it
/// starts at `(-a, 0)`.
pub open spec fn ellipse_walk(a: int, b: int, n: nat) -> (int, int)
    decreases n,
{
    if n == 0 {
        (-a, 0)
    } else {
        ellipse_next(a, b, ellipse_walk(a, b, (n - 1) as nat))
    }
}

/// The tip that is left where the walk ends before `j` has reached `b`: the
/// pixels of column `cx` more than `j` and at most `b` rows from the center.
pub open spec fn ellipse_tip(cx: int, cy: int, b: int, j: int) -> Set<(int, int)> {
    vspan(cx, cy + j + 1, cy + b).union(vspan(cx, cy - b, cy - j - 1))
}

/// What step `m` fills: while the walk lasts, the rows `cy - j` and `cy + j`
/// from column `cx + i` to column `cx - i`; after it, the tip.
pub open spec fn ellipse_fill_trace(cx: int, cy: int, a: int, b: int) -> Trace {
    |m: nat|
        {
            let s = ellipse_walk(a, b, m);
            if s.0 <= 0 {
                hspan(cy - s.1, cx + s.0, cx - s.0).union(hspan(cy + s.1, cx + s.0, cx - s.0))
            } else {
                ellipse_tip(cx, cy, b, s.1)
            }
        }
}

/// What step `m` marks: while the walk lasts, the four points
/// `(cx +- i, cy +- j)`; after it, the tip.
pub open spec fn ellipse_outline_trace(cx: int, cy: int, a: int, b: int) -> Trace {
    |m: nat|
        {
            let s = ellipse_walk(a, b, m);
            if s.0 <= 0 {
                point(cx - s.0, cy - s.1).union(point(cx - s.0, cy + s.1)).union(
                    point(cx + s.0, cy - s.1),
                ).union(point(cx + s.0, cy + s.1))
            } else {
                ellipse_tip(cx, cy, b, s.1)
            }
        }
}

/// The pixels of the filled ellipse with center `(cx, cy)` and semi-axes `a`
/// and `b`; empty when `a < 1` or `b < 1`.
pub open spec fn ellipse_fill(cx: int, cy: int, a: int, b: int) -> Set<(int, int)> {
    if a < 1 || b < 1 {
        Set::empty()
    } else {
        steps_all(ellipse_fill_trace(cx, cy, a, b))
    }
}

/// The pixels of the ellipse line with center `(cx, cy)` and semi-axes `a`
/// and `b`; empty when `a < 1` or `b < 1`.
pub open spec fn ellipse_outline(cx: int, cy: int, a: int, b: int) -> Set<(int, int)> {
    if a < 1 || b < 1 {
        Set::empty()
    } else {
        steps_all(ellipse_outline_trace(cx, cy, a, b))
    }
}

/// The ellipse line lies inside the filled ellipse of the same center and
/// semi-axes.
pub proof fn lemma_ellipse_outline_in_fill(cx: int, cy: int, a: int, b: int)
    ensures
        ellipse_outline(cx, cy, a, b).subset_of(ellipse_fill(cx, cy, a, b)),
{
    if a >= 1 && b >= 1 {
        let o = ellipse_outline_trace(cx, cy, a, b);
        let f = ellipse_fill_trace(cx, cy, a, b);
        assert forall|m: nat| (#[trigger] o(m)).subset_of(f(m)) by {
            let om = o(m);
            let fm = f(m);
            assert forall|p: (int, int)| #[trigger] om.contains(p) implies fm.contains(p) by {}
        }
        lemma_steps_subset(o, f);
    }
}

/// Once the walk is over it stays where it is.
pub proof fn lemma_ellipse_walk_over(a: int, b: int, n: nat, m: nat)
    requires
        ellipse_walk(a, b, n).0 > 0,
        m >= n,
    ensures
        ellipse_walk(a, b, m) == ellipse_walk(a, b, n),
    decreases m,
{
    if m > n {
        lemma_ellipse_walk_over(a, b, n, (m - 1) as nat);
    }
}

/// How the error term changes with a step of `i` or of `j`.
proof fn lemma_ellipse_err_step(a: int, b: int, i: int, j: int)
    ensures
        ellipse_err(a, b, i + 1, j) == ellipse_err(a, b, i, j) + (2 * (i + 1) + 1) * sq(b),
        ellipse_err(a, b, i, j + 1) == ellipse_err(a, b, i, j) + (2 * (j + 1) + 1) * sq(a),
{
    let a2 = sq(a);
    let b2 = sq(b);
    assert(b2 * ((i + 2) * (i + 2)) == b2 * ((i + 1) * (i + 1)) + (2 * (i + 1) + 1) * b2)
        by (nonlinear_arith);
    assert(a2 * ((j + 2) * (j + 2)) == a2 * ((j + 1) * (j + 1)) + (2 * (j + 1) + 1) * a2)
        by (nonlinear_arith);
}

/// While `j` may still advance, it is below `b`.
proof fn lemma_ellipse_j_below(a: int, b: int, i: int, j: int)
    requires
        1 <= a,
        1 <= b,
        0 <= j,
        2 * ellipse_err(a, b, i, j) <= (2 * j + 1) * sq(a),
    ensures
        j < b,
{
    let a2 = sq(a);
    let b2 = sq(b);
    let i2 = sq(i + 1);
    let j2 = sq(j + 1);
    assert(a2 >= 1) by (nonlinear_arith)
        requires
            a2 == a * a,
            1 <= a,
    ;
    assert(b2 * i2 >= 0) by (nonlinear_arith)
        requires
            b2 == b * b,
            i2 == (i + 1) * (i + 1),
    ;
    if j >= b {
        assert(j * j >= b * b) by (nonlinear_arith)
            requires
                j >= b,
                b >= 1,
        ;
        let q = 2 * (j * j) + 2 * j + 1 - 2 * b2;
        assert(q >= 1);
        assert(a2 * q >= 1) by (nonlinear_arith)
            requires
                a2 >= 1,
                q >= 1,
        ;
        assert(a2 * q == 2 * (a2 * j2) - 2 * (a2 * b2) - (2 * j + 1) * a2) by (nonlinear_arith)
            requires
                q == 2 * (j * j) + 2 * j + 1 - 2 * b2,
                j2 == (j + 1) * (j + 1),
        ;
    }
}

/// The size of the terms of the walk while it is inside its quadrant.
proof fn lemma_ellipse_bound(a: int, b: int, i: int, j: int)
    requires
        1 <= a <= i32::MAX,
        1 <= b <= i32::MAX,
        -a <= i <= 1,
        0 <= j <= b + 1,
    ensures
        1 <= sq(a) <= 0x4000_0000_0000_0000,
        1 <= sq(b) <= 0x4000_0000_0000_0000,
        0 <= sq(b) * sq(i + 1) <= 0x1000_0000_0000_0000_0000_0000_0000_0000,
        0 <= sq(a) * sq(j + 1) <= 0x2000_0000_0000_0000_0000_0000_0000_0000,
        0 <= sq(a) * sq(b) <= 0x1000_0000_0000_0000_0000_0000_0000_0000,
        -0x1000_0000_0000_0000_0000_0000_0000_0000 <= ellipse_err(a, b, i, j)
            <= 0x3000_0000_0000_0000_0000_0000_0000_0000,
{
    let a2 = sq(a);
    let b2 = sq(b);
    let i2 = sq(i + 1);
    let j2 = sq(j + 1);
    assert(1 <= a2 <= 0x4000_0000_0000_0000) by (nonlinear_arith)
        requires
            a2 == a * a,
            1 <= a <= 0x7fff_ffff,
    ;
    assert(1 <= b2 <= 0x4000_0000_0000_0000) by (nonlinear_arith)
        requires
            b2 == b * b,
            1 <= b <= 0x7fff_ffff,
    ;
    assert(0 <= i2 <= 0x4000_0000_0000_0000) by (nonlinear_arith)
        requires
            i2 == (i + 1) * (i + 1),
            -0x7fff_ffff <= i <= 1,
    ;
    assert(0 <= j2 <= 0x8000_0000_0000_0000) by (nonlinear_arith)
        requires
            j2 == (j + 1) * (j + 1),
            0 <= j <= 0x8000_0000,
    ;
    assert(0 <= b2 * i2 <= 0x4000_0000_0000_0000 * 0x4000_0000_0000_0000) by (nonlinear_arith)
        requires
            0 <= b2 <= 0x4000_0000_0000_0000,
            0 <= i2 <= 0x4000_0000_0000_0000,
    ;
    assert(0 <= a2 * j2 <= 0x4000_0000_0000_0000 * 0x8000_0000_0000_0000) by (nonlinear_arith)
        requires
            0 <= a2 <= 0x4000_0000_0000_0000,
            0 <= j2 <= 0x8000_0000_0000_0000,
    ;
    assert(0 <= a2 * b2 <= 0x4000_0000_0000_0000 * 0x4000_0000_0000_0000) by (nonlinear_arith)
        requires
            0 <= a2 <= 0x4000_0000_0000_0000,
            0 <= b2 <= 0x4000_0000_0000_0000,
    ;
}

/// Where `i` arrives at 0, twice the error term is at least `b^2`, so that
/// the next step takes `i` past 0.
proof fn lemma_ellipse_at_zero(a: int, b: int, j: int, k: int)
    requires
        0 <= j <= k,
        2 * ellipse_err(a, b, -1, j) >= -sq(b),
    ensures
        2 * ellipse_err(a, b, 0, k) >= sq(b),
{
    let a2 = sq(a);
    let b2 = sq(b);
    assert((j + 1) * (j + 1) <= (k + 1) * (k + 1)) by (nonlinear_arith)
        requires
            0 <= j <= k,
    ;
    assert(a2 * sq(j + 1) <= a2 * sq(k + 1)) by (nonlinear_arith)
        requires
            sq(j + 1) <= sq(k + 1),
            a2 == a * a,
    ;
    assert(b2 * sq(0) == 0) by (nonlinear_arith)
        requires
            sq(0) == 0,
    ;
    assert(b2 * sq(1) == b2) by (nonlinear_arith)
        requires
            sq(1) == 1,
    ;
}

/// The signs of the two thresholds of a step.
proof fn lemma_ellipse_thresholds(a: int, b: int, i: int, j: int)
    requires
        1 <= a,
        1 <= b,
        0 <= j,
    ensures
        (2 * j + 1) * sq(a) > 0,
        i < 0 ==> (2 * i + 1) * sq(b) < 0,
        (2 * 0 + 1) * sq(b) == sq(b),
        (2 * (-1) + 1) * sq(b) == -sq(b),
{
    let a2 = sq(a);
    let b2 = sq(b);
    assert(a2 >= 1 && b2 >= 1) by (nonlinear_arith)
        requires
            a2 == a * a,
            b2 == b * b,
            1 <= a,
            1 <= b,
    ;
    assert((2 * j + 1) * a2 > 0) by (nonlinear_arith)
        requires
            j >= 0,
            a2 >= 1,
    ;
    if i < 0 {
        assert((2 * i + 1) * b2 < 0) by (nonlinear_arith)
            requires
                i < 0,
                b2 >= 1,
        ;
    }
    assert((2 * 0 + 1) * b2 == b2) by (nonlinear_arith);
    assert((2 * (-1) + 1) * b2 == -b2) by (nonlinear_arith);
}

/// The walk stays in its quadrant: `i` stays between `-a` and 1, and `j`
/// between 0 and `b`.
pub proof fn lemma_ellipse_walk_range(a: int, b: int, n: nat)
    requires
        1 <= a,
        1 <= b,
    ensures
        -a <= ellipse_walk(a, b, n).0 <= 1,
        0 <= ellipse_walk(a, b, n).1 <= b,
    decreases n,
{
    if n > 0 {
        lemma_ellipse_walk_range(a, b, (n - 1) as nat);
        let s = ellipse_walk(a, b, (n - 1) as nat);
        if s.0 <= 0 && 2 * ellipse_err(a, b, s.0, s.1) <= (2 * s.1 + 1) * sq(a) {
            lemma_ellipse_j_below(a, b, s.0, s.1);
        }
    }
}

/// The filled ellipse lies in the box that reaches `a` columns and `b` rows
/// from its center.
pub proof fn lemma_ellipse_fill_box(cx: int, cy: int, a: int, b: int)
    ensures
        ellipse_fill(cx, cy, a, b).subset_of(block(cx - a, cx + a, cy - b, cy + b)),
{
    if a >= 1 && b >= 1 {
        let t = ellipse_fill_trace(cx, cy, a, b);
        assert forall|p: (int, int)| ellipse_fill(cx, cy, a, b).contains(p) implies block(
            cx - a,
            cx + a,
            cy - b,
            cy + b,
        ).contains(p) by {
            let m = choose|m: nat| (#[trigger] t(m)).contains(p);
            lemma_ellipse_walk_range(a, b, m);
        }
    }
}

/// The state of the walk as the drawing loops hold it.
pub(crate) struct EllipseStep {
    pub i: i64,
    pub j: i64,
    pub err: i128,
}

impl EllipseStep {
    pub(crate) open spec fn inv(&self, a: int, b: int, n: nat) -> bool {
        &&& 1 <= a <= i32::MAX
        &&& 1 <= b <= i32::MAX
        &&& -a <= self.i <= 1
        &&& 0 <= self.j <= b
        &&& (self.i as int, self.j as int) == ellipse_walk(a, b, n)
        &&& self.err == ellipse_err(a, b, self.i as int, self.j as int)
        &&& self.i == 0 ==> 2 * self.err >= sq(b)
    }

    /// The start of the walk.
    pub(crate) fn start(a: i32, b: i32) -> (s: EllipseStep)
        requires
            1 <= a,
            1 <= b,
        ensures
            s.inv(a as int, b as int, 0),
            s.i == -a,
            s.j == 0,
    {
        proof {
            lemma_ellipse_bound(a as int, b as int, -(a as int), 0);
            assert(sq(-(a as int) + 1) == sq(a as int) - 2 * a + 1) by (nonlinear_arith);
            assert(sq(b as int) * sq(-(a as int) + 1) == sq(b as int) * sq(a as int) - 2 * a * sq(
                b as int,
            ) + sq(b as int)) by (nonlinear_arith)
                requires
                    sq(-(a as int) + 1) == sq(a as int) - 2 * a + 1,
            ;
            assert(sq(a as int) * sq(1) == sq(a as int)) by (nonlinear_arith)
                requires
                    sq(1) == 1,
            ;
            assert(sq(b as int) * sq(a as int) == sq(a as int) * sq(b as int)) by (nonlinear_arith);
            assert(0 <= 2 * a * sq(b as int) <= 0x1_0000_0000 * 0x4000_0000_0000_0000)
                by (nonlinear_arith)
                requires
                    1 <= a <= 0x7fff_ffff,
                    1 <= sq(b as int) <= 0x4000_0000_0000_0000,
            ;
        }
        let a2: i128 = (a as i128) * (a as i128);
        let b2: i128 = (b as i128) * (b as i128);
        let err: i128 = a2 - 2 * (a as i128) * b2 + b2;
        EllipseStep { i: -(a as i64), j: 0, err }
    }

    /// One step of the walk, from a state in which `i <= 0`.
    pub(crate) fn advance(&mut self, a: i32, b: i32, Ghost(n): Ghost<nat>)
        requires
            old(self).inv(a as int, b as int, n),
            old(self).i <= 0,
        ensures
            final(self).inv(a as int, b as int, n + 1),
            (1 - final(self).i) + (b - final(self).j) < (1 - old(self).i) + (b - old(self).j),
    {
        let ghost ai = a as int;
        let ghost bi = b as int;
        let ghost i0 = self.i as int;
        let ghost j0 = self.j as int;
        proof {
            lemma_ellipse_bound(ai, bi, i0, j0);
            lemma_ellipse_bound(ai, bi, i0 + 1, j0);
            lemma_ellipse_bound(ai, bi, i0, j0 + 1);
            lemma_ellipse_bound(ai, bi, i0 + 1, j0 + 1);
            lemma_ellipse_thresholds(ai, bi, i0, j0);
            lemma_ellipse_err_step(ai, bi, i0, j0);
            lemma_ellipse_err_step(ai, bi, i0 + 1, j0);
            lemma_ellipse_err_step(ai, bi, i0, j0 + 1);
            assert(-0x1_0000_0000 * 0x4000_0000_0000_0000 <= (2 * i0 + 1) * sq(bi) <= 3
                * 0x4000_0000_0000_0000) by (nonlinear_arith)
                requires
                    -0x7fff_ffff <= i0 <= 1,
                    1 <= sq(bi) <= 0x4000_0000_0000_0000,
            ;
            assert(-0x1_0000_0000 * 0x4000_0000_0000_0000 <= (2 * (i0 + 1) + 1) * sq(bi) <= 3
                * 0x4000_0000_0000_0000) by (nonlinear_arith)
                requires
                    -0x7fff_ffff <= i0 <= 0,
                    1 <= sq(bi) <= 0x4000_0000_0000_0000,
            ;
            assert(0 <= (2 * j0 + 1) * sq(ai) <= 0x1_0000_0000 * 0x4000_0000_0000_0000)
                by (nonlinear_arith)
                requires
                    0 <= j0 <= 0x7fff_ffff,
                    1 <= sq(ai) <= 0x4000_0000_0000_0000,
            ;
            assert(0 <= (2 * (j0 + 1) + 1) * sq(ai) <= 0x1_0000_0002 * 0x4000_0000_0000_0000)
                by (nonlinear_arith)
                requires
                    0 <= j0 <= 0x7fff_ffff,
                    1 <= sq(ai) <= 0x4000_0000_0000_0000,
            ;
        }
        let a2: i128 = (a as i128) * (a as i128);
        let b2: i128 = (b as i128) * (b as i128);
        let e2: i128 = 2 * self.err;
        let step_i: bool = e2 >= (2 * (self.i as i128) + 1) * b2;
        let step_j: bool = e2 <= (2 * (self.j as i128) + 1) * a2;
        proof {
            if step_j {
                lemma_ellipse_j_below(ai, bi, i0, j0);
            }
            if i0 == -1 && step_i {
                lemma_ellipse_at_zero(ai, bi, j0, if step_j { j0 + 1 } else { j0 });
            }
        }
        if step_i {
            self.i = self.i + 1;
            self.err = self.err + (2 * (self.i as i128) + 1) * b2;
        }
        if step_j {
            self.j = self.j + 1;
            self.err = self.err + (2 * (self.j as i128) + 1) * a2;
        }
        proof {
            assert(ellipse_walk(ai, bi, n + 1) == ellipse_next(ai, bi, ellipse_walk(ai, bi, n)));
        }
    }
}

impl Canvas {
    /// Paints the tip of an ellipse: the pixels of column `cx` more than `j`
    /// and at most `b` rows from the center.
    fn ellipse_tip(&mut self, cx: i64, cy: i64, b: i64, j: i64, raw: u32)
        requires
            old(self).wf(),
            i32::MIN <= cx <= i32::MAX,
            i32::MIN <= cy <= i32::MAX,
            0 <= j <= b <= i32::MAX,
        ensures
            final(self).wf(),
            final(self)@ == old(self)@.paint(ellipse_tip(cx as int, cy as int, b as int, j as int), raw),
    {
        let ghost before = self@;
        self.column(cx, cy + j + 1, cy + b, raw);
        self.column(cx, cy - b, cy - j - 1, raw);
        proof {
            lemma_paint_union(
                before,
                vspan(cx as int, cy + j + 1, cy + b),
                vspan(cx as int, cy - b, cy - j - 1),
                raw,
            );
        }
    }

    /// Fills the ellipse with center `(x, y)` and semi-axes `a` and `b` by
    /// the midpoint walk, two rows to a step, and then its tip. Nothing is
    /// drawn when `a < 1` or `b < 1`.
    pub fn fill_ellipse<C: ToColor>(&mut self, x: i32, y: i32, a: i32, b: i32, color: C)
        requires
            old(self).wf(),
        ensures
            final(self).wf(),
            final(self)@ == old(self)@.paint(
                ellipse_fill(x as int, y as int, a as int, b as int),
                color.color_spec().0,
            ),
            a < 1 || b < 1 ==> final(self)@ == old(self)@,
    {
        let color: Color = color.to_color();
        let ghost before = self@;
        if a < 1 || b < 1 {
            proof {
                lemma_paint_empty(before, color.0);
            }
            return ;
        }
        let cx: i64 = x as i64;
        let cy: i64 = y as i64;
        let mut s = EllipseStep::start(a, b);
        let ghost t = ellipse_fill_trace(cx as int, cy as int, a as int, b as int);
        let ghost mut n: nat = 0;
        proof {
            lemma_paint_empty(before, color.0);
        }
        while s.i <= 0
            invariant
                self.wf(),
                i32::MIN <= cx <= i32::MAX,
                i32::MIN <= cy <= i32::MAX,
                s.inv(a as int, b as int, n),
                t == ellipse_fill_trace(cx as int, cy as int, a as int, b as int),
                self@ == before.paint(steps_upto(t, n), color.0),
            decreases (1 - s.i) + (b - s.j),
        {
            let ghost done = steps_upto(t, n);
            let ghost upper = hspan(cy - s.j, cx + s.i, cx - s.i);
            let ghost lower = hspan(cy + s.j, cx + s.i, cx - s.i);
            self.span(cy - s.j, cx + s.i, cx - s.i, color.0);
            self.span(cy + s.j, cx + s.i, cx - s.i, color.0);
            proof {
                lemma_paint_union(before, done, upper, color.0);
                lemma_paint_union(before, done.union(upper), lower, color.0);
                assert(t(n) == upper.union(lower));
                assert(steps_upto(t, n + 1) =~= done.union(upper).union(lower));
            }
            s.advance(a, b, Ghost(n));
            proof {
                n = n + 1;
            }
        }
        let ghost done = steps_upto(t, n);
        self.ellipse_tip(cx, cy, b as i64, s.j, color.0);
        proof {
            lemma_paint_union(before, done, t(n), color.0);
            assert(steps_upto(t, n + 1) =~= done.union(t(n)));
            assert forall|m: nat| m >= n implies #[trigger] t(m) == t(n) by {
                lemma_ellipse_walk_over(a as int, b as int, n, m);
            }
            lemma_steps_settled(t, n);
        }
    }

    /// Draws the ellipse line with center `(x, y)` and semi-axes `a` and `b`
    /// by the midpoint walk, four points to a step, and then its tip.
    /// Nothing is drawn when `a < 1` or `b < 1`.
    pub fn outline_ellipse<C: ToColor>(&mut self, x: i32, y: i32, a: i32, b: i32, color: C)
        requires
            old(self).wf(),
        ensures
            final(self).wf(),
            final(self)@ == old(self)@.paint(
                ellipse_outline(x as int, y as int, a as int, b as int),
                color.color_spec().0,
            ),
            a < 1 || b < 1 ==> final(self)@ == old(self)@,
    {
        let color: Color = color.to_color();
        let ghost before = self@;
        if a < 1 || b < 1 {
            proof {
                lemma_paint_empty(before, color.0);
            }
            return ;
        }
        let cx: i64 = x as i64;
        let cy: i64 = y as i64;
        let mut s = EllipseStep::start(a, b);
        let ghost t = ellipse_outline_trace(cx as int, cy as int, a as int, b as int);
        let ghost mut n: nat = 0;
        proof {
            lemma_paint_empty(before, color.0);
        }
        while s.i <= 0
            invariant
                self.wf(),
                i32::MIN <= cx <= i32::MAX,
                i32::MIN <= cy <= i32::MAX,
                s.inv(a as int, b as int, n),
                t == ellipse_outline_trace(cx as int, cy as int, a as int, b as int),
                self@ == before.paint(steps_upto(t, n), color.0),
            decreases (1 - s.i) + (b - s.j),
        {
            let ghost done = steps_upto(t, n);
            let ghost p1 = point(cx - s.i, cy - s.j);
            let ghost p2 = point(cx - s.i, cy + s.j);
            let ghost p3 = point(cx + s.i, cy - s.j);
            let ghost p4 = point(cx + s.i, cy + s.j);
            self.dot(cx - s.i, cy - s.j, color.0);
            self.dot(cx - s.i, cy + s.j, color.0);
            self.dot(cx + s.i, cy - s.j, color.0);
            self.dot(cx + s.i, cy + s.j, color.0);
            proof {
                lemma_paint_union(before, done, p1, color.0);
                lemma_paint_union(before, done.union(p1), p2, color.0);
                lemma_paint_union(before, done.union(p1).union(p2), p3, color.0);
                lemma_paint_union(before, done.union(p1).union(p2).union(p3), p4, color.0);
                assert(t(n) == p1.union(p2).union(p3).union(p4));
                assert(steps_upto(t, n + 1) =~= done.union(p1).union(p2).union(p3).union(p4));
            }
            s.advance(a, b, Ghost(n));
            proof {
                n = n + 1;
            }
        }
        let ghost done = steps_upto(t, n);
        self.ellipse_tip(cx, cy, b as i64, s.j, color.0);
        proof {
            lemma_paint_union(before, done, t(n), color.0);
            assert(steps_upto(t, n + 1) =~= done.union(t(n)));
            assert forall|m: nat| m >= n implies #[trigger] t(m) == t(n) by {
                lemma_ellipse_walk_over(a as int, b as int, n, m);
            }
            lemma_steps_settled(t, n);
        }
    }
}

} // verus!
