use vstd::prelude::*;
use crate::canvas::Canvas;
use crate::color::{Color, ToColor};
use crate::ellipse::ellipse_outline;
use crate::rect::hseg;
use crate::trace::{Trace, steps_all, steps_upto, lemma_steps_done};
use crate::view::{lemma_paint_empty, lemma_paint_union};

verus! {

/// The largest outer semi-axis that [`Canvas::thick_outline_ellipse`]
/// takes, 2^30: up to it, every term of the two walks is shown to fit the
/// 128 bits it is computed with. The largest of them grows with the fourth
/// power of the semi-axes.
pub const THICK_ELLIPSE_MAX: i32 = 0x4000_0000;

/// One of the two midpoint walks of a thick ellipse line: the boundary `x`
/// at the current row, the two slope terms and the error term.
pub struct Arm {
    pub x: int,
    pub dx: int,
    pub dy: int,
    pub err: int,
}

/// The walk of the ellipse with semi-axes `a` and `b` at its start, on the
/// horizontal axis.
pub open spec fn arm_start(a: int, b: int) -> Arm {
    Arm { x: a, dx: 2 * ((b * b) * a), dy: 0, err: a * a - (b * b) * a + (b * b) / 4 }
}

/// A step in the steep part of the walk: one row on, and the boundary one
/// column in unless the error term is negative. `a2` and `b2` are the
/// squares of the semi-axes.
pub open spec fn arm_step_yx(a2: int, b2: int, s: Arm) -> Arm {
    if s.err < 0 {
        Arm { x: s.x, dx: s.dx, dy: s.dy + 2 * a2, err: s.err + (s.dy + 2 * a2) + a2 }
    } else {
        Arm {
            x: s.x - 1,
            dx: s.dx - 2 * b2,
            dy: s.dy + 2 * a2,
            err: s.err + (s.dy + 2 * a2) - (s.dx - 2 * b2) + a2,
        }
    }
}

/// A step in the shallow part of the walk: the boundary moves in, column
/// by column while the error term is positive, until a column takes the walk
/// one row on (the result then holds `true`) or the boundary has passed the
/// center.
pub open spec fn arm_step_xy(a2: int, b2: int, s: Arm) -> (Arm, bool)
    decreases s.x,
{
    if s.x - 1 < 0 {
        (Arm { x: s.x - 1, dx: s.dx, dy: s.dy, err: s.err }, false)
    } else if s.err > 0 {
        arm_step_xy(
            a2,
            b2,
            Arm { x: s.x - 1, dx: s.dx - 2 * b2, dy: s.dy, err: s.err + b2 - (s.dx - 2 * b2) },
        )
    } else {
        (
            Arm {
                x: s.x - 1,
                dx: s.dx - 2 * b2,
                dy: s.dy + 2 * a2,
                err: s.err + (s.dy + 2 * a2) - (s.dx - 2 * b2) + b2,
            },
            true,
        )
    }
}

/// The error term with which the shallow part of a walk starts at boundary
/// `x` in row `py`.
pub open spec fn arm_err_xy(a2: int, b2: int, x: int, py: int) -> int {
    a2 * (py * py + py) + b2 * ((x - 1) * (x - 1)) - b2 * a2
}

/// The state of the drawing of a thick ellipse line: the phase, the row
/// `py`, and the walks of the outer and of the inner ellipse.
///
/// Phase 1: both walks are steep. Phase 2: the outer walk is steep, the
/// inner one shallow. Phase 3: the outer walk is steep and the inner one has
/// passed the center. Phase 4: the outer walk is shallow, the inner one
/// steep. Phase 5: both are shallow. Phase 6: only the outer walk is left.
/// Phase 7: the drawing is over.
pub struct ThickState {
    pub phase: int,
    pub py: int,
    pub outer: Arm,
    pub inner: Arm,
}

/// Half the thickness `t`.
pub open spec fn half(t: int) -> int {
    t / 2
}

/// Whether the state draws and walks on in its phase.
pub open spec fn thick_goes_on(s: ThickState) -> bool {
    ||| s.phase == 1 && s.outer.dy < s.outer.dx && s.inner.dy < s.inner.dx
    ||| s.phase == 2 && s.outer.dy < s.outer.dx && s.inner.x >= 0
    ||| s.phase == 3 && s.outer.dy < s.outer.dx
    ||| s.phase == 4 && s.inner.dy < s.inner.dx
    ||| s.phase == 5 && s.inner.x >= 0
    ||| s.phase == 6 && s.outer.x >= 0
}

/// `arm` with the error term of the shallow part for row `py`.
pub open spec fn arm_turned(a2: int, b2: int, arm: Arm, py: int) -> Arm {
    Arm { x: arm.x, dx: arm.dx, dy: arm.dy, err: arm_err_xy(a2, b2, arm.x, py) }
}

/// The state after one step: within a phase both walks advance as the phase
/// says; where the phase cannot go on, the next phase is entered and the
/// walks that turn shallow get their new error term.
pub open spec fn thick_next(a: int, b: int, t: int, s: ThickState) -> ThickState {
    let oa2 = (a + half(t)) * (a + half(t));
    let ob2 = (b + half(t)) * (b + half(t));
    let ia2 = (a - half(t)) * (a - half(t));
    let ib2 = (b - half(t)) * (b - half(t));
    let outer_xy = arm_step_xy(oa2, ob2, s.outer);
    let py_xy = if outer_xy.1 { s.py + 1 } else { s.py };
    if s.phase == 1 {
        if thick_goes_on(s) {
            ThickState {
                phase: 1,
                py: s.py + 1,
                outer: arm_step_yx(oa2, ob2, s.outer),
                inner: arm_step_yx(ia2, ib2, s.inner),
            }
        } else if s.outer.dy < s.outer.dx {
            ThickState {
                phase: 2,
                py: s.py,
                outer: s.outer,
                inner: arm_turned(ia2, ib2, s.inner, s.py),
            }
        } else {
            ThickState {
                phase: 4,
                py: s.py,
                outer: arm_turned(oa2, ob2, s.outer, s.py),
                inner: s.inner,
            }
        }
    } else if s.phase == 2 {
        if thick_goes_on(s) {
            ThickState {
                phase: 2,
                py: s.py + 1,
                outer: arm_step_yx(oa2, ob2, s.outer),
                inner: arm_step_xy(ia2, ib2, s.inner).0,
            }
        } else {
            ThickState { phase: 3, py: s.py, outer: s.outer, inner: s.inner }
        }
    } else if s.phase == 3 {
        if thick_goes_on(s) {
            ThickState {
                phase: 3,
                py: s.py + 1,
                outer: arm_step_yx(oa2, ob2, s.outer),
                inner: s.inner,
            }
        } else {
            ThickState {
                phase: 5,
                py: s.py,
                outer: arm_turned(oa2, ob2, s.outer, s.py),
                inner: arm_turned(ia2, ib2, s.inner, s.py),
            }
        }
    } else if s.phase == 4 {
        if thick_goes_on(s) {
            ThickState {
                phase: 4,
                py: py_xy,
                outer: outer_xy.0,
                inner: arm_step_yx(ia2, ib2, s.inner),
            }
        } else {
            ThickState {
                phase: 5,
                py: s.py,
                outer: arm_turned(oa2, ob2, s.outer, s.py),
                inner: arm_turned(ia2, ib2, s.inner, s.py),
            }
        }
    } else if s.phase == 5 {
        if thick_goes_on(s) {
            ThickState {
                phase: 5,
                py: py_xy,
                outer: outer_xy.0,
                inner: arm_step_xy(ia2, ib2, s.inner).0,
            }
        } else {
            ThickState { phase: 6, py: s.py, outer: s.outer, inner: s.inner }
        }
    } else if s.phase == 6 {
        if thick_goes_on(s) {
            ThickState { phase: 6, py: py_xy, outer: outer_xy.0, inner: s.inner }
        } else {
            ThickState { phase: 7, py: s.py, outer: s.outer, inner: s.inner }
        }
    } else {
        s
    }
}

/// The state after `n` steps.
pub open spec fn thick_walk(a: int, b: int, t: int, n: nat) -> ThickState
    decreases n,
{
    if n == 0 {
        ThickState {
            phase: 1,
            py: 0,
            outer: arm_start(a + half(t), b + half(t)),
            inner: arm_start(a - half(t), b - half(t)),
        }
    } else {
        thick_next(a, b, t, thick_walk(a, b, t, (n - 1) as nat))
    }
}

/// In the rows `cy + py` and `cy - py`, the stretches between `x1` and `x2`.
pub open spec fn row_pair(cy: int, py: int, x1: int, x2: int) -> Set<(int, int)> {
    hseg(cy + py, x1, x2).union(hseg(cy - py, x1, x2))
}

/// In the rows `cy + py` and `cy - py`, the stretches between the outer
/// boundary `px` and the inner boundary `ix` on both sides of the center.
pub open spec fn band(cx: int, cy: int, px: int, py: int, ix: int) -> Set<(int, int)> {
    row_pair(cy, py, cx - px, cx - ix).union(row_pair(cy, py, cx + px, cx + ix))
}

/// What a state draws before it steps: in the phases with both walks the
/// band between them (in phase 4 up to the inner boundary after its step);
/// in phase 3 the rows from `-px` to `px`; in phase 6 the rows from `-px` to
/// `px + 1`.
pub open spec fn thick_strokes(cx: int, cy: int, a: int, b: int, t: int, s: ThickState) -> Set<
    (int, int),
> {
    let ia2 = (a - half(t)) * (a - half(t));
    let ib2 = (b - half(t)) * (b - half(t));
    if !thick_goes_on(s) {
        Set::empty()
    } else if s.phase == 3 {
        row_pair(cy, s.py, cx - s.outer.x, cx + s.outer.x)
    } else if s.phase == 4 {
        band(cx, cy, s.outer.x, s.py, arm_step_yx(ia2, ib2, s.inner).x)
    } else if s.phase == 6 {
        row_pair(cy, s.py, cx - s.outer.x, cx + s.outer.x + 1)
    } else {
        band(cx, cy, s.outer.x, s.py, s.inner.x)
    }
}

/// What step `m` of the drawing contributes.
pub open spec fn thick_trace(cx: int, cy: int, a: int, b: int, t: int) -> Trace {
    |m: nat| thick_strokes(cx, cy, a, b, t, thick_walk(a, b, t, m))
}

/// The pixels of the ellipse line of thickness `t` with center `(cx, cy)`
/// and semi-axes `a` and `b`: the region between the ellipse grown by
/// `t / 2` and the ellipse shrunk by `t / 2`. For `t == 1` it is the thin
/// ellipse line; it is empty when `a < 1`, `b < 1` or `t <= 0`.
pub open spec fn ellipse_thick_outline(cx: int, cy: int, a: int, b: int, t: int) -> Set<
    (int, int),
> {
    if t == 1 {
        ellipse_outline(cx, cy, a, b)
    } else if a < 1 || b < 1 || t <= 0 {
        Set::empty()
    } else {
        steps_all(thick_trace(cx, cy, a, b, t))
    }
}

/// Whether [`Canvas::thick_outline_ellipse`] takes the ellipse: its line is
/// thin, or there is nothing to draw, or the outer semi-axes are at most
/// [`THICK_ELLIPSE_MAX`].
pub open spec fn thick_ellipse_fits(a: int, b: int, t: int) -> bool {
    t >= 2 && a >= 1 && b >= 1 ==> a + t / 2 <= THICK_ELLIPSE_MAX && b + t / 2 <= THICK_ELLIPSE_MAX
}

/// Once the drawing is over it stays over.
pub proof fn lemma_thick_walk_over(a: int, b: int, t: int, n: nat, m: nat)
    requires
        thick_walk(a, b, t, n).phase == 7,
        m >= n,
    ensures
        thick_walk(a, b, t, m) == thick_walk(a, b, t, n),
    decreases m,
{
    if m > n {
        lemma_thick_walk_over(a, b, t, n, (m - 1) as nat);
    }
}

/// What the drawing loop knows of a walk beyond its terms: the boundary
/// `xd` and the row count `yc` that the slope terms stand for, the offset `k`
/// of the error term from its closed form, and whether the walk has turned
/// shallow.
struct ArmTrack {
    xd: int,
    yc: int,
    k: int,
    turned: bool,
    bb: int,
}

/// While a walk is steep its point lies at most a little outside its
/// ellipse: by no more than `b2 * xd` and a term for every column that the
/// boundary has moved in.
spec fn steep_ok(a2: int, b2: int, x0: int, xd: int, yc: int) -> bool {
    b2 * (xd * xd) + a2 * (yc * yc) - a2 * b2 <= b2 * xd + (x0 - xd) * (2 * b2 + a2)
}

/// The error term of the steep part of a walk at boundary `xd` after `yc`
/// rows.
spec fn yx_form(a2: int, b2: int, xd: int, yc: int) -> int {
    b2 * (xd * xd - xd) + b2 / 4 + a2 * ((yc + 1) * (yc + 1)) - a2 * b2
}

/// The closed form of the error term in either part of the walk.
spec fn arm_form(a2: int, b2: int, g: ArmTrack) -> int {
    if g.turned {
        arm_err_xy(a2, b2, g.xd, g.yc)
    } else {
        yx_form(a2, b2, g.xd, g.yc)
    }
}

/// The terms of a walk that started at boundary `x0` are what their closed
/// forms say, within the bounds in which they are computed.
spec fn arm_ok(s: Arm, x0: int, a2: int, b2: int, g: ArmTrack) -> bool {
    &&& -0x4000_0000 <= x0 <= 0x4000_0000
    &&& a2 == x0 * x0
    &&& 0 <= a2 <= 0x1000_0000_0000_0000
    &&& 0 <= b2 <= 0x1000_0000_0000_0000
    &&& s.dx == 2 * (b2 * g.xd)
    &&& s.dy == 2 * (a2 * g.yc)
    &&& g.xd <= x0
    &&& g.xd >= 0 || g.xd == x0
    &&& s.x <= g.xd
    &&& s.x == g.xd || (s.x < 0 && g.turned)
    &&& s.x >= -0x1_8000_0004
    &&& 0 <= g.yc
    &&& g.xd < 0 ==> g.yc == 0
    &&& g.yc + g.xd <= 2 * g.bb + 2 * 0x4000_0000
    &&& s.err == arm_form(a2, b2, g) + g.k
    &&& 0 <= g.bb <= 0x4000_0000
    &&& b2 == g.bb * g.bb
    &&& !g.turned ==> g.k == 0
    &&& !g.turned && x0 >= 1 ==> steep_ok(a2, b2, x0, g.xd, g.yc)
    &&& -0x4600_0001_3800_0001_d000_0000_0000_0000 <= g.k <= 0x4600_0001_3800_0001_d000_0000_0000_0000
}

/// The size of the terms of a walk.
proof fn lemma_arm_bounds(s: Arm, x0: int, a2: int, b2: int, g: ArmTrack)
    requires
        arm_ok(s, x0, a2, b2, g),
    ensures
        -0x4000_0000 <= g.xd <= 0x4000_0000,
        0 <= g.yc <= 0x1_0000_0000,
        -0x800_0000_0000_0000_0000_0000 <= s.dx <= 0x800_0000_0000_0000_0000_0000,
        0 <= s.dy <= 0x2000_0000_0000_0000_0000_0000,
        -0x1200_0000_2800_0000_3000_0000_0000_0000 <= arm_form(a2, b2, g)
            <= 0x1200_0000_2800_0000_3000_0000_0000_0000,
        -0x1200_0000_2800_0000_3000_0000_0000_0000 <= arm_err_xy(a2, b2, g.xd, g.yc)
            <= 0x1200_0000_2800_0000_3000_0000_0000_0000,
        -0x5800_0001_6000_0002_0000_0000_0000_0000 <= s.err <= 0x5800_0001_6000_0002_0000_0000_0000_0000,
{
    let xd = g.xd;
    let yc = g.yc;
    assert(-0x1000_0000_0000_0000 * 0x4000_0000 <= b2 * xd <= 0x1000_0000_0000_0000 * 0x4000_0000)
        by (nonlinear_arith)
        requires
            0 <= b2 <= 0x1000_0000_0000_0000,
            -0x4000_0000 <= xd <= 0x4000_0000,
    ;
    assert(0 <= a2 * yc <= 0x1000_0000_0000_0000 * 0x1_0000_0000) by (nonlinear_arith)
        requires
            0 <= a2 <= 0x1000_0000_0000_0000,
            0 <= yc <= 0x1_0000_0000,
    ;
    let u = xd * xd - xd;
    let v = (yc + 1) * (yc + 1);
    let w = yc * yc + yc;
    let z = (xd - 1) * (xd - 1);
    assert(0 <= u <= 0x1000_0000_4000_0000) by (nonlinear_arith)
        requires
            u == xd * xd - xd,
            -0x4000_0000 <= xd <= 0x4000_0000,
    ;
    assert(0 <= z <= 0x1000_0000_8000_0001) by (nonlinear_arith)
        requires
            z == (xd - 1) * (xd - 1),
            -0x4000_0000 <= xd <= 0x4000_0000,
    ;
    assert(0 <= v <= 0x1_0000_0002_0000_0001) by (nonlinear_arith)
        requires
            v == (yc + 1) * (yc + 1),
            0 <= yc <= 0x1_0000_0000,
    ;
    assert(0 <= w <= 0x1_0000_0002_0000_0001) by (nonlinear_arith)
        requires
            w == yc * yc + yc,
            0 <= yc <= 0x1_0000_0000,
    ;
    assert(0 <= b2 * u <= 0x1000_0000_0000_0000 * 0x1000_0000_4000_0000) by (nonlinear_arith)
        requires
            0 <= b2 <= 0x1000_0000_0000_0000,
            0 <= u <= 0x1000_0000_4000_0000,
    ;
    assert(0 <= b2 * z <= 0x1000_0000_0000_0000 * 0x1000_0000_8000_0001) by (nonlinear_arith)
        requires
            0 <= b2 <= 0x1000_0000_0000_0000,
            0 <= z <= 0x1000_0000_8000_0001,
    ;
    assert(0 <= a2 * v <= 0x1000_0000_0000_0000 * 0x1_0000_0002_0000_0001) by (nonlinear_arith)
        requires
            0 <= a2 <= 0x1000_0000_0000_0000,
            0 <= v <= 0x1_0000_0002_0000_0001,
    ;
    assert(0 <= a2 * w <= 0x1000_0000_0000_0000 * 0x1_0000_0002_0000_0001) by (nonlinear_arith)
        requires
            0 <= a2 <= 0x1000_0000_0000_0000,
            0 <= w <= 0x1_0000_0002_0000_0001,
    ;
    assert(0 <= a2 * b2 <= 0x1000_0000_0000_0000 * 0x1000_0000_0000_0000) by (nonlinear_arith)
        requires
            0 <= a2 <= 0x1000_0000_0000_0000,
            0 <= b2 <= 0x1000_0000_0000_0000,
    ;
    assert(b2 * a2 == a2 * b2) by (nonlinear_arith);
}

/// The steps of the steep part keep the closed forms, and leave the row
/// count below `b2`.
proof fn lemma_yx_step(a2: int, b2: int, x0: int, xd: int, yc: int)
    requires
        a2 == x0 * x0,
        0 <= b2,
        0 <= yc,
        xd <= x0,
        2 * (a2 * yc) < 2 * (b2 * xd),
    ensures
        xd >= 1,
        x0 >= 1,
        a2 >= 1,
        b2 >= 1,
        yc + 1 <= b2,
        2 * (a2 * (yc + 1)) == 2 * (a2 * yc) + 2 * a2,
        2 * (b2 * (xd - 1)) == 2 * (b2 * xd) - 2 * b2,
        yx_form(a2, b2, xd, yc + 1) == yx_form(a2, b2, xd, yc) + 2 * (a2 * (yc + 1)) + a2,
        yx_form(a2, b2, xd - 1, yc + 1) == yx_form(a2, b2, xd, yc) + 2 * (a2 * (yc + 1)) - 2 * (b2 * (
            xd - 1
        )) + a2,
{
    assert(a2 >= 0) by (nonlinear_arith)
        requires
            a2 == x0 * x0,
    ;
    assert(a2 * yc >= 0) by (nonlinear_arith)
        requires
            a2 >= 0,
            yc >= 0,
    ;
    assert(xd >= 1 && b2 >= 1) by (nonlinear_arith)
        requires
            0 < b2 * xd,
            0 <= b2,
    ;
    assert(a2 >= x0 && a2 >= 1) by (nonlinear_arith)
        requires
            a2 == x0 * x0,
            x0 >= 1,
    ;
    assert(b2 * xd <= b2 * a2) by (nonlinear_arith)
        requires
            0 <= b2,
            xd <= a2,
    ;
    assert(yc < b2) by (nonlinear_arith)
        requires
            a2 * yc < b2 * a2,
            a2 >= 1,
    ;
    assert(a2 * (yc + 1) == a2 * yc + a2) by (nonlinear_arith);
    assert(b2 * (xd - 1) == b2 * xd - b2) by (nonlinear_arith);
    assert(a2 * ((yc + 2) * (yc + 2)) == a2 * ((yc + 1) * (yc + 1)) + 2 * (a2 * (yc + 1)) + a2)
        by (nonlinear_arith);
    assert(b2 * ((xd - 1) * (xd - 1) - (xd - 1)) == b2 * (xd * xd - xd) - 2 * (b2 * (xd - 1)))
        by (nonlinear_arith);
}

/// The steps of the steep part keep the point close to the ellipse, and the
/// row count within twice the vertical semi-axis and the start of the
/// boundary.
proof fn lemma_steep_step(a2: int, b2: int, x0: int, bb: int, xd: int, yc: int)
    requires
        a2 == x0 * x0,
        b2 == bb * bb,
        0 <= bb,
        0 <= yc,
        1 <= xd <= x0,
        2 * (a2 * yc) < 2 * (b2 * xd),
        steep_ok(a2, b2, x0, xd, yc),
    ensures
        yx_form(a2, b2, xd, yc) < 0 ==> steep_ok(a2, b2, x0, xd, yc + 1),
        yx_form(a2, b2, xd, yc) >= 0 ==> steep_ok(a2, b2, x0, xd - 1, yc + 1),
        yc + 1 <= 2 * bb + x0,
{
    let p = b2 * (xd * xd);
    let q = a2 * (yc * yc);
    let ab = a2 * b2;
    let bx = b2 * xd;
    let ay = a2 * yc;
    let g = 2 * b2 + a2;
    let hh = (x0 - xd) * g;
    let y1 = yc + 1;
    let q1 = a2 * (y1 * y1);
    assert(a2 >= x0 && a2 >= 1) by (nonlinear_arith)
        requires
            a2 == x0 * x0,
            x0 >= 1,
    ;
    assert(b2 >= 0) by (nonlinear_arith)
        requires
            b2 == bb * bb,
    ;
    assert(hh >= 0) by (nonlinear_arith)
        requires
            hh == (x0 - xd) * g,
            x0 >= xd,
            g >= 0,
    ;
    assert(q1 == q + 2 * ay + a2) by (nonlinear_arith)
        requires
            q1 == a2 * ((yc + 1) * (yc + 1)),
            q == a2 * (yc * yc),
            ay == a2 * yc,
    ;
    assert(b2 * (xd * xd - xd) == p - bx) by (nonlinear_arith)
        requires
            p == b2 * (xd * xd),
            bx == b2 * xd,
    ;
    assert(b2 * ((xd - 1) * (xd - 1)) == p - 2 * bx + b2) by (nonlinear_arith)
        requires
            p == b2 * (xd * xd),
            bx == b2 * xd,
    ;
    assert(b2 * (xd - 1) == bx - b2) by (nonlinear_arith)
        requires
            bx == b2 * xd,
    ;
    assert((x0 - (xd - 1)) * g == hh + g) by (nonlinear_arith)
        requires
            hh == (x0 - xd) * g,
    ;
    assert(yx_form(a2, b2, xd, yc) == p - bx + b2 / 4 + q1 - ab);
    // Either way the new point is within `a2 * b2 + x0 * g` of the center row.
    let xn = if yx_form(a2, b2, xd, yc) < 0 { xd } else { xd - 1 };
    let pn = b2 * (xn * xn);
    let bn = b2 * xn;
    let hn = (x0 - xn) * g;
    assert(pn + q1 - ab <= bn + hn);
    assert(pn >= bn) by (nonlinear_arith)
        requires
            pn == b2 * (xn * xn),
            bn == b2 * xn,
            b2 >= 0,
            xn >= 0,
    ;
    assert(hn <= x0 * g) by (nonlinear_arith)
        requires
            hn == (x0 - xn) * g,
            xn >= 0,
            g >= 0,
    ;
    assert(x0 * g <= 2 * ab + a2 * a2) by (nonlinear_arith)
        requires
            g == 2 * b2 + a2,
            ab == a2 * b2,
            1 <= x0 <= a2,
            b2 >= 0,
    ;
    assert(q1 <= 3 * ab + a2 * a2);
    let t = 2 * bb + x0 + 1;
    if y1 >= t {
        assert(y1 * y1 >= t * t) by (nonlinear_arith)
            requires
                y1 >= t,
                t >= 0,
        ;
        assert(t * t >= 4 * b2 + a2 + 1) by (nonlinear_arith)
            requires
                t == 2 * bb + x0 + 1,
                b2 == bb * bb,
                a2 == x0 * x0,
                bb >= 0,
                x0 >= 1,
        ;
        let yy = y1 * y1;
        assert(a2 * yy >= a2 * (4 * b2 + a2 + 1)) by (nonlinear_arith)
            requires
                yy >= 4 * b2 + a2 + 1,
                a2 >= 1,
        ;
        assert(a2 * (4 * b2 + a2 + 1) == 4 * ab + a2 * a2 + a2) by (nonlinear_arith)
            requires
                ab == a2 * b2,
        ;
        assert(ab >= 0) by (nonlinear_arith)
            requires
                ab == a2 * b2,
                a2 >= 0,
                b2 >= 0,
        ;
        assert(false);
    }
}

/// The steps of the shallow part keep the closed forms.
proof fn lemma_xy_step(a2: int, b2: int, xd: int, yc: int)
    ensures
        2 * (a2 * (yc + 1)) == 2 * (a2 * yc) + 2 * a2,
        2 * (b2 * (xd - 1)) == 2 * (b2 * xd) - 2 * b2,
        arm_err_xy(a2, b2, xd - 1, yc) == arm_err_xy(a2, b2, xd, yc) + b2 - 2 * (b2 * (xd - 1)),
        arm_err_xy(a2, b2, xd - 1, yc + 1) == arm_err_xy(a2, b2, xd, yc) + 2 * (a2 * (yc + 1)) - 2 * (
            b2 * (xd - 1)
        ) + b2,
{
    assert(a2 * (yc + 1) == a2 * yc + a2) by (nonlinear_arith);
    assert(b2 * (xd - 1) == b2 * xd - b2) by (nonlinear_arith);
    assert(b2 * ((xd - 2) * (xd - 2)) == b2 * ((xd - 1) * (xd - 1)) + b2 - 2 * (b2 * (xd - 1)))
        by (nonlinear_arith);
    assert(a2 * ((yc + 1) * (yc + 1) + (yc + 1)) == a2 * (yc * yc + yc) + 2 * (a2 * (yc + 1)))
        by (nonlinear_arith);
}

/// The size of the error term with which the shallow part starts.
proof fn lemma_turn_bound(a2: int, b2: int, x: int, py: int)
    requires
        0 <= a2 <= 0x1000_0000_0000_0000,
        0 <= b2 <= 0x1000_0000_0000_0000,
        0 <= py <= 0x1_0000_0000,
        -0x1_8000_0004 <= x <= 0x4000_0000,
    ensures
        0 <= py * py + py <= 0x1_0000_0002_0000_0001,
        0 <= (x - 1) * (x - 1) <= 0x2_4000_000f_0000_0019,
        0 <= a2 * (py * py + py) <= 0x1000_0000_2000_0000_1000_0000_0000_0000,
        0 <= b2 * ((x - 1) * (x - 1)) <= 0x2400_0000_f000_0001_9000_0000_0000_0000,
        0 <= b2 * a2 <= 0x100_0000_0000_0000_0000_0000_0000_0000,
        -0x100_0000_0000_0000_0000_0000_0000_0000 <= arm_err_xy(a2, b2, x, py)
            <= 0x3400_0001_1000_0001_a000_0000_0000_0000,
{
    let p = py * py + py;
    let q = (x - 1) * (x - 1);
    assert(0 <= p <= 0x1_0000_0002_0000_0001) by (nonlinear_arith)
        requires
            p == py * py + py,
            0 <= py <= 0x1_0000_0000,
    ;
    assert(0 <= q <= 0x2_4000_000f_0000_0019) by (nonlinear_arith)
        requires
            q == (x - 1) * (x - 1),
            -0x1_8000_0004 <= x <= 0x4000_0000,
    ;
    assert(0 <= a2 * p <= 0x1000_0000_0000_0000 * 0x1_0000_0002_0000_0001) by (nonlinear_arith)
        requires
            0 <= a2 <= 0x1000_0000_0000_0000,
            0 <= p <= 0x1_0000_0002_0000_0001,
    ;
    assert(0 <= b2 * q <= 0x1000_0000_0000_0000 * 0x2_4000_000f_0000_0019) by (nonlinear_arith)
        requires
            0 <= b2 <= 0x1000_0000_0000_0000,
            0 <= q <= 0x2_4000_000f_0000_0019,
    ;
    assert(0 <= b2 * a2 <= 0x1000_0000_0000_0000 * 0x1000_0000_0000_0000) by (nonlinear_arith)
        requires
            0 <= a2 <= 0x1000_0000_0000_0000,
            0 <= b2 <= 0x1000_0000_0000_0000,
    ;
}

/// A walk as the drawing loop holds it.
struct ArmVars {
    x: i64,
    dx: i128,
    dy: i128,
    err: i128,
}

impl View for ArmVars {
    type V = Arm;

    closed spec fn view(&self) -> Arm {
        Arm { x: self.x as int, dx: self.dx as int, dy: self.dy as int, err: self.err as int }
    }
}

impl ArmVars {
    /// The walk of the ellipse with semi-axes `a` and `b` at its start.
    fn start(a: i64, b: i64) -> (r: (ArmVars, Ghost<ArmTrack>))
        requires
            -0x4000_0000 <= a <= 0x4000_0000,
            -0x4000_0000 <= b <= 0x4000_0000,
        ensures
            r.0@ == arm_start(a as int, b as int),
            arm_ok(r.0@, a as int, a * a, b * b, r.1@),
            r.1@ == (ArmTrack {
                xd: a as int,
                yc: 0,
                k: 0,
                turned: false,
                bb: if b < 0 { -(b as int) } else { b as int },
            }),
            a <= 0 ==> r.0.dx <= 0,
    {
        proof {
            assert(0 <= a * a <= 0x1000_0000_0000_0000) by (nonlinear_arith)
                requires
                    -0x4000_0000 <= a <= 0x4000_0000,
            ;
            assert(0 <= b * b <= 0x1000_0000_0000_0000) by (nonlinear_arith)
                requires
                    -0x4000_0000 <= b <= 0x4000_0000,
            ;
            assert(-0x1000_0000_0000_0000 * 0x4000_0000 <= (b * b) * a <= 0x1000_0000_0000_0000 * 0x4000_0000)
                by (nonlinear_arith)
                requires
                    0 <= b * b <= 0x1000_0000_0000_0000,
                    -0x4000_0000 <= a <= 0x4000_0000,
            ;
            assert(a <= 0 ==> (b * b) * a <= 0) by (nonlinear_arith)
                requires
                    0 <= b * b,
            ;
            assert((b * b) * (a * a - a) == (a * a) * (b * b) - (b * b) * a) by (nonlinear_arith);
            assert((b * b) * (a * a) == (a * a) * (b * b)) by (nonlinear_arith);
            assert((a * a) * (0 * 0) == 0) by (nonlinear_arith);
            assert((a - a) * (2 * (b * b) + a * a) == 0) by (nonlinear_arith);
            assert(a >= 1 ==> (b * b) * a >= 0) by (nonlinear_arith)
                requires
                    0 <= b * b,
            ;
            let bb = if b < 0 { -(b as int) } else { b as int };
            assert(bb * bb == b * b) by (nonlinear_arith)
                requires
                    bb == b || bb == -b,
            ;
            assert((a * a) * ((0 + 1) * (0 + 1)) == a * a) by (nonlinear_arith);
            assert((a * a) * 0 == 0) by (nonlinear_arith);
        }
        let a2: i128 = (a as i128) * (a as i128);
        let b2: i128 = (b as i128) * (b as i128);
        let b2a: i128 = b2 * (a as i128);
        (
            ArmVars { x: a, dx: 2 * b2a, dy: 0, err: a2 - b2a + b2 / 4 },
            Ghost(
                ArmTrack {
                    xd: a as int,
                    yc: 0,
                    k: 0,
                    turned: false,
                    bb: if b < 0 { -(b as int) } else { b as int },
                },
            ),
        )
    }

    /// Gives the walk the error term of its shallow part.
    fn turn(
        &mut self,
        a2: i128,
        b2: i128,
        py: i64,
        Ghost(x0): Ghost<int>,
        Ghost(g): Ghost<ArmTrack>,
    ) -> (r: Ghost<ArmTrack>)
        requires
            arm_ok(old(self)@, x0, a2 as int, b2 as int, g),
            0 <= py <= 0x1_0000_0000,
        ensures
            final(self)@ == arm_turned(a2 as int, b2 as int, old(self)@, py as int),
            arm_ok(final(self)@, x0, a2 as int, b2 as int, r@),
            r@.turned,
            r@.xd == g.xd,
            r@.yc == g.yc,
    {
        proof {
            lemma_turn_bound(a2 as int, b2 as int, self.x as int, py as int);
            lemma_arm_bounds(self@, x0, a2 as int, b2 as int, g);
        }
        let p: i128 = (py as i128) * (py as i128) + (py as i128);
        let q: i128 = (self.x as i128 - 1) * (self.x as i128 - 1);
        self.err = a2 * p + b2 * q - b2 * a2;
        Ghost(
            ArmTrack {
                xd: g.xd,
                yc: g.yc,
                k: self.err - arm_err_xy(a2 as int, b2 as int, g.xd, g.yc),
                turned: true,
                bb: g.bb,
            },
        )
    }

    /// A step in the steep part of the walk.
    fn step_yx(&mut self, a2: i128, b2: i128, Ghost(x0): Ghost<int>, Ghost(g): Ghost<ArmTrack>) -> (r:
        Ghost<ArmTrack>)
        requires
            arm_ok(old(self)@, x0, a2 as int, b2 as int, g),
            !g.turned,
            old(self).dy < old(self).dx,
        ensures
            final(self)@ == arm_step_yx(a2 as int, b2 as int, old(self)@),
            arm_ok(final(self)@, x0, a2 as int, b2 as int, r@),
            !r@.turned,
            r@.yc == g.yc + 1,
            a2 >= 1,
            final(self).dy == old(self).dy + 2 * a2,
            old(self).dx - 2 * b2 <= final(self).dx <= old(self).dx,
            0 <= final(self).x <= old(self).x,
    {
        proof {
            lemma_yx_step(a2 as int, b2 as int, x0, g.xd, g.yc);
            lemma_steep_step(a2 as int, b2 as int, x0, g.bb, g.xd, g.yc);
            lemma_arm_bounds(self@, x0, a2 as int, b2 as int, g);
        }
        if self.err < 0 {
            self.dy = self.dy + 2 * a2;
            self.err = self.err + self.dy + a2;
            Ghost(ArmTrack { xd: g.xd, yc: g.yc + 1, k: g.k, turned: false, bb: g.bb })
        } else {
            self.x = self.x - 1;
            self.dy = self.dy + 2 * a2;
            self.dx = self.dx - 2 * b2;
            self.err = self.err + self.dy - self.dx + a2;
            Ghost(ArmTrack { xd: g.xd - 1, yc: g.yc + 1, k: g.k, turned: false, bb: g.bb })
        }
    }

    /// A step in the shallow part of the walk; tells whether it took the
    /// walk one row on.
    fn step_xy(&mut self, a2: i128, b2: i128, Ghost(x0): Ghost<int>, Ghost(g): Ghost<ArmTrack>) -> (r: (
        bool,
        Ghost<ArmTrack>,
    ))
        requires
            arm_ok(old(self)@, x0, a2 as int, b2 as int, g),
            g.turned,
            old(self).x > -0x1_8000_0004,
        ensures
            (final(self)@, r.0) == arm_step_xy(a2 as int, b2 as int, old(self)@),
            arm_ok(final(self)@, x0, a2 as int, b2 as int, r.1@),
            r.1@.turned,
            r.1@.yc == g.yc + (if r.0 { 1int } else { 0int }),
            final(self).x < old(self).x,
            final(self).x >= -1 || final(self).x == old(self).x - 1,
            final(self).dx <= old(self).dx,
    {
        let ghost first = self@;
        let ghost mut t: ArmTrack = g;
        let mut row: bool = false;
        let mut going: bool = true;
        while going
            invariant
                arm_ok(self@, x0, a2 as int, b2 as int, t),
                t.turned,
                going ==> !row,
                going ==> t.yc == g.yc,
                going ==> arm_step_xy(a2 as int, b2 as int, self@) == arm_step_xy(
                    a2 as int,
                    b2 as int,
                    first,
                ),
                going ==> self.x <= first.x,
                going ==> self.x >= 0 || self.x == first.x,
                going ==> self.x > -0x1_8000_0004,
                !going ==> (self@, row) == arm_step_xy(a2 as int, b2 as int, first),
                !going ==> self.x < first.x,
                !going ==> self.x >= -1 || self.x == first.x - 1,
                !going ==> t.yc == g.yc + (if row { 1int } else { 0int }),
                self.dx <= first.dx,
            decreases (if going { 1int } else { 0int }), self.x,
        {
            proof {
                lemma_xy_step(a2 as int, b2 as int, t.xd, t.yc);
                lemma_arm_bounds(self@, x0, a2 as int, b2 as int, t);
            }
            self.x = self.x - 1;
            if self.x < 0 {
                going = false;
            } else if self.err > 0 {
                self.dx = self.dx - 2 * b2;
                self.err = self.err + b2 - self.dx;
                proof {
                    t = ArmTrack { xd: t.xd - 1, yc: t.yc, k: t.k, turned: true, bb: t.bb };
                }
            } else {
                self.dy = self.dy + 2 * a2;
                self.dx = self.dx - 2 * b2;
                self.err = self.err + self.dy - self.dx + b2;
                row = true;
                going = false;
                proof {
                    t = ArmTrack { xd: t.xd - 1, yc: t.yc + 1, k: t.k, turned: true, bb: t.bb };
                }
            }
        }
        (row, Ghost(t))
    }
}

/// What is left of the drawing, as a number that every step lowers.
spec fn thick_fuel(s: ThickState) -> int {
    let local = if s.phase <= 3 {
        s.outer.dx - s.outer.dy + 0x8000_0000_0000_0000
    } else if s.phase == 4 {
        s.inner.dx - s.inner.dy + 0x8000_0000_0000_0000
    } else if s.phase == 5 {
        s.inner.x + 1
    } else if s.phase == 6 {
        s.outer.x + 1
    } else {
        0
    };
    (7 - s.phase) * 0x1000_0000_0000_0000_0000_0000 + if local > 0 {
        local
    } else {
        0
    }
}

impl Canvas {
    /// Paints the stretches of a band in two rows.
    fn thick_band(&mut self, cx: i64, cy: i64, px: i64, py: i64, ix: i64, raw: u32)
        requires
            old(self).wf(),
            i32::MIN <= cx <= i32::MAX,
            i32::MIN <= cy <= i32::MAX,
            -0x2000_0000_0000 <= px <= 0x2000_0000_0000,
            -0x2000_0000_0000 <= py <= 0x2000_0000_0000,
            -0x2000_0000_0000 <= ix <= 0x2000_0000_0000,
        ensures
            final(self).wf(),
            final(self)@ == old(self)@.paint(
                band(cx as int, cy as int, px as int, py as int, ix as int),
                raw,
            ),
    {
        let ghost before = self@;
        let ghost s1 = hseg(cy + py, cx - px, cx - ix);
        let ghost s2 = hseg(cy + py, cx + px, cx + ix);
        let ghost s3 = hseg(cy - py, cx - px, cx - ix);
        let ghost s4 = hseg(cy - py, cx + px, cx + ix);
        self.hstroke(cy + py, cx - px, cx - ix, raw);
        self.hstroke(cy + py, cx + px, cx + ix, raw);
        self.hstroke(cy - py, cx - px, cx - ix, raw);
        self.hstroke(cy - py, cx + px, cx + ix, raw);
        proof {
            lemma_paint_union(before, s1, s2, raw);
            lemma_paint_union(before, s1.union(s2), s3, raw);
            lemma_paint_union(before, s1.union(s2).union(s3), s4, raw);
            assert(s1.union(s2).union(s3).union(s4) =~= band(
                cx as int,
                cy as int,
                px as int,
                py as int,
                ix as int,
            ));
        }
    }

    /// Paints the stretch between two columns in two rows.
    fn thick_rows(&mut self, cy: i64, py: i64, x1: i64, x2: i64, raw: u32)
        requires
            old(self).wf(),
            i32::MIN <= cy <= i32::MAX,
            -0x2000_0000_0000 <= py <= 0x2000_0000_0000,
            -0x2000_0000_0000 <= x1 <= 0x2000_0000_0000,
            -0x2000_0000_0000 <= x2 <= 0x2000_0000_0000,
        ensures
            final(self).wf(),
            final(self)@ == old(self)@.paint(
                row_pair(cy as int, py as int, x1 as int, x2 as int),
                raw,
            ),
    {
        let ghost before = self@;
        self.hstroke(cy + py, x1, x2, raw);
        self.hstroke(cy - py, x1, x2, raw);
        proof {
            lemma_paint_union(
                before,
                hseg(cy + py, x1 as int, x2 as int),
                hseg(cy - py, x1 as int, x2 as int),
                raw,
            );
        }
    }

    /// Draws the ellipse line of thickness `thickness` with center `(x, y)`
    /// and semi-axes `a` and `b`: the region between the ellipse grown and
    /// the ellipse shrunk by half the thickness, walked in phases as the two
    /// walks turn from steep to shallow. With thickness 1 the result is that
    /// of [`Canvas::outline_ellipse`]; nothing is drawn when `a < 1`,
    /// `b < 1` or `thickness <= 0`. For a thickness above 1 the outer
    /// semi-axes may not exceed [`THICK_ELLIPSE_MAX`];
    /// [`Canvas::try_thick_outline_ellipse`] takes any ellipse and tells
    /// whether it was within that bound.
    pub fn thick_outline_ellipse<C: ToColor>(
        &mut self,
        x: i32,
        y: i32,
        a: i32,
        b: i32,
        thickness: i32,
        color: C,
    )
        requires
            old(self).wf(),
            thick_ellipse_fits(a as int, b as int, thickness as int),
        ensures
            final(self).wf(),
            final(self)@ == old(self)@.paint(
                ellipse_thick_outline(x as int, y as int, a as int, b as int, thickness as int),
                color.color_spec().0,
            ),
            thickness == 1 ==> final(self)@ == old(self)@.paint(
                ellipse_outline(x as int, y as int, a as int, b as int),
                color.color_spec().0,
            ),
            thickness != 1 && (a < 1 || b < 1 || thickness <= 0) ==> final(self)@ == old(self)@,
    {
        let color: Color = color.to_color();
        let ghost before = self@;
        let raw: u32 = color.0;
        if thickness == 1 {
            self.outline_ellipse(x, y, a, b, color);
            return ;
        } else if a < 1 || b < 1 || thickness <= 0 {
            proof {
                lemma_paint_empty(before, raw);
            }
            return ;
        }
        let cx: i64 = x as i64;
        let cy: i64 = y as i64;
        let h: i64 = (thickness / 2) as i64;
        let oa: i64 = a as i64 + h;
        let ob: i64 = b as i64 + h;
        let ia: i64 = a as i64 - h;
        let ib: i64 = b as i64 - h;
        let ghost ai = a as int;
        let ghost bi = b as int;
        let ghost ti = thickness as int;
        proof {
            assert(h == half(ti));
            assert(0 <= (oa as int) * (oa as int) <= 0x1000_0000_0000_0000) by (nonlinear_arith)
                requires
                    1 <= oa <= 0x4000_0000,
            ;
            assert(0 <= (ob as int) * (ob as int) <= 0x1000_0000_0000_0000) by (nonlinear_arith)
                requires
                    1 <= ob <= 0x4000_0000,
            ;
            assert(0 <= (ia as int) * (ia as int) <= 0x1000_0000_0000_0000) by (nonlinear_arith)
                requires
                    -0x4000_0000 <= ia <= 0x4000_0000,
            ;
            assert(0 <= (ib as int) * (ib as int) <= 0x1000_0000_0000_0000) by (nonlinear_arith)
                requires
                    -0x4000_0000 <= ib <= 0x4000_0000,
            ;
        }
        let (mut outer, Ghost(og0)) = ArmVars::start(oa, ob);
        let (mut inner, Ghost(ig0)) = ArmVars::start(ia, ib);
        let ghost mut og: ArmTrack = og0;
        let ghost mut ig: ArmTrack = ig0;
        let oa2: i128 = (oa as i128) * (oa as i128);
        let ob2: i128 = (ob as i128) * (ob as i128);
        let ia2: i128 = (ia as i128) * (ia as i128);
        let ib2: i128 = (ib as i128) * (ib as i128);
        let mut phase: u8 = 1;
        let mut py: i64 = 0;
        let ghost t = thick_trace(cx as int, cy as int, ai, bi, ti);
        let ghost mut n: nat = 0;
        proof {
            lemma_paint_empty(before, raw);
            lemma_arm_bounds(outer@, oa as int, oa2 as int, ob2 as int, og);
            lemma_arm_bounds(inner@, ia as int, ia2 as int, ib2 as int, ig);
        }
        while phase < 7
            invariant
                self.wf(),
                i32::MIN <= cx <= i32::MAX,
                i32::MIN <= cy <= i32::MAX,
                1 <= phase <= 7,
                h == half(ti),
                oa == ai + half(ti),
                ob == bi + half(ti),
                ia == ai - half(ti),
                ib == bi - half(ti),
                oa2 == oa * oa,
                ob2 == ob * ob,
                ia2 == ia * ia,
                ib2 == ib * ib,
                ia <= 0 ==> inner.dx <= 0,
                0 <= py,
                py == og.yc,
                arm_ok(outer@, oa as int, oa2 as int, ob2 as int, og),
                arm_ok(inner@, ia as int, ia2 as int, ib2 as int, ig),
                og.turned == (phase >= 4),
                ig.turned == (phase == 2 || phase == 3 || phase >= 5),
                inner.x >= -0x4000_0000 - 1,
                outer.x >= -2 - ig.yc - (0x4000_0000 - inner.x),
                phase <= 3 ==> outer.dx - outer.dy >= -0x8000_0000_0000_0000,
                thick_walk(ai, bi, ti, n) == (ThickState {
                    phase: phase as int,
                    py: py as int,
                    outer: outer@,
                    inner: inner@,
                }),
                t == thick_trace(cx as int, cy as int, ai, bi, ti),
                self@ == before.paint(steps_upto(t, n), raw),
            decreases thick_fuel(thick_walk(ai, bi, ti, n)),
        {
            let ghost done = steps_upto(t, n);
            let ghost s = thick_walk(ai, bi, ti, n);
            let ghost strokes = thick_strokes(cx as int, cy as int, ai, bi, ti, s);
            proof {
                assert(t(n) == strokes);
                assert(steps_upto(t, n + 1) =~= done.union(strokes));
                assert(thick_walk(ai, bi, ti, n + 1) == thick_next(ai, bi, ti, s));
                lemma_paint_union(before, done, strokes, raw);
                lemma_paint_empty(self@, raw);
                lemma_arm_bounds(outer@, oa as int, oa2 as int, ob2 as int, og);
                lemma_arm_bounds(inner@, ia as int, ia2 as int, ib2 as int, ig);
            }
            if phase == 1 {
                if outer.dy < outer.dx && inner.dy < inner.dx {
                    self.thick_band(cx, cy, outer.x, py, inner.x, raw);
                    py = py + 1;
                    let og1 = outer.step_yx(oa2, ob2, Ghost(oa as int), Ghost(og));
                    let ig1 = inner.step_yx(ia2, ib2, Ghost(ia as int), Ghost(ig));
                    proof {
                        og = og1@;
                        ig = ig1@;
                    }
                } else if outer.dy < outer.dx {
                    let ig1 = inner.turn(ia2, ib2, py, Ghost(ia as int), Ghost(ig));
                    phase = 2;
                    proof {
                        ig = ig1@;
                    }
                } else {
                    let og1 = outer.turn(oa2, ob2, py, Ghost(oa as int), Ghost(og));
                    phase = 4;
                    proof {
                        og = og1@;
                    }
                }
            } else if phase == 2 {
                if outer.dy < outer.dx && inner.x >= 0 {
                    self.thick_band(cx, cy, outer.x, py, inner.x, raw);
                    py = py + 1;
                    let og1 = outer.step_yx(oa2, ob2, Ghost(oa as int), Ghost(og));
                    let stepped = inner.step_xy(ia2, ib2, Ghost(ia as int), Ghost(ig));
                    proof {
                        og = og1@;
                        ig = stepped.1@;
                    }
                } else {
                    phase = 3;
                }
            } else if phase == 3 {
                if outer.dy < outer.dx {
                    self.thick_rows(cy, py, cx - outer.x, cx + outer.x, raw);
                    py = py + 1;
                    let og1 = outer.step_yx(oa2, ob2, Ghost(oa as int), Ghost(og));
                    proof {
                        og = og1@;
                    }
                } else {
                    let og1 = outer.turn(oa2, ob2, py, Ghost(oa as int), Ghost(og));
                    let ig1 = inner.turn(ia2, ib2, py, Ghost(ia as int), Ghost(ig));
                    phase = 5;
                    proof {
                        og = og1@;
                        ig = ig1@;
                    }
                }
            } else if phase == 4 {
                if inner.dy < inner.dx {
                    let px: i64 = outer.x;
                    let row: i64 = py;
                    let stepped = outer.step_xy(oa2, ob2, Ghost(oa as int), Ghost(og));
                    if stepped.0 {
                        py = py + 1;
                    }
                    let ig1 = inner.step_yx(ia2, ib2, Ghost(ia as int), Ghost(ig));
                    self.thick_band(cx, cy, px, row, inner.x, raw);
                    proof {
                        og = stepped.1@;
                        ig = ig1@;
                    }
                } else {
                    let og1 = outer.turn(oa2, ob2, py, Ghost(oa as int), Ghost(og));
                    let ig1 = inner.turn(ia2, ib2, py, Ghost(ia as int), Ghost(ig));
                    phase = 5;
                    proof {
                        og = og1@;
                        ig = ig1@;
                    }
                }
            } else if phase == 5 {
                if inner.x >= 0 {
                    self.thick_band(cx, cy, outer.x, py, inner.x, raw);
                    let stepped = outer.step_xy(oa2, ob2, Ghost(oa as int), Ghost(og));
                    if stepped.0 {
                        py = py + 1;
                    }
                    let inner_stepped = inner.step_xy(ia2, ib2, Ghost(ia as int), Ghost(ig));
                    proof {
                        og = stepped.1@;
                        ig = inner_stepped.1@;
                    }
                } else {
                    phase = 6;
                }
            } else {
                if outer.x >= 0 {
                    self.thick_rows(cy, py, cx - outer.x, cx + outer.x + 1, raw);
                    let stepped = outer.step_xy(oa2, ob2, Ghost(oa as int), Ghost(og));
                    if stepped.0 {
                        py = py + 1;
                    }
                    proof {
                        og = stepped.1@;
                    }
                } else {
                    phase = 7;
                }
            }
            proof {
                n = n + 1;
                lemma_arm_bounds(outer@, oa as int, oa2 as int, ob2 as int, og);
                lemma_arm_bounds(inner@, ia as int, ia2 as int, ib2 as int, ig);
            }
        }
        proof {
            assert forall|m: nat| m >= n implies #[trigger] t(m) == Set::<(int, int)>::empty() by {
                lemma_thick_walk_over(ai, bi, ti, n, m);
            }
            lemma_steps_done(t, n);
        }
    }

    /// Draws the ellipse line of thickness `thickness` as
    /// [`Canvas::thick_outline_ellipse`] does, for any ellipse: where the
    /// outer semi-axes exceed [`THICK_ELLIPSE_MAX`] nothing is drawn and the
    /// result is `false`.
    pub fn try_thick_outline_ellipse<C: ToColor>(
        &mut self,
        x: i32,
        y: i32,
        a: i32,
        b: i32,
        thickness: i32,
        color: C,
    ) -> (drawn: bool)
        requires
            old(self).wf(),
        ensures
            final(self).wf(),
            drawn == thick_ellipse_fits(a as int, b as int, thickness as int),
            drawn ==> final(self)@ == old(self)@.paint(
                ellipse_thick_outline(x as int, y as int, a as int, b as int, thickness as int),
                color.color_spec().0,
            ),
            !drawn ==> final(self)@ == old(self)@,
    {
        let limit: i64 = THICK_ELLIPSE_MAX as i64;
        let half: i64 = (thickness / 2) as i64;
        let fits: bool = thickness < 2 || a < 1 || b < 1 || (a as i64 + half <= limit && b as i64
            + half <= limit);
        if fits {
            self.thick_outline_ellipse(x, y, a, b, thickness, color);
        }
        fits
    }
}

} // verus!
