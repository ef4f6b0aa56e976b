use vstd::prelude::*;
use crate::canvas::Canvas;
use crate::color::{Color, ToColor};
use crate::view::{
    hspan, lemma_index_in_range, lemma_paint_agree, lemma_paint_at, lemma_paint_empty,
    lemma_paint_union, point, CanvasView,
};

verus! {

/// Whether `p` and `q` are neighbors in a row or in a column.
pub open spec fn adjacent(p: (int, int), q: (int, int)) -> bool {
    ||| (p.0 == q.0 && (p.1 - q.1 == 1 || q.1 - p.1 == 1))
    ||| (p.1 == q.1 && (p.0 - q.0 == 1 || q.0 - p.0 == 1))
}

/// A chain of neighboring pixels of the canvas that all have the value
/// `seed`.
pub open spec fn is_path(v: CanvasView, seed: u32, path: Seq<(int, int)>) -> bool {
    &&& path.len() > 0
    &&& forall|k: int|
        0 <= k < path.len() ==> v.contains((#[trigger] path[k]).0, path[k].1) && v.at(
            path[k].0,
            path[k].1,
        ) == seed
    &&& forall|k: int| 0 <= k < path.len() - 1 ==> adjacent(#[trigger] path[k], path[k + 1])
}

/// Whether a chain of neighboring pixels with the value of `from` leads
/// from `from` to `to`.
pub open spec fn connected(v: CanvasView, from: (int, int), to: (int, int)) -> bool {
    exists|path: Seq<(int, int)>|
        #[trigger] is_path(v, v.at(from.0, from.1), path) && path[0] == from && path.last() == to
}

/// The pixels that a chain of equally colored neighbors connects with
/// `(x, y)`.
pub open spec fn flood_region(v: CanvasView, x: int, y: int) -> Set<(int, int)> {
    Set::new(|p: (int, int)| connected(v, (x, y), p))
}

/// The pixels that a flood fill from `(x, y)` with `color` recolors: the
/// region of `(x, y)`, or nothing where `(x, y)` lies outside the canvas or
/// has the value `color` already.
pub open spec fn flood_pixels(v: CanvasView, x: int, y: int, color: u32) -> Set<(int, int)> {
    if v.contains(x, y) && v.at(x, y) != color {
        flood_region(v, x, y)
    } else {
        Set::empty()
    }
}

/// A chain can be made one neighbor longer.
proof fn lemma_connected_extend(v: CanvasView, start: (int, int), p: (int, int), q: (int, int))
    requires
        connected(v, start, p),
        adjacent(p, q),
        v.contains(q.0, q.1),
        v.at(q.0, q.1) == v.at(start.0, start.1),
    ensures
        connected(v, start, q),
{
    let seed = v.at(start.0, start.1);
    let path = choose|path: Seq<(int, int)>|
        #[trigger] is_path(v, seed, path) && path[0] == start && path.last() == p;
    let longer = path.push(q);
    assert forall|k: int| 0 <= k < longer.len() - 1 implies adjacent(
        #[trigger] longer[k],
        longer[k + 1],
    ) by {
        if k < path.len() - 1 {
            assert(adjacent(path[k], path[k + 1]));
        }
    }
    assert forall|k: int| 0 <= k < longer.len() implies v.contains(
        (#[trigger] longer[k]).0,
        longer[k].1,
    ) && v.at(longer[k].0, longer[k].1) == seed by {
        if k < path.len() {
            assert(v.contains(path[k].0, path[k].1));
        }
    }
    assert(is_path(v, seed, longer) && longer[0] == start && longer.last() == q);
}

/// A flood fill does not leave an enclosed region: where `inside` holds the
/// start and every neighbor of one of its pixels is in `inside` too, lies
/// outside the canvas or has another color than the start, the region of the
/// start lies in `inside`.
pub proof fn lemma_flood_enclosed(v: CanvasView, x: int, y: int, inside: Set<(int, int)>)
    requires
        inside.contains((x, y)),
        forall|p: (int, int), q: (int, int)|
            #![trigger inside.contains(p), adjacent(p, q)]
            inside.contains(p) && adjacent(p, q) && v.contains(q.0, q.1) && v.at(q.0, q.1) == v.at(
                x,
                y,
            ) ==> inside.contains(q),
    ensures
        flood_region(v, x, y).subset_of(inside),
{
    assert forall|t: (int, int)| flood_region(v, x, y).contains(t) implies inside.contains(t) by {
        let path = choose|path: Seq<(int, int)>|
            #[trigger] is_path(v, v.at(x, y), path) && path[0] == (x, y) && path.last() == t;
        lemma_path_inside(v, x, y, inside, path, path.len() - 1);
    }
}

/// A flood fill recolors exactly an enclosed region: where, besides, every
/// pixel of `inside` is connected with the start, the region of the start is
/// `inside`.
pub proof fn lemma_flood_enclosed_exact(v: CanvasView, x: int, y: int, inside: Set<(int, int)>)
    requires
        inside.contains((x, y)),
        forall|p: (int, int), q: (int, int)|
            #![trigger inside.contains(p), adjacent(p, q)]
            inside.contains(p) && adjacent(p, q) && v.contains(q.0, q.1) && v.at(q.0, q.1) == v.at(
                x,
                y,
            ) ==> inside.contains(q),
        forall|p: (int, int)| inside.contains(p) ==> connected(v, (x, y), p),
    ensures
        flood_region(v, x, y) == inside,
{
    lemma_flood_enclosed(v, x, y, inside);
    assert(flood_region(v, x, y) =~= inside);
}

proof fn lemma_path_inside(
    v: CanvasView,
    x: int,
    y: int,
    inside: Set<(int, int)>,
    path: Seq<(int, int)>,
    k: int,
)
    requires
        inside.contains((x, y)),
        forall|p: (int, int), q: (int, int)|
            #![trigger inside.contains(p), adjacent(p, q)]
            inside.contains(p) && adjacent(p, q) && v.contains(q.0, q.1) && v.at(q.0, q.1) == v.at(
                x,
                y,
            ) ==> inside.contains(q),
        is_path(v, v.at(x, y), path),
        path[0] == (x, y),
        0 <= k < path.len(),
    ensures
        inside.contains(path[k]),
    decreases k,
{
    if k > 0 {
        lemma_path_inside(v, x, y, inside, path, k - 1);
        assert(adjacent(path[k - 1], path[k - 1 + 1]));
        assert(v.contains(path[k].0, path[k].1) && v.at(path[k].0, path[k].1) == v.at(x, y));
    }
}

/// A pixel of the canvas belongs to its own region.
pub proof fn lemma_flood_holds_start(v: CanvasView, x: int, y: int)
    requires
        v.contains(x, y),
    ensures
        flood_region(v, x, y).contains((x, y)),
{
    let path = seq![(x, y)];
    assert(is_path(v, v.at(x, y), path) && path[0] == (x, y) && path.last() == (x, y));
}

/// How many entries of `s` have the value `v`.
spec fn count_of(s: Seq<u32>, v: u32) -> nat
    decreases s.len(),
{
    if s.len() == 0 {
        0
    } else {
        count_of(s.drop_last(), v) + if s.last() == v {
            1nat
        } else {
            0nat
        }
    }
}

proof fn lemma_count_update(s: Seq<u32>, k: int, v: u32, c: u32)
    requires
        0 <= k < s.len(),
        s[k] == v,
        c != v,
    ensures
        count_of(s.update(k, c), v) + 1 == count_of(s, v),
    decreases s.len(),
{
    let t = s.update(k, c);
    if k == s.len() - 1 {
        assert(t.drop_last() =~= s.drop_last());
    } else {
        assert(t.drop_last() =~= s.drop_last().update(k, c));
        lemma_count_update(s.drop_last(), k, v, c);
    }
}

/// The coordinates of a stack entry.
spec fn pt(q: (usize, usize)) -> (int, int) {
    (q.0 as int, q.1 as int)
}

/// Whether `q` is on the stack.
spec fn pending(stack: Seq<(usize, usize)>, q: (int, int)) -> bool {
    exists|k: int| 0 <= k < stack.len() && pt(#[trigger] stack[k]) == q
}

/// Whether nothing is left to do about `q`: it lies outside the canvas, has
/// another color than the seed, is filled, or is on the stack.
spec fn settled(
    orig: CanvasView,
    seed: u32,
    filled: Set<(int, int)>,
    stack: Seq<(usize, usize)>,
    q: (int, int),
) -> bool {
    !orig.contains(q.0, q.1) || orig.at(q.0, q.1) != seed || filled.contains(q) || pending(stack, q)
}

/// The state of a flood fill under way. `filled` has been recolored and is
/// part of the region, and so is every pixel on the stack. The neighbors of
/// a filled pixel are settled, but for the right neighbor of the pixel in
/// `hand`, the end of the run that is being filled.
#[verifier::opaque]
spec fn flood_inv(
    orig: CanvasView,
    cur: CanvasView,
    filled: Set<(int, int)>,
    hand: Set<(int, int)>,
    stack: Seq<(usize, usize)>,
    start: (int, int),
    seed: u32,
    color: u32,
) -> bool {
    &&& orig.wf()
    &&& seed != color
    &&& orig.contains(start.0, start.1)
    &&& orig.at(start.0, start.1) == seed
    &&& cur == orig.paint(filled, color)
    &&& filled.contains(start) || pending(stack, start)
    &&& forall|p: (int, int)| #[trigger]
        filled.contains(p) ==> orig.contains(p.0, p.1) && orig.at(p.0, p.1) == seed && connected(
            orig,
            start,
            p,
        )
    &&& forall|k: int|
        0 <= k < stack.len() ==> orig.contains(pt(#[trigger] stack[k]).0, pt(stack[k]).1) && orig.at(
            pt(stack[k]).0,
            pt(stack[k]).1,
        ) == seed && connected(orig, start, pt(stack[k]))
    &&& forall|p: (int, int), q: (int, int)|
        #![trigger filled.contains(p), adjacent(p, q)]
        filled.contains(p) && adjacent(p, q) && !(hand.contains(p) && q == (p.0 + 1, p.1))
            ==> settled(orig, seed, filled, stack, q)
}

/// With nothing in hand and nothing on the stack, the filled pixels are the
/// whole region.
proof fn lemma_flood_complete(
    orig: CanvasView,
    cur: CanvasView,
    filled: Set<(int, int)>,
    start: (int, int),
    seed: u32,
    color: u32,
)
    requires
        flood_inv(orig, cur, filled, Set::empty(), Seq::empty(), start, seed, color),
    ensures
        filled == flood_region(orig, start.0, start.1),
{
    reveal(flood_inv);
    assert(!pending(Seq::<(usize, usize)>::empty(), start));
    assert forall|p: (int, int), q: (int, int)|
        #![trigger filled.contains(p), adjacent(p, q)]
        filled.contains(p) && adjacent(p, q) && orig.contains(q.0, q.1) && orig.at(q.0, q.1) == orig.at(
            start.0,
            start.1,
        ) implies filled.contains(q) by {
        assert(settled(orig, seed, filled, Seq::<(usize, usize)>::empty(), q));
        assert(!pending(Seq::<(usize, usize)>::empty(), q));
    }
    lemma_flood_enclosed(orig, start.0, start.1, filled);
    assert(filled =~= flood_region(orig, start.0, start.1));
}

/// What is settled stays settled when a pixel is filled or pushed.
proof fn lemma_settled_grows(
    orig: CanvasView,
    seed: u32,
    filled: Set<(int, int)>,
    stack: Seq<(usize, usize)>,
    more: Set<(int, int)>,
    longer: Seq<(usize, usize)>,
    q: (int, int),
)
    requires
        settled(orig, seed, filled, stack, q),
        filled.subset_of(more),
        stack.len() <= longer.len(),
        forall|k: int| 0 <= k < stack.len() ==> longer[k] == stack[k],
    ensures
        settled(orig, seed, more, longer, q),
{
    if pending(stack, q) {
        let k = choose|k: int| 0 <= k < stack.len() && pt(#[trigger] stack[k]) == q;
        assert(pt(longer[k]) == q);
    }
}

/// The state after the pixel `c` of a run has been filled and the pixels
/// above and below it have been looked at.
proof fn lemma_run_step(
    orig: CanvasView,
    cur0: CanvasView,
    cur1: CanvasView,
    was: Set<(int, int)>,
    held: Set<(int, int)>,
    below: Seq<(usize, usize)>,
    now: Set<(int, int)>,
    stack: Seq<(usize, usize)>,
    start: (int, int),
    seed: u32,
    raw: u32,
    c: (int, int),
    first: bool,
)
    requires
        flood_inv(orig, cur0, was, held, below, start, seed, raw),
        cur1 == orig.paint(now, raw),
        now == was.insert(c),
        orig.contains(c.0, c.1),
        orig.at(c.0, c.1) == seed,
        connected(orig, start, c),
        below.len() <= stack.len(),
        forall|k: int| 0 <= k < below.len() ==> stack[k] == below[k],
        forall|k: int|
            below.len() <= k < stack.len() ==> orig.contains(pt(#[trigger] stack[k]).0, pt(stack[k]).1)
                && orig.at(pt(stack[k]).0, pt(stack[k]).1) == seed && connected(
                orig,
                start,
                pt(stack[k]),
            ),
        held == (if first {
            Set::<(int, int)>::empty()
        } else {
            Set::<(int, int)>::empty().insert((c.0 - 1, c.1))
        }),
        first ==> settled(orig, seed, was, below, (c.0 - 1, c.1)),
        !first ==> was.contains((c.0 - 1, c.1)),
        settled(orig, seed, now, stack, (c.0, c.1 - 1)),
        settled(orig, seed, now, stack, (c.0, c.1 + 1)),
    ensures
        flood_inv(orig, cur1, now, Set::<(int, int)>::empty().insert(c), stack, start, seed, raw),
{
    reveal(flood_inv);
    let hand = Set::<(int, int)>::empty().insert(c);
    if pending(below, start) {
        lemma_settled_grows(orig, seed, was, below, now, stack, start);
    }
    assert forall|k: int| 0 <= k < stack.len() implies orig.contains(
        pt(#[trigger] stack[k]).0,
        pt(stack[k]).1,
    ) && orig.at(pt(stack[k]).0, pt(stack[k]).1) == seed && connected(orig, start, pt(stack[k])) by {
        if k < below.len() {
            assert(stack[k] == below[k]);
        }
    }
    assert forall|p: (int, int), q: (int, int)|
        #![trigger now.contains(p), adjacent(p, q)]
        now.contains(p) && adjacent(p, q) && !(hand.contains(p) && q == (p.0 + 1, p.1)) implies settled(
        orig,
        seed,
        now,
        stack,
        q,
    ) by {
        if p == c {
            if q == (c.0 - 1, c.1) {
                if first {
                    lemma_settled_grows(orig, seed, was, below, now, stack, q);
                }
            }
        } else {
            assert(was.contains(p));
            if held.contains(p) && q == (p.0 + 1, p.1) {
                assert(q == c);
            } else {
                lemma_settled_grows(orig, seed, was, below, now, stack, q);
            }
        }
    }
}

/// The state after a run has come to its end.
proof fn lemma_run_end(
    orig: CanvasView,
    cur: CanvasView,
    now: Set<(int, int)>,
    stack: Seq<(usize, usize)>,
    start: (int, int),
    seed: u32,
    raw: u32,
    last: (int, int),
)
    requires
        flood_inv(orig, cur, now, Set::<(int, int)>::empty().insert(last), stack, start, seed, raw),
        settled(orig, seed, now, stack, (last.0 + 1, last.1)),
    ensures
        flood_inv(orig, cur, now, Set::empty(), stack, start, seed, raw),
{
    reveal(flood_inv);
    let hand = Set::<(int, int)>::empty().insert(last);
    assert forall|p: (int, int), q: (int, int)|
        #![trigger now.contains(p), adjacent(p, q)]
        now.contains(p) && adjacent(p, q) implies settled(orig, seed, now, stack, q) by {
        if hand.contains(p) && q == (p.0 + 1, p.1) {
            assert(p == last);
        }
    }
}

/// The end of the run that starts at `(x, y)`: the first column from `x` on
/// whose pixel in row `y` does not hold `seed`, or the width of the canvas.
pub open spec fn run_end(v: CanvasView, x: int, y: int, seed: u32) -> int
    decreases v.width - x,
{
    if x < v.width && v.at(x, y) == seed {
        run_end(v, x + 1, y, seed)
    } else {
        x
    }
}

/// The pixels of row `y` from column `x` up to, not including, column `cx`
/// hold `seed` and are connected with `(x, y)`.
#[verifier::opaque]
spec fn run_so_far(v: CanvasView, x: int, y: int, cx: int, seed: u32) -> bool {
    forall|k: int| x <= k < cx ==> #[trigger] in_run(v, x, y, k, seed)
}

/// The pixel in column `k` of row `y` holds `seed` and is connected with
/// `(x, y)`.
spec fn in_run(v: CanvasView, x: int, y: int, k: int, seed: u32) -> bool {
    v.at(k, y) == seed && connected(v, (x, y), (k, y))
}

/// A run of no pixels.
proof fn lemma_run_none(v: CanvasView, x: int, y: int, seed: u32)
    ensures
        run_so_far(v, x, y, x, seed),
{
    reveal(run_so_far);
}

/// A run grows by the seed-colored pixel to its right.
proof fn lemma_run_grows(v: CanvasView, x: int, y: int, cx: int, seed: u32)
    requires
        run_so_far(v, x, y, cx, seed),
        x <= cx,
        v.contains(x, y),
        v.contains(cx, y),
        v.at(x, y) == seed,
        v.at(cx, y) == seed,
    ensures
        run_so_far(v, x, y, cx + 1, seed),
{
    reveal(run_so_far);
    if cx == x {
        lemma_flood_holds_start(v, x, y);
    } else {
        assert(in_run(v, x, y, cx - 1, seed));
        lemma_connected_extend(v, (x, y), (cx - 1, y), (cx, y));
    }
    assert(in_run(v, x, y, cx, seed));
    assert forall|k: int| x <= k < cx + 1 implies #[trigger] in_run(v, x, y, k, seed) by {
        if k < cx {
            assert(in_run(v, x, y, k, seed));
        }
    }
}

/// Every pixel that the filling of a run has changed held the seed color,
/// holds the fill color, and is connected with the start of the run.
proof fn lemma_run_changed(v: CanvasView, after: CanvasView, x: int, y: int, cx: int, seed: u32, raw: u32)
    requires
        v.wf(),
        run_so_far(v, x, y, cx, seed),
        after == v.paint(hspan(y, x, cx - 1), raw),
    ensures
        forall|p: (int, int)|
            v.contains(p.0, p.1) && #[trigger] after.at(p.0, p.1) != v.at(p.0, p.1) ==> v.at(p.0, p.1)
                == seed && after.at(p.0, p.1) == raw && connected(v, (x, y), p),
{
    reveal(run_so_far);
    let run = hspan(y, x, cx - 1);
    assert forall|p: (int, int)|
        v.contains(p.0, p.1) && #[trigger] after.at(p.0, p.1) != v.at(p.0, p.1) implies v.at(p.0, p.1)
            == seed && after.at(p.0, p.1) == raw && connected(v, (x, y), p) by {
        lemma_paint_at(v, run, raw, p.0, p.1);
        assert(run.contains(p));
        assert(in_run(v, x, y, p.0, seed));
    }
}

impl Canvas {
    /// Pushes the pixel `(x, y)`, a neighbor in the column of the filled
    /// pixel `from`, if it still has the seed color.
    fn flood_push(
        &self,
        stack: &mut Vec<(usize, usize)>,
        x: usize,
        y: usize,
        seed: u32,
        raw: u32,
        Ghost(orig): Ghost<CanvasView>,
        Ghost(filled): Ghost<Set<(int, int)>>,
        Ghost(start): Ghost<(int, int)>,
        Ghost(from): Ghost<(int, int)>,
    )
        requires
            self.wf(),
            orig.wf(),
            seed != raw,
            self@ == orig.paint(filled, raw),
            orig.at(start.0, start.1) == seed,
            orig.contains(x as int, y as int),
            connected(orig, start, from),
            adjacent(from, (x as int, y as int)),
        ensures
            final(stack)@.len() >= old(stack)@.len(),
            forall|k: int| 0 <= k < old(stack)@.len() ==> final(stack)@[k] == old(stack)@[k],
            forall|k: int|
                old(stack)@.len() <= k < final(stack)@.len() ==> pt(#[trigger] final(stack)@[k]) == (
                    x as int,
                    y as int,
                ) && orig.at(x as int, y as int) == seed && connected(orig, start, (x as int, y as int)),
            settled(orig, seed, filled, final(stack)@, (x as int, y as int)),
    {
        proof {
            lemma_paint_at(orig, filled, raw, x as int, y as int);
        }
        if self.load(x, y) == seed {
            stack.push((x, y));
            proof {
                lemma_connected_extend(orig, start, from, (x as int, y as int));
                let last = stack@.len() - 1;
                assert(pt(stack@[last]) == (x as int, y as int));
            }
        }
    }

    /// Seed-find: from the seed-colored pixel `(x, y)`, walks up while the
    /// pixel above has the seed color, then left while the pixel to the left
    /// has it, and again until neither moves. The pixel found starts a run.
    fn flood_fill_start(
        &self,
        x: usize,
        y: usize,
        seed: u32,
        raw: u32,
        Ghost(orig): Ghost<CanvasView>,
        Ghost(filled): Ghost<Set<(int, int)>>,
        Ghost(start): Ghost<(int, int)>,
    ) -> (o: (usize, usize))
        requires
            self.wf(),
            orig.wf(),
            seed != raw,
            self@ == orig.paint(filled, raw),
            orig.at(start.0, start.1) == seed,
            orig.contains(x as int, y as int),
            self@.at(x as int, y as int) == seed,
            connected(orig, start, (x as int, y as int)),
        ensures
            orig.contains(o.0 as int, o.1 as int),
            self@.at(o.0 as int, o.1 as int) == seed,
            connected(orig, start, pt(o)),
            o.0 <= x,
            o.1 <= y,
            o.0 == 0 || self@.at(o.0 - 1, o.1 as int) != seed,
            o.1 == 0 || self@.at(o.0 as int, o.1 - 1) != seed,
    {
        let ghost x_in = x;
        let ghost y_in = y;
        let mut x: usize = x;
        let mut y: usize = y;
        let mut moved: bool = true;
        while moved
            invariant
                self.wf(),
                orig.wf(),
                seed != raw,
                self@ == orig.paint(filled, raw),
                orig.at(start.0, start.1) == seed,
                orig.contains(x as int, y as int),
                self@.at(x as int, y as int) == seed,
                connected(orig, start, (x as int, y as int)),
                x <= x_in,
                y <= y_in,
                !moved ==> x == 0 || self@.at(x - 1, y as int) != seed,
                !moved ==> y == 0 || self@.at(x as int, y - 1) != seed,
            decreases x + y + (if moved { 1int } else { 0int }),
        {
            let ox: usize = x;
            let oy: usize = y;
            while y != 0 && self.load(x, y - 1) == seed
                invariant
                    self.wf(),
                    orig.wf(),
                    seed != raw,
                    self@ == orig.paint(filled, raw),
                    orig.at(start.0, start.1) == seed,
                    orig.contains(x as int, y as int),
                    self@.at(x as int, y as int) == seed,
                    connected(orig, start, (x as int, y as int)),
                    y <= oy,
                    x == ox,
                decreases y,
            {
                proof {
                    lemma_paint_at(orig, filled, raw, x as int, y - 1);
                    lemma_connected_extend(orig, start, (x as int, y as int), (x as int, y - 1));
                }
                y = y - 1;
            }
            while x != 0 && self.load(x - 1, y) == seed
                invariant
                    self.wf(),
                    orig.wf(),
                    seed != raw,
                    self@ == orig.paint(filled, raw),
                    orig.at(start.0, start.1) == seed,
                    orig.contains(x as int, y as int),
                    self@.at(x as int, y as int) == seed,
                    connected(orig, start, (x as int, y as int)),
                    x <= ox,
                    y <= oy,
                    y == 0 || self@.at(ox as int, y - 1) != seed,
                decreases x,
            {
                proof {
                    lemma_paint_at(orig, filled, raw, x - 1, y as int);
                    lemma_connected_extend(orig, start, (x as int, y as int), (x - 1, y as int));
                }
                x = x - 1;
            }
            moved = !(x == ox && y == oy);
        }
        (x, y)
    }

    /// Scanline fill: from the start of a run at `(x, y)`, recolors the
    /// pixels to the right while they have the seed color, and pushes the
    /// seed-colored pixels above and below each of them. Exactly the run is
    /// recolored: the pixels of row `y` from column `x` up to the first that
    /// does not hold the seed color.
    fn flood_fill_core(
        &mut self,
        stack: &mut Vec<(usize, usize)>,
        x: usize,
        y: usize,
        seed: u32,
        raw: u32,
        Ghost(orig): Ghost<CanvasView>,
        Ghost(filled): Ghost<Set<(int, int)>>,
        Ghost(start): Ghost<(int, int)>,
    ) -> (now: Ghost<Set<(int, int)>>)
        requires
            old(self).wf(),
            flood_inv(orig, old(self)@, filled, Set::empty(), old(stack)@, start, seed, raw),
            orig.contains(x as int, y as int),
            old(self)@.at(x as int, y as int) == seed,
            connected(orig, start, (x as int, y as int)),
            x == 0 || old(self)@.at(x - 1, y as int) != seed,
        ensures
            final(self).wf(),
            final(self)@ == old(self)@.paint(
                hspan(y as int, x as int, run_end(old(self)@, x as int, y as int, seed) - 1),
                raw,
            ),
            final(self)@.at(x as int, y as int) == raw,
            forall|p: (int, int)|
                old(self)@.contains(p.0, p.1) && #[trigger] final(self)@.at(p.0, p.1) != old(self)@.at(
                    p.0,
                    p.1,
                ) ==> old(self)@.at(p.0, p.1) == seed && final(self)@.at(p.0, p.1) == raw && connected(
                    old(self)@,
                    (x as int, y as int),
                    p,
                ),
            now@ == filled.union(
                hspan(y as int, x as int, run_end(old(self)@, x as int, y as int, seed) - 1),
            ),
            filled.subset_of(now@),
            now@.contains((x as int, y as int)),
            final(stack)@.len() >= old(stack)@.len(),
            forall|k: int| 0 <= k < old(stack)@.len() ==> final(stack)@[k] == old(stack)@[k],
            flood_inv(orig, final(self)@, now@, Set::empty(), final(stack)@, start, seed, raw),
            count_of(final(self)@.pixels, seed) < count_of(old(self)@.pixels, seed),
    {
        proof {
            self.lemma_wf();
            reveal(flood_inv);
        }
        let ghost stack0 = stack@;
        let w: usize = self.width();
        let h: usize = self.height();
        let mut cx: usize = x;
        let ghost mut now: Set<(int, int)> = filled;
        let ghost mut hand: Set<(int, int)> = Set::empty();
        let ghost first = self@;
        let ghost row = y as int;
        proof {
            if x > 0 {
                lemma_paint_at(orig, filled, raw, x - 1, y as int);
            }
            assert(settled(orig, seed, now, stack@, (x - 1, row)));
            lemma_run_none(first, x as int, row, seed);
            lemma_paint_agree(first, hspan(row, x as int, cx - 1), Set::empty(), raw);
            lemma_paint_empty(first, raw);
            assert(now =~= filled.union(hspan(row, x as int, cx - 1)));
        }
        while cx < w && self.load(cx, y) == seed
            invariant
                self.wf(),
                orig.wf(),
                seed != raw,
                orig.at(start.0, start.1) == seed,
                w == orig.width,
                h == orig.height,
                y < h,
                x <= cx <= w,
                row == y,
                self@ == orig.paint(now, raw),
                flood_inv(orig, self@, now, hand, stack@, start, seed, raw),
                hand == (if cx == x {
                    Set::<(int, int)>::empty()
                } else {
                    Set::<(int, int)>::empty().insert((cx - 1, row))
                }),
                cx > x ==> now.contains((cx - 1, row)) && connected(orig, start, (cx - 1, row)),
                cx == x ==> connected(orig, start, (cx as int, row)),
                cx == x ==> self@ == first,
                cx > x ==> count_of(self@.pixels, seed) < count_of(first.pixels, seed),
                cx == x ==> settled(orig, seed, now, stack@, (x - 1, row)),
                first.wf(),
                first.width == orig.width,
                first.height == orig.height,
                first.at(x as int, row) == seed,
                self@ == first.paint(hspan(row, x as int, cx - 1), raw),
                now == filled.union(hspan(row, x as int, cx - 1)),
                run_end(first, cx as int, row, seed) == run_end(first, x as int, row, seed),
                run_so_far(first, x as int, row, cx as int, seed),
                stack@.len() >= stack0.len(),
                forall|k: int| 0 <= k < stack0.len() ==> stack@[k] == stack0[k],
            decreases w - cx,
        {
            let ghost c = (cx as int, row);
            let ghost before = self@;
            let ghost below = stack@;
            let ghost was = now;
            let ghost held = hand;
            proof {
                lemma_paint_at(orig, now, raw, cx as int, row);
                lemma_paint_at(first, hspan(row, x as int, cx - 1), raw, cx as int, row);
                lemma_index_in_range(orig.width, orig.height, cx as int, row);
                lemma_count_update(before.pixels, row * orig.width + cx, seed, raw);
                if cx > x {
                    lemma_connected_extend(orig, start, (cx - 1, row), c);
                }
                lemma_run_grows(first, x as int, row, cx as int, seed);
            }
            self.store(cx, y, raw);
            proof {
                now = was.insert(c);
                lemma_paint_union(orig, was, point(cx as int, row), raw);
                assert(was.union(point(cx as int, row)) =~= now);
                lemma_paint_union(first, hspan(row, x as int, cx - 1), point(cx as int, row), raw);
                assert(hspan(row, x as int, cx - 1).union(point(cx as int, row)) =~= hspan(
                    row,
                    x as int,
                    cx as int,
                ));
                assert(now =~= filled.union(hspan(row, x as int, cx as int)));
            }
            if y > 0 {
                self.flood_push(stack, cx, y - 1, seed, raw, Ghost(orig), Ghost(now), Ghost(start), Ghost(c));
            }
            let ghost middle = stack@;
            if y + 1 < h {
                self.flood_push(stack, cx, y + 1, seed, raw, Ghost(orig), Ghost(now), Ghost(start), Ghost(c));
            }
            proof {
                hand = Set::empty().insert(c);
                assert forall|k: int| 0 <= k < below.len() implies stack@[k] == below[k] by {
                    assert(middle[k] == below[k]);
                }
                assert forall|k: int| below.len() <= k < stack@.len() implies orig.contains(
                    pt(#[trigger] stack@[k]).0,
                    pt(stack@[k]).1,
                ) && orig.at(pt(stack@[k]).0, pt(stack@[k]).1) == seed && connected(
                    orig,
                    start,
                    pt(stack@[k]),
                ) by {
                    if k < middle.len() {
                        assert(stack@[k] == middle[k]);
                    }
                }
                if y > 0 {
                    lemma_settled_grows(orig, seed, now, middle, now, stack@, (c.0, c.1 - 1));
                }
                lemma_run_step(
                    orig,
                    before,
                    self@,
                    was,
                    held,
                    below,
                    now,
                    stack@,
                    start,
                    seed,
                    raw,
                    c,
                    cx == x,
                );
            }
            cx = cx + 1;
        }
        proof {
            let right = (cx as int, row);
            if cx < w {
                lemma_paint_at(orig, now, raw, cx as int, row);
                lemma_paint_at(first, hspan(row, x as int, cx - 1), raw, cx as int, row);
            }
            assert(settled(orig, seed, now, stack@, right));
            lemma_run_end(orig, self@, now, stack@, start, seed, raw, (cx - 1, row));
            assert(run_end(first, cx as int, row, seed) == cx);
            lemma_paint_at(first, hspan(row, x as int, cx - 1), raw, x as int, row);
            lemma_run_changed(first, self@, x as int, row, cx as int, seed, raw);
        }
        Ghost(now)
    }

    /// Recolors the region of `(x, y)`: every pixel that a chain of
    /// neighbors of the color found at `(x, y)` connects with it. Nothing
    /// changes where `(x, y)` lies outside the canvas or has the color
    /// `color` already.
    ///
    /// The pixels still to be looked at wait on a stack. For each of them
    /// that still has the seed color, the start of a run is sought upwards
    /// and to the left, and the run is filled to the right.
    pub fn flood_fill<C: ToColor>(&mut self, x: i32, y: i32, color: C)
        requires
            old(self).wf(),
        ensures
            final(self).wf(),
            final(self)@ == old(self)@.paint(
                flood_pixels(old(self)@, x as int, y as int, color.color_spec().0),
                color.color_spec().0,
            ),
            !old(self)@.contains(x as int, y as int) || old(self)@.at(x as int, y as int)
                == color.color_spec().0 ==> final(self)@ == old(self)@,
    {
        let color: Color = color.to_color();
        let ghost orig = self@;
        let raw: u32 = color.0;
        proof {
            self.lemma_wf();
            lemma_paint_empty(orig, raw);
        }
        let seed: u32 = match self.get_pixel(x, y) {
            Some(found) => found,
            None => {
                return ;
            },
        };
        if seed == raw {
            return ;
        }
        let ghost start = (x as int, y as int);
        let mut stack: Vec<(usize, usize)> = Vec::new();
        stack.push((x as usize, y as usize));
        let ghost mut filled: Set<(int, int)> = Set::empty();
        proof {
            reveal(flood_inv);
            lemma_flood_holds_start(orig, x as int, y as int);
            assert(pt(stack@[0]) == start);
        }
        while stack.len() > 0
            invariant
                self.wf(),
                flood_inv(orig, self@, filled, Set::empty(), stack@, start, seed, raw),
            decreases count_of(self@.pixels, seed), stack.len(),
        {
            let top: usize = stack.len() - 1;
            let q: (usize, usize) = stack[top];
            proof {
                reveal(flood_inv);
                assert(orig.contains(pt(stack@[top as int]).0, pt(stack@[top as int]).1));
                lemma_paint_at(orig, filled, raw, q.0 as int, q.1 as int);
            }
            if self.load(q.0, q.1) == seed {
                let o = self.flood_fill_start(q.0, q.1, seed, raw, Ghost(orig), Ghost(filled), Ghost(start));
                let now = self.flood_fill_core(
                    &mut stack,
                    o.0,
                    o.1,
                    seed,
                    raw,
                    Ghost(orig),
                    Ghost(filled),
                    Ghost(start),
                );
                proof {
                    filled = now@;
                }
            } else {
                let ghost above = stack@;
                stack.pop();
                proof {
                    assert(filled.contains(pt(q)));
                    assert forall|r: (int, int)| pending(above, r) implies pending(stack@, r)
                        || filled.contains(r) by {
                        let k = choose|k: int| 0 <= k < above.len() && pt(#[trigger] above[k]) == r;
                        if k < stack@.len() {
                            assert(stack@[k] == above[k]);
                            assert(pt(stack@[k]) == r);
                        }
                    }
                    assert forall|k: int| 0 <= k < stack@.len() implies orig.contains(
                        pt(#[trigger] stack@[k]).0,
                        pt(stack@[k]).1,
                    ) && orig.at(pt(stack@[k]).0, pt(stack@[k]).1) == seed && connected(
                        orig,
                        start,
                        pt(stack@[k]),
                    ) by {
                        assert(stack@[k] == above[k]);
                    }
                    assert forall|p: (int, int), r: (int, int)|
                        #![trigger filled.contains(p), adjacent(p, r)]
                        filled.contains(p) && adjacent(p, r) implies settled(
                        orig,
                        seed,
                        filled,
                        stack@,
                        r,
                    ) by {
                        assert(settled(orig, seed, filled, above, r));
                    }
                }
            }
        }
        proof {
            assert(stack@ =~= Seq::<(usize, usize)>::empty());
            lemma_flood_complete(orig, self@, filled, start, seed, raw);
        }
    }
}

} // verus!
