use vstd::prelude::*;

verus! {

/// The mathematical content of a canvas: its dimensions and its pixels in
/// row-major order.
pub struct CanvasView {
    pub width: int,
    pub height: int,
    pub pixels: Seq<u32>,
}

impl CanvasView {
    /// The pixel sequence has exactly `width * height` entries.
    pub open spec fn wf(self) -> bool {
        &&& 0 <= self.width
        &&& 0 <= self.height
        &&& self.pixels.len() == self.width * self.height
    }

    /// Whether `(x, y)` names a pixel of the canvas.
    pub open spec fn contains(self, x: int, y: int) -> bool {
        0 <= x < self.width && 0 <= y < self.height
    }

    /// The value of the pixel in column `x` of row `y`.
    pub open spec fn at(self, x: int, y: int) -> u32 {
        self.pixels[y * self.width + x]
    }

    /// The canvas in which every pixel whose coordinates lie in `region` has
    /// the value `color` and every other pixel is as in `self`. Coordinates
    /// of `region` outside the canvas have no effect.
    pub open spec fn paint(self, region: Set<(int, int)>, color: u32) -> CanvasView {
        CanvasView {
            width: self.width,
            height: self.height,
            pixels: Seq::new(
                self.pixels.len(),
                |k: int|
                    if region.contains((k % self.width, k / self.width)) {
                        color
                    } else {
                        self.pixels[k]
                    },
            ),
        }
    }
}

/// The single pixel `(x, y)`.
pub open spec fn point(x: int, y: int) -> Set<(int, int)> {
    Set::new(|p: (int, int)| p.0 == x && p.1 == y)
}

/// The pixels of row `y` in the columns from `x1` to `x2`, both included;
/// empty when `x1 > x2`.
pub open spec fn hspan(y: int, x1: int, x2: int) -> Set<(int, int)> {
    Set::new(|p: (int, int)| p.1 == y && x1 <= p.0 <= x2)
}

/// The pixels of column `x` in the rows from `y1` to `y2`, both included;
/// empty when `y1 > y2`.
pub open spec fn vspan(x: int, y1: int, y2: int) -> Set<(int, int)> {
    Set::new(|p: (int, int)| p.0 == x && y1 <= p.1 <= y2)
}

/// The pixels in the columns `x1 ..= x2` of the rows `y1 ..= y2`.
pub open spec fn block(x1: int, x2: int, y1: int, y2: int) -> Set<(int, int)> {
    Set::new(|p: (int, int)| x1 <= p.0 <= x2 && y1 <= p.1 <= y2)
}

/// The coordinates `(k % w, k / w)` of index `k = y * w + x` are `(x, y)`.
pub proof fn lemma_index_coords(w: int, x: int, y: int)
    requires
        0 <= x < w,
    ensures
        (y * w + x) % w == x,
        (y * w + x) / w == y,
{
    vstd::arithmetic::div_mod::lemma_fundamental_div_mod_converse(y * w + x, w, y, x);
}

/// Every index below `w * h` is `y * w + x` for its coordinates
/// `x = k % w < w` and `y = k / w < h`.
pub proof fn lemma_coords_index(w: int, h: int, k: int)
    requires
        0 <= k < w * h,
        0 <= w,
        0 <= h,
    ensures
        0 <= k % w < w,
        0 <= k / w < h,
        k == (k / w) * w + k % w,
{
    assert(w > 0) by (nonlinear_arith)
        requires
            0 <= k < w * h,
            0 <= w,
            0 <= h,
    ;
    vstd::arithmetic::div_mod::lemma_fundamental_div_mod(k, w);
    vstd::arithmetic::div_mod::lemma_mod_bound(k, w);
    let q = k / w;
    assert(w * q == q * w) by (nonlinear_arith);
    assert(0 <= q < h) by (nonlinear_arith)
        requires
            0 <= k < w * h,
            k == q * w + k % w,
            0 <= k % w < w,
            0 < w,
            0 <= h,
    ;
}

/// A pixel inside the canvas has an index inside the sequence.
pub proof fn lemma_index_in_range(w: int, h: int, x: int, y: int)
    requires
        0 <= x < w,
        0 <= y < h,
    ensures
        0 <= y * w + x < w * h,
{
    assert(0 <= y * w + x < w * h) by (nonlinear_arith)
        requires
            0 <= x < w,
            0 <= y < h,
    ;
}

/// What `paint` does, pixel by pixel.
pub proof fn lemma_paint_at(v: CanvasView, region: Set<(int, int)>, color: u32, x: int, y: int)
    requires
        v.wf(),
        v.contains(x, y),
    ensures
        v.paint(region, color).at(x, y) == if region.contains((x, y)) {
            color
        } else {
            v.at(x, y)
        },
{
    lemma_index_in_range(v.width, v.height, x, y);
    lemma_index_coords(v.width, x, y);
}

/// Two regions that agree on the pixels of the canvas paint alike.
pub proof fn lemma_paint_agree(v: CanvasView, a: Set<(int, int)>, b: Set<(int, int)>, color: u32)
    requires
        v.wf(),
        forall|x: int, y: int| v.contains(x, y) ==> (a.contains((x, y)) <==> b.contains((x, y))),
    ensures
        v.paint(a, color) == v.paint(b, color),
{
    let pa = v.paint(a, color);
    let pb = v.paint(b, color);
    assert forall|k: int| 0 <= k < v.pixels.len() implies pa.pixels[k] == pb.pixels[k] by {
        lemma_coords_index(v.width, v.height, k);
        assert(v.contains(k % v.width, k / v.width));
    }
    assert(pa.pixels =~= pb.pixels);
}

/// Painting the empty region changes nothing.
pub proof fn lemma_paint_empty(v: CanvasView, color: u32)
    ensures
        v.paint(Set::empty(), color) == v,
{
    assert(v.paint(Set::empty(), color).pixels =~= v.pixels);
}

/// Painting two regions in turn with one color paints their union.
pub proof fn lemma_paint_union(v: CanvasView, a: Set<(int, int)>, b: Set<(int, int)>, color: u32)
    ensures
        v.paint(a, color).paint(b, color) == v.paint(a.union(b), color),
        v.paint(a, color).wf() == v.wf(),
{
    assert(v.paint(a, color).paint(b, color).pixels =~= v.paint(a.union(b), color).pixels);
}

/// Drawing is idempotent: painting a region a second time with the same
/// color changes nothing.
pub proof fn lemma_paint_idempotent(v: CanvasView, a: Set<(int, int)>, color: u32)
    ensures
        v.paint(a, color).paint(a, color) == v.paint(a, color),
{
    lemma_paint_union(v, a, a, color);
    assert(a.union(a) =~= a);
}

} // verus!
