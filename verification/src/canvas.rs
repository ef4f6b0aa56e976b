use vstd::prelude::*;
use crate::color::{Color, ToColor};
use crate::view::{
    hspan, lemma_coords_index, lemma_index_coords, lemma_index_in_range, lemma_paint_agree,
    lemma_paint_empty, lemma_paint_union, point, vspan, CanvasView,
};

verus! {

/// The error of [`Canvas::new`]: the storage handed in does not hold exactly
/// `width * height` pixels.
#[derive(Debug, Clone, Copy, PartialEq, Eq, Structural)]
pub struct SizeMismatch {
    pub len: usize,
    pub width: usize,
    pub height: usize,
}

/// A pixel buffer of fixed dimensions, stored row by row.
pub struct Canvas {
    buffer: Vec<u32>,
    width: usize,
    height: usize,
    /// `width`, saturated to the largest signed coordinate.
    clamped_width: i64,
    /// `height`, saturated to the largest signed coordinate.
    clamped_height: i64,
}

impl View for Canvas {
    type V = CanvasView;

    closed spec fn view(&self) -> CanvasView {
        CanvasView { width: self.width as int, height: self.height as int, pixels: self.buffer@ }
    }
}

/// `n` saturated to the largest `i64`.
pub open spec fn saturate(n: int) -> int {
    if n > i64::MAX { i64::MAX as int } else { n }
}

pub(crate) fn saturated(n: usize) -> (c: i64)
    ensures
        c == saturate(n as int),
{
    if n as u64 > 0x7fff_ffff_ffff_ffffu64 {
        0x7fff_ffff_ffff_ffffi64
    } else {
        n as i64
    }
}

impl Canvas {
    /// The invariant of a canvas: the buffer holds `width * height` pixels,
    /// and the clamped dimensions are the saturated true ones.
    pub closed spec fn wf(&self) -> bool {
        &&& self@.wf()
        &&& self.clamped_width == saturate(self.width as int)
        &&& self.clamped_height == saturate(self.height as int)
    }

    /// A well-formed canvas has a well-formed view whose dimensions fit `usize`.
    pub proof fn lemma_wf(&self)
        requires
            self.wf(),
        ensures
            self@.wf(),
            self@.width <= usize::MAX,
            self@.height <= usize::MAX,
            self@.pixels.len() <= usize::MAX,
    {
        assert(self.buffer.len() <= usize::MAX);
    }

    /// Wraps `buffer` as a canvas of `width` columns and `height` rows.
    /// Fails exactly when the buffer's length is not `width * height`.
    pub fn new(buffer: Vec<u32>, width: usize, height: usize) -> (r: Result<Canvas, SizeMismatch>)
        ensures
            r.is_ok() <==> buffer@.len() == width * height,
            r matches Ok(c) ==> c.wf() && c@ == (CanvasView {
                width: width as int,
                height: height as int,
                pixels: buffer@,
            }),
            r matches Err(e) ==> e == (SizeMismatch { len: buffer@.len() as usize, width, height }),
    {
        let len: usize = buffer.len();
        proof {
            assert(0 <= (width as int) * (height as int) <= u128::MAX) by (nonlinear_arith)
                requires
                    0 <= width <= u64::MAX,
                    0 <= height <= u64::MAX,
            ;
        }
        let fits: bool = (len as u128) == (width as u128) * (height as u128);
        if fits {
            Ok(
                Canvas {
                    buffer,
                    width,
                    height,
                    clamped_width: saturated(width),
                    clamped_height: saturated(height),
                },
            )
        } else {
            Err(SizeMismatch { len, width, height })
        }
    }

    /// A canvas of `width` columns and `height` rows whose pixels are all zero.
    pub fn zeroed(width: usize, height: usize) -> (c: Canvas)
        requires
            width * height <= usize::MAX,
        ensures
            c.wf(),
            c@.width == width,
            c@.height == height,
            c@.pixels == Seq::new((width * height) as nat, |k: int| 0u32),
    {
        assert(0 <= width * height) by (nonlinear_arith);
        let n: usize = width * height;
        let buffer: Vec<u32> = vec![0u32; n];
        assert(buffer@ =~= Seq::new((width * height) as nat, |k: int| 0u32));
        Canvas {
            buffer,
            width,
            height,
            clamped_width: saturated(width),
            clamped_height: saturated(height),
        }
    }

    /// The number of columns.
    pub fn width(&self) -> (w: usize)
        ensures
            w == self@.width,
    {
        self.width
    }

    /// The number of rows.
    pub fn height(&self) -> (h: usize)
        ensures
            h == self@.height,
    {
        self.height
    }

    /// The pixels, row by row.
    pub fn buffer(&self) -> (b: &[u32])
        ensures
            b@ == self@.pixels,
    {
        self.buffer.as_slice()
    }

    /// The pixels, row by row, for writing. The canvas afterwards holds what
    /// the caller has left in the slice.
    pub fn buffer_mut(&mut self) -> (b: &mut [u32])
        requires
            old(self).wf(),
        ensures
            b@ == old(self)@.pixels,
            final(self)@.pixels == final(b)@,
            final(self)@.width == old(self)@.width,
            final(self)@.height == old(self)@.height,
            final(b)@.len() == b@.len() ==> final(self).wf(),
    {
        self.buffer.as_mut_slice()
    }

    /// The pixels in row-major order, each with its column and its row.
    pub fn pixel_iter(&self) -> (out: Vec<(usize, usize, u32)>)
        requires
            self.wf(),
        ensures
            out@.len() == self@.pixels.len(),
            forall|k: int|
                0 <= k < out@.len() ==> #[trigger] out@[k] == (
                    (k % self@.width) as usize,
                    (k / self@.width) as usize,
                    self@.pixels[k],
                ),
    {
        let mut out: Vec<(usize, usize, u32)> = Vec::new();
        let n: usize = self.buffer.len();
        let mut k: usize = 0;
        while k < n
            invariant
                self.wf(),
                n == self@.pixels.len(),
                k <= n,
                out@.len() == k,
                forall|j: int|
                    0 <= j < k ==> #[trigger] out@[j] == (
                        (j % self@.width) as usize,
                        (j / self@.width) as usize,
                        self@.pixels[j],
                    ),
            decreases n - k,
        {
            proof {
                lemma_coords_index(self@.width, self@.height, k as int);
            }
            out.push((k % self.width, k / self.width, self.buffer[k]));
            k = k + 1;
        }
        out
    }

    /// Gives the storage back.
    pub fn into_buffer(self) -> (b: Vec<u32>)
        ensures
            b@ == self@.pixels,
    {
        self.buffer
    }

    /// The pixel at `(x, y)`, or `None` outside the canvas.
    pub fn get_pixel(&self, x: i32, y: i32) -> (p: Option<u32>)
        requires
            self.wf(),
        ensures
            p == if self@.contains(x as int, y as int) {
                Some(self@.at(x as int, y as int))
            } else {
                None
            },
    {
        if 0 <= x && (x as i64) < self.clamped_width && 0 <= y && (y as i64) < self.clamped_height {
            Some(self.load(x as usize, y as usize))
        } else {
            None
        }
    }

    /// Reads one pixel known to lie inside the canvas.
    pub(crate) fn load(&self, x: usize, y: usize) -> (p: u32)
        requires
            self.wf(),
            self@.contains(x as int, y as int),
        ensures
            p == self@.at(x as int, y as int),
    {
        proof {
            self.lemma_wf();
            lemma_index_in_range(self@.width, self@.height, x as int, y as int);
            assert(0 <= (y as int) * (self.width as int)) by (nonlinear_arith)
                requires
                    0 <= y,
                    0 <= self.width,
            ;
        }
        self.buffer[y * self.width + x]
    }

    /// Writes one pixel known to lie inside the canvas.
    pub(crate) fn store(&mut self, x: usize, y: usize, raw: u32)
        requires
            old(self).wf(),
            old(self)@.contains(x as int, y as int),
        ensures
            final(self).wf(),
            final(self)@ == old(self)@.paint(point(x as int, y as int), raw),
            final(self)@.pixels == old(self)@.pixels.update(y * old(self)@.width + x, raw),
    {
        proof {
            self.lemma_wf();
            lemma_index_in_range(self@.width, self@.height, x as int, y as int);
            assert(0 <= (y as int) * (self.width as int)) by (nonlinear_arith)
                requires
                    0 <= y,
                    0 <= self.width,
            ;
        }
        let ghost before = self@;
        let idx: usize = y * self.width + x;
        self.buffer.set(idx, raw);
        proof {
            let painted = before.paint(point(x as int, y as int), raw);
            assert forall|k: int| 0 <= k < before.pixels.len() implies self@.pixels[k]
                == painted.pixels[k] by {
                lemma_coords_index(before.width, before.height, k);
                lemma_index_coords(before.width, x as int, y as int);
            }
            assert(self@.pixels =~= painted.pixels);
        }
    }

    /// Writes one pixel known to lie inside the canvas.
    pub(crate) fn put(&mut self, x: i64, y: i64, raw: u32)
        requires
            old(self).wf(),
            old(self)@.contains(x as int, y as int),
        ensures
            final(self).wf(),
            final(self)@ == old(self)@.paint(point(x as int, y as int), raw),
            final(self)@.pixels == old(self)@.pixels.update(y * old(self)@.width + x, raw),
    {
        proof {
            self.lemma_wf();
        }
        self.store(x as usize, y as usize, raw);
    }

    /// Sets the pixel at `(x, y)`, which the caller has shown to lie inside
    /// the canvas.
    pub fn set_pixel_unchecked<C: ToColor>(&mut self, x: i32, y: i32, color: C)
        requires
            old(self).wf(),
            old(self)@.contains(x as int, y as int),
        ensures
            final(self).wf(),
            final(self)@ == old(self)@.paint(point(x as int, y as int), color.color_spec().0),
            final(self)@.pixels == old(self)@.pixels.update(y * old(self)@.width + x, color.color_spec().0),
    {
        let color: Color = color.to_color();
        self.put(x as i64, y as i64, color.0);
    }

    /// Writes one pixel if it lies inside the canvas.
    pub(crate) fn dot(&mut self, x: i64, y: i64, raw: u32)
        requires
            old(self).wf(),
            x < i64::MAX,
            y < i64::MAX,
        ensures
            final(self).wf(),
            final(self)@ == old(self)@.paint(point(x as int, y as int), raw),
            old(self)@.contains(x as int, y as int) ==> final(self)@.pixels == old(
                self,
            )@.pixels.update(y * old(self)@.width + x, raw),
            !old(self)@.contains(x as int, y as int) ==> final(self)@ == old(self)@,
    {
        if 0 <= x && x < self.clamped_width && 0 <= y && y < self.clamped_height {
            self.put(x, y, raw);
        } else {
            proof {
                lemma_paint_agree(self@, point(x as int, y as int), Set::empty(), raw);
                lemma_paint_empty(self@, raw);
            }
        }
    }

    /// Sets the pixel at `(x, y)`; outside the canvas nothing changes.
    pub fn set_pixel<C: ToColor>(&mut self, x: i32, y: i32, color: C)
        requires
            old(self).wf(),
        ensures
            final(self).wf(),
            final(self)@ == old(self)@.paint(point(x as int, y as int), color.color_spec().0),
            old(self)@.contains(x as int, y as int) ==> final(self)@.pixels == old(
                self,
            )@.pixels.update(y * old(self)@.width + x, color.color_spec().0),
            !old(self)@.contains(x as int, y as int) ==> final(self)@ == old(self)@,
    {
        let color: Color = color.to_color();
        self.dot(x as i64, y as i64, color.0);
    }

    /// Paints the pixels of row `y` from column `x1` to column `x2`, both
    /// included, as far as they lie inside the canvas.
    pub(crate) fn span(&mut self, y: i64, x1: i64, x2: i64, raw: u32)
        requires
            old(self).wf(),
            y < i64::MAX,
            x1 < i64::MAX,
            x2 < i64::MAX,
        ensures
            final(self).wf(),
            final(self)@ == old(self)@.paint(hspan(y as int, x1 as int, x2 as int), raw),
    {
        let ghost before = self@;
        if 0 <= y && y < self.clamped_height && x1 <= x2 && 0 <= x2 && x1 < self.clamped_width {
            let from: i64 = if x1 < 0 { 0 } else { x1 };
            let to: i64 = if x2 < self.clamped_width { x2 } else { self.clamped_width - 1 };
            let mut k: i64 = from;
            proof {
                lemma_paint_agree(before, hspan(y as int, from as int, k - 1), Set::empty(), raw);
                lemma_paint_empty(before, raw);
            }
            while k <= to
                invariant
                    self.wf(),
                    before.wf(),
                    0 <= from <= k <= to + 1,
                    to < i64::MAX,
                    to < before.width,
                    0 <= y < before.height,
                    self@ == before.paint(hspan(y as int, from as int, k - 1), raw),
                decreases to + 1 - k,
            {
                self.put(k, y, raw);
                proof {
                    lemma_paint_union(
                        before,
                        hspan(y as int, from as int, k - 1),
                        point(k as int, y as int),
                        raw,
                    );
                    assert(hspan(y as int, from as int, k - 1).union(point(k as int, y as int))
                        =~= hspan(y as int, from as int, k as int));
                }
                k = k + 1;
            }
            proof {
                lemma_paint_agree(
                    before,
                    hspan(y as int, from as int, to as int),
                    hspan(y as int, x1 as int, x2 as int),
                    raw,
                );
            }
        } else {
            proof {
                lemma_paint_agree(before, hspan(y as int, x1 as int, x2 as int), Set::empty(), raw);
                lemma_paint_empty(before, raw);
            }
        }
    }

    /// Paints the pixels of column `x` from row `y1` to row `y2`, both
    /// included, as far as they lie inside the canvas.
    pub(crate) fn column(&mut self, x: i64, y1: i64, y2: i64, raw: u32)
        requires
            old(self).wf(),
            x < i64::MAX,
            y1 < i64::MAX,
            y2 < i64::MAX,
        ensures
            final(self).wf(),
            final(self)@ == old(self)@.paint(vspan(x as int, y1 as int, y2 as int), raw),
    {
        let ghost before = self@;
        if 0 <= x && x < self.clamped_width && y1 <= y2 && 0 <= y2 && y1 < self.clamped_height {
            let from: i64 = if y1 < 0 { 0 } else { y1 };
            let to: i64 = if y2 < self.clamped_height { y2 } else { self.clamped_height - 1 };
            let mut k: i64 = from;
            proof {
                lemma_paint_agree(before, vspan(x as int, from as int, k - 1), Set::empty(), raw);
                lemma_paint_empty(before, raw);
            }
            while k <= to
                invariant
                    self.wf(),
                    before.wf(),
                    0 <= from <= k <= to + 1,
                    to < i64::MAX,
                    to < before.height,
                    0 <= x < before.width,
                    self@ == before.paint(vspan(x as int, from as int, k - 1), raw),
                decreases to + 1 - k,
            {
                self.put(x, k, raw);
                proof {
                    lemma_paint_union(
                        before,
                        vspan(x as int, from as int, k - 1),
                        point(x as int, k as int),
                        raw,
                    );
                    assert(vspan(x as int, from as int, k - 1).union(point(x as int, k as int))
                        =~= vspan(x as int, from as int, k as int));
                }
                k = k + 1;
            }
            proof {
                lemma_paint_agree(
                    before,
                    vspan(x as int, from as int, to as int),
                    vspan(x as int, y1 as int, y2 as int),
                    raw,
                );
            }
        } else {
            proof {
                lemma_paint_agree(before, vspan(x as int, y1 as int, y2 as int), Set::empty(), raw);
                lemma_paint_empty(before, raw);
            }
        }
    }

    /// Overwrites every pixel with `color`.
    pub fn clear<C: ToColor>(&mut self, color: C)
        requires
            old(self).wf(),
        ensures
            final(self).wf(),
            final(self)@.width == old(self)@.width,
            final(self)@.height == old(self)@.height,
            final(self)@.pixels == Seq::new(old(self)@.pixels.len(), |k: int| color.color_spec().0),
            final(self)@ == old(self)@.paint(Set::full(), color.color_spec().0),
    {
        let color: Color = color.to_color();
        let ghost before = self@;
        let n: usize = self.buffer.len();
        let mut k: usize = 0;
        while k < n
            invariant
                self.wf(),
                self@.width == before.width,
                self@.height == before.height,
                n == self@.pixels.len(),
                k <= n,
                forall|j: int| 0 <= j < k ==> self@.pixels[j] == color.0,
            decreases n - k,
        {
            self.buffer.set(k, color.0);
            k = k + 1;
        }
        assert(self@.pixels =~= Seq::new(before.pixels.len(), |k: int| color.0));
        assert(self@.pixels =~= before.paint(Set::full(), color.0).pixels);
    }
}

} // verus!
