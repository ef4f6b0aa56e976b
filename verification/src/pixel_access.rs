use vstd::prelude::*;

verus! {

/// A way of writing a color onto a pixel.
pub trait PixelAccess {
    /// The value that a pixel of value `under` has after `raw` has been
    /// written onto it.
    spec fn written(under: u32, raw: u32) -> u32;

    /// Writes `raw` onto the pixel in column `x` of row `y` of a buffer
    /// whose rows are `stride` pixels long. The pixel has to lie inside the
    /// buffer.
    fn set_pixel_unchecked(buffer: &mut Vec<u32>, x: usize, y: usize, stride: usize, raw: u32)
        requires
            y * stride + x < old(buffer)@.len(),
        ensures
            final(buffer)@ == old(buffer)@.update(
                y * stride + x,
                Self::written(old(buffer)@[y * stride + x], raw),
            ),
    ;

    /// Writes `raw` onto every pixel of the buffer.
    fn fill(buffer: &mut Vec<u32>, raw: u32)
        ensures
            final(buffer)@.len() == old(buffer)@.len(),
            forall|k: int|
                0 <= k < old(buffer)@.len() ==> #[trigger] final(buffer)@[k] == Self::written(
                    old(buffer)@[k],
                    raw,
                ),
    ;
}

/// Writing that replaces the pixel.
pub struct NoAlphaAccess;

/// Writing that blends the color into the pixel by the color's fourth byte.
pub struct AlphaAccess;

/// Byte `i` of a packed value, the lowest being byte 0.
pub open spec fn byte_of(raw: u32, i: int) -> int {
    if i == 0 {
        (raw % 256) as int
    } else if i == 1 {
        ((raw / 256) % 256) as int
    } else if i == 2 {
        ((raw / 65536) % 256) as int
    } else {
        (raw / 16777216) as int
    }
}

/// One channel blended: `under` and `over` weighted by `255 - alpha` and
/// `alpha`.
pub open spec fn mixed(under: int, over: int, alpha: int) -> int {
    (under * (255 - alpha) + over * alpha) / 255
}

/// The pixel `under` with `over` blended into it by the fourth byte of
/// `over`; the fourth byte of `under` stays.
pub open spec fn blended(under: u32, over: u32) -> u32 {
    let alpha = byte_of(over, 3);
    (mixed(byte_of(under, 0), byte_of(over, 0), alpha) + mixed(
        byte_of(under, 1),
        byte_of(over, 1),
        alpha,
    ) * 256 + mixed(byte_of(under, 2), byte_of(over, 2), alpha) * 65536 + byte_of(under, 3)
        * 16777216) as u32
}

fn mix(under: u32, over: u32, alpha: u32) -> (m: u32)
    requires
        under <= 255,
        over <= 255,
        alpha <= 255,
    ensures
        m == mixed(under as int, over as int, alpha as int),
        m <= 255,
{
    assert(0 <= under * (255 - alpha) + over * alpha <= 255 * 255) by (nonlinear_arith)
        requires
            0 <= under <= 255,
            0 <= over <= 255,
            0 <= alpha <= 255,
    ;
    assert(0 <= under * (255 - alpha) <= 255 * 255) by (nonlinear_arith)
        requires
            0 <= under <= 255,
            0 <= alpha <= 255,
    ;
    assert(0 <= over * alpha <= 255 * 255) by (nonlinear_arith)
        requires
            0 <= over <= 255,
            0 <= alpha <= 255,
    ;
    (under * (255 - alpha) + over * alpha) / 255
}

impl AlphaAccess {
    /// Blends `over` into `under` by the fourth byte of `over`.
    pub fn blend(under: u32, over: u32) -> (r: u32)
        ensures
            r == blended(under, over),
    {
        let alpha: u32 = over / 16777216;
        let b: u32 = mix(under % 256, over % 256, alpha);
        let g: u32 = mix((under / 256) % 256, (over / 256) % 256, alpha);
        let r: u32 = mix((under / 65536) % 256, (over / 65536) % 256, alpha);
        let a: u32 = under / 16777216;
        b + g * 256 + r * 65536 + a * 16777216
    }
}

impl PixelAccess for NoAlphaAccess {
    open spec fn written(under: u32, raw: u32) -> u32 {
        raw
    }

    fn set_pixel_unchecked(buffer: &mut Vec<u32>, x: usize, y: usize, stride: usize, raw: u32) {
        assert(0 <= (y as int) * (stride as int)) by (nonlinear_arith);
        assert(buffer.len() <= usize::MAX);
        buffer.set(y * stride + x, raw);
    }

    fn fill(buffer: &mut Vec<u32>, raw: u32) {
        let n: usize = buffer.len();
        let mut k: usize = 0;
        while k < n
            invariant
                k <= n,
                n == buffer@.len(),
                buffer@.len() == old(buffer)@.len(),
                forall|j: int| 0 <= j < k ==> #[trigger] buffer@[j] == raw,
            decreases n - k,
        {
            buffer.set(k, raw);
            k = k + 1;
        }
    }
}

impl PixelAccess for AlphaAccess {
    open spec fn written(under: u32, raw: u32) -> u32 {
        blended(under, raw)
    }

    fn set_pixel_unchecked(buffer: &mut Vec<u32>, x: usize, y: usize, stride: usize, raw: u32) {
        assert(0 <= (y as int) * (stride as int)) by (nonlinear_arith);
        assert(buffer.len() <= usize::MAX);
        let idx: usize = y * stride + x;
        let under: u32 = buffer[idx];
        buffer.set(idx, AlphaAccess::blend(under, raw));
    }

    fn fill(buffer: &mut Vec<u32>, raw: u32) {
        let n: usize = buffer.len();
        let mut k: usize = 0;
        while k < n
            invariant
                k <= n,
                n == buffer@.len(),
                buffer@.len() == old(buffer)@.len(),
                forall|j: int| 0 <= j < k ==> #[trigger] buffer@[j] == blended(old(buffer)@[j], raw),
                forall|j: int| k <= j < n ==> #[trigger] buffer@[j] == old(buffer)@[j],
            decreases n - k,
        {
            let under: u32 = buffer[k];
            buffer.set(k, AlphaAccess::blend(under, raw));
            k = k + 1;
        }
    }
}

} // verus!
