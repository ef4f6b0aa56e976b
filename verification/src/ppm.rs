use vstd::prelude::*;
use crate::canvas::Canvas;

verus! {

/// The decimal digits of `n` in ASCII.
pub open spec fn decimal(n: nat) -> Seq<u8>
    decreases n,
{
    if n < 10 {
        seq![(48 + n) as u8]
    } else {
        decimal(n / 10).push((48 + n % 10) as u8)
    }
}

/// The header line `P6 <width> <height> 255`, ended by a line feed.
pub open spec fn ppm_header(width: nat, height: nat) -> Seq<u8> {
    seq![80u8, 54u8, 32u8] + decimal(width) + seq![32u8] + decimal(height) + seq![
        32u8,
        50u8,
        53u8,
        53u8,
        10u8,
    ]
}

/// Channel `c` of a packed color: 0 is red, 1 is green, 2 is blue.
pub open spec fn channel(raw: u32, c: int) -> u8 {
    if c == 0 {
        ((raw / 65536) % 256) as u8
    } else if c == 1 {
        ((raw / 256) % 256) as u8
    } else {
        (raw % 256) as u8
    }
}

/// Three bytes for each pixel: red, green, blue.
pub open spec fn ppm_body(pixels: Seq<u32>) -> Seq<u8> {
    Seq::new(3 * pixels.len(), |k: int| channel(pixels[k / 3], k % 3))
}

/// The image file: the header, then the body.
pub open spec fn ppm(pixels: Seq<u32>, width: nat, height: nat) -> Seq<u8> {
    ppm_header(width, height) + ppm_body(pixels)
}

fn push_decimal(out: &mut Vec<u8>, n: usize)
    ensures
        final(out)@ == old(out)@ + decimal(n as nat),
    decreases n,
{
    if n < 10 {
        out.push(48 + n as u8);
        assert(out@ =~= old(out)@ + decimal(n as nat));
    } else {
        push_decimal(out, n / 10);
        out.push(48 + (n % 10) as u8);
        assert(out@ =~= old(out)@ + decimal(n as nat));
    }
}

/// The bytes of the image file for `buffer`, announced as `width` columns
/// and `height` rows: the header line and three bytes for every pixel of
/// the buffer, the fourth byte of each left out.
pub fn encode_buffer(buffer: &[u32], width: usize, height: usize) -> (out: Vec<u8>)
    ensures
        out@ == ppm(buffer@, width as nat, height as nat),
{
    let mut out: Vec<u8> = Vec::new();
    out.push(80);
    out.push(54);
    out.push(32);
    push_decimal(&mut out, width);
    out.push(32);
    push_decimal(&mut out, height);
    out.push(32);
    out.push(50);
    out.push(53);
    out.push(53);
    out.push(10);
    let ghost header = ppm_header(width as nat, height as nat);
    assert(out@ =~= header);
    let n: usize = buffer.len();
    let mut k: usize = 0;
    while k < n
        invariant
            k <= n,
            n == buffer@.len(),
            out@.len() == header.len() + 3 * k,
            forall|j: int| 0 <= j < header.len() ==> out@[j] == header[j],
            forall|j: int|
                header.len() <= j < header.len() + 3 * k ==> #[trigger] out@[j] == channel(
                    buffer@[(j - header.len()) / 3],
                    (j - header.len()) % 3,
                ),
        decreases n - k,
    {
        let p: u32 = buffer[k];
        out.push(((p / 65536) % 256) as u8);
        out.push(((p / 256) % 256) as u8);
        out.push((p % 256) as u8);
        k = k + 1;
    }
    assert(out@ =~= header + ppm_body(buffer@));
    out
}

/// The bytes of the image file for `canvas`.
pub fn encode_canvas(canvas: &Canvas) -> (out: Vec<u8>)
    ensures
        out@ == ppm(canvas@.pixels, canvas@.width as nat, canvas@.height as nat),
{
    encode_buffer(canvas.buffer(), canvas.width(), canvas.height())
}

} // verus!
