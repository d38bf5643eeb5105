//! Quantization of fixed-point colours to eight-bit channels, and the
//! textual pixel-image byte stream: a three-line header (`P3`, the
//! dimensions, `255`), then one `r g b` line per pixel, row-major.

use crate::fixed::floor_div;
use crate::fixed::lemma_abs_mul;
use crate::fixed::lemma_div_bounds;
use crate::vec3::Color;
use crate::ONE;
use vstd::prelude::*;

verus! {

/// One output pixel: three eight-bit channels.
#[derive(Clone, Copy, Debug, PartialEq, Eq, Structural)]
pub struct Rgb {
    pub r: u8,
    pub g: u8,
    pub b: u8,
}

/// Quantization of one fixed-point channel: the floor of the channel
/// scaled by 255.999, forced into `[0, 255]`.
pub open spec fn spec_quantize(c: int) -> int {
    let q = c * 255_999 / 1_000_000_000;
    if q < 0 {
        0
    } else if q > 255 {
        255
    } else {
        q
    }
}

/// Quantize one channel to eight bits.
pub fn quantize(c: i64) -> (r: u8)
    ensures
        r as int == spec_quantize(c as int),
{
    proof {
        lemma_abs_mul(c as int, 255_999, 9_223_372_036_854_775_808, 255_999);
        lemma_div_bounds(
            c as int * 255_999,
            1_000_000_000,
            2_361_183_241_690_000_000,
        );
    }
    let q = floor_div(c as i128 * 255_999, 1_000_000_000);
    if q < 0 {
        0
    } else if q > 255 {
        255
    } else {
        q as u8
    }
}

/// Quantize all three channels of a colour.
pub open spec fn spec_rgb_of(c: Color) -> Rgb {
    Rgb {
        r: spec_quantize(c@.0) as u8,
        g: spec_quantize(c@.1) as u8,
        b: spec_quantize(c@.2) as u8,
    }
}

pub fn rgb_of(c: Color) -> (r: Rgb)
    ensures
        r == spec_rgb_of(c),
{
    Rgb { r: quantize(c.x), g: quantize(c.y), b: quantize(c.z) }
}

/// The decimal digits of a nonnegative number, most significant first,
/// as ASCII bytes.
pub open spec fn dec_seq(n: int) -> Seq<u8>
    decreases n,
{
    if n < 10 {
        seq![(48 + if n >= 0 { n } else { 0 }) as u8]
    } else {
        dec_seq(n / 10).push((48 + n % 10) as u8)
    }
}

/// The decimal digits of `n` as ASCII bytes.
pub fn dec_u64(n: u64) -> (r: Vec<u8>)
    ensures
        r@ == dec_seq(n as int),
    decreases n,
{
    if n < 10 {
        let mut v: Vec<u8> = Vec::new();
        v.push(48 + n as u8);
        proof {
            assert(v@ =~= dec_seq(n as int));
        }
        v
    } else {
        let mut v = dec_u64(n / 10);
        v.push(48 + (n % 10) as u8);
        v
    }
}

/// One pixel's line: the three channels separated by spaces, then a
/// newline (bytes 32 and 10).
pub open spec fn line_seq(p: Rgb) -> Seq<u8> {
    dec_seq(p.r as int) + seq![32u8] + dec_seq(p.g as int) + seq![32u8] + dec_seq(p.b as int)
        + seq![10u8]
}

/// The three header lines: `P3`, the dimensions, and the channel maximum
/// 255 (bytes 80 and 51 spell `P3`).
pub open spec fn header_seq(w: int, h: int) -> Seq<u8> {
    seq![80u8, 51u8, 10u8] + dec_seq(w) + seq![32u8] + dec_seq(h) + seq![10u8] + dec_seq(255)
        + seq![10u8]
}

/// The pixel lines of a row-major pixel sequence, in order.
pub open spec fn lines_seq(pixels: Seq<Rgb>) -> Seq<u8>
    decreases pixels.len(),
{
    if pixels.len() == 0 {
        Seq::empty()
    } else {
        lines_seq(pixels.drop_last()) + line_seq(pixels.last())
    }
}

/// The whole image: header then pixel lines.
pub open spec fn ppm_seq(w: int, h: int, pixels: Seq<Rgb>) -> Seq<u8> {
    header_seq(w, h) + lines_seq(pixels)
}

/// Append one pixel's line to the buffer.
fn push_line(out: &mut Vec<u8>, p: Rgb)
    ensures
        final(out)@ == old(out)@ + line_seq(p),
{
    let mut d = dec_u64(p.r as u64);
    out.append(&mut d);
    out.push(32);
    let mut d = dec_u64(p.g as u64);
    out.append(&mut d);
    out.push(32);
    let mut d = dec_u64(p.b as u64);
    out.append(&mut d);
    out.push(10);
    proof {
        assert(final(out)@ =~= old(out)@ + line_seq(p));
    }
}

/// The full textual image for a row-major pixel buffer.
pub fn ppm_bytes(width: u64, height: u64, pixels: &Vec<Rgb>) -> (r: Vec<u8>)
    ensures
        r@ == ppm_seq(width as int, height as int, pixels@),
{
    let mut out: Vec<u8> = Vec::new();
    out.push(80);
    out.push(51);
    out.push(10);
    let mut d = dec_u64(width);
    out.append(&mut d);
    out.push(32);
    let mut d = dec_u64(height);
    out.append(&mut d);
    out.push(10);
    let mut d = dec_u64(255);
    out.append(&mut d);
    out.push(10);
    proof {
        assert(out@ =~= header_seq(width as int, height as int));
        assert(pixels@.take(0) =~= Seq::<Rgb>::empty());
    }
    let n = pixels.len();
    let mut i: usize = 0;
    while i < n
        invariant
            n == pixels@.len(),
            0 <= i <= n,
            out@ == header_seq(width as int, height as int) + lines_seq(pixels@.take(i as int)),
        decreases n - i,
    {
        push_line(&mut out, pixels[i]);
        proof {
            assert(pixels@.take(i as int + 1).drop_last() =~= pixels@.take(i as int));
            assert(out@ =~= header_seq(width as int, height as int) + lines_seq(
                pixels@.take(i as int + 1),
            ));
        }
        i = i + 1;
    }
    proof {
        assert(pixels@.take(n as int) =~= pixels@);
    }
    out
}

/// One pixel of the demonstration gradient: red grows with the column,
/// green with the row, blue stays zero; 256 columns per row.
pub open spec fn spec_gradient_pixel(k: int) -> Rgb {
    Rgb {
        r: spec_quantize((k % 256) * ONE as int / 255) as u8,
        g: spec_quantize((k / 256) * ONE as int / 255) as u8,
        b: 0,
    }
}

/// The 256 by 256 demonstration gradient, row-major.
pub open spec fn spec_gradient_pixels() -> Seq<Rgb> {
    Seq::new(65536nat, |k: int| spec_gradient_pixel(k))
}

/// The textual bytes of the demonstration gradient image: each channel
/// is the pixel coordinate scaled into one unit, then quantized.
pub fn create() -> (r: Vec<u8>)
    ensures
        r@ == ppm_seq(256, 256, spec_gradient_pixels()),
{
    let mut pixels: Vec<Rgb> = Vec::new();
    let mut j: u64 = 0;
    while j < 256
        invariant
            0 <= j <= 256,
            pixels@.len() == j * 256,
            pixels@ == spec_gradient_pixels().take((j * 256) as int),
        decreases 256 - j,
    {
        let mut i: u64 = 0;
        while i < 256
            invariant
                0 <= j < 256,
                0 <= i <= 256,
                pixels@.len() == j * 256 + i,
                pixels@ == spec_gradient_pixels().take((j * 256 + i) as int),
            decreases 256 - i,
        {
            let cr = floor_div(i as i128 * ONE as i128, 255) as i64;
            let cg = floor_div(j as i128 * ONE as i128, 255) as i64;
            let p = Color::new(cr, cg, 0);
            pixels.push(rgb_of(p));
            proof {
                let k = (j * 256 + i) as int;
                assert((k % 256) == i as int && (k / 256) == j as int) by (nonlinear_arith)
                    requires
                        k == j * 256 + i,
                        0 <= i < 256,
                        0 <= j < 256,
                {
                }
                assert(spec_rgb_of(p) == spec_gradient_pixel(k));
                assert(pixels@ =~= spec_gradient_pixels().take(k + 1));
            }
            i = i + 1;
        }
        j = j + 1;
    }
    proof {
        assert(spec_gradient_pixels().take(65536) =~= spec_gradient_pixels());
    }
    ppm_bytes(256, 256, &pixels)
}

} // verus!
