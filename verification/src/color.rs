//! Conversion of limited-range YUV to BGRA, for BT.601 and BT.709.
//!
//! The chroma planes of 4:2:0 pictures are upsampled with bilinear
//! interpolation. Pixels are 32-bit words with alpha in the top byte, then red,
//! green and blue.
use vstd::arithmetic::div_mod::*;
use vstd::prelude::*;

use crate::arith;

verus! {

/// The standard that relates YUV to RGB.
#[derive(Debug, Clone, Copy, PartialEq, Eq, Structural)]
pub enum ColorMatrix {
    Bt601,
    Bt709,
}

/// Luma above black, never negative.
pub open spec fn luma_excess(y: u8) -> int {
    if y < 16 {
        0
    } else {
        y - 16
    }
}

/// Red, with coefficients in 1024ths: 1.164 Y + 1.596 V or 1.793 V.
pub open spec fn red(y: u8, v: u8, matrix: ColorMatrix) -> int {
    let k: int = match matrix {
        ColorMatrix::Bt601 => 1634,
        ColorMatrix::Bt709 => 1836,
    };
    arith::clipped(0, 255, (1192 * luma_excess(y) + k * (v - 128) + 512) / 1024)
}

/// Green: 1.164 Y - 0.392 U - 0.813 V, or 0.213 U and 0.534 V.
pub open spec fn green(y: u8, u: u8, v: u8, matrix: ColorMatrix) -> int {
    let (k, l): (int, int) = match matrix {
        ColorMatrix::Bt601 => (401, 832),
        ColorMatrix::Bt709 => (218, 547),
    };
    arith::clipped(
        0,
        255,
        (1192 * luma_excess(y) - k * (u - 128) - l * (v - 128) + 512) / 1024,
    )
}

/// Blue: 1.164 Y + 2.017 U or 2.115 U.
pub open spec fn blue(y: u8, u: u8, matrix: ColorMatrix) -> int {
    let k: int = match matrix {
        ColorMatrix::Bt601 => 2065,
        ColorMatrix::Bt709 => 2165,
    };
    arith::clipped(0, 255, (1192 * luma_excess(y) + k * (u - 128) + 512) / 1024)
}

/// An opaque pixel.
pub open spec fn bgra(r: int, g: int, b: int) -> int {
    0xFF00_0000 + 0x1_0000 * r + 0x100 * g + b
}

/// The pixel that a YUV triplet stands for.
pub open spec fn pixel(y: u8, u: u8, v: u8, matrix: ColorMatrix) -> int {
    bgra(red(y, v, matrix), green(y, u, v, matrix), blue(y, u, matrix))
}

/// Converts one limited-range YUV triplet.
pub fn yuv_to_bgra(y: u8, u: u8, v: u8, matrix: ColorMatrix) -> (r: u32)
    ensures
        r == pixel(y, u, v, matrix),
{
    let yy: i32 = if y < 16 {
        0
    } else {
        y as i32 - 16
    };
    let uu: i32 = u as i32 - 128;
    let vv: i32 = v as i32 - 128;
    let (r, g, b): (i32, i32, i32) = match matrix {
        ColorMatrix::Bt601 => (
            1192 * yy + 1634 * vv + 512,
            1192 * yy - 401 * uu - 832 * vv + 512,
            1192 * yy + 2065 * uu + 512,
        ),
        ColorMatrix::Bt709 => (
            1192 * yy + 1836 * vv + 512,
            1192 * yy - 218 * uu - 547 * vv + 512,
            1192 * yy + 2165 * uu + 512,
        ),
    };
    let red: u8 = arith::clip_sample(arith::asr10(r));
    let green: u8 = arith::clip_sample(arith::asr10(g));
    let blue: u8 = arith::clip_sample(arith::asr10(b));
    0xFF00_0000 + 0x1_0000 * red as u32 + 0x100 * green as u32 + blue as u32
}

/// The chroma sample to the left of (or above) luma position `x`. Chroma
/// samples lie in the middle between two luma samples.
pub open spec fn tap(x: int) -> int {
    if x == 0 {
        0
    } else {
        (x - 1) / 2
    }
}

/// How far luma position `x` lies beyond `tap(x)`, in quarters of the distance
/// to the next chroma sample.
pub open spec fn tap_weight(x: int) -> int {
    if x == 0 {
        0
    } else if x % 2 == 0 {
        3
    } else {
        1
    }
}

/// The sample behind `t`, or `t` itself at the end.
pub open spec fn next_tap(t: int, len: int) -> int {
    if t + 1 < len {
        t + 1
    } else {
        len - 1
    }
}

/// The chroma plane, upsampled to luma position `(x, y)`.
pub open spec fn upsampled(plane: Seq<u8>, cw: int, ch: int, x: int, y: int) -> int {
    let (x0, y0) = (tap(x), tap(y));
    let (x1, y1) = (next_tap(x0, cw), next_tap(y0, ch));
    let (fx, fy) = (tap_weight(x), tap_weight(y));
    (plane[y0 * cw + x0] * (4 - fx) * (4 - fy) + plane[y0 * cw + x1] * fx * (4 - fy) + plane[y1 * cw
        + x0] * (4 - fx) * fy + plane[y1 * cw + x1] * fx * fy) / 16
}

/// The pixel at luma position `(x, y)` of a 4:2:0 picture.
pub open spec fn picture_pixel(
    width: int,
    height: int,
    y_plane: Seq<u8>,
    u_plane: Seq<u8>,
    v_plane: Seq<u8>,
    matrix: ColorMatrix,
    x: int,
    y: int,
) -> int {
    pixel(
        y_plane[y * width + x],
        upsampled(u_plane, width / 2, height / 2, x, y) as u8,
        upsampled(v_plane, width / 2, height / 2, x, y) as u8,
        matrix,
    )
}

proof fn cell_bound(width: int, height: int, x: int, y: int)
    requires
        0 <= x < width,
        0 <= y < height,
    ensures
        0 <= y * width,
        0 <= y * width + x < width * height,
{
    assert(0 <= y * width && y * width + x < width * height) by (nonlinear_arith)
        requires
            0 <= x < width,
            0 <= y < height,
    ;
}

/// `s * a * b` for a sample and two weights in quarters.
fn weighted(s: u8, a: u32, b: u32) -> (r: u32)
    requires
        a <= 4,
        b <= 4,
    ensures
        r == s * a * b,
        r <= 4080,
{
    assert(s * a <= 1020) by (nonlinear_arith)
        requires
            s <= 255,
            a <= 4,
    ;
    let t: u32 = s as u32 * a;
    assert(t * b <= 4080) by (nonlinear_arith)
        requires
            t <= 1020,
            b <= 4,
    ;
    t * b
}

proof fn upsampled_is_byte(plane: Seq<u8>, cw: int, ch: int, x: int, y: int)
    ensures
        0 <= upsampled(plane, cw, ch, x, y) <= 255,
{
    let (x0, y0) = (tap(x), tap(y));
    let (x1, y1) = (next_tap(x0, cw), next_tap(y0, ch));
    let (fx, fy) = (tap_weight(x), tap_weight(y));
    blend_bound(
        plane[y0 * cw + x0] as int,
        plane[y0 * cw + x1] as int,
        plane[y1 * cw + x0] as int,
        plane[y1 * cw + x1] as int,
        fx,
        fy,
    );
}

proof fn blend_bound(a: int, b: int, c: int, d: int, fx: int, fy: int)
    requires
        0 <= a <= 255,
        0 <= b <= 255,
        0 <= c <= 255,
        0 <= d <= 255,
        0 <= fx <= 4,
        0 <= fy <= 4,
    ensures
        0 <= a * (4 - fx) * (4 - fy) + b * fx * (4 - fy) + c * (4 - fx) * fy + d * fx * fy <= 4080,
{
    let p = a * (4 - fx) + b * fx;
    let q = c * (4 - fx) + d * fx;
    assert(0 <= p <= 1020) by (nonlinear_arith)
        requires
            p == a * (4 - fx) + b * fx,
            0 <= a <= 255,
            0 <= b <= 255,
            0 <= fx <= 4,
    ;
    assert(0 <= q <= 1020) by (nonlinear_arith)
        requires
            q == c * (4 - fx) + d * fx,
            0 <= c <= 255,
            0 <= d <= 255,
            0 <= fx <= 4,
    ;
    assert(a * (4 - fx) * (4 - fy) + b * fx * (4 - fy) + c * (4 - fx) * fy + d * fx * fy == p * (4
        - fy) + q * fy) by (nonlinear_arith)
        requires
            p == a * (4 - fx) + b * fx,
            q == c * (4 - fx) + d * fx,
    ;
    assert(0 <= p * (4 - fy) + q * fy <= 4080) by (nonlinear_arith)
        requires
            0 <= p <= 1020,
            0 <= q <= 1020,
            0 <= fy <= 4,
    ;
}

/// The chroma sample before a luma position, the one behind it and the weight
/// of the latter, in quarters.
fn taps(x: u32, len: u32) -> (r: (u32, u32, u32))
    requires
        0 < len,
        x <= 2 * len,
    ensures
        r.0 == tap(x as int),
        r.1 == next_tap(tap(x as int), len as int),
        r.2 == tap_weight(x as int),
        r.0 < len,
        r.1 < len,
        r.2 <= 3,
{
    let t: u32 = if x == 0 {
        0
    } else {
        (x - 1) / 2
    };
    let next: u32 = if t < len - 1 {
        t + 1
    } else {
        len - 1
    };
    let weight: u32 = if x == 0 {
        0
    } else if x % 2 == 0 {
        3
    } else {
        1
    };
    (t, next, weight)
}

fn fetch(plane: &[u8], width: u32, height: u32, x: u32, y: u32) -> (r: u8)
    requires
        plane@.len() == width * height,
        x < width,
        y < height,
    ensures
        r == plane@[y * width + x],
{
    proof {
        cell_bound(width as int, height as int, x as int, y as int);
        assert(plane.len() == plane@.len());
    }
    plane[y as usize * width as usize + x as usize]
}

fn upsample(plane: &[u8], cw: u32, ch: u32, x: u32, y: u32) -> (r: u8)
    requires
        plane@.len() == cw * ch,
        0 < cw,
        0 < ch,
        x <= 2 * cw,
        y <= 2 * ch,
    ensures
        r == upsampled(plane@, cw as int, ch as int, x as int, y as int),
{
    let (x0, x1, fx): (u32, u32, u32) = taps(x, cw);
    let (y0, y1, fy): (u32, u32, u32) = taps(y, ch);
    let sum: u32 = weighted(fetch(plane, cw, ch, x0, y0), 4 - fx, 4 - fy) + weighted(
        fetch(plane, cw, ch, x1, y0),
        fx,
        4 - fy,
    ) + weighted(fetch(plane, cw, ch, x0, y1), 4 - fx, fy) + weighted(
        fetch(plane, cw, ch, x1, y1),
        fx,
        fy,
    );
    proof {
        upsampled_is_byte(plane@, cw as int, ch as int, x as int, y as int);
    }
    (sum / 16) as u8
}

/// Converts a 4:2:0 picture to tightly packed pixels, row by row. The luma
/// plane has `width * height` samples, each chroma plane half as many in each
/// direction (rounded down), so that a picture that is not empty has at least
/// two rows and two columns.
pub fn yuv420_to_bgra(
    width: u32,
    height: u32,
    y_plane: &[u8],
    u_plane: &[u8],
    v_plane: &[u8],
    matrix: ColorMatrix,
) -> (r: Vec<u32>)
    requires
        width * height <= u32::MAX,
        y_plane@.len() == width * height,
        u_plane@.len() == (width / 2) * (height / 2),
        v_plane@.len() == (width / 2) * (height / 2),
        width == 0 || height == 0 || width >= 2 && height >= 2,
    ensures
        r@.len() == width * height,
        forall|i: int|
            0 <= i < r@.len() ==> #[trigger] r@[i] == picture_pixel(
                width as int,
                height as int,
                y_plane@,
                u_plane@,
                v_plane@,
                matrix,
                i % (width as int),
                i / (width as int),
            ),
{
    let cw: u32 = width / 2;
    let ch: u32 = height / 2;
    let mut out: Vec<u32> = Vec::new();
    let mut y: u32 = 0;
    assert(0 * width == 0) by (nonlinear_arith);
    if width == 0 {
        assert(width * height == 0) by (nonlinear_arith)
            requires
                width == 0,
        ;
        return out;
    }
    while y < height
        invariant
            y <= height,
            0 < width,
            height == 0 || width >= 2 && height >= 2,
            cw == width / 2,
            ch == height / 2,
            y_plane@.len() == width * height,
            u_plane@.len() == cw * ch,
            v_plane@.len() == cw * ch,
            out@.len() == y * width,
            forall|i: int|
                0 <= i < out@.len() ==> #[trigger] out@[i] == picture_pixel(
                    width as int,
                    height as int,
                    y_plane@,
                    u_plane@,
                    v_plane@,
                    matrix,
                    i % (width as int),
                    i / (width as int),
                ),
        decreases height - y,
    {
        let mut x: u32 = 0;
        while x < width
            invariant
                x <= width,
                y < height,
                width >= 2,
                height >= 2,
                cw == width / 2,
                ch == height / 2,
                y_plane@.len() == width * height,
                u_plane@.len() == cw * ch,
                v_plane@.len() == cw * ch,
                out@.len() == y * width + x,
                forall|i: int|
                    0 <= i < out@.len() ==> #[trigger] out@[i] == picture_pixel(
                        width as int,
                        height as int,
                        y_plane@,
                        u_plane@,
                        v_plane@,
                        matrix,
                        i % (width as int),
                        i / (width as int),
                    ),
            decreases width - x,
        {
            proof {
                lemma_fundamental_div_mod_converse(
                    y * width + x,
                    width as int,
                    y as int,
                    x as int,
                );
            }
            let luma: u8 = fetch(y_plane, width, height, x, y);
            let u: u8 = upsample(u_plane, cw, ch, x, y);
            let v: u8 = upsample(v_plane, cw, ch, x, y);
            out.push(yuv_to_bgra(luma, u, v, matrix));
            x = x + 1;
        }
        assert(y * width + width == (y + 1) * width) by (nonlinear_arith);
        y = y + 1;
    }
    assert(y * width == width * height) by (nonlinear_arith)
        requires
            y == height,
    ;
    out
}

/// Without colour, red, green and blue are equal.
pub proof fn neutral_chroma_is_grey(y: u8, matrix: ColorMatrix)
    ensures
        red(y, 128, matrix) == green(y, 128, 128, matrix),
        green(y, 128, 128, matrix) == blue(y, 128, matrix),
{
}

/// Reference black and everything darker is black; reference white is white.
pub proof fn reference_levels_are_black_and_white(y: u8, matrix: ColorMatrix)
    ensures
        y <= 16 ==> pixel(y, 128, 128, matrix) == 0xFF00_0000,
        y >= 235 ==> pixel(y, 128, 128, matrix) == 0xFFFF_FFFF,
{
}

/// Upsampling a solid plane gives its value everywhere.
pub proof fn solid_planes_upsample_solid(
    plane: Seq<u8>,
    cw: int,
    ch: int,
    value: u8,
    x: int,
    y: int,
)
    requires
        plane.len() == cw * ch,
        forall|i: int| 0 <= i < plane.len() ==> #[trigger] plane[i] == value,
        0 < cw,
        0 < ch,
        0 <= x <= 2 * cw,
        0 <= y <= 2 * ch,
    ensures
        upsampled(plane, cw, ch, x, y) == value,
{
    let (x0, y0) = (tap(x), tap(y));
    let (x1, y1) = (next_tap(x0, cw), next_tap(y0, ch));
    let (fx, fy) = (tap_weight(x), tap_weight(y));
    cell_bound(cw, ch, x0, y0);
    cell_bound(cw, ch, x1, y0);
    cell_bound(cw, ch, x0, y1);
    cell_bound(cw, ch, x1, y1);
    assert(value * (4 - fx) * (4 - fy) + value * fx * (4 - fy) + value * (4 - fx) * fy + value * fx
        * fy == 16 * value) by (nonlinear_arith);
}

/// More of a colour difference never gives less of its colour, nor more of green;
/// more luma never gives less of any.
pub proof fn channels_follow_their_differences(
    y: u8,
    y2: u8,
    u: u8,
    u2: u8,
    v: u8,
    v2: u8,
    matrix: ColorMatrix,
)
    requires
        y <= y2,
        u <= u2,
        v <= v2,
    ensures
        red(y, v, matrix) <= red(y2, v2, matrix),
        blue(y, u, matrix) <= blue(y2, u2, matrix),
        green(y, u2, v2, matrix) <= green(y2, u, v, matrix),
        0 <= red(y, v, matrix) <= 255,
        0 <= green(y, u, v, matrix) <= 255,
        0 <= blue(y, u, matrix) <= 255,
{
}

/// Whether a channel has not been cut off.
pub open spec fn inside(c: int) -> bool {
    0 < c < 255
}

/// Red, green and blue add up to the luma, each with its share of the brightness:
/// in thousandths 299, 587 and 114 for BT.601, and 213, 715 and 72 for BT.709.
/// Luma from 16 to 235 stands for all levels, so that each step is worth 1.164.
pub proof fn channels_add_up_to_the_luma(y: u8, u: u8, v: u8)
    requires
        y >= 16,
    ensures
        ({
            let (r, g, b) = (
                red(y, v, ColorMatrix::Bt601),
                green(y, u, v, ColorMatrix::Bt601),
                blue(y, u, ColorMatrix::Bt601),
            );
            inside(r) && inside(g) && inside(b) ==> -550 <= 299 * r + 587 * g + 114 * b - 1164 * (y
                - 16) <= 550
        }),
        ({
            let (r, g, b) = (
                red(y, v, ColorMatrix::Bt709),
                green(y, u, v, ColorMatrix::Bt709),
                blue(y, u, ColorMatrix::Bt709),
            );
            inside(r) && inside(g) && inside(b) ==> -550 <= 213 * r + 715 * g + 72 * b - 1164 * (y
                - 16) <= 550
        }),
{
}

/// How far red and blue rise above the luma with their differences, in thousandths:
/// by 1596 and 2017 for BT.601, and by 1793 and 2115 for BT.709.
pub proof fn differences_raise_their_channels(y: u8, u: u8, v: u8, matrix: ColorMatrix)
    requires
        y >= 16,
    ensures
        ({
            let k: int = if matrix == ColorMatrix::Bt601 {
                1596
            } else {
                1793
            };
            inside(red(y, v, matrix)) ==> -600 <= 1000 * red(y, v, matrix) - 1164 * (y - 16) - k * (v
                - 128) <= 600
        }),
        ({
            let k: int = if matrix == ColorMatrix::Bt601 {
                2017
            } else {
                2115
            };
            inside(blue(y, u, matrix)) ==> -650 <= 1000 * blue(y, u, matrix) - 1164 * (y - 16) - k
                * (u - 128) <= 650
        }),
{
}

/// Where a channel is cut off, it is at the end that lies nearer.
pub proof fn cut_channels_are_at_their_ends(y: u8, u: u8, v: u8, matrix: ColorMatrix)
    requires
        y >= 16,
    ensures
        1164 * (y - 16) + 1596 * (v - 128) > 256_000 && v >= 128 ==> red(y, v, matrix) == 255,
        1164 * (y - 16) + 1596 * (v - 128) < -1000 && v <= 128 ==> red(y, v, matrix) == 0,
        1164 * (y - 16) + 2017 * (u - 128) > 256_000 && u >= 128 ==> blue(y, u, matrix) == 255,
        1164 * (y - 16) + 2017 * (u - 128) < -1000 && u <= 128 ==> blue(y, u, matrix) == 0,
{
}

/// A pixel holds its channels in its bytes: an opaque alpha at the top, then red,
/// green and blue.
pub proof fn pixels_hold_their_channels(y: u8, u: u8, v: u8, matrix: ColorMatrix)
    ensures
        0 <= pixel(y, u, v, matrix) <= u32::MAX,
        pixel(y, u, v, matrix) / 0x100_0000 == 255,
        pixel(y, u, v, matrix) / 0x1_0000 % 0x100 == red(y, v, matrix),
        pixel(y, u, v, matrix) / 0x100 % 0x100 == green(y, u, v, matrix),
        pixel(y, u, v, matrix) % 0x100 == blue(y, u, matrix),
{
    channels_come_apart(red(y, v, matrix), green(y, u, v, matrix), blue(y, u, matrix));
}

proof fn channels_come_apart(r: int, g: int, b: int)
    requires
        0 <= r <= 255,
        0 <= g <= 255,
        0 <= b <= 255,
    ensures
        0 <= bgra(r, g, b) <= u32::MAX,
        bgra(r, g, b) / 0x100_0000 == 255,
        bgra(r, g, b) / 0x1_0000 % 0x100 == r,
        bgra(r, g, b) / 0x100 % 0x100 == g,
        bgra(r, g, b) % 0x100 == b,
{
    let p = bgra(r, g, b);
    assert(p / 0x100 == 0xFF_0000 + 0x100 * r + g);
    assert(p / 0x1_0000 == 0xFF00 + r);
    assert(p / 0x100_0000 == 0xFF);
    assert((0xFF00 + r) % 0x100 == r);
    assert((0xFF_0000 + 0x100 * r + g) % 0x100 == g);
}

/// Chroma that grows evenly to the right and downwards is upsampled to luma positions
/// exactly: chroma samples lie in the middle of two luma samples in each direction.
pub proof fn even_chroma_is_upsampled_exactly(
    plane: Seq<u8>,
    cw: int,
    ch: int,
    base: int,
    right: int,
    down: int,
    x: int,
    y: int,
)
    requires
        0 < cw,
        0 < ch,
        plane.len() == cw * ch,
        forall|i: int, j: int|
            0 <= i < cw && 0 <= j < ch ==> #[trigger] plane[j * cw + i] == base + 4 * (right * i
                + down * j),
        1 <= x <= 2 * cw - 2,
        1 <= y <= 2 * ch - 2,
    ensures
        upsampled(plane, cw, ch, x, y) == base + right * (2 * x - 1) + down * (2 * y - 1),
{
    let (x0, y0) = (tap(x), tap(y));
    let (fx, fy) = (tap_weight(x), tap_weight(y));
    assert(next_tap(x0, cw) == x0 + 1 && next_tap(y0, ch) == y0 + 1);
    assert(4 * x0 + fx == 2 * x - 1);
    assert(4 * y0 + fy == 2 * y - 1);
    let p = plane[y0 * cw + x0] as int;
    assert(p == base + 4 * (right * x0 + down * y0));
    assert(plane[y0 * cw + (x0 + 1)] == base + 4 * (right * (x0 + 1) + down * y0));
    assert(plane[(y0 + 1) * cw + x0] == base + 4 * (right * x0 + down * (y0 + 1)));
    assert(plane[(y0 + 1) * cw + (x0 + 1)] == base + 4 * (right * (x0 + 1) + down * (y0 + 1)));
    even_blend(p, right, down, fx, fy);
    let whole = base + right * (2 * x - 1) + down * (2 * y - 1);
    assert(right * (4 * x0 + fx) == 4 * (right * x0) + right * fx) by (nonlinear_arith);
    assert(down * (4 * y0 + fy) == 4 * (down * y0) + down * fy) by (nonlinear_arith);
    assert(right * (x0 + 1) == right * x0 + right) by (nonlinear_arith);
    assert(down * (y0 + 1) == down * y0 + down) by (nonlinear_arith);
    assert(whole == p + right * fx + down * fy);
    assert(16 * whole / 16 == whole);
}

proof fn even_blend(p: int, right: int, down: int, fx: int, fy: int)
    requires
        fx == 1 || fx == 3,
        fy == 1 || fy == 3,
    ensures
        p * (4 - fx) * (4 - fy) + (p + 4 * right) * fx * (4 - fy) + (p + 4 * down) * (4 - fx) * fy
            + (p + 4 * right + 4 * down) * fx * fy == 16 * (p + right * fx + down * fy),
{
    if fx == 1 {
        if fy == 1 {
        } else {
        }
    } else {
        if fy == 1 {
        } else {
        }
    }
}

proof fn equal_blend(a: int, b: int, c: int, d: int, fx: int, fy: int)
    requires
        fx == 0 || (fx == 1 || fx == 3) && b == a,
        fy == 0 || (fy == 1 || fy == 3) && c == a,
        fx == 0 || fy == 0 || d == a,
    ensures
        a * (4 - fx) * (4 - fy) + b * fx * (4 - fy) + c * (4 - fx) * fy + d * fx * fy == 16 * a,
{
    let p = a * (4 - fx) + b * fx;
    let q = c * (4 - fx) + d * fx;
    assert(p == 4 * a) by (nonlinear_arith)
        requires
            p == a * (4 - fx) + b * fx,
            fx == 0 || b == a,
    ;
    assert(fy == 0 || q == 4 * a) by (nonlinear_arith)
        requires
            q == c * (4 - fx) + d * fx,
            fy == 0 || c == a,
            fx == 0 || fy == 0 || d == a,
    ;
    assert(p * (4 - fy) + q * fy == 16 * a) by (nonlinear_arith)
        requires
            p == 4 * a,
            fy == 0 || q == 4 * a,
    ;
    assert(a * (4 - fx) * (4 - fy) + b * fx * (4 - fy) + c * (4 - fx) * fy + d * fx * fy == p * (4
        - fy) + q * fy) by (nonlinear_arith)
        requires
            p == a * (4 - fx) + b * fx,
            q == c * (4 - fx) + d * fx,
    ;
}

proof fn one_sample_is_kept(plane: Seq<u8>, cw: int, ch: int, x: int, y: int)
    requires
        tap_weight(x) == 0 || next_tap(tap(x), cw) == tap(x),
        tap_weight(y) == 0 || next_tap(tap(y), ch) == tap(y),
    ensures
        upsampled(plane, cw, ch, x, y) == plane[tap(y) * cw + tap(x)],
{
    let (x0, y0) = (tap(x), tap(y));
    let (x1, y1) = (next_tap(x0, cw), next_tap(y0, ch));
    equal_blend(
        plane[y0 * cw + x0] as int,
        plane[y0 * cw + x1] as int,
        plane[y1 * cw + x0] as int,
        plane[y1 * cw + x1] as int,
        tap_weight(x),
        tap_weight(y),
    );
}

/// In its corners a picture has the chroma of the corners.
pub proof fn corners_have_the_chroma_of_the_corners(plane: Seq<u8>, cw: int, ch: int)
    requires
        0 < cw,
        0 < ch,
        plane.len() == cw * ch,
    ensures
        upsampled(plane, cw, ch, 0, 0) == plane[0],
        upsampled(plane, cw, ch, 2 * cw - 1, 0) == plane[cw - 1],
        upsampled(plane, cw, ch, 0, 2 * ch - 1) == plane[(ch - 1) * cw],
        upsampled(plane, cw, ch, 2 * cw - 1, 2 * ch - 1) == plane[(ch - 1) * cw + (cw - 1)],
{
    assert(0 * cw == 0) by (nonlinear_arith);
    one_sample_is_kept(plane, cw, ch, 0, 0);
    one_sample_is_kept(plane, cw, ch, 2 * cw - 1, 0);
    one_sample_is_kept(plane, cw, ch, 0, 2 * ch - 1);
    one_sample_is_kept(plane, cw, ch, 2 * cw - 1, 2 * ch - 1);
}

/// Where the chroma of a picture is the same everywhere, each pixel has the luma of
/// its own place and that chroma.
pub proof fn pixels_stand_in_the_place_of_their_luma(
    width: int,
    height: int,
    y_plane: Seq<u8>,
    u_plane: Seq<u8>,
    v_plane: Seq<u8>,
    u: u8,
    v: u8,
    matrix: ColorMatrix,
    i: int,
)
    requires
        width >= 2,
        height >= 2,
        y_plane.len() == width * height,
        u_plane.len() == (width / 2) * (height / 2),
        v_plane.len() == (width / 2) * (height / 2),
        forall|k: int| 0 <= k < u_plane.len() ==> #[trigger] u_plane[k] == u,
        forall|k: int| 0 <= k < v_plane.len() ==> #[trigger] v_plane[k] == v,
        0 <= i < width * height,
    ensures
        picture_pixel(width, height, y_plane, u_plane, v_plane, matrix, i % width, i / width)
            == pixel(y_plane[i], u, v, matrix),
{
    let (x, y) = (i % width, i / width);
    lemma_fundamental_div_mod(i, width);
    assert(0 <= y < height) by (nonlinear_arith)
        requires
            i == width * y + x,
            0 <= x < width,
            0 <= i < width * height,
    ;
    assert(y * width + x == i) by (nonlinear_arith)
        requires
            i == width * y + x,
    ;
    solid_planes_upsample_solid(u_plane, width / 2, height / 2, u, x, y);
    solid_planes_upsample_solid(v_plane, width / 2, height / 2, v, x, y);
}

} // verus!
