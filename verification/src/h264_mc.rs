//! H.264 motion compensation: fractional-sample interpolation.
//!
//! Luma uses a six-tap filter for half samples and the mean of two samples
//! for quarter samples (section 8.4.2); chroma is bilinear at an eighth of a
//! sample (section 8.4.1).
use vstd::prelude::*;

use crate::arith;

verus! {

/// The six-tap filter (1, -5, 20, 20, -5, 1), not yet scaled.
pub open spec fn six_tap(a: int, b: int, c: int, d: int, e: int, f: int) -> int {
    a - 5 * b + 20 * c + 20 * d - 5 * e + f
}

/// The unscaled half sample between columns 4 and 5 of row `y`.
pub open spec fn row_half(rf: [[u8; 9]; 9], y: int) -> int {
    six_tap(
        rf[y][2] as int,
        rf[y][3] as int,
        rf[y][4] as int,
        rf[y][5] as int,
        rf[y][6] as int,
        rf[y][7] as int,
    )
}

/// The unscaled half sample between rows 4 and 5 of column `x`.
pub open spec fn column_half(rf: [[u8; 9]; 9], x: int) -> int {
    six_tap(
        rf[2][x] as int,
        rf[3][x] as int,
        rf[4][x] as int,
        rf[5][x] as int,
        rf[6][x] as int,
        rf[7][x] as int,
    )
}

/// The half sample between columns 4 and 5 of row `y`.
pub open spec fn across(rf: [[u8; 9]; 9], y: int) -> int {
    arith::clipped(0, 255, (row_half(rf, y) + 16) / 32)
}

/// The half sample between rows 4 and 5 of column `x`.
pub open spec fn down(rf: [[u8; 9]; 9], x: int) -> int {
    arith::clipped(0, 255, (column_half(rf, x) + 16) / 32)
}

/// Half sample diagonally between the anchor and its three successors: the
/// six-tap filter over the unscaled half samples of six rows.
pub open spec fn half_diagonal(rf: [[u8; 9]; 9]) -> int {
    arith::clipped(
        0,
        255,
        (six_tap(
            row_half(rf, 2),
            row_half(rf, 3),
            row_half(rf, 4),
            row_half(rf, 5),
            row_half(rf, 6),
            row_half(rf, 7),
        ) + 512) / 1024,
    )
}

/// The luma sample `(dx, dy)` quarter samples right of and below the anchor
/// `rf[4][4]`. A quarter sample is the mean of its two nearest integer or half
/// samples; on the diagonals, of the nearest half samples in a row and in a
/// column. Offsets of a whole sample or more give the anchor.
pub open spec fn luma_sample(rf: [[u8; 9]; 9], dx: int, dy: int) -> int {
    let anchor = rf[4][4] as int;
    let near_row = if dy == 3 {
        across(rf, 5)
    } else {
        across(rf, 4)
    };
    let near_column = if dx == 3 {
        down(rf, 5)
    } else {
        down(rf, 4)
    };
    if !(0 <= dx <= 3 && 0 <= dy <= 3) || (dx == 0 && dy == 0) {
        anchor
    } else if dy == 0 {
        if dx == 1 {
            arith::mean2(anchor, across(rf, 4))
        } else if dx == 2 {
            across(rf, 4)
        } else {
            arith::mean2(across(rf, 4), rf[4][5] as int)
        }
    } else if dx == 0 {
        if dy == 1 {
            arith::mean2(anchor, down(rf, 4))
        } else if dy == 2 {
            down(rf, 4)
        } else {
            arith::mean2(down(rf, 4), rf[5][4] as int)
        }
    } else if dx == 2 && dy == 2 {
        half_diagonal(rf)
    } else if dx == 2 {
        arith::mean2(half_diagonal(rf), near_row)
    } else if dy == 2 {
        arith::mean2(half_diagonal(rf), near_column)
    } else {
        arith::mean2(near_row, near_column)
    }
}

/// The chroma sample at column `x` and row `y`, displaced by `(dx, dy)`
/// eighths of a sample.
pub open spec fn chroma_sample(rf: [[u8; 9]; 9], dx: int, dy: int, x: int, y: int) -> int {
    arith::clipped(
        0,
        255,
        ((8 - dx) * (8 - dy) * rf[y][x] + dx * (8 - dy) * rf[y][x + 1] + (8 - dx) * dy * rf[y
            + 1][x] + dx * dy * rf[y + 1][x + 1] + 32) / 64,
    )
}

fn luma_half(a: i32, b: i32, c: i32, d: i32, e: i32, f: i32) -> (r: i32)
    requires
        -20000 <= a <= 20000,
        -20000 <= b <= 20000,
        -20000 <= c <= 20000,
        -20000 <= d <= 20000,
        -20000 <= e <= 20000,
        -20000 <= f <= 20000,
    ensures
        r == six_tap(a as int, b as int, c as int, d as int, e as int, f as int),
{
    a - 5 * b + 20 * c + 20 * d - 5 * e + f
}

fn half_of_row(rf: &[[u8; 9]; 9], y: usize) -> (r: i32)
    requires
        y < 9,
    ensures
        r == row_half(*rf, y as int),
        -2550 <= r <= 10710,
{
    luma_half(
        rf[y][2] as i32,
        rf[y][3] as i32,
        rf[y][4] as i32,
        rf[y][5] as i32,
        rf[y][6] as i32,
        rf[y][7] as i32,
    )
}

fn half_of_column(rf: &[[u8; 9]; 9], x: usize) -> (r: i32)
    requires
        x < 9,
    ensures
        r == column_half(*rf, x as int),
        -2550 <= r <= 10710,
{
    luma_half(
        rf[2][x] as i32,
        rf[3][x] as i32,
        rf[4][x] as i32,
        rf[5][x] as i32,
        rf[6][x] as i32,
        rf[7][x] as i32,
    )
}

fn avg2(a: u8, b: u8) -> (r: u8)
    ensures
        r == arith::mean2(a as int, b as int),
{
    ((a as u32 + b as u32 + 1) / 2) as u8
}

/// Interpolates one luma sample at a quarter-sample offset. `rf` is a 9x9
/// window of reference samples whose centre is the integer position.
pub fn interp_luma_qpel(rf: &[[u8; 9]; 9], dx: u8, dy: u8) -> (r: u8)
    ensures
        r == luma_sample(*rf, dx as int, dy as int),
{
    let anchor: u8 = rf[4][4];
    let row: usize = if dy == 3 {
        5
    } else {
        4
    };
    let column: usize = if dx == 3 {
        5
    } else {
        4
    };
    let right: u8 = arith::clip_sample(arith::asr5(half_of_row(rf, row) + 16));
    let below: u8 = arith::clip_sample(arith::asr5(half_of_column(rf, column) + 16));
    let diagonal: u8 = arith::clip_sample(
        arith::asr10(
            luma_half(
                half_of_row(rf, 2),
                half_of_row(rf, 3),
                half_of_row(rf, 4),
                half_of_row(rf, 5),
                half_of_row(rf, 6),
                half_of_row(rf, 7),
            ) + 512,
        ),
    );
    match (dx, dy) {
        (1, 0) => avg2(anchor, right),
        (2, 0) => right,
        (3, 0) => avg2(right, rf[4][5]),
        (0, 1) => avg2(anchor, below),
        (0, 2) => below,
        (0, 3) => avg2(below, rf[5][4]),
        (2, 2) => diagonal,
        (2, 1) => avg2(diagonal, right),
        (2, 3) => avg2(diagonal, right),
        (1, 2) => avg2(diagonal, below),
        (3, 2) => avg2(diagonal, below),
        (1, 1) => avg2(right, below),
        (1, 3) => avg2(right, below),
        (3, 1) => avg2(right, below),
        (3, 3) => avg2(right, below),
        _ => anchor,
    }
}

/// `weight_x * weight_y * sample`, within the range that the bilinear filter
/// needs.
fn weighted(weight_x: i32, weight_y: i32, sample: u8) -> (r: i32)
    requires
        -255 <= weight_x <= 255,
        -255 <= weight_y <= 255,
    ensures
        r == weight_x * weight_y * sample,
        -16_581_375 <= r <= 16_581_375,
{
    let s: i32 = sample as i32;
    assert(-65025 <= weight_x * weight_y <= 65025) by (nonlinear_arith)
        requires
            -255 <= weight_x <= 255,
            -255 <= weight_y <= 255,
    ;
    let w: i32 = weight_x * weight_y;
    assert(-16_581_375 <= w * s <= 16_581_375) by (nonlinear_arith)
        requires
            -65025 <= w <= 65025,
            0 <= s <= 255,
    ;
    w * s
}

/// Bilinear prediction of an 8x8 chroma block. `rf` covers the block and one
/// more sample to the right and below; the offsets are in eighths of a sample.
pub fn interp_chroma_8x8(rf: &[[u8; 9]; 9], dx: u8, dy: u8) -> (r: [u8; 64])
    ensures
        forall|k: int|
            0 <= k < 64 ==> #[trigger] r[k] == chroma_sample(
                *rf,
                dx as int,
                dy as int,
                k % 8,
                k / 8,
            ),
{
    let mut out: [u8; 64] = [0u8; 64];
    let wx: i32 = dx as i32;
    let wy: i32 = dy as i32;
    for k in 0..64usize
        invariant
            wx == dx,
            wy == dy,
            forall|j: int|
                0 <= j < k ==> #[trigger] out[j] == chroma_sample(
                    *rf,
                    dx as int,
                    dy as int,
                    j % 8,
                    j / 8,
                ),
    {
        let x: usize = k % 8;
        let y: usize = k / 8;
        let sum: i32 = weighted(8 - wx, 8 - wy, rf[y][x]) + weighted(wx, 8 - wy, rf[y][x + 1])
            + weighted(8 - wx, wy, rf[y + 1][x]) + weighted(wx, wy, rf[y + 1][x + 1]) + 32;
        out[k] = arith::clip_sample(arith::asr6(sum));
    }
    out
}

/// Every sample of the window has the value `v`.
pub open spec fn flat_window(rf: [[u8; 9]; 9], v: u8) -> bool {
    forall|y: int, x: int| 0 <= y < 9 && 0 <= x < 9 ==> #[trigger] rf[y][x] == v
}

/// Interpolating a flat window gives its value at every offset.
pub proof fn flat_window_interpolates_flat(
    rf: [[u8; 9]; 9],
    v: u8,
    dx: int,
    dy: int,
    x: int,
    y: int,
)
    requires
        flat_window(rf, v),
        0 <= x < 8,
        0 <= y < 8,
    ensures
        luma_sample(rf, dx, dy) == v,
        chroma_sample(rf, dx, dy, x, y) == v,
{
    assert forall|i: int| 0 <= i < 9 implies #[trigger] row_half(rf, i) == 32 * v by {}
    assert forall|i: int| 0 <= i < 9 implies #[trigger] column_half(rf, i) == 32 * v by {}
    let (a, b, c, d) = (rf[y][x], rf[y][x + 1], rf[y + 1][x], rf[y + 1][x + 1]);
    assert((8 - dx) * (8 - dy) * v + dx * (8 - dy) * v + (8 - dx) * dy * v + dx * dy * v == 64 * v)
        by (nonlinear_arith);
}

/// Swapping the rows of a window with its columns swaps the two offsets along
/// with them.
pub proof fn transposed_windows_interpolate_alike(
    rf: [[u8; 9]; 9],
    t: [[u8; 9]; 9],
    dx: int,
    dy: int,
)
    requires
        forall|y: int, x: int| 0 <= y < 9 && 0 <= x < 9 ==> #[trigger] t[y][x] == rf[x][y],
        0 <= dx <= 3,
        0 <= dy <= 3,
    ensures
        luma_sample(t, dy, dx) == luma_sample(rf, dx, dy),
{
    assert forall|i: int| 0 <= i < 9 implies #[trigger] row_half(t, i) == column_half(rf, i) by {}
    assert forall|i: int| 0 <= i < 9 implies #[trigger] column_half(t, i) == row_half(rf, i) by {}
    assert(t[4][4] == rf[4][4] && t[4][5] == rf[5][4] && t[5][4] == rf[4][5]);
    assert(six_tap(
        row_half(rf, 2),
        row_half(rf, 3),
        row_half(rf, 4),
        row_half(rf, 5),
        row_half(rf, 6),
        row_half(rf, 7),
    ) == six_tap(
        column_half(rf, 2),
        column_half(rf, 3),
        column_half(rf, 4),
        column_half(rf, 5),
        column_half(rf, 6),
        column_half(rf, 7),
    ));
}

/// At an integer offset the reference samples pass through unchanged.
pub proof fn integer_offset_copies(rf: [[u8; 9]; 9], x: int, y: int)
    requires
        0 <= x < 8,
        0 <= y < 8,
    ensures
        luma_sample(rf, 0, 0) == rf[4][4],
        chroma_sample(rf, 0, 0, x, y) == rf[y][x],
{
    let (a, b, c, d) = (rf[y][x], rf[y][x + 1], rf[y + 1][x], rf[y + 1][x + 1]);
    assert((8 - 0) * (8 - 0) * a + 0 * (8 - 0) * b + (8 - 0) * 0 * c + 0 * 0 * d == 64 * a)
        by (nonlinear_arith);
}

/// Chroma between four samples of an even slope lies on the slope, to the nearest.
pub proof fn chroma_slopes_are_followed(
    rf: [[u8; 9]; 9],
    g: int,
    h: int,
    dx: int,
    dy: int,
    x: int,
    y: int,
)
    requires
        0 <= x < 8,
        0 <= y < 8,
        0 <= dx <= 8,
        0 <= dy <= 8,
        rf[y][x + 1] == rf[y][x] + g,
        rf[y + 1][x] == rf[y][x] + h,
        rf[y + 1][x + 1] == rf[y][x] + g + h,
    ensures
        -4 <= 8 * (chroma_sample(rf, dx, dy, x, y) - rf[y][x]) - (g * dx + h * dy) <= 4,
{
    let a = rf[y][x] as int;
    let e = g * dx + h * dy;
    let w = (8 - dx) * (8 - dy);
    let (s, t, u) = (dx * (8 - dy), (8 - dx) * dy, dx * dy);
    assert(w == 64 - 8 * dx - 8 * dy + u && s == 8 * dx - u && t == 8 * dy - u)
        by (nonlinear_arith)
        requires
            w == (8 - dx) * (8 - dy),
            s == dx * (8 - dy),
            t == (8 - dx) * dy,
            u == dx * dy,
    ;
    assert(s * (a + g) == s * a + s * g) by (nonlinear_arith);
    assert(t * (a + h) == t * a + t * h) by (nonlinear_arith);
    assert(u * (a + g + h) == u * a + u * g + u * h) by (nonlinear_arith);
    assert((64 - 8 * dx - 8 * dy + u) * a + (8 * dx - u) * a + (8 * dy - u) * a + u * a == 64 * a)
        by (nonlinear_arith);
    assert((8 * dx - u) * g + u * g == 8 * (g * dx)) by (nonlinear_arith);
    assert((8 * dy - u) * h + u * h == 8 * (h * dy)) by (nonlinear_arith);
    assert(w >= 0 && s >= 0 && t >= 0 && u >= 0) by (nonlinear_arith)
        requires
            w == (8 - dx) * (8 - dy),
            s == dx * (8 - dy),
            t == (8 - dx) * dy,
            u == dx * dy,
            0 <= dx <= 8,
            0 <= dy <= 8,
    ;
    within_weights(w, a);
    within_weights(s, a + g);
    within_weights(t, a + h);
    within_weights(u, a + g + h);
}

proof fn within_weights(w: int, v: int)
    requires
        w >= 0,
        0 <= v <= 255,
    ensures
        0 <= w * v <= 255 * w,
{
    assert(0 <= w * v <= 255 * w) by (nonlinear_arith)
        requires
            w >= 0,
            0 <= v <= 255,
    ;
}

/// An offset along a row takes nothing from the row below, one along a column nothing
/// from the column beside it; half way is the mean, and an offset by a whole sample
/// gives the next one.
pub proof fn chroma_offsets_along_an_axis(rf: [[u8; 9]; 9], x: int, y: int)
    requires
        0 <= x < 8,
        0 <= y < 8,
    ensures
        chroma_sample(rf, 4, 0, x, y) == arith::mean2(rf[y][x] as int, rf[y][x + 1] as int),
        chroma_sample(rf, 0, 4, x, y) == arith::mean2(rf[y][x] as int, rf[y + 1][x] as int),
        chroma_sample(rf, 8, 0, x, y) == rf[y][x + 1],
        chroma_sample(rf, 0, 8, x, y) == rf[y + 1][x],
        chroma_sample(rf, 8, 8, x, y) == rf[y + 1][x + 1],
{
    let (a, b, c, d) = (
        rf[y][x] as int,
        rf[y][x + 1] as int,
        rf[y + 1][x] as int,
        rf[y + 1][x + 1] as int,
    );
    assert((8 - 4) * (8 - 0) * a + 4 * (8 - 0) * b + (8 - 4) * 0 * c + 4 * 0 * d == 32 * a + 32 * b)
        by (nonlinear_arith);
    assert((8 - 0) * (8 - 4) * a + 0 * (8 - 4) * b + (8 - 0) * 4 * c + 0 * 4 * d == 32 * a + 32 * c)
        by (nonlinear_arith);
    assert((8 - 8) * (8 - 0) * a + 8 * (8 - 0) * b + (8 - 8) * 0 * c + 8 * 0 * d == 64 * b)
        by (nonlinear_arith);
    assert((8 - 0) * (8 - 8) * a + 0 * (8 - 8) * b + (8 - 0) * 8 * c + 0 * 8 * d == 64 * c)
        by (nonlinear_arith);
    assert((8 - 8) * (8 - 8) * a + 8 * (8 - 8) * b + (8 - 8) * 8 * c + 8 * 8 * d == 64 * d)
        by (nonlinear_arith);
}

/// A window that slopes evenly: `g` more for each column, `h` for each row.
pub open spec fn sloping(rf: [[u8; 9]; 9], a: int, g: int, h: int) -> bool {
    forall|y: int, x: int|
        0 <= y < 9 && 0 <= x < 9 ==> #[trigger] rf[y][x] == a + g * (x - 4) + h * (y - 4)
}

proof fn halves_of_slopes(rf: [[u8; 9]; 9], a: int, g: int, h: int, i: int)
    requires
        sloping(rf, a, g, h),
        0 <= i < 9,
    ensures
        row_half(rf, i) == 32 * a + 16 * g + 32 * (h * (i - 4)),
        column_half(rf, i) == 32 * a + 16 * h + 32 * (g * (i - 4)),
{
    assert(rf[i][2] == a + g * (2 - 4) + h * (i - 4));
    assert(rf[i][3] == a + g * (3 - 4) + h * (i - 4));
    assert(rf[i][4] == a + g * (4 - 4) + h * (i - 4));
    assert(rf[i][5] == a + g * (5 - 4) + h * (i - 4));
    assert(rf[i][6] == a + g * (6 - 4) + h * (i - 4));
    assert(rf[i][7] == a + g * (7 - 4) + h * (i - 4));
    assert(rf[2][i] == a + g * (i - 4) + h * (2 - 4));
    assert(rf[3][i] == a + g * (i - 4) + h * (3 - 4));
    assert(rf[4][i] == a + g * (i - 4) + h * (4 - 4));
    assert(rf[5][i] == a + g * (i - 4) + h * (5 - 4));
    assert(rf[6][i] == a + g * (i - 4) + h * (6 - 4));
    assert(rf[7][i] == a + g * (i - 4) + h * (7 - 4));
}

proof fn half_samples_of_slopes(rf: [[u8; 9]; 9], a: int, g: int, h: int)
    requires
        sloping(rf, a, g, h),
    ensures
        rf[4][4] == a,
        rf[4][5] == a + g,
        rf[5][4] == a + h,
        across(rf, 4) == a + (g + 1) / 2,
        across(rf, 5) == a + h + (g + 1) / 2,
        down(rf, 4) == a + (h + 1) / 2,
        down(rf, 5) == a + g + (h + 1) / 2,
        half_diagonal(rf) == a + (g + h + 1) / 2,
{
    halves_of_slopes(rf, a, g, h, 2);
    halves_of_slopes(rf, a, g, h, 3);
    halves_of_slopes(rf, a, g, h, 4);
    halves_of_slopes(rf, a, g, h, 5);
    halves_of_slopes(rf, a, g, h, 6);
    halves_of_slopes(rf, a, g, h, 7);
    assert(rf[4][4] == a + g * (4 - 4) + h * (4 - 4));
    assert(rf[4][5] == a + g * (5 - 4) + h * (4 - 4));
    assert(rf[5][4] == a + g * (4 - 4) + h * (5 - 4));
    assert(rf[5][5] == a + g * (5 - 4) + h * (5 - 4));
}

/// Luma between the samples of an even slope lies on the slope or above it, by one at
/// most.
pub proof fn luma_slopes_are_followed(
    rf: [[u8; 9]; 9],
    a: int,
    g: int,
    h: int,
    dx: int,
    dy: int,
)
    requires
        sloping(rf, a, g, h),
        0 <= dx <= 3,
        0 <= dy <= 3,
    ensures
        0 <= 4 * (luma_sample(rf, dx, dy) - a) - (g * dx + h * dy) <= 4,
{
    half_samples_of_slopes(rf, a, g, h);
    assert(g * 0 == 0 && g * 1 == g && g * 2 == 2 * g && g * 3 == 3 * g);
    assert(h * 0 == 0 && h * 1 == h && h * 2 == 2 * h && h * 3 == 3 * h);
}

/// Half samples lie on the parabola through their row, to the nearest: the filter
/// follows a bend and does not only connect two samples.
pub proof fn half_samples_lie_on_parabolas(rf: [[u8; 9]; 9], p: int, q: int, r: int)
    requires
        forall|x: int| 2 <= x <= 7 ==> #[trigger] rf[4][x] == p + q * (x - 4) + r * ((x - 4) * (x
            - 4)),
        0 <= 4 * p + 2 * q + r <= 1020,
    ensures
        -2 <= 4 * luma_sample(rf, 2, 0) - (4 * p + 2 * q + r) <= 2,
{
    assert(rf[4][2] == p + q * (2 - 4) + r * ((2 - 4) * (2 - 4)));
    assert(rf[4][3] == p + q * (3 - 4) + r * ((3 - 4) * (3 - 4)));
    assert(rf[4][4] == p + q * (4 - 4) + r * ((4 - 4) * (4 - 4)));
    assert(rf[4][5] == p + q * (5 - 4) + r * ((5 - 4) * (5 - 4)));
    assert(rf[4][6] == p + q * (6 - 4) + r * ((6 - 4) * (6 - 4)));
    assert(rf[4][7] == p + q * (7 - 4) + r * ((7 - 4) * (7 - 4)));
    assert(q * (2 - 4) == -2 * q && q * (3 - 4) == -q && q * (6 - 4) == 2 * q && q * (7 - 4) == 3
        * q) by (nonlinear_arith);
    assert(r * ((2 - 4) * (2 - 4)) == 4 * r && r * ((3 - 4) * (3 - 4)) == r && r * ((6 - 4) * (6
        - 4)) == 4 * r && r * ((7 - 4) * (7 - 4)) == 9 * r && r * ((4 - 4) * (4 - 4)) == 0 && r * ((
    5 - 4) * (5 - 4)) == r) by (nonlinear_arith);
    assert(row_half(rf, 4) == 32 * p + 16 * q + 8 * r);
}

/// What 32 more in sample `k` of the row adds to the half sample in its middle: the two
/// nearest raise it most, those next to them lower it, the outermost raise it a little.
pub proof fn half_samples_weigh_their_row(rf: [[u8; 9]; 9], sf: [[u8; 9]; 9], k: int)
    requires
        2 <= k <= 7,
        forall|x: int|
            0 <= x < 9 ==> #[trigger] sf[4][x] == if x == k {
                rf[4][x] + 32
            } else {
                rf[4][x] as int
            },
        0 < luma_sample(rf, 2, 0) < 255,
        0 < luma_sample(sf, 2, 0) < 255,
    ensures
        luma_sample(sf, 2, 0) - luma_sample(rf, 2, 0) == if k == 4 || k == 5 {
            20int
        } else if k == 3 || k == 6 {
            -5
        } else {
            1
        },
{
    assert(sf[4][2] == rf[4][2] + (if k == 2 { 32int } else { 0 }));
    assert(sf[4][3] == rf[4][3] + (if k == 3 { 32int } else { 0 }));
    assert(sf[4][4] == rf[4][4] + (if k == 4 { 32int } else { 0 }));
    assert(sf[4][5] == rf[4][5] + (if k == 5 { 32int } else { 0 }));
    assert(sf[4][6] == rf[4][6] + (if k == 6 { 32int } else { 0 }));
    assert(sf[4][7] == rf[4][7] + (if k == 7 { 32int } else { 0 }));
}

} // verus!
