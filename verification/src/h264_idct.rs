//! The H.264 integer 4x4 inverse transform, after section 8.5.12.
//!
//! Rows are transformed first, then columns; the result is rounded and scaled
//! down by 64 and is the residual that is added to the prediction.
use vstd::prelude::*;

use crate::arith;

verus! {

/// Whether `v` can be held in 32 bits.
pub open spec fn fits(v: int) -> bool {
    i32::MIN <= v <= i32::MAX
}

/// Output `i` of the one-dimensional transform of four coefficients. Halves
/// are rounded towards negative infinity.
pub open spec fn butterfly(a: int, b: int, c: int, d: int, i: int) -> int {
    if i == 0 {
        (a + c) + (b + d / 2)
    } else if i == 1 {
        (a - c) + (b / 2 - d)
    } else if i == 2 {
        (a - c) - (b / 2 - d)
    } else {
        (a + c) - (b + d / 2)
    }
}

/// No intermediate result of the one-dimensional transform overflows.
pub open spec fn butterfly_fits(a: int, b: int, c: int, d: int) -> bool {
    &&& fits(a + c)
    &&& fits(a - c)
    &&& fits(b / 2 - d)
    &&& fits(b + d / 2)
    &&& fits(butterfly(a, b, c, d, 0))
    &&& fits(butterfly(a, b, c, d, 1))
    &&& fits(butterfly(a, b, c, d, 2))
    &&& fits(butterfly(a, b, c, d, 3))
}

/// Row `y` of the coefficients after the horizontal pass, at column `x`.
pub open spec fn row_pass(c: [i32; 16], y: int, x: int) -> int {
    butterfly(
        c[4 * y] as int,
        c[4 * y + 1] as int,
        c[4 * y + 2] as int,
        c[4 * y + 3] as int,
        x,
    )
}

/// Column `x` after both passes, at row `y`, before scaling.
pub open spec fn column_pass(c: [i32; 16], y: int, x: int) -> int {
    butterfly(row_pass(c, 0, x), row_pass(c, 1, x), row_pass(c, 2, x), row_pass(c, 3, x), y)
}

/// The residual at row `y` and column `x`.
pub open spec fn residual_at(c: [i32; 16], y: int, x: int) -> int {
    (column_pass(c, y, x) + 32) / 64
}

pub open spec fn row_fits(c: [i32; 16], y: int) -> bool {
    butterfly_fits(
        c[4 * y] as int,
        c[4 * y + 1] as int,
        c[4 * y + 2] as int,
        c[4 * y + 3] as int,
    )
}

pub open spec fn column_fits(c: [i32; 16], x: int) -> bool {
    butterfly_fits(row_pass(c, 0, x), row_pass(c, 1, x), row_pass(c, 2, x), row_pass(c, 3, x))
}

/// No intermediate result of the two-dimensional transform overflows.
pub open spec fn transform_fits(c: [i32; 16]) -> bool {
    &&& forall|y: int| 0 <= y < 4 ==> #[trigger] row_fits(c, y)
    &&& forall|x: int| 0 <= x < 4 ==> #[trigger] column_fits(c, x)
    &&& forall|y: int, x: int|
        0 <= y < 4 && 0 <= x < 4 ==> #[trigger] column_pass(c, y, x) + 32 <= i32::MAX
}

fn transform_line(a: i32, b: i32, c: i32, d: i32) -> (r: [i32; 4])
    requires
        butterfly_fits(a as int, b as int, c as int, d as int),
    ensures
        forall|i: int|
            0 <= i < 4 ==> #[trigger] r[i] == butterfly(
                a as int,
                b as int,
                c as int,
                d as int,
                i,
            ),
{
    let e: i32 = a + c;
    let f: i32 = a - c;
    let g: i32 = arith::asr1(b) - d;
    let h: i32 = b + arith::asr1(d);
    [e + h, f + g, f - g, e - h]
}

/// The residuals of a column, from what the rows have given.
fn transform_column(c: &[i32; 16], rows: &[i32; 16], x: usize) -> (r: [i32; 4])
    requires
        transform_fits(*c),
        x < 4,
        forall|k: int| 0 <= k < 16 ==> #[trigger] rows[k] == row_pass(*c, k / 4, k % 4),
    ensures
        forall|y: int| 0 <= y < 4 ==> #[trigger] r[y] == residual_at(*c, y, x as int),
{
    assert(column_fits(*c, x as int));
    let line: [i32; 4] = transform_line(rows[x], rows[x + 4], rows[x + 8], rows[x + 12]);
    assert(column_pass(*c, 0, x as int) + 32 <= i32::MAX);
    assert(column_pass(*c, 1, x as int) + 32 <= i32::MAX);
    assert(column_pass(*c, 2, x as int) + 32 <= i32::MAX);
    assert(column_pass(*c, 3, x as int) + 32 <= i32::MAX);
    [
        arith::asr6(line[0] + 32),
        arith::asr6(line[1] + 32),
        arith::asr6(line[2] + 32),
        arith::asr6(line[3] + 32),
    ]
}

/// Inverse transform of a 4x4 block of coefficients, both in row-major order.
pub fn idct_4x4(c: &[i32; 16]) -> (r: [i32; 16])
    requires
        transform_fits(*c),
    ensures
        forall|k: int| 0 <= k < 16 ==> #[trigger] r[k] == residual_at(*c, k / 4, k % 4),
{
    let mut rows: [i32; 16] = [0i32; 16];
    for y in 0..4usize
        invariant
            transform_fits(*c),
            forall|k: int| 0 <= k < 4 * y ==> #[trigger] rows[k] == row_pass(*c, k / 4, k % 4),
    {
        assert(row_fits(*c, y as int));
        let line: [i32; 4] = transform_line(c[4 * y], c[4 * y + 1], c[4 * y + 2], c[4 * y + 3]);
        rows[4 * y] = line[0];
        rows[4 * y + 1] = line[1];
        rows[4 * y + 2] = line[2];
        rows[4 * y + 3] = line[3];
    }
    let mut out: [i32; 16] = [0i32; 16];
    for x in 0..4usize
        invariant
            transform_fits(*c),
            forall|k: int| 0 <= k < 16 ==> #[trigger] rows[k] == row_pass(*c, k / 4, k % 4),
            forall|k: int|
                0 <= k < 16 && k % 4 < x ==> #[trigger] out[k] == residual_at(*c, k / 4, k % 4),
    {
        let column: [i32; 4] = transform_column(c, &rows, x);
        out[x] = column[0];
        out[x + 4] = column[1];
        out[x + 8] = column[2];
        out[x + 12] = column[3];
    }
    out
}

/// Adds a residual to a prediction, each sample clamped to `0..=255`.
pub fn add_residual_4x4(pred: &[u8; 16], residual: &[i32; 16]) -> (r: [u8; 16])
    requires
        forall|i: int| 0 <= i < 16 ==> #[trigger] residual[i] + pred[i] <= i32::MAX,
    ensures
        forall|i: int|
            0 <= i < 16 ==> #[trigger] r[i] == arith::clipped(0, 255, pred[i] + residual[i]),
{
    let mut out: [u8; 16] = [0u8; 16];
    for i in 0..16usize
        invariant
            forall|i: int| 0 <= i < 16 ==> #[trigger] residual[i] + pred[i] <= i32::MAX,
            forall|j: int|
                0 <= j < i ==> #[trigger] out[j] == arith::clipped(0, 255, pred[j] + residual[j]),
    {
        assert(residual[i as int] + pred[i as int] <= i32::MAX);
        out[i] = arith::clip_sample(pred[i] as i32 + residual[i]);
    }
    out
}

/// Coefficients of at most 26 bits (and a sign) never overflow.
pub proof fn moderate_coefficients_fit(c: [i32; 16])
    requires
        forall|i: int| 0 <= i < 16 ==> -67_108_864 <= #[trigger] c[i] <= 67_108_864,
    ensures
        transform_fits(c),
{
    assert forall|y: int| 0 <= y < 4 implies #[trigger] row_fits(c, y) by {
        let (a, b, d, e) = (c[4 * y], c[4 * y + 1], c[4 * y + 2], c[4 * y + 3]);
    }
    assert forall|y: int, x: int| 0 <= y < 4 && 0 <= x < 4 implies -268_435_456
        <= #[trigger] row_pass(c, y, x) <= 268_435_456 by {
        let (a, b, d, e) = (c[4 * y], c[4 * y + 1], c[4 * y + 2], c[4 * y + 3]);
    }
    assert forall|x: int| 0 <= x < 4 implies #[trigger] column_fits(c, x) by {
        let (a, b, d, e) = (
            row_pass(c, 0, x),
            row_pass(c, 1, x),
            row_pass(c, 2, x),
            row_pass(c, 3, x),
        );
    }
    assert forall|y: int, x: int| 0 <= y < 4 && 0 <= x < 4 implies #[trigger] column_pass(c, y, x)
        + 32 <= i32::MAX by {
        let (a, b, d, e) = (
            row_pass(c, 0, x),
            row_pass(c, 1, x),
            row_pass(c, 2, x),
            row_pass(c, 3, x),
        );
    }
}

/// A block whose coefficients other than the first are zero transforms into a
/// constant block; in particular the zero block into the zero block.
pub proof fn dc_only_block_is_constant(c: [i32; 16], y: int, x: int)
    requires
        forall|i: int| 1 <= i < 16 ==> #[trigger] c[i] == 0,
        0 <= y < 4,
        0 <= x < 4,
    ensures
        residual_at(c, y, x) == (c[0] + 32) / 64,
{
    assert(row_pass(c, 1, x) == 0);
    assert(row_pass(c, 2, x) == 0);
    assert(row_pass(c, 3, x) == 0);
}

/// Adding an all-zero residual leaves a prediction as it is.
pub proof fn zero_residual_keeps_prediction(p: u8)
    ensures
        arith::clipped(0, 255, p + 0) == p,
{
}

/// The waves that coefficients stand for, in halves: the `k`-th at position `i`.
/// They change sign `k` times from left to right.
pub open spec fn wave(k: int, i: int) -> int {
    if k == 0 {
        2
    } else if k == 1 {
        if i == 0 {
            2
        } else if i == 1 {
            1
        } else if i == 2 {
            -1
        } else {
            -2
        }
    } else if k == 2 {
        if i == 0 || i == 3 {
            2
        } else {
            -2
        }
    } else {
        if i == 0 {
            1
        } else if i == 1 {
            -2
        } else if i == 2 {
            2
        } else {
            -1
        }
    }
}

/// The waves of four coefficients at position `i`, added up.
pub open spec fn wave_sum(a: int, b: int, c: int, d: int, i: int) -> int {
    a * wave(0, i) + b * wave(1, i) + c * wave(2, i) + d * wave(3, i)
}

/// The waves of all coefficients at row `y` and column `x`, added up: each is the
/// product of a wave from top to bottom and one from left to right.
pub open spec fn block_sum(c: [i32; 16], y: int, x: int) -> int {
    wave(0, y) * wave_sum(c[0] as int, c[1] as int, c[2] as int, c[3] as int, x) + wave(1, y)
        * wave_sum(c[4] as int, c[5] as int, c[6] as int, c[7] as int, x) + wave(2, y) * wave_sum(
        c[8] as int,
        c[9] as int,
        c[10] as int,
        c[11] as int,
        x,
    ) + wave(3, y) * wave_sum(c[12] as int, c[13] as int, c[14] as int, c[15] as int, x)
}

proof fn few_times(a: int, w: int)
    requires
        w == 2 || w == 1 || w == -1 || w == -2,
    ensures
        w == 2 ==> a * w == 2 * a && w * a == 2 * a,
        w == 1 ==> a * w == a && w * a == a,
        w == -1 ==> a * w == -a && w * a == -a,
        w == -2 ==> a * w == -2 * a && w * a == -2 * a,
{
    assert(w == 2 ==> a * w == 2 * a && w * a == 2 * a) by (nonlinear_arith);
    assert(w == 1 ==> a * w == a && w * a == a) by (nonlinear_arith);
    assert(w == -1 ==> a * w == -a && w * a == -a) by (nonlinear_arith);
    assert(w == -2 ==> a * w == -2 * a && w * a == -2 * a) by (nonlinear_arith);
}

proof fn waves_spelled_out(a: int, b: int, c: int, d: int, i: int)
    requires
        0 <= i < 4,
    ensures
        i == 0 ==> wave_sum(a, b, c, d, i) == 2 * a + 2 * b + 2 * c + d,
        i == 1 ==> wave_sum(a, b, c, d, i) == 2 * a + b - 2 * c - 2 * d,
        i == 2 ==> wave_sum(a, b, c, d, i) == 2 * a - b - 2 * c + 2 * d,
        i == 3 ==> wave_sum(a, b, c, d, i) == 2 * a - 2 * b + 2 * c - d,
{
    few_times(a, wave(0, i));
    few_times(b, wave(1, i));
    few_times(c, wave(2, i));
    few_times(d, wave(3, i));
}

/// The one-dimensional transform adds up waves. In the first half of a line halves
/// are rounded down, and in the second half up.
pub proof fn lines_add_up_waves(a: int, b: int, c: int, d: int, i: int)
    requires
        0 <= i < 4,
    ensures
        i < 2 ==> wave_sum(a, b, c, d, i) - 1 <= 2 * butterfly(a, b, c, d, i) <= wave_sum(
            a,
            b,
            c,
            d,
            i,
        ),
        i >= 2 ==> wave_sum(a, b, c, d, i) <= 2 * butterfly(a, b, c, d, i) <= wave_sum(
            a,
            b,
            c,
            d,
            i,
        ) + 1,
{
    waves_spelled_out(a, b, c, d, i);
}

/// Waves of doubled values, at a position.
proof fn doubled_waves(r: (int, int, int, int), s: (int, int, int, int), y: int, slack: int)
    requires
        0 <= y < 4,
        0 <= slack <= 1,
        s.0 - slack <= 2 * r.0 <= s.0 + slack,
        s.1 - slack <= 2 * r.1 <= s.1 + slack,
        s.2 - slack <= 2 * r.2 <= s.2 + slack,
        s.3 - slack <= 2 * r.3 <= s.3 + slack,
    ensures
        -7 * slack <= 2 * wave_sum(r.0, r.1, r.2, r.3, y) - (wave(0, y) * s.0 + wave(1, y) * s.1
            + wave(2, y) * s.2 + wave(3, y) * s.3) <= 7 * slack,
{
    waves_spelled_out(r.0, r.1, r.2, r.3, y);
    few_times(s.0, wave(0, y));
    few_times(s.1, wave(1, y));
    few_times(s.2, wave(2, y));
    few_times(s.3, wave(3, y));
}

/// Without odd halves, the one-dimensional transform is the sum of the waves.
proof fn even_lines_are_exact(a: int, b: int, c: int, d: int, i: int)
    requires
        0 <= i < 4,
        b % 2 == 0,
        d % 2 == 0,
    ensures
        2 * butterfly(a, b, c, d, i) == wave_sum(a, b, c, d, i),
{
    let (h, k) = (b / 2, d / 2);
    assert(b == 2 * h && d == 2 * k);
    waves_spelled_out(a, b, c, d, i);
    if i == 0 {
        assert(butterfly(a, b, c, d, i) == a + c + b + k);
    } else if i == 1 {
        assert(butterfly(a, b, c, d, i) == a - c + h - d);
    } else if i == 2 {
        assert(butterfly(a, b, c, d, i) == a - c - h + d);
    } else {
        assert(butterfly(a, b, c, d, i) == a + c - b - k);
    }
}

/// Of multiples of four, the one-dimensional transform gives even numbers.
proof fn even_lines_stay_even(a: int, b: int, c: int, d: int, i: int)
    requires
        0 <= i < 4,
        a % 4 == 0,
        b % 4 == 0,
        c % 4 == 0,
        d % 4 == 0,
    ensures
        butterfly(a, b, c, d, i) % 2 == 0,
{
    let (p, q, r, t) = (a / 4, b / 4, c / 4, d / 4);
    assert(a == 4 * p && b == 4 * q && c == 4 * r && d == 4 * t);
    assert(b / 2 == 2 * q && d / 2 == 2 * t);
    if i == 0 {
        assert(butterfly(a, b, c, d, i) == 2 * (2 * p + 2 * r + 2 * q + t));
    } else if i == 1 {
        assert(butterfly(a, b, c, d, i) == 2 * (2 * p - 2 * r + q - 2 * t));
    } else if i == 2 {
        assert(butterfly(a, b, c, d, i) == 2 * (2 * p - 2 * r - q + 2 * t));
    } else {
        assert(butterfly(a, b, c, d, i) == 2 * (2 * p + 2 * r - 2 * q - t));
    }
}

proof fn columns_add_up_waves(c: [i32; 16], y: int, x: int)
    requires
        0 <= y < 4,
        0 <= x < 4,
    ensures
        -9 <= 4 * column_pass(c, y, x) - block_sum(c, y, x) <= 9,
{
    let (r0, r1, r2, r3) = (
        row_pass(c, 0, x),
        row_pass(c, 1, x),
        row_pass(c, 2, x),
        row_pass(c, 3, x),
    );
    lines_add_up_waves(c[0] as int, c[1] as int, c[2] as int, c[3] as int, x);
    lines_add_up_waves(c[4] as int, c[5] as int, c[6] as int, c[7] as int, x);
    lines_add_up_waves(c[8] as int, c[9] as int, c[10] as int, c[11] as int, x);
    lines_add_up_waves(c[12] as int, c[13] as int, c[14] as int, c[15] as int, x);
    lines_add_up_waves(r0, r1, r2, r3, y);
    let s0 = wave_sum(c[0] as int, c[1] as int, c[2] as int, c[3] as int, x);
    let s1 = wave_sum(c[4] as int, c[5] as int, c[6] as int, c[7] as int, x);
    let s2 = wave_sum(c[8] as int, c[9] as int, c[10] as int, c[11] as int, x);
    let s3 = wave_sum(c[12] as int, c[13] as int, c[14] as int, c[15] as int, x);
    doubled_waves((r0, r1, r2, r3), (s0, s1, s2, s3), y, 1);
}

/// The residual is the sum of the waves of all coefficients, scaled down, up to
/// rounding. Every coefficient counts, in its own direction and with its own sign.
pub proof fn residuals_add_up_waves(c: [i32; 16], y: int, x: int)
    requires
        0 <= y < 4,
        0 <= x < 4,
    ensures
        block_sum(c, y, x) - 137 <= 256 * residual_at(c, y, x) <= block_sum(c, y, x) + 137,
{
    columns_add_up_waves(c, y, x);
}

/// Where no half is lost, the residual is the sum of the waves, scaled down and
/// rounded to the nearest, halves up.
pub proof fn residuals_of_multiples_are_exact(c: [i32; 16], y: int, x: int)
    requires
        0 <= y < 4,
        0 <= x < 4,
        forall|i: int| 0 <= i < 16 ==> #[trigger] c[i] as int % 4 == 0,
    ensures
        256 * residual_at(c, y, x) - 128 <= block_sum(c, y, x) < 256 * residual_at(c, y, x) + 128,
{
    assert(c[0] as int % 4 == 0 && c[1] as int % 4 == 0 && c[2] as int % 4 == 0 && c[3] as int % 4
        == 0);
    assert(c[4] as int % 4 == 0 && c[5] as int % 4 == 0 && c[6] as int % 4 == 0 && c[7] as int % 4
        == 0);
    assert(c[8] as int % 4 == 0 && c[9] as int % 4 == 0 && c[10] as int % 4 == 0 && c[11] as int % 4
        == 0);
    assert(c[12] as int % 4 == 0 && c[13] as int % 4 == 0 && c[14] as int % 4 == 0 && c[15] as int
        % 4 == 0);
    let (r0, r1, r2, r3) = (
        row_pass(c, 0, x),
        row_pass(c, 1, x),
        row_pass(c, 2, x),
        row_pass(c, 3, x),
    );
    let s0 = wave_sum(c[0] as int, c[1] as int, c[2] as int, c[3] as int, x);
    let s1 = wave_sum(c[4] as int, c[5] as int, c[6] as int, c[7] as int, x);
    let s2 = wave_sum(c[8] as int, c[9] as int, c[10] as int, c[11] as int, x);
    let s3 = wave_sum(c[12] as int, c[13] as int, c[14] as int, c[15] as int, x);
    even_lines_are_exact(c[0] as int, c[1] as int, c[2] as int, c[3] as int, x);
    even_lines_are_exact(c[4] as int, c[5] as int, c[6] as int, c[7] as int, x);
    even_lines_are_exact(c[8] as int, c[9] as int, c[10] as int, c[11] as int, x);
    even_lines_are_exact(c[12] as int, c[13] as int, c[14] as int, c[15] as int, x);
    even_lines_stay_even(c[4] as int, c[5] as int, c[6] as int, c[7] as int, x);
    even_lines_stay_even(c[12] as int, c[13] as int, c[14] as int, c[15] as int, x);
    even_lines_are_exact(r0, r1, r2, r3, y);
    doubled_waves((r0, r1, r2, r3), (s0, s1, s2, s3), y, 0);
}

/// A larger residual never gives a smaller sample, and within the range of samples
/// the two are added.
pub proof fn residuals_are_added(p: u8, a: int, b: int)
    requires
        a <= b,
    ensures
        0 <= arith::clipped(0, 255, p + a) <= arith::clipped(0, 255, p + b) <= 255,
        0 <= p + a <= 255 ==> arith::clipped(0, 255, p + a) - p == a,
        p + a < 0 ==> arith::clipped(0, 255, p + a) == 0,
        p + a > 255 ==> arith::clipped(0, 255, p + a) == 255,
{
}

} // verus!
