//! H.264 Intra_16x16 luma prediction: the four modes of section 8.3.3.
//!
//! The output is a 16x16 luma block in row-major order, to which the residual
//! of each 4x4 sub-block is added later.
use vstd::prelude::*;

use crate::arith;

verus! {

/// Intra_16x16 prediction modes, in the order of their coded values.
#[derive(Debug, Clone, Copy, PartialEq, Eq, Structural)]
pub enum Intra16x16Mode {
    Vertical,
    Horizontal,
    Dc,
    Plane,
}

impl Intra16x16Mode {
    /// The coded value of a mode.
    pub open spec fn raw(self) -> int {
        match self {
            Intra16x16Mode::Vertical => 0,
            Intra16x16Mode::Horizontal => 1,
            Intra16x16Mode::Dc => 2,
            Intra16x16Mode::Plane => 3,
        }
    }

    /// The mode whose coded value is `v`, if there is one.
    pub fn from_raw(v: u8) -> (r: Option<Self>)
        ensures
            r is Some <==> v <= 3,
            r is Some ==> r->0.raw() == v,
    {
        match v {
            0 => Some(Intra16x16Mode::Vertical),
            1 => Some(Intra16x16Mode::Horizontal),
            2 => Some(Intra16x16Mode::Dc),
            3 => Some(Intra16x16Mode::Plane),
            _ => None,
        }
    }
}

/// Neighbourhood of a 16x16 block: the row above, the column to the left and
/// the corner sample between them.
#[derive(Debug, Clone, Copy)]
pub struct Neighbors16x16 {
    pub top: [u8; 16],
    pub left: [u8; 16],
    pub top_left: u8,
    pub top_avail: bool,
    pub left_avail: bool,
}

/// A border line, in which position -1 is the corner.
pub open spec fn line_at(corner: u8, line: [u8; 16], i: int) -> int {
    if i < 0 {
        corner as int
    } else {
        line[i] as int
    }
}

/// Weighted differences of the samples of a border line that lie up to `k`
/// steps to either side of position 7.
pub open spec fn gradient(corner: u8, line: [u8; 16], k: int) -> int
    decreases k,
{
    if k <= 0 {
        0
    } else {
        gradient(corner, line, k - 1) + k * (line_at(corner, line, 7 + k) - line_at(
            corner,
            line,
            7 - k,
        ))
    }
}

impl Neighbors16x16 {
    /// Mean of the neighbours that are available, 128 if none is.
    pub open spec fn dc(&self) -> int {
        let top = arith::prefix_sum(self.top@, 16);
        let left = arith::prefix_sum(self.left@, 16);
        if self.top_avail && self.left_avail {
            (top + left + 16) / 32
        } else if self.top_avail {
            (top + 8) / 16
        } else if self.left_avail {
            (left + 8) / 16
        } else {
            128
        }
    }

    /// Horizontal slope of the predicted plane.
    pub open spec fn slope_x(&self) -> int {
        (5 * gradient(self.top_left, self.top, 8) + 32) / 64
    }

    /// Vertical slope of the predicted plane.
    pub open spec fn slope_y(&self) -> int {
        (5 * gradient(self.top_left, self.left, 8) + 32) / 64
    }

    /// The plane through the block, sampled at column `x` and row `y`.
    pub open spec fn plane(&self, x: int, y: int) -> int {
        arith::clipped(
            0,
            255,
            (16 * (self.top[15] + self.left[15]) + self.slope_x() * (x - 7) + self.slope_y() * (y
                - 7) + 16) / 32,
        )
    }
}

/// Whether the neighbours that `mode` reads are available.
pub open spec fn predictable_16x16(mode: Intra16x16Mode, n: &Neighbors16x16) -> bool {
    match mode {
        Intra16x16Mode::Vertical => n.top_avail,
        Intra16x16Mode::Horizontal => n.left_avail,
        Intra16x16Mode::Dc => true,
        Intra16x16Mode::Plane => n.top_avail && n.left_avail,
    }
}

/// The predicted sample in column `x` and row `y` of the block.
pub open spec fn sample_16x16(mode: Intra16x16Mode, n: &Neighbors16x16, x: int, y: int) -> int {
    match mode {
        Intra16x16Mode::Vertical => n.top[x] as int,
        Intra16x16Mode::Horizontal => n.left[y] as int,
        Intra16x16Mode::Dc => n.dc(),
        Intra16x16Mode::Plane => n.plane(x, y),
    }
}

fn sum_16(a: &[u8; 16]) -> (r: u32)
    ensures
        r == arith::prefix_sum(a@, 16),
        r <= 16 * 255,
{
    let mut sum: u32 = 0;
    for i in 0..16usize
        invariant
            sum == arith::prefix_sum(a@, i as nat),
            sum <= 255 * i,
    {
        sum = sum + a[i] as u32;
    }
    sum
}

fn dc_16x16(n: &Neighbors16x16) -> (r: u8)
    ensures
        r == n.dc(),
{
    let dc: u32 = if n.top_avail && n.left_avail {
        (sum_16(&n.top) + sum_16(&n.left) + 16) / 32
    } else if n.top_avail {
        (sum_16(&n.top) + 8) / 16
    } else if n.left_avail {
        (sum_16(&n.left) + 8) / 16
    } else {
        128
    };
    dc as u8
}

fn gradient_16(corner: u8, line: &[u8; 16]) -> (r: i32)
    ensures
        -16320 <= r <= 16320,
        r == gradient(corner, *line, 8),
{
    let mut sum: i32 = 0;
    for i in 0..8usize
        invariant
            -2040 * i <= sum <= 2040 * i,
            sum == gradient(corner, *line, i as int),
    {
        let far: i32 = line[8 + i] as i32;
        let near: i32 = if i == 7 {
            corner as i32
        } else {
            line[6 - i] as i32
        };
        let weight: i32 = i as i32 + 1;
        assert(-2040 <= weight * (far - near) <= 2040) by (nonlinear_arith)
            requires
                1 <= weight <= 8,
                -255 <= far - near <= 255,
        ;
        sum = sum + weight * (far - near);
    }
    sum
}

/// Predicts a 16x16 block. `None` if a neighbour that the mode reads is not
/// available; the DC mode always succeeds.
pub fn predict_16x16(mode: Intra16x16Mode, n: &Neighbors16x16) -> (r: Option<[u8; 256]>)
    ensures
        r is Some <==> predictable_16x16(mode, n),
        r is Some ==> forall|k: int|
            0 <= k < 256 ==> #[trigger] r->0[k] == sample_16x16(mode, n, k % 16, k / 16),
{
    let available: bool = match mode {
        Intra16x16Mode::Vertical => n.top_avail,
        Intra16x16Mode::Horizontal => n.left_avail,
        Intra16x16Mode::Dc => true,
        Intra16x16Mode::Plane => n.top_avail && n.left_avail,
    };
    if !available {
        return None;
    }
    let mut out: [u8; 256] = [0u8; 256];
    let dc: u8 = dc_16x16(n);
    let b: i32 = arith::asr6(5 * gradient_16(n.top_left, &n.top) + 32);
    let c: i32 = arith::asr6(5 * gradient_16(n.top_left, &n.left) + 32);
    let a: i32 = 16 * (n.top[15] as i32 + n.left[15] as i32);
    for k in 0..256usize
        invariant
            dc == n.dc(),
            b == n.slope_x(),
            c == n.slope_y(),
            -2000 <= b <= 2000,
            -2000 <= c <= 2000,
            a == 16 * (n.top[15] + n.left[15]),
            forall|j: int|
                0 <= j < k ==> #[trigger] out[j] == sample_16x16(mode, n, j % 16, j / 16),
    {
        let x: usize = k % 16;
        let y: usize = k / 16;
        out[k] = match mode {
            Intra16x16Mode::Vertical => n.top[x],
            Intra16x16Mode::Horizontal => n.left[y],
            Intra16x16Mode::Dc => dc,
            Intra16x16Mode::Plane => {
                let dx: i32 = x as i32 - 7;
                let dy: i32 = y as i32 - 7;
                assert(-20000 <= b * dx <= 20000) by (nonlinear_arith)
                    requires
                        -2000 <= b <= 2000,
                        -7 <= dx <= 8,
                ;
                assert(-20000 <= c * dy <= 20000) by (nonlinear_arith)
                    requires
                        -2000 <= c <= 2000,
                        -7 <= dy <= 8,
                ;
                arith::clip_sample(arith::asr5(a + b * dx + c * dy + 16))
            },
        };
    }
    Some(out)
}

/// Every neighbour of `n` has the value `v`.
pub open spec fn solid_16x16(n: &Neighbors16x16, v: u8) -> bool {
    &&& forall|i: int| 0 <= i < 16 ==> #[trigger] n.top[i] == v
    &&& forall|i: int| 0 <= i < 16 ==> #[trigger] n.left[i] == v
    &&& n.top_left == v
}

proof fn solid_has_no_gradient(v: u8, line: [u8; 16], k: int)
    requires
        forall|i: int| 0 <= i < 16 ==> #[trigger] line[i] == v,
        k <= 8,
    ensures
        gradient(v, line, k) == 0,
    decreases k,
{
    if k > 0 {
        solid_has_no_gradient(v, line, k - 1);
        assert(line_at(v, line, 7 + k) - line_at(v, line, 7 - k) == 0);
        assert(k * 0 == 0);
    }
}

/// A solid neighbourhood predicts a solid block of the same value, in every
/// mode (in DC mode, as long as some neighbour is available).
pub proof fn solid_neighbors_predict_solid_macroblock(
    mode: Intra16x16Mode,
    n: &Neighbors16x16,
    v: u8,
    x: int,
    y: int,
)
    requires
        solid_16x16(n, v),
        0 <= x < 16,
        0 <= y < 16,
        n.top_avail || n.left_avail || mode != Intra16x16Mode::Dc,
    ensures
        sample_16x16(mode, n, x, y) == v,
{
    arith::prefix_sum_of_solid(n.top@, 16, v);
    arith::prefix_sum_of_solid(n.left@, 16, v);
    solid_has_no_gradient(v, n.top, 8);
    solid_has_no_gradient(v, n.left, 8);
    assert(n.slope_x() == 0 && n.slope_y() == 0);
    assert(n.slope_x() * (x - 7) == 0) by (nonlinear_arith)
        requires
            n.slope_x() == 0,
    ;
    assert(n.slope_y() * (y - 7) == 0) by (nonlinear_arith)
        requires
            n.slope_y() == 0,
    ;
}

proof fn gradient_of_slope(corner: u8, line: [u8; 16], g: int)
    requires
        forall|i: int| 0 <= i < 16 ==> #[trigger] line[i] == corner + g * (i + 1),
    ensures
        gradient(corner, line, 8) == 408 * g,
        -15 <= g <= 15,
{
    reveal_with_fuel(gradient, 9);
    assert(line[0] == corner + g && line[1] == corner + g * 2 && line[2] == corner + g * 3);
    assert(line[3] == corner + g * 4 && line[4] == corner + g * 5 && line[5] == corner + g * 6);
    assert(line[6] == corner + g * 7 && line[8] == corner + g * 9 && line[9] == corner + g * 10);
    assert(line[10] == corner + g * 11 && line[11] == corner + g * 12);
    assert(line[12] == corner + g * 13 && line[13] == corner + g * 14);
    assert(line[14] == corner + g * 15 && line[15] == corner + g * 16);
}

proof fn tilted(b: int, g: int, k: int, d: int)
    requires
        -2 <= b - 32 * g <= 2,
        -8 <= k <= 8,
        d == g * k,
    ensures
        -16 <= b * k - 32 * d <= 16,
{
    assert(b * k - 32 * (g * k) == (b - 32 * g) * k) by (nonlinear_arith);
    assert(-16 <= (b - 32 * g) * k <= 16) by (nonlinear_arith)
        requires
            -2 <= b - 32 * g <= 2,
            -8 <= k <= 8,
    ;
}

/// The plane mode continues a picture that slopes evenly in both directions, `g` for
/// each column and `h` for each row, to within one step of brightness.
pub proof fn planes_are_continued(n: &Neighbors16x16, g: int, h: int, x: int, y: int)
    requires
        0 <= x < 16,
        0 <= y < 16,
        forall|i: int| 0 <= i < 16 ==> #[trigger] n.top[i] == n.top_left + g * (i + 1),
        forall|i: int| 0 <= i < 16 ==> #[trigger] n.left[i] == n.top_left + h * (i + 1),
        1 <= n.top_left + g * (x + 1) + h * (y + 1) <= 254,
    ensures
        -1 <= sample_16x16(Intra16x16Mode::Plane, n, x, y) - (n.top_left + g * (x + 1) + h * (y
            + 1)) <= 1,
{
    gradient_of_slope(n.top_left, n.top, g);
    gradient_of_slope(n.top_left, n.left, h);
    tilted(n.slope_x(), g, x - 7, g * (x - 7));
    tilted(n.slope_y(), h, y - 7, h * (y - 7));
    assert(n.top[15] == n.top_left + 16 * g);
    assert(n.left[15] == n.top_left + 16 * h);
    assert(g * (x + 1) == g * (x - 7) + 8 * g) by (nonlinear_arith);
    assert(h * (y + 1) == h * (y - 7) + 8 * h) by (nonlinear_arith);
}

/// Each column of the vertical mode has the sample above it, each row of the horizontal
/// mode the one to its left; the plane of swapped neighbours is the swapped plane.
pub proof fn swapped_neighbors_predict_swapped_blocks(
    n: &Neighbors16x16,
    t: &Neighbors16x16,
    x: int,
    y: int,
)
    requires
        0 <= x < 16,
        0 <= y < 16,
        t.top == n.left,
        t.left == n.top,
        t.top_left == n.top_left,
        t.top_avail == n.left_avail,
        t.left_avail == n.top_avail,
    ensures
        sample_16x16(Intra16x16Mode::Horizontal, t, y, x) == n.top[x],
        sample_16x16(Intra16x16Mode::Vertical, t, y, x) == n.left[y],
        sample_16x16(Intra16x16Mode::Dc, t, y, x) == sample_16x16(Intra16x16Mode::Dc, n, x, y),
        sample_16x16(Intra16x16Mode::Plane, t, y, x) == sample_16x16(
            Intra16x16Mode::Plane,
            n,
            x,
            y,
        ),
{
}

/// The DC mode takes the mean of the neighbours that are available: it lies between
/// any two bounds of theirs.
pub proof fn dc_lies_among_the_neighbors(n: &Neighbors16x16, lo: u8, hi: u8, x: int, y: int)
    requires
        n.top_avail || n.left_avail,
        n.top_avail ==> forall|i: int| 0 <= i < 16 ==> lo <= #[trigger] n.top[i] <= hi,
        n.left_avail ==> forall|i: int| 0 <= i < 16 ==> lo <= #[trigger] n.left[i] <= hi,
    ensures
        lo <= sample_16x16(Intra16x16Mode::Dc, n, x, y) <= hi,
{
    if n.top_avail {
        sum_within(n.top, lo, hi, 16);
    }
    if n.left_avail {
        sum_within(n.left, lo, hi, 16);
    }
}

proof fn sum_within(line: [u8; 16], lo: u8, hi: u8, k: nat)
    requires
        forall|i: int| 0 <= i < 16 ==> lo <= #[trigger] line[i] <= hi,
        k <= 16,
    ensures
        k * lo <= arith::prefix_sum(line@, k) <= k * hi,
    decreases k,
{
    if k > 0 {
        sum_within(line, lo, hi, (k - 1) as nat);
        assert(lo <= line[k - 1] <= hi);
        assert((k - 1) * lo + lo == k * lo) by (nonlinear_arith);
        assert((k - 1) * hi + hi == k * hi) by (nonlinear_arith);
    } else {
        assert(k * lo == 0 && k * hi == 0) by (nonlinear_arith)
            requires
                k == 0,
        ;
    }
}

/// The mean of the DC mode is the nearest number to that of the neighbours that are
/// available.
pub proof fn dc_is_the_nearest_mean(n: &Neighbors16x16, x: int, y: int)
    ensures
        ({
            let above = arith::prefix_sum(n.top@, 16);
            let beside = arith::prefix_sum(n.left@, 16);
            let dc = sample_16x16(Intra16x16Mode::Dc, n, x, y);
            &&& n.top_avail && n.left_avail ==> -16 <= above + beside - 32 * dc < 16
            &&& n.top_avail && !n.left_avail ==> -8 <= above - 16 * dc < 8
            &&& !n.top_avail && n.left_avail ==> -8 <= beside - 16 * dc < 8
            &&& !n.top_avail && !n.left_avail ==> dc == 128
        }),
{
}

/// Gentle slopes are continued exactly.
pub proof fn gentle_planes_are_continued(n: &Neighbors16x16, g: int, h: int, x: int, y: int)
    requires
        0 <= x < 16,
        0 <= y < 16,
        -3 <= g <= 4,
        -3 <= h <= 4,
        forall|i: int| 0 <= i < 16 ==> #[trigger] n.top[i] == n.top_left + g * (i + 1),
        forall|i: int| 0 <= i < 16 ==> #[trigger] n.left[i] == n.top_left + h * (i + 1),
        0 <= n.top_left + g * (x + 1) + h * (y + 1) <= 255,
    ensures
        sample_16x16(Intra16x16Mode::Plane, n, x, y) == n.top_left + g * (x + 1) + h * (y + 1),
{
    gradient_of_slope(n.top_left, n.top, g);
    gradient_of_slope(n.top_left, n.left, h);
    assert(n.slope_x() == 32 * g && n.slope_y() == 32 * h);
    assert((32 * g) * (x - 7) == 32 * (g * (x - 7))) by (nonlinear_arith);
    assert((32 * h) * (y - 7) == 32 * (h * (y - 7))) by (nonlinear_arith);
    assert(n.top[15] == n.top_left + 16 * g);
    assert(n.left[15] == n.top_left + 16 * h);
    assert(g * (x + 1) == g * (x - 7) + 8 * g) by (nonlinear_arith);
    assert(h * (y + 1) == h * (y - 7) + 8 * h) by (nonlinear_arith);
}

/// Borders without a slope predict a flat block, the mean of their far ends.
pub proof fn level_borders_predict_a_mean(n: &Neighbors16x16, x: int, y: int)
    requires
        gradient(n.top_left, n.top, 8) == 0,
        gradient(n.top_left, n.left, 8) == 0,
    ensures
        ({
            let v = sample_16x16(Intra16x16Mode::Plane, n, x, y);
            2 * v == n.top[15] + n.left[15] || 2 * v == n.top[15] + n.left[15] + 1
        }),
{
    assert(n.slope_x() == 0 && n.slope_y() == 0);
    assert(0 * (x - 7) == 0 && 0 * (y - 7) == 0);
}

} // verus!
