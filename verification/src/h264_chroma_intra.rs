//! H.264 chroma intra prediction for 4:2:0, after section 8.3.4.
//!
//! A chroma block is 8x8. Its DC mode splits it into four quadrants, each of
//! which has a mean of its own, over the neighbours that touch it.
use vstd::prelude::*;

use crate::arith;

verus! {

/// Chroma prediction modes, in the order of their coded values.
#[derive(Debug, Clone, Copy, PartialEq, Eq, Structural)]
pub enum ChromaIntraMode {
    Dc,
    Horizontal,
    Vertical,
    Plane,
}

impl ChromaIntraMode {
    /// The coded value of a mode.
    pub open spec fn raw(self) -> int {
        match self {
            ChromaIntraMode::Dc => 0,
            ChromaIntraMode::Horizontal => 1,
            ChromaIntraMode::Vertical => 2,
            ChromaIntraMode::Plane => 3,
        }
    }

    /// The mode whose coded value is `v`, if there is one.
    pub fn from_raw(v: u8) -> (r: Option<Self>)
        ensures
            r is Some <==> v <= 3,
            r is Some ==> r->0.raw() == v,
    {
        match v {
            0 => Some(ChromaIntraMode::Dc),
            1 => Some(ChromaIntraMode::Horizontal),
            2 => Some(ChromaIntraMode::Vertical),
            3 => Some(ChromaIntraMode::Plane),
            _ => None,
        }
    }
}

/// Neighbourhood of an 8x8 chroma block.
#[derive(Debug, Clone, Copy)]
pub struct ChromaNeighbors {
    pub top: [u8; 8],
    pub left: [u8; 8],
    pub top_left: u8,
    pub top_avail: bool,
    pub left_avail: bool,
}

/// Sum of the four samples of `line` from position `from` on.
pub open spec fn sum_of_four(line: [u8; 8], from: int) -> int {
    line[from] + line[from + 1] + line[from + 2] + line[from + 3]
}

impl ChromaNeighbors {
    /// The top row, in which position -1 is the corner.
    pub open spec fn top_at(&self, i: int) -> int {
        if i < 0 {
            self.top_left as int
        } else {
            self.top[i] as int
        }
    }

    /// The left column, in which position -1 is the corner.
    pub open spec fn left_at(&self, i: int) -> int {
        if i < 0 {
            self.top_left as int
        } else {
            self.left[i] as int
        }
    }

    /// The mean for the quadrant that starts at column `qx` and row `qy`.
    ///
    /// A quadrant on the main diagonal takes both the samples above it and
    /// those to its left, or the ones of the two that are available. Of the
    /// others, the upper right one prefers the samples above, the lower left
    /// one those to the left, and each falls back to the other side.
    pub open spec fn quadrant_dc(&self, qx: int, qy: int) -> int {
        let above = sum_of_four(self.top, qx);
        let beside = sum_of_four(self.left, qy);
        if !self.top_avail && !self.left_avail {
            128
        } else if self.top_avail && self.left_avail && qx == qy {
            (above + beside + 4) / 8
        } else if self.top_avail && (qx >= qy || !self.left_avail) {
            (above + 2) / 4
        } else {
            (beside + 2) / 4
        }
    }

    /// Weighted differences of the top samples that lie up to four steps to
    /// either side of position 3.
    pub open spec fn top_gradient(&self) -> int {
        (self.top_at(4) - self.top_at(2)) + 2 * (self.top_at(5) - self.top_at(1)) + 3 * (
        self.top_at(6) - self.top_at(0)) + 4 * (self.top_at(7) - self.top_at(-1))
    }

    /// Weighted differences of the left samples that lie up to four steps to
    /// either side of position 3.
    pub open spec fn left_gradient(&self) -> int {
        (self.left_at(4) - self.left_at(2)) + 2 * (self.left_at(5) - self.left_at(1)) + 3 * (
        self.left_at(6) - self.left_at(0)) + 4 * (self.left_at(7) - self.left_at(-1))
    }

    /// Horizontal slope of the predicted plane.
    pub open spec fn slope_x(&self) -> int {
        (34 * self.top_gradient() + 32) / 64
    }

    /// Vertical slope of the predicted plane.
    pub open spec fn slope_y(&self) -> int {
        (34 * self.left_gradient() + 32) / 64
    }

    /// The plane through the block, sampled at column `x` and row `y`.
    pub open spec fn plane(&self, x: int, y: int) -> int {
        arith::clipped(
            0,
            255,
            (16 * (self.top[7] + self.left[7]) + self.slope_x() * (x - 3) + self.slope_y() * (y - 3)
                + 16) / 32,
        )
    }
}

/// Whether the neighbours that `mode` reads are available.
pub open spec fn predictable_chroma(mode: ChromaIntraMode, n: &ChromaNeighbors) -> bool {
    match mode {
        ChromaIntraMode::Dc => true,
        ChromaIntraMode::Horizontal => n.left_avail,
        ChromaIntraMode::Vertical => n.top_avail,
        ChromaIntraMode::Plane => n.top_avail && n.left_avail,
    }
}

/// The predicted sample in column `x` and row `y` of the block.
pub open spec fn sample_chroma(mode: ChromaIntraMode, n: &ChromaNeighbors, x: int, y: int) -> int {
    match mode {
        ChromaIntraMode::Dc => n.quadrant_dc(4 * (x / 4), 4 * (y / 4)),
        ChromaIntraMode::Horizontal => n.left[y] as int,
        ChromaIntraMode::Vertical => n.top[x] as int,
        ChromaIntraMode::Plane => n.plane(x, y),
    }
}

fn sum_4(line: &[u8; 8], from: usize) -> (r: u32)
    requires
        from <= 4,
    ensures
        r == sum_of_four(*line, from as int),
{
    line[from] as u32 + line[from + 1] as u32 + line[from + 2] as u32 + line[from + 3] as u32
}

fn quadrant_mean(n: &ChromaNeighbors, qx: usize, qy: usize) -> (r: u8)
    requires
        qx == 0 || qx == 4,
        qy == 0 || qy == 4,
    ensures
        r == n.quadrant_dc(qx as int, qy as int),
{
    let above: u32 = sum_4(&n.top, qx);
    let beside: u32 = sum_4(&n.left, qy);
    let dc: u32 = if !n.top_avail && !n.left_avail {
        128
    } else if n.top_avail && n.left_avail && qx == qy {
        (above + beside + 4) / 8
    } else if n.top_avail && (qx >= qy || !n.left_avail) {
        (above + 2) / 4
    } else {
        (beside + 2) / 4
    };
    dc as u8
}

fn gradient_8(corner: u8, line: &[u8; 8]) -> (r: i32)
    ensures
        r == (line[4] - line[2]) + 2 * (line[5] - line[1]) + 3 * (line[6] - line[0]) + 4 * (line[7]
            - corner),
{
    (line[4] as i32 - line[2] as i32) + 2 * (line[5] as i32 - line[1] as i32) + 3 * (line[6] as i32
        - line[0] as i32) + 4 * (line[7] as i32 - corner as i32)
}

/// Predicts an 8x8 chroma block, in row-major order. `None` if a neighbour
/// that the mode reads is not available; the DC mode always succeeds.
pub fn predict_chroma_8x8(mode: ChromaIntraMode, n: &ChromaNeighbors) -> (r: Option<[u8; 64]>)
    ensures
        r is Some <==> predictable_chroma(mode, n),
        r is Some ==> forall|k: int|
            0 <= k < 64 ==> #[trigger] r->0[k] == sample_chroma(mode, n, k % 8, k / 8),
{
    let available: bool = match mode {
        ChromaIntraMode::Dc => true,
        ChromaIntraMode::Horizontal => n.left_avail,
        ChromaIntraMode::Vertical => n.top_avail,
        ChromaIntraMode::Plane => n.top_avail && n.left_avail,
    };
    if !available {
        return None;
    }
    let mut out: [u8; 64] = [0u8; 64];
    let b: i32 = arith::asr6(34 * gradient_8(n.top_left, &n.top) + 32);
    let c: i32 = arith::asr6(34 * gradient_8(n.top_left, &n.left) + 32);
    let a: i32 = 16 * (n.top[7] as i32 + n.left[7] as i32);
    for k in 0..64usize
        invariant
            b == n.slope_x(),
            c == n.slope_y(),
            -1400 <= b <= 1400,
            -1400 <= c <= 1400,
            a == 16 * (n.top[7] + n.left[7]),
            forall|j: int| 0 <= j < k ==> #[trigger] out[j] == sample_chroma(mode, n, j % 8, j / 8),
    {
        let x: usize = k % 8;
        let y: usize = k / 8;
        out[k] = match mode {
            ChromaIntraMode::Dc => quadrant_mean(n, 4 * (x / 4), 4 * (y / 4)),
            ChromaIntraMode::Horizontal => n.left[y],
            ChromaIntraMode::Vertical => n.top[x],
            ChromaIntraMode::Plane => {
                let dx: i32 = x as i32 - 3;
                let dy: i32 = y as i32 - 3;
                assert(-6000 <= b * dx <= 6000) by (nonlinear_arith)
                    requires
                        -1400 <= b <= 1400,
                        -3 <= dx <= 4,
                ;
                assert(-6000 <= c * dy <= 6000) by (nonlinear_arith)
                    requires
                        -1400 <= c <= 1400,
                        -3 <= dy <= 4,
                ;
                arith::clip_sample(arith::asr5(a + b * dx + c * dy + 16))
            },
        };
    }
    Some(out)
}

/// Every neighbour of `n` has the value `v`.
pub open spec fn solid_chroma(n: &ChromaNeighbors, v: u8) -> bool {
    &&& forall|i: int| 0 <= i < 8 ==> #[trigger] n.top[i] == v
    &&& forall|i: int| 0 <= i < 8 ==> #[trigger] n.left[i] == v
    &&& n.top_left == v
}

/// A solid neighbourhood predicts a solid block of the same value, in every
/// mode (in DC mode, as long as some neighbour is available).
pub proof fn solid_neighbors_predict_solid_chroma(
    mode: ChromaIntraMode,
    n: &ChromaNeighbors,
    v: u8,
    x: int,
    y: int,
)
    requires
        solid_chroma(n, v),
        0 <= x < 8,
        0 <= y < 8,
        n.top_avail || n.left_avail || mode != ChromaIntraMode::Dc,
    ensures
        sample_chroma(mode, n, x, y) == v,
{
    assert(n.top_gradient() == 0 && n.left_gradient() == 0);
    assert(n.slope_x() == 0 && n.slope_y() == 0);
    assert(n.slope_x() * (x - 3) == 0) by (nonlinear_arith)
        requires
            n.slope_x() == 0,
    ;
    assert(n.slope_y() * (y - 3) == 0) by (nonlinear_arith)
        requires
            n.slope_y() == 0,
    ;
}

proof fn leaning(b: int, g: int, k: int, d: int)
    requires
        -4 <= b - 32 * g <= 4,
        -4 <= k <= 4,
        d == g * k,
    ensures
        -16 <= b * k - 32 * d <= 16,
{
    assert(b * k - 32 * (g * k) == (b - 32 * g) * k) by (nonlinear_arith);
    assert(-16 <= (b - 32 * g) * k <= 16) by (nonlinear_arith)
        requires
            -4 <= b - 32 * g <= 4,
            -4 <= k <= 4,
    ;
}

/// The plane mode continues a picture that slopes evenly in both directions, `g` for
/// each column and `h` for each row, to within one step.
pub proof fn chroma_planes_are_continued(n: &ChromaNeighbors, g: int, h: int, x: int, y: int)
    requires
        0 <= x < 8,
        0 <= y < 8,
        forall|i: int| 0 <= i < 8 ==> #[trigger] n.top[i] == n.top_left + g * (i + 1),
        forall|i: int| 0 <= i < 8 ==> #[trigger] n.left[i] == n.top_left + h * (i + 1),
        1 <= n.top_left + g * (x + 1) + h * (y + 1) <= 254,
    ensures
        -1 <= sample_chroma(ChromaIntraMode::Plane, n, x, y) - (n.top_left + g * (x + 1) + h * (y
            + 1)) <= 1,
{
    assert(n.top[0] == n.top_left + g && n.top[1] == n.top_left + g * 2);
    assert(n.top[2] == n.top_left + g * 3 && n.top[4] == n.top_left + g * 5);
    assert(n.top[5] == n.top_left + g * 6 && n.top[6] == n.top_left + g * 7);
    assert(n.top[7] == n.top_left + g * 8);
    assert(n.left[0] == n.top_left + h && n.left[1] == n.top_left + h * 2);
    assert(n.left[2] == n.top_left + h * 3 && n.left[4] == n.top_left + h * 5);
    assert(n.left[5] == n.top_left + h * 6 && n.left[6] == n.top_left + h * 7);
    assert(n.left[7] == n.top_left + h * 8);
    assert(n.top_gradient() == 60 * g && n.left_gradient() == 60 * h);
    leaning(n.slope_x(), g, x - 3, g * (x - 3));
    leaning(n.slope_y(), h, y - 3, h * (y - 3));
    assert(g * (x + 1) == g * (x - 3) + 4 * g) by (nonlinear_arith);
    assert(h * (y + 1) == h * (y - 3) + 4 * h) by (nonlinear_arith);
}

/// Swapping the top row with the left column swaps the rows of every predicted block
/// with its columns.
pub proof fn swapped_neighbors_predict_swapped_chroma(
    n: &ChromaNeighbors,
    t: &ChromaNeighbors,
    x: int,
    y: int,
)
    requires
        0 <= x < 8,
        0 <= y < 8,
        t.top == n.left,
        t.left == n.top,
        t.top_left == n.top_left,
        t.top_avail == n.left_avail,
        t.left_avail == n.top_avail,
    ensures
        sample_chroma(ChromaIntraMode::Horizontal, t, y, x) == n.top[x],
        sample_chroma(ChromaIntraMode::Vertical, t, y, x) == n.left[y],
        sample_chroma(ChromaIntraMode::Dc, t, y, x) == sample_chroma(ChromaIntraMode::Dc, n, x, y),
        sample_chroma(ChromaIntraMode::Plane, t, y, x) == sample_chroma(
            ChromaIntraMode::Plane,
            n,
            x,
            y,
        ),
{
    assert(x / 4 == 0 || x / 4 == 1);
    assert(y / 4 == 0 || y / 4 == 1);
}

/// A quadrant has the mean, to the nearest, of the neighbours that touch it. The upper
/// right one touches the samples above it alone, the lower left one those beside it;
/// the other two have both. Where one side is missing, the other stands for it.
pub proof fn quadrants_have_the_mean_of_their_sides(n: &ChromaNeighbors, x: int, y: int)
    requires
        0 <= x < 8,
        0 <= y < 8,
    ensures
        ({
            let i = if x < 4 {
                0int
            } else {
                4
            };
            let j = if y < 4 {
                0int
            } else {
                4
            };
            let above = n.top[i] + n.top[i + 1] + n.top[i + 2] + n.top[i + 3];
            let beside = n.left[j] + n.left[j + 1] + n.left[j + 2] + n.left[j + 3];
            let dc = sample_chroma(ChromaIntraMode::Dc, n, x, y);
            let both = n.top_avail && n.left_avail;
            &&& both && (x < 4) == (y < 4) ==> -4 <= above + beside - 8 * dc < 4
            &&& both && x >= 4 && y < 4 ==> -2 <= above - 4 * dc < 2
            &&& both && x < 4 && y >= 4 ==> -2 <= beside - 4 * dc < 2
            &&& n.top_avail && !n.left_avail ==> -2 <= above - 4 * dc < 2
            &&& !n.top_avail && n.left_avail ==> -2 <= beside - 4 * dc < 2
            &&& !n.top_avail && !n.left_avail ==> dc == 128
        }),
{
    assert(x / 4 == 0 || x / 4 == 1);
    assert(y / 4 == 0 || y / 4 == 1);
}

/// Gentle slopes are continued exactly.
pub proof fn gentle_chroma_planes_are_continued(
    n: &ChromaNeighbors,
    g: int,
    h: int,
    x: int,
    y: int,
)
    requires
        0 <= x < 8,
        0 <= y < 8,
        -3 <= g <= 4,
        -3 <= h <= 4,
        forall|i: int| 0 <= i < 8 ==> #[trigger] n.top[i] == n.top_left + g * (i + 1),
        forall|i: int| 0 <= i < 8 ==> #[trigger] n.left[i] == n.top_left + h * (i + 1),
        0 <= n.top_left + g * (x + 1) + h * (y + 1) <= 255,
    ensures
        sample_chroma(ChromaIntraMode::Plane, n, x, y) == n.top_left + g * (x + 1) + h * (y + 1),
{
    assert(n.top[0] == n.top_left + g && n.top[1] == n.top_left + g * 2);
    assert(n.top[2] == n.top_left + g * 3 && n.top[4] == n.top_left + g * 5);
    assert(n.top[5] == n.top_left + g * 6 && n.top[6] == n.top_left + g * 7);
    assert(n.top[7] == n.top_left + g * 8);
    assert(n.left[0] == n.top_left + h && n.left[1] == n.top_left + h * 2);
    assert(n.left[2] == n.top_left + h * 3 && n.left[4] == n.top_left + h * 5);
    assert(n.left[5] == n.top_left + h * 6 && n.left[6] == n.top_left + h * 7);
    assert(n.left[7] == n.top_left + h * 8);
    assert(n.top_gradient() == 60 * g && n.left_gradient() == 60 * h);
    assert(n.slope_x() == 32 * g && n.slope_y() == 32 * h);
    assert((32 * g) * (x - 3) == 32 * (g * (x - 3))) by (nonlinear_arith);
    assert((32 * h) * (y - 3) == 32 * (h * (y - 3))) by (nonlinear_arith);
    assert(g * (x + 1) == g * (x - 3) + 4 * g) by (nonlinear_arith);
    assert(h * (y + 1) == h * (y - 3) + 4 * h) by (nonlinear_arith);
}

/// Borders without a slope predict a flat block, the mean of their far ends.
pub proof fn level_chroma_borders_predict_a_mean(n: &ChromaNeighbors, x: int, y: int)
    requires
        n.top_gradient() == 0,
        n.left_gradient() == 0,
    ensures
        ({
            let v = sample_chroma(ChromaIntraMode::Plane, n, x, y);
            2 * v == n.top[7] + n.left[7] || 2 * v == n.top[7] + n.left[7] + 1
        }),
{
    assert(n.slope_x() == 0 && n.slope_y() == 0);
    assert(0 * (x - 3) == 0 && 0 * (y - 3) == 0);
}

} // verus!
