//! H.264 Intra_4x4 luma prediction.
//!
//! A 4x4 block predicts its 16 luma samples from samples that have already
//! been reconstructed: the row above, the column to the left and the corner
//! between them. All nine modes of H.264 section 8.3.1.2 are implemented.
use vstd::prelude::*;

use crate::arith;

verus! {

/// Intra_4x4 prediction modes, in the order of their coded values.
#[derive(Debug, Clone, Copy, PartialEq, Eq, Structural)]
pub enum Intra4x4Mode {
    Vertical,
    Horizontal,
    Dc,
    DiagonalDownLeft,
    DiagonalDownRight,
    VerticalRight,
    HorizontalDown,
    VerticalLeft,
    HorizontalUp,
}

impl Intra4x4Mode {
    /// The coded value of a mode.
    pub open spec fn raw(self) -> int {
        match self {
            Intra4x4Mode::Vertical => 0,
            Intra4x4Mode::Horizontal => 1,
            Intra4x4Mode::Dc => 2,
            Intra4x4Mode::DiagonalDownLeft => 3,
            Intra4x4Mode::DiagonalDownRight => 4,
            Intra4x4Mode::VerticalRight => 5,
            Intra4x4Mode::HorizontalDown => 6,
            Intra4x4Mode::VerticalLeft => 7,
            Intra4x4Mode::HorizontalUp => 8,
        }
    }

    /// The mode whose coded value is `v`, if there is one.
    pub fn from_raw(v: u8) -> (r: Option<Self>)
        ensures
            r is Some <==> v <= 8,
            r is Some ==> r->0.raw() == v,
    {
        match v {
            0 => Some(Intra4x4Mode::Vertical),
            1 => Some(Intra4x4Mode::Horizontal),
            2 => Some(Intra4x4Mode::Dc),
            3 => Some(Intra4x4Mode::DiagonalDownLeft),
            4 => Some(Intra4x4Mode::DiagonalDownRight),
            5 => Some(Intra4x4Mode::VerticalRight),
            6 => Some(Intra4x4Mode::HorizontalDown),
            7 => Some(Intra4x4Mode::VerticalLeft),
            8 => Some(Intra4x4Mode::HorizontalUp),
            _ => None,
        }
    }
}

/// Neighbourhood of a 4x4 block. `top[0..4]` lie directly above it,
/// `top[4..8]` above and to the right; `left` is the column to its left.
#[derive(Debug, Clone, Copy)]
pub struct Neighbors4x4 {
    pub top: [u8; 8],
    pub left: [u8; 4],
    pub top_left: u8,
    pub top_avail: bool,
    pub left_avail: bool,
    pub top_right_avail: bool,
}

impl Neighbors4x4 {
    /// The L-shaped border read as one line: index 0 is the corner, positive
    /// indices run right along the top row, negative ones down the left column.
    pub open spec fn edge(&self, i: int) -> int {
        if i == 0 {
            self.top_left as int
        } else if i > 0 {
            self.top[i - 1] as int
        } else {
            self.left[-i - 1] as int
        }
    }

    /// The top row, with the samples above and to the right replaced by the
    /// last sample directly above where they are not available.
    pub open spec fn extended_top(&self, i: int) -> int {
        if i >= 4 && !self.top_right_avail {
            self.top[3] as int
        } else {
            self.top[i] as int
        }
    }

    /// The left column, continued below its end by its last sample.
    pub open spec fn extended_left(&self, i: int) -> int {
        self.left[if i > 3 {
            3
        } else {
            i
        }] as int
    }

    /// Sum of the four samples directly above.
    pub open spec fn top_sum(&self) -> int {
        self.top[0] + self.top[1] + self.top[2] + self.top[3]
    }

    /// Sum of the four samples to the left.
    pub open spec fn left_sum(&self) -> int {
        self.left[0] + self.left[1] + self.left[2] + self.left[3]
    }

    /// Mean of the neighbours that are available, 128 if none is.
    pub open spec fn dc(&self) -> int {
        if self.top_avail && self.left_avail {
            (self.top_sum() + self.left_sum() + 4) / 8
        } else if self.top_avail {
            (self.top_sum() + 2) / 4
        } else if self.left_avail {
            (self.left_sum() + 2) / 4
        } else {
            128
        }
    }
}

/// Whether the neighbours that `mode` reads are available.
pub open spec fn predictable_4x4(mode: Intra4x4Mode, n: &Neighbors4x4) -> bool {
    match mode {
        Intra4x4Mode::Dc => true,
        Intra4x4Mode::Vertical
        | Intra4x4Mode::DiagonalDownLeft
        | Intra4x4Mode::VerticalLeft => n.top_avail,
        Intra4x4Mode::Horizontal | Intra4x4Mode::HorizontalUp => n.left_avail,
        Intra4x4Mode::DiagonalDownRight
        | Intra4x4Mode::VerticalRight
        | Intra4x4Mode::HorizontalDown => n.top_avail && n.left_avail,
    }
}

/// The sample that the two half-diagonal modes predict at position `z`, read
/// along the border in the direction `sign`: 1 towards the top row, -1 towards
/// the left column. Positions from -1 on alternate between three samples and
/// two; those before it take three on the other side of the corner.
pub open spec fn half_diagonal_sample(n: &Neighbors4x4, z: int, sign: int) -> int {
    if z < -1 {
        arith::smooth3(n.edge(sign * z), n.edge(sign * (z + 1)), n.edge(sign * (z + 2)))
    } else if z % 2 == 0 {
        arith::mean2(n.edge(sign * (z / 2)), n.edge(sign * (z / 2 + 1)))
    } else {
        let k = (z + 1) / 2;
        arith::smooth3(n.edge(sign * (k - 1)), n.edge(sign * k), n.edge(sign * (k + 1)))
    }
}

/// The predicted sample in column `x` and row `y` of the block.
pub open spec fn sample_4x4(mode: Intra4x4Mode, n: &Neighbors4x4, x: int, y: int) -> int {
    match mode {
        Intra4x4Mode::Vertical => n.top[x] as int,
        Intra4x4Mode::Horizontal => n.left[y] as int,
        Intra4x4Mode::Dc => n.dc(),
        Intra4x4Mode::DiagonalDownLeft => arith::smooth3(
            n.extended_top(x + y),
            n.extended_top(x + y + 1),
            n.extended_top(
                if x + y + 2 > 7 {
                    7
                } else {
                    x + y + 2
                },
            ),
        ),
        Intra4x4Mode::DiagonalDownRight => arith::smooth3(
            n.edge(x - y - 1),
            n.edge(x - y),
            n.edge(x - y + 1),
        ),
        Intra4x4Mode::VerticalRight => half_diagonal_sample(n, 2 * x - y, 1),
        Intra4x4Mode::HorizontalDown => half_diagonal_sample(n, 2 * y - x, -1),
        Intra4x4Mode::VerticalLeft => {
            let i = x + y / 2;
            if y % 2 == 0 {
                arith::mean2(n.extended_top(i), n.extended_top(i + 1))
            } else {
                arith::smooth3(n.extended_top(i), n.extended_top(i + 1), n.extended_top(i + 2))
            }
        },
        Intra4x4Mode::HorizontalUp => {
            let z = x + 2 * y;
            let i = z / 2;
            if z % 2 == 0 {
                arith::mean2(n.extended_left(i), n.extended_left(i + 1))
            } else {
                arith::smooth3(n.extended_left(i), n.extended_left(i + 1), n.extended_left(i + 2))
            }
        },
    }
}

fn average2(a: u8, b: u8) -> (r: u8)
    ensures
        r == arith::mean2(a as int, b as int),
{
    ((a as u32 + b as u32 + 1) / 2) as u8
}

fn average3(a: u8, b: u8, c: u8) -> (r: u8)
    ensures
        r == arith::smooth3(a as int, b as int, c as int),
{
    ((a as u32 + 2 * b as u32 + c as u32 + 2) / 4) as u8
}

fn edge_sample(n: &Neighbors4x4, i: i32) -> (r: u8)
    requires
        -4 <= i <= 8,
    ensures
        r == n.edge(i as int),
{
    if i == 0 {
        n.top_left
    } else if i > 0 {
        n.top[(i - 1) as usize]
    } else {
        n.left[(-i - 1) as usize]
    }
}

fn top_sample(n: &Neighbors4x4, i: usize) -> (r: u8)
    requires
        i < 8,
    ensures
        r == n.extended_top(i as int),
{
    if i >= 4 && !n.top_right_avail {
        n.top[3]
    } else {
        n.top[i]
    }
}

fn left_sample(n: &Neighbors4x4, i: usize) -> (r: u8)
    ensures
        r == n.extended_left(i as int),
{
    if i > 3 {
        n.left[3]
    } else {
        n.left[i]
    }
}

fn dc_4x4(n: &Neighbors4x4) -> (r: u8)
    ensures
        r == n.dc(),
{
    let top: u32 = n.top[0] as u32 + n.top[1] as u32 + n.top[2] as u32 + n.top[3] as u32;
    let left: u32 = n.left[0] as u32 + n.left[1] as u32 + n.left[2] as u32 + n.left[3] as u32;
    let dc: u32 = if n.top_avail && n.left_avail {
        (top + left + 4) / 8
    } else if n.top_avail {
        (top + 2) / 4
    } else if n.left_avail {
        (left + 2) / 4
    } else {
        128
    };
    dc as u8
}

fn half_diagonal(n: &Neighbors4x4, z: i32, sign: i32) -> (r: u8)
    requires
        -3 <= z <= 6,
        sign == 1 || sign == -1,
    ensures
        r == half_diagonal_sample(n, z as int, sign as int),
{
    if z < -1 {
        average3(
            edge_sample(n, sign * z),
            edge_sample(n, sign * (z + 1)),
            edge_sample(n, sign * (z + 2)),
        )
    } else if z % 2 == 0 {
        let k: i32 = z / 2;
        average2(edge_sample(n, sign * k), edge_sample(n, sign * (k + 1)))
    } else {
        let k: i32 = (z + 1) / 2;
        average3(
            edge_sample(n, sign * (k - 1)),
            edge_sample(n, sign * k),
            edge_sample(n, sign * (k + 1)),
        )
    }
}

fn predict_sample(mode: Intra4x4Mode, n: &Neighbors4x4, x: usize, y: usize) -> (r: u8)
    requires
        x < 4,
        y < 4,
    ensures
        r == sample_4x4(mode, n, x as int, y as int),
{
    match mode {
        Intra4x4Mode::Vertical => n.top[x],
        Intra4x4Mode::Horizontal => n.left[y],
        Intra4x4Mode::Dc => dc_4x4(n),
        Intra4x4Mode::DiagonalDownLeft => {
            let last: usize = if x + y + 2 > 7 {
                7
            } else {
                x + y + 2
            };
            average3(top_sample(n, x + y), top_sample(n, x + y + 1), top_sample(n, last))
        },
        Intra4x4Mode::DiagonalDownRight => {
            let i: i32 = x as i32 - y as i32;
            average3(edge_sample(n, i - 1), edge_sample(n, i), edge_sample(n, i + 1))
        },
        Intra4x4Mode::VerticalRight => half_diagonal(n, 2 * x as i32 - y as i32, 1),
        Intra4x4Mode::HorizontalDown => half_diagonal(n, 2 * y as i32 - x as i32, -1),
        Intra4x4Mode::VerticalLeft => {
            let i: usize = x + y / 2;
            if y % 2 == 0 {
                average2(top_sample(n, i), top_sample(n, i + 1))
            } else {
                average3(top_sample(n, i), top_sample(n, i + 1), top_sample(n, i + 2))
            }
        },
        Intra4x4Mode::HorizontalUp => {
            let z: usize = x + 2 * y;
            let i: usize = z / 2;
            if z % 2 == 0 {
                average2(left_sample(n, i), left_sample(n, i + 1))
            } else {
                average3(left_sample(n, i), left_sample(n, i + 1), left_sample(n, i + 2))
            }
        },
    }
}

/// Predicts a 4x4 block, in row-major order. `None` if a neighbour that the
/// mode reads is not available; the DC mode always succeeds.
pub fn predict_4x4(mode: Intra4x4Mode, n: &Neighbors4x4) -> (r: Option<[u8; 16]>)
    ensures
        r is Some <==> predictable_4x4(mode, n),
        r is Some ==> forall|k: int|
            0 <= k < 16 ==> #[trigger] r->0[k] == sample_4x4(mode, n, k % 4, k / 4),
{
    let available: bool = match mode {
        Intra4x4Mode::Dc => true,
        Intra4x4Mode::Vertical
        | Intra4x4Mode::DiagonalDownLeft
        | Intra4x4Mode::VerticalLeft => n.top_avail,
        Intra4x4Mode::Horizontal | Intra4x4Mode::HorizontalUp => n.left_avail,
        Intra4x4Mode::DiagonalDownRight
        | Intra4x4Mode::VerticalRight
        | Intra4x4Mode::HorizontalDown => n.top_avail && n.left_avail,
    };
    if !available {
        return None;
    }
    let mut out: [u8; 16] = [0u8; 16];
    for k in 0..16usize
        invariant
            forall|j: int| 0 <= j < k ==> #[trigger] out[j] == sample_4x4(mode, n, j % 4, j / 4),
    {
        out[k] = predict_sample(mode, n, k % 4, k / 4);
    }
    Some(out)
}

/// Every neighbour of `n` has the value `v`.
pub open spec fn solid_4x4(n: &Neighbors4x4, v: u8) -> bool {
    &&& forall|i: int| 0 <= i < 8 ==> #[trigger] n.top[i] == v
    &&& forall|i: int| 0 <= i < 4 ==> #[trigger] n.left[i] == v
    &&& n.top_left == v
}

/// A solid neighbourhood predicts a solid block of the same value, in every
/// mode (in DC mode, as long as some neighbour is available).
pub proof fn solid_neighbors_predict_solid_block(
    mode: Intra4x4Mode,
    n: &Neighbors4x4,
    v: u8,
    x: int,
    y: int,
)
    requires
        solid_4x4(n, v),
        0 <= x < 4,
        0 <= y < 4,
        n.top_avail || n.left_avail || mode != Intra4x4Mode::Dc,
    ensures
        sample_4x4(mode, n, x, y) == v,
{
}

/// Every predicted sample is an 8-bit value.
pub proof fn predicted_samples_are_bytes(mode: Intra4x4Mode, n: &Neighbors4x4, x: int, y: int)
    requires
        0 <= x < 4,
        0 <= y < 4,
    ensures
        0 <= sample_4x4(mode, n, x, y) <= 255,
{
}

/// The modes named after the two axes mirror each other: swapping the top row
/// with the left column transposes the predicted block.
pub proof fn horizontal_modes_mirror_vertical_modes(
    n: &Neighbors4x4,
    t: &Neighbors4x4,
    x: int,
    y: int,
)
    requires
        0 <= x < 4,
        0 <= y < 4,
        t.top_left == n.top_left,
        forall|i: int| 0 <= i < 4 ==> #[trigger] t.left[i] == n.top[i],
        forall|i: int| 0 <= i < 4 ==> #[trigger] t.top[i] == n.left[i],
    ensures
        sample_4x4(Intra4x4Mode::Horizontal, t, y, x) == sample_4x4(
            Intra4x4Mode::Vertical,
            n,
            x,
            y,
        ),
        sample_4x4(Intra4x4Mode::HorizontalDown, t, y, x) == sample_4x4(
            Intra4x4Mode::VerticalRight,
            n,
            x,
            y,
        ),
        sample_4x4(Intra4x4Mode::DiagonalDownRight, t, y, x) == sample_4x4(
            Intra4x4Mode::DiagonalDownRight,
            n,
            x,
            y,
        ),
{
    assert forall|i: int| -4 <= i <= 4 implies t.edge(-i) == #[trigger] n.edge(i) by {
        if i > 0 {
            assert(t.left[i - 1] == n.top[i - 1]);
        } else if i < 0 {
            assert(t.top[-i - 1] == n.left[-i - 1]);
        }
    }
    assert(t.left[x] == n.top[x]);
    let d = x - y;
    assert(t.edge(-(d - 1)) == n.edge(d - 1));
    assert(t.edge(-d) == n.edge(d));
    assert(t.edge(-(d + 1)) == n.edge(d + 1));
    let z = 2 * x - y;
    if z < -1 {
        assert(t.edge(-z) == n.edge(z));
        assert(t.edge(-(z + 1)) == n.edge(z + 1));
        assert(t.edge(-(z + 2)) == n.edge(z + 2));
    } else if z % 2 == 0 {
        let k = z / 2;
        assert(t.edge(-k) == n.edge(k));
        assert(t.edge(-(k + 1)) == n.edge(k + 1));
    } else {
        let k = (z + 1) / 2;
        assert(t.edge(-(k - 1)) == n.edge(k - 1));
        assert(t.edge(-k) == n.edge(k));
        assert(t.edge(-(k + 1)) == n.edge(k + 1));
    }
}

proof fn next_steps(g: int, d: int)
    ensures
        g * (d - 1) == g * d - g,
        g * (d + 1) == g * d + g,
        g * (0 - d) == -(g * d),
{
    assert(g * (d - 1) == g * d - g) by (nonlinear_arith);
    assert(g * (d + 1) == g * d + g) by (nonlinear_arith);
    assert(g * (0 - d) == -(g * d)) by (nonlinear_arith);
}

/// A picture that slopes evenly and is constant towards the lower left is continued by
/// the diagonal mode of that direction: `a` is what the slope gives at the sample in
/// the upper left of the block, `g` what it adds from one column to the next.
pub proof fn slopes_to_the_lower_left_are_continued(
    n: &Neighbors4x4,
    a: int,
    g: int,
    x: int,
    y: int,
)
    requires
        0 <= x < 4,
        0 <= y < 4,
        x + y < 6,
        n.top_right_avail,
        forall|i: int| 0 <= i < 8 ==> #[trigger] n.top[i] == a + g * (i - 1),
    ensures
        sample_4x4(Intra4x4Mode::DiagonalDownLeft, n, x, y) == a + g * (x + y),
{
    let d = x + y;
    next_steps(g, d);
    assert(n.top[d] == a + g * (d - 1));
    assert(n.top[d + 1] == a + g * d);
    assert(n.top[d + 2] == a + g * (d + 1));
}

/// A picture that slopes evenly and is constant towards the lower right is continued by
/// the diagonal mode of that direction.
pub proof fn slopes_to_the_lower_right_are_continued(
    n: &Neighbors4x4,
    a: int,
    g: int,
    x: int,
    y: int,
)
    requires
        0 <= x < 4,
        0 <= y < 4,
        n.top_left == a,
        forall|i: int| 0 <= i < 4 ==> #[trigger] n.top[i] == a + g * (i + 1),
        forall|i: int| 0 <= i < 4 ==> #[trigger] n.left[i] == a - g * (i + 1),
    ensures
        sample_4x4(Intra4x4Mode::DiagonalDownRight, n, x, y) == a + g * (x - y),
{
    assert forall|i: int| -4 <= i <= 4 implies #[trigger] n.edge(i) == a + g * i by {
        next_steps(g, i);
        if i > 0 {
            assert(n.top[i - 1] == a + g * (i - 1 + 1));
        } else if i < 0 {
            assert(n.left[-i - 1] == a - g * (-i - 1 + 1));
            assert(g * (-i) == -(g * i)) by (nonlinear_arith);
        } else {
            assert(g * 0 == 0);
        }
    }
    let d = x - y;
    next_steps(g, d);
    assert(n.edge(d - 1) == a + g * (d - 1));
    assert(n.edge(d) == a + g * d);
    assert(n.edge(d + 1) == a + g * (d + 1));
}

proof fn steep_edge(n: &Neighbors4x4, a: int, g: int, sign: int, i: int)
    requires
        sign == 1 || sign == -1,
        n.top_left == a - g,
        forall|k: int|
            0 < k <= 4 ==> #[trigger] n.edge(k) == a + if sign == 1 {
                g * (2 * k - 1)
            } else {
                -(g * (k + 1))
            },
        forall|k: int|
            0 < k <= 4 ==> #[trigger] n.edge(-k) == a + if sign == 1 {
                -(g * (k + 1))
            } else {
                g * (2 * k - 1)
            },
        -4 <= i <= 4,
    ensures
        i >= 0 ==> n.edge(sign * i) == a + g * (2 * i - 1),
        i <= 0 ==> n.edge(sign * i) == a + g * (i - 1),
{
    if i > 0 {
        assert(n.edge(i) == n.edge(i) && n.edge(-i) == n.edge(-i));
    } else if i < 0 {
        assert(n.edge(-i) == n.edge(-i) && n.edge(-(-i)) == n.edge(i));
        assert(g * (i - 1) == -(g * (-i + 1))) by (nonlinear_arith);
    } else {
        assert(g * (2 * 0 - 1) == -g && g * (0 - 1) == -g) by (nonlinear_arith);
    }
}

proof fn steep_slopes_continue(n: &Neighbors4x4, a: int, g: int, sign: int, z: int)
    requires
        sign == 1 || sign == -1,
        n.top_left == a - g,
        forall|k: int|
            0 < k <= 4 ==> #[trigger] n.edge(k) == a + if sign == 1 {
                g * (2 * k - 1)
            } else {
                -(g * (k + 1))
            },
        forall|k: int|
            0 < k <= 4 ==> #[trigger] n.edge(-k) == a + if sign == 1 {
                -(g * (k + 1))
            } else {
                g * (2 * k - 1)
            },
        -3 <= z <= 6,
        z != -1,
    ensures
        half_diagonal_sample(n, z, sign) == a + g * z,
{
    if z < -1 {
        steep_edge(n, a, g, sign, z);
        steep_edge(n, a, g, sign, z + 1);
        steep_edge(n, a, g, sign, z + 2);
        next_steps(g, z);
    } else if z % 2 == 0 {
        let k = z / 2;
        steep_edge(n, a, g, sign, k);
        steep_edge(n, a, g, sign, k + 1);
        next_steps(g, z);
        assert(2 * k - 1 == z - 1 && 2 * (k + 1) - 1 == z + 1);
    } else {
        let k = (z + 1) / 2;
        steep_edge(n, a, g, sign, k - 1);
        steep_edge(n, a, g, sign, k);
        steep_edge(n, a, g, sign, k + 1);
        assert(2 * k - 1 == z);
        assert(g * (2 * (k - 1) - 1) == g * (2 * k - 1) - 2 * g) by (nonlinear_arith);
        assert(g * (2 * (k + 1) - 1) == g * (2 * k - 1) + 2 * g) by (nonlinear_arith);
    }
}

/// A picture that slopes evenly and is constant along two rows down for each column to
/// the right is continued by the mode of that direction, but for the two samples whose
/// line meets the corner.
pub proof fn steep_slopes_to_the_right_are_continued(
    n: &Neighbors4x4,
    a: int,
    g: int,
    x: int,
    y: int,
)
    requires
        0 <= x < 4,
        0 <= y < 4,
        2 * x - y != -1,
        n.top_left == a - g,
        forall|i: int| 0 <= i < 4 ==> #[trigger] n.top[i] == a + g * (2 * i + 1),
        forall|i: int| 0 <= i < 4 ==> #[trigger] n.left[i] == a - g * (i + 2),
    ensures
        sample_4x4(Intra4x4Mode::VerticalRight, n, x, y) == a + g * (2 * x - y),
{
    assert forall|k: int| 0 < k <= 4 implies #[trigger] n.edge(k) == a + g * (2 * k - 1) by {
        assert(n.top[k - 1] == a + g * (2 * (k - 1) + 1));
    }
    assert forall|k: int| 0 < k <= 4 implies #[trigger] n.edge(-k) == a - g * (k + 1) by {
        assert(n.left[k - 1] == a - g * (k - 1 + 2));
    }
    steep_slopes_continue(n, a, g, 1, 2 * x - y);
}

/// A picture that slopes evenly and is constant along two columns to the right for each
/// row down is continued by the mode of that direction, but for the two samples whose
/// line meets the corner.
pub proof fn shallow_slopes_downwards_are_continued(
    n: &Neighbors4x4,
    a: int,
    g: int,
    x: int,
    y: int,
)
    requires
        0 <= x < 4,
        0 <= y < 4,
        2 * y - x != -1,
        n.top_left == a - g,
        forall|i: int| 0 <= i < 4 ==> #[trigger] n.left[i] == a + g * (2 * i + 1),
        forall|i: int| 0 <= i < 4 ==> #[trigger] n.top[i] == a - g * (i + 2),
    ensures
        sample_4x4(Intra4x4Mode::HorizontalDown, n, x, y) == a + g * (2 * y - x),
{
    assert forall|k: int| 0 < k <= 4 implies #[trigger] n.edge(k) == a - g * (k + 1) by {
        assert(n.top[k - 1] == a - g * (k - 1 + 2));
    }
    assert forall|k: int| 0 < k <= 4 implies #[trigger] n.edge(-k) == a + g * (2 * k - 1) by {
        assert(n.left[k - 1] == a + g * (2 * (k - 1) + 1));
    }
    steep_slopes_continue(n, a, g, -1, 2 * y - x);
}

/// A picture that slopes evenly and is constant along two rows down for each column to
/// the left is continued by the mode of that direction.
pub proof fn steep_slopes_to_the_left_are_continued(
    n: &Neighbors4x4,
    a: int,
    g: int,
    x: int,
    y: int,
)
    requires
        0 <= x < 4,
        0 <= y < 4,
        n.top_right_avail,
        forall|i: int| 0 <= i < 8 ==> #[trigger] n.top[i] == a + g * (2 * i - 1),
    ensures
        sample_4x4(Intra4x4Mode::VerticalLeft, n, x, y) == a + g * (2 * x + y),
{
    let i = x + y / 2;
    let d = 2 * x + y;
    assert(n.top[i] == a + g * (2 * i - 1));
    assert(n.top[i + 1] == a + g * (2 * (i + 1) - 1));
    assert(n.top[i + 2] == a + g * (2 * (i + 2) - 1));
    next_steps(g, d);
    assert(g * (2 * i + 1) == g * (2 * i - 1) + 2 * g) by (nonlinear_arith);
    assert(g * (2 * i + 3) == g * (2 * i - 1) + 4 * g) by (nonlinear_arith);
}

/// A picture that slopes evenly and is constant along two columns to the right for each
/// row up is continued by the mode of that direction, as far as the left column goes.
pub proof fn shallow_slopes_upwards_are_continued(
    n: &Neighbors4x4,
    a: int,
    g: int,
    x: int,
    y: int,
)
    requires
        0 <= x < 4,
        0 <= y < 4,
        x + 2 * y < 5,
        forall|i: int| 0 <= i < 4 ==> #[trigger] n.left[i] == a + g * (2 * i - 1),
    ensures
        sample_4x4(Intra4x4Mode::HorizontalUp, n, x, y) == a + g * (x + 2 * y),
{
    let d = x + 2 * y;
    let i = d / 2;
    assert(n.left[i] == a + g * (2 * i - 1));
    assert(n.left[i + 1] == a + g * (2 * (i + 1) - 1));
    next_steps(g, d);
    assert(g * (2 * i + 1) == g * (2 * i - 1) + 2 * g) by (nonlinear_arith);
    if d % 2 == 1 {
        assert(n.left[i + 2] == a + g * (2 * (i + 2) - 1));
        assert(g * (2 * i + 3) == g * (2 * i - 1) + 4 * g) by (nonlinear_arith);
    }
}

/// How much of a step that begins at border sample `p` the mean around position `c`
/// (in halves of a sample) has taken up, in quarters of its height.
pub open spec fn taken_up(p: int, c: int) -> int {
    if c <= 2 * p - 3 {
        0
    } else if c == 2 * p - 2 {
        1
    } else if c == 2 * p - 1 {
        2
    } else if c == 2 * p {
        3
    } else {
        4
    }
}

/// A border sample beside a step of four times `s` that begins at sample `p`.
pub open spec fn stepped(v: int, a: int, s: int, p: int, i: int) -> bool {
    v == if i < p {
        a
    } else {
        a + 4 * s
    }
}

/// A step in the row above is carried into the block along the direction of the mode
/// and softened over three samples.
pub proof fn steps_above_are_carried_along(
    n: &Neighbors4x4,
    p: int,
    a: int,
    s: int,
    x: int,
    y: int,
)
    requires
        0 <= x < 4,
        0 <= y < 4,
        n.top_right_avail,
        forall|i: int| 0 <= i < 8 ==> stepped(#[trigger] n.top[i] as int, a, s, p, i),
    ensures
        x + y < 6 ==> sample_4x4(Intra4x4Mode::DiagonalDownLeft, n, x, y) == a + s * taken_up(
            p,
            2 * (x + y + 1),
        ),
        sample_4x4(Intra4x4Mode::VerticalLeft, n, x, y) == a + s * taken_up(p, 2 * x + y + 1),
{
    assert(s * 0 == 0 && s * 1 == s && s * 2 == 2 * s && s * 3 == 3 * s && s * 4 == 4 * s)
        by (nonlinear_arith);
    let d = x + y;
    if d < 6 {
        assert(stepped(n.top[d] as int, a, s, p, d));
        assert(stepped(n.top[d + 1] as int, a, s, p, d + 1));
        assert(stepped(n.top[d + 2] as int, a, s, p, d + 2));
    }
    let i = x + y / 2;
    assert(stepped(n.top[i] as int, a, s, p, i));
    assert(stepped(n.top[i + 1] as int, a, s, p, i + 1));
    assert(stepped(n.top[i + 2] as int, a, s, p, i + 2));
}

/// A step in the left column is carried up and to the right, softened over three
/// samples.
pub proof fn steps_beside_are_carried_along(
    n: &Neighbors4x4,
    p: int,
    a: int,
    s: int,
    x: int,
    y: int,
)
    requires
        0 <= x < 4,
        0 <= y < 4,
        x + 2 * y < 5,
        forall|i: int| 0 <= i < 4 ==> stepped(#[trigger] n.left[i] as int, a, s, p, i),
    ensures
        sample_4x4(Intra4x4Mode::HorizontalUp, n, x, y) == a + s * taken_up(p, x + 2 * y + 1),
{
    assert(s * 0 == 0 && s * 1 == s && s * 2 == 2 * s && s * 3 == 3 * s && s * 4 == 4 * s)
        by (nonlinear_arith);
    let i = (x + 2 * y) / 2;
    assert(stepped(n.left[i] as int, a, s, p, i));
    assert(stepped(n.left[i + 1] as int, a, s, p, i + 1));
    if (x + 2 * y) % 2 == 1 {
        assert(stepped(n.left[i + 2] as int, a, s, p, i + 2));
    }
}

/// A step in the border from the left column over the corner to the row above is
/// carried down and to the right, softened over three samples.
pub proof fn steps_around_the_corner_are_carried_along(
    n: &Neighbors4x4,
    p: int,
    a: int,
    s: int,
    x: int,
    y: int,
)
    requires
        0 <= x < 4,
        0 <= y < 4,
        forall|i: int| -4 <= i <= 4 ==> stepped(#[trigger] n.edge(i), a, s, p, i),
    ensures
        sample_4x4(Intra4x4Mode::DiagonalDownRight, n, x, y) == a + s * taken_up(p, 2 * (x - y)),
        sample_4x4(Intra4x4Mode::VerticalRight, n, x, y) == a + s * taken_up(
            p,
            if 2 * x - y >= -1 {
                2 * x - y + 1
            } else {
                2 * (2 * x - y + 1)
            },
        ),
{
    assert(s * 0 == 0 && s * 1 == s && s * 2 == 2 * s && s * 3 == 3 * s && s * 4 == 4 * s)
        by (nonlinear_arith);
    let d = x - y;
    assert(stepped(n.edge(d - 1), a, s, p, d - 1));
    assert(stepped(n.edge(d), a, s, p, d));
    assert(stepped(n.edge(d + 1), a, s, p, d + 1));
    let z = 2 * x - y;
    if z < -1 {
        assert(stepped(n.edge(z), a, s, p, z));
        assert(stepped(n.edge(z + 1), a, s, p, z + 1));
        assert(stepped(n.edge(z + 2), a, s, p, z + 2));
    } else if z % 2 == 0 {
        let k = z / 2;
        assert(stepped(n.edge(k), a, s, p, k));
        assert(stepped(n.edge(k + 1), a, s, p, k + 1));
    } else {
        let k = (z + 1) / 2;
        assert(stepped(n.edge(k - 1), a, s, p, k - 1));
        assert(stepped(n.edge(k), a, s, p, k));
        assert(stepped(n.edge(k + 1), a, s, p, k + 1));
    }
}

/// Where the samples above and to the right are missing, the last one above stands for
/// them: the modes that read them see no difference.
pub proof fn missing_samples_repeat_the_last(
    n: &Neighbors4x4,
    m: &Neighbors4x4,
    mode: Intra4x4Mode,
    x: int,
    y: int,
)
    requires
        0 <= x < 4,
        0 <= y < 4,
        !n.top_right_avail,
        m.top_right_avail,
        forall|i: int|
            0 <= i < 8 ==> #[trigger] m.top[i] == if i < 4 {
                n.top[i]
            } else {
                n.top[3]
            },
        m.left == n.left,
        m.top_left == n.top_left,
        m.top_avail == n.top_avail,
        m.left_avail == n.left_avail,
    ensures
        sample_4x4(mode, n, x, y) == sample_4x4(mode, m, x, y),
{
    assert(m.top[0] == n.top[0] && m.top[1] == n.top[1]);
    assert(m.top[2] == n.top[2] && m.top[3] == n.top[3]);
    assert(forall|i: int| 0 <= i < 8 ==> m.extended_top(i) == #[trigger] n.extended_top(i));
    assert(forall|i: int| -4 <= i <= 4 ==> m.edge(i) == #[trigger] n.edge(i));
    assert(x == 0 || x == 1 || x == 2 || x == 3);
    assert(y == 0 || y == 1 || y == 2 || y == 3);
}

/// Below its end the left column goes on with its last sample.
pub proof fn left_column_goes_on(n: &Neighbors4x4, x: int, y: int)
    requires
        0 <= x < 4,
        0 <= y < 4,
        x + 2 * y > 5,
    ensures
        sample_4x4(Intra4x4Mode::HorizontalUp, n, x, y) == n.left[3],
{
}

/// The DC mode takes the mean of all available neighbours, to the nearest: no sample
/// that is not available plays a part, and it is the same over the whole block.
pub proof fn dc_is_the_mean(n: &Neighbors4x4, x: int, y: int)
    ensures
        ({
            let above = n.top[0] + n.top[1] + n.top[2] + n.top[3];
            let beside = n.left[0] + n.left[1] + n.left[2] + n.left[3];
            let dc = sample_4x4(Intra4x4Mode::Dc, n, x, y);
            &&& n.top_avail && n.left_avail ==> -4 < above + beside - 8 * dc + 1 <= 5
            &&& n.top_avail && !n.left_avail ==> -2 <= above - 4 * dc < 2
            &&& !n.top_avail && n.left_avail ==> -2 <= beside - 4 * dc < 2
            &&& !n.top_avail && !n.left_avail ==> dc == 128
        }),
{
}

/// The samples that two blocks need not share: those that are missing in both.
pub open spec fn same_neighbors(n: &Neighbors4x4, m: &Neighbors4x4) -> bool {
    &&& n.top_avail == m.top_avail
    &&& n.left_avail == m.left_avail
    &&& n.top_right_avail == m.top_right_avail
    &&& n.top_avail ==> forall|i: int|
        0 <= i < 8 && (i < 4 || n.top_right_avail) ==> #[trigger] n.top[i] == m.top[i]
    &&& n.left_avail ==> n.left == m.left
    &&& n.top_avail && n.left_avail ==> n.top_left == m.top_left
}

/// What is not available is not read.
pub proof fn missing_neighbors_are_not_read(
    n: &Neighbors4x4,
    m: &Neighbors4x4,
    mode: Intra4x4Mode,
    x: int,
    y: int,
)
    requires
        0 <= x < 4,
        0 <= y < 4,
        same_neighbors(n, m),
        predictable_4x4(mode, n),
    ensures
        predictable_4x4(mode, m),
        sample_4x4(mode, n, x, y) == sample_4x4(mode, m, x, y),
{
    assert(x == 0 || x == 1 || x == 2 || x == 3);
    assert(y == 0 || y == 1 || y == 2 || y == 3);
    if n.top_avail {
        assert(n.top[0] == m.top[0] && n.top[1] == m.top[1]);
        assert(n.top[2] == m.top[2] && n.top[3] == m.top[3]);
        assert(forall|i: int| 0 <= i < 8 ==> n.extended_top(i) == #[trigger] m.extended_top(i));
        if n.left_avail {
            assert(forall|i: int| -4 <= i <= 4 ==> n.edge(i) == #[trigger] m.edge(i));
        }
    }
}

} // verus!
