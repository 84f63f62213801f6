//! The H.264 in-loop deblocking filter for one line of samples across a block
//! edge, after section 8.7.
//!
//! A line holds the samples p3, p2, p1, p0 on one side of the edge and q0, q1,
//! q2, q3 on the other (two on each side for chroma). An edge is filtered only
//! where the steps across it are small enough to be coding artefacts.
use vstd::prelude::*;

use crate::arith;

verus! {

/// Thresholds for the step across the edge, by quantiser index.
pub const ALPHA_TABLE: [u8; 52] = [
    0, 0, 0, 0, 0, 0, 0, 0, 0, 0, 0, 0, 0, 0, 0, 0, 4, 4, 5, 6, 7, 8, 9, 10, 12, 13, 15, 17, 20,
    22, 25, 28, 32, 36, 40, 45, 50, 56, 63, 71, 80, 90, 101, 113, 127, 144, 162, 182, 203, 226,
    255, 255,
];

/// Thresholds for the steps on either side of the edge, by quantiser index.
pub const BETA_TABLE: [u8; 52] = [
    0, 0, 0, 0, 0, 0, 0, 0, 0, 0, 0, 0, 0, 0, 0, 0, 2, 2, 2, 3, 3, 3, 3, 4, 4, 4, 6, 6, 7, 7, 8, 8,
    9, 9, 10, 10, 11, 11, 12, 12, 13, 13, 14, 14, 15, 15, 16, 16, 17, 17, 18, 18,
];

/// Clipping limits of the normal filter, by quantiser index and by boundary
/// strength less one.
pub const TC0_TABLE: [[u8; 3]; 52] = [
    [0, 0, 0],
    [0, 0, 0],
    [0, 0, 0],
    [0, 0, 0],
    [0, 0, 0],
    [0, 0, 0],
    [0, 0, 0],
    [0, 0, 0],
    [0, 0, 0],
    [0, 0, 0],
    [0, 0, 0],
    [0, 0, 0],
    [0, 0, 0],
    [0, 0, 0],
    [0, 0, 0],
    [0, 0, 0],
    [0, 0, 0],
    [0, 0, 1],
    [0, 0, 1],
    [0, 0, 1],
    [0, 0, 1],
    [0, 1, 1],
    [0, 1, 1],
    [1, 1, 1],
    [1, 1, 1],
    [1, 1, 1],
    [1, 1, 1],
    [1, 1, 2],
    [1, 1, 2],
    [1, 1, 2],
    [1, 1, 2],
    [1, 2, 3],
    [1, 2, 3],
    [2, 2, 3],
    [2, 2, 4],
    [2, 3, 4],
    [2, 3, 4],
    [3, 3, 5],
    [3, 4, 6],
    [3, 4, 6],
    [4, 5, 7],
    [4, 5, 8],
    [4, 6, 9],
    [5, 7, 10],
    [6, 8, 11],
    [6, 8, 13],
    [7, 10, 14],
    [8, 11, 16],
    [9, 12, 18],
    [10, 13, 20],
    [11, 15, 23],
    [13, 17, 25],
];

/// The table index for a quantiser and an offset.
pub open spec fn table_index(qp_avg: int, offset: int) -> int {
    arith::clipped(0, 51, qp_avg + offset)
}

pub open spec fn distance(a: int, b: int) -> int {
    if a < b {
        b - a
    } else {
        a - b
    }
}

/// The strength and the thresholds with which an edge is filtered.
pub struct EdgeParams {
    pub bs: int,
    pub alpha: int,
    pub beta: int,
    pub tc0: int,
}

/// The parameters that a strength, a quantiser and the slice's offsets select.
pub open spec fn edge_params(bs: u8, qp_avg: i32, alpha_c0_offset: i32, beta_offset: i32)
    -> EdgeParams {
    let index_a = table_index(qp_avg as int, alpha_c0_offset as int);
    let index_b = table_index(qp_avg as int, beta_offset as int);
    EdgeParams {
        bs: bs as int,
        alpha: ALPHA_TABLE[index_a] as int,
        beta: BETA_TABLE[index_b] as int,
        tc0: if 1 <= bs <= 3 {
            TC0_TABLE[index_a][bs - 1] as int
        } else {
            0
        },
    }
}

impl EdgeParams {
    /// Whether the steps around an edge are small enough for it to be filtered.
    pub open spec fn active(self, p1: int, p0: int, q0: int, q1: int) -> bool {
        &&& self.bs > 0
        &&& distance(p0, q0) < self.alpha
        &&& distance(p1, p0) < self.beta
        &&& distance(q1, q0) < self.beta
    }

    /// What the normal filter adds to p0 and takes from q0, clipped to `tc`.
    pub open spec fn delta(self, tc: int, p1: int, p0: int, q0: int, q1: int) -> int {
        arith::clipped(-tc, tc, ((q0 - p0) * 4 + (p1 - q1) + 4) / 8)
    }

    /// The second sample of a side after the normal filter; `x2` is the third.
    pub open spec fn second(self, x2: int, x1: int, p0: int, q0: int) -> int {
        arith::clipped(
            0,
            255,
            x1 + arith::clipped(
                -self.tc0,
                self.tc0,
                (x2 + arith::mean2(p0, q0) - 2 * x1) / 2,
            ),
        )
    }

    /// Whether a side is flat: its third sample is close to its first.
    pub open spec fn flat(self, x2: int, x0: int) -> bool {
        distance(x2, x0) < self.beta
    }

    /// Whether the strong filter reaches three samples deep into a side.
    pub open spec fn deep(self, x2: int, x0: int, y0: int) -> bool {
        self.flat(x2, x0) && distance(x0, y0) < self.alpha / 4 + 2
    }
}

/// Sample `i` of a luma line after the edge in its middle has been filtered.
pub open spec fn luma_filtered(s: [u8; 8], e: EdgeParams, i: int) -> int {
    let (p3, p2, p1, p0) = (s[0] as int, s[1] as int, s[2] as int, s[3] as int);
    let (q0, q1, q2, q3) = (s[4] as int, s[5] as int, s[6] as int, s[7] as int);
    if !e.active(p1, p0, q0, q1) {
        s[i] as int
    } else if e.bs < 4 {
        let tc = e.tc0 + (if e.flat(p2, p0) {
            1int
        } else {
            0
        }) + (if e.flat(q2, q0) {
            1int
        } else {
            0
        });
        if i == 2 && e.flat(p2, p0) {
            e.second(p2, p1, p0, q0)
        } else if i == 3 {
            arith::clipped(0, 255, p0 + e.delta(tc, p1, p0, q0, q1))
        } else if i == 4 {
            arith::clipped(0, 255, q0 - e.delta(tc, p1, p0, q0, q1))
        } else if i == 5 && e.flat(q2, q0) {
            e.second(q2, q1, p0, q0)
        } else {
            s[i] as int
        }
    } else {
        if i < 4 {
            strong_luma(e, p3, p2, p1, p0, q0, q1, 3 - i)
        } else {
            strong_luma(e, q3, q2, q1, q0, p0, p1, i - 4)
        }
    }
}

/// Sample `k` of the side x0, x1, x2, x3 after the strong filter; y0 and y1
/// are the nearest samples across the edge.
pub open spec fn strong_luma(
    e: EdgeParams,
    x3: int,
    x2: int,
    x1: int,
    x0: int,
    y0: int,
    y1: int,
    k: int,
) -> int {
    if e.deep(x2, x0, y0) {
        if k == 0 {
            (x2 + 2 * x1 + 2 * x0 + 2 * y0 + y1 + 4) / 8
        } else if k == 1 {
            (x2 + x1 + x0 + y0 + 2) / 4
        } else if k == 2 {
            (2 * x3 + 3 * x2 + x1 + x0 + y0 + 4) / 8
        } else {
            x3
        }
    } else {
        if k == 0 {
            (2 * x1 + x0 + y1 + 2) / 4
        } else if k == 1 {
            x1
        } else if k == 2 {
            x2
        } else {
            x3
        }
    }
}

/// Sample `i` of a chroma line p1, p0, q0, q1 after its edge has been filtered.
pub open spec fn chroma_filtered(s: [u8; 4], e: EdgeParams, i: int) -> int {
    let (p1, p0, q0, q1) = (s[0] as int, s[1] as int, s[2] as int, s[3] as int);
    if !e.active(p1, p0, q0, q1) || i == 0 || i == 3 {
        s[i] as int
    } else if e.bs < 4 {
        let delta = e.delta(e.tc0 + 1, p1, p0, q0, q1);
        if i == 1 {
            arith::clipped(0, 255, p0 + delta)
        } else {
            arith::clipped(0, 255, q0 - delta)
        }
    } else {
        if i == 1 {
            (2 * p1 + p0 + q1 + 2) / 4
        } else {
            (2 * q1 + q0 + p1 + 2) / 4
        }
    }
}

/// The strength of an edge between two blocks.
pub open spec fn strength_of(p_is_intra: bool, q_is_intra: bool, edge_is_mb_edge: bool) -> int {
    if !p_is_intra && !q_is_intra {
        1
    } else if edge_is_mb_edge {
        4
    } else {
        3
    }
}

/// Boundary strength of a luma edge between two adjacent 4x4 blocks: 4 or 3
/// where either is intra coded, depending on whether the edge also separates
/// macroblocks, and 1 otherwise.
pub fn boundary_strength(p_is_intra: bool, q_is_intra: bool, edge_is_mb_edge: bool) -> (r: u8)
    ensures
        r == strength_of(p_is_intra, q_is_intra, edge_is_mb_edge),
        r == (if !p_is_intra && !q_is_intra {
            1int
        } else if edge_is_mb_edge {
            4
        } else {
            3
        }),
{
    if p_is_intra || q_is_intra {
        if edge_is_mb_edge {
            4
        } else {
            3
        }
    } else {
        1
    }
}

fn step(a: i32, b: i32) -> (r: i32)
    requires
        0 <= a <= 255,
        0 <= b <= 255,
    ensures
        r == distance(a as int, b as int),
{
    if a < b {
        b - a
    } else {
        a - b
    }
}

/// The filtered side x0, x1, x2 of a strongly filtered luma edge.
fn strong_side(
    Ghost(e): Ghost<EdgeParams>,
    alpha: i32,
    beta: i32,
    x: [i32; 4],
    y0: i32,
    y1: i32,
) -> (r: [u8; 3])
    requires
        e.alpha == alpha,
        e.beta == beta,
        0 <= alpha <= 255,
        forall|i: int| 0 <= i < 4 ==> 0 <= #[trigger] x[i] <= 255,
        0 <= y0 <= 255,
        0 <= y1 <= 255,
    ensures
        forall|k: int|
            0 <= k < 3 ==> #[trigger] r[k] == strong_luma(
                e,
                x[3] as int,
                x[2] as int,
                x[1] as int,
                x[0] as int,
                y0 as int,
                y1 as int,
                k,
            ),
{
    let (x0, x1, x2, x3): (i32, i32, i32, i32) = (x[0], x[1], x[2], x[3]);
    if step(x2, x0) < beta && step(x0, y0) < alpha / 4 + 2 {
        [
            ((x2 + 2 * x1 + 2 * x0 + 2 * y0 + y1 + 4) / 8) as u8,
            ((x2 + x1 + x0 + y0 + 2) / 4) as u8,
            ((2 * x3 + 3 * x2 + x1 + x0 + y0 + 4) / 8) as u8,
        ]
    } else {
        [((2 * x1 + x0 + y1 + 2) / 4) as u8, x1 as u8, x2 as u8]
    }
}

/// The second sample of a side after the normal filter.
fn normal_second(Ghost(e): Ghost<EdgeParams>, tc0: i32, x2: i32, x1: i32, p0: i32, q0: i32) -> (r:
    u8)
    requires
        e.tc0 == tc0,
        0 <= tc0 <= 255,
        0 <= x2 <= 255,
        0 <= x1 <= 255,
        0 <= p0 <= 255,
        0 <= q0 <= 255,
    ensures
        r == e.second(x2 as int, x1 as int, p0 as int, q0 as int),
{
    arith::clip_sample(x1 + arith::clip3(-tc0, tc0, arith::asr1(x2 + (p0 + q0 + 1) / 2 - 2 * x1)))
}

/// What the normal filter adds to p0 and takes from q0.
fn normal_delta(Ghost(e): Ghost<EdgeParams>, tc: i32, p1: i32, p0: i32, q0: i32, q1: i32) -> (r:
    i32)
    requires
        0 <= tc <= 257,
        0 <= p1 <= 255,
        0 <= p0 <= 255,
        0 <= q0 <= 255,
        0 <= q1 <= 255,
    ensures
        r == e.delta(tc as int, p1 as int, p0 as int, q0 as int, q1 as int),
        -tc <= r <= tc,
{
    arith::clip3(-tc, tc, arith::asr3((q0 - p0) * 4 + (p1 - q1) + 4))
}

/// Filters a luma line in place. `qp_avg` is the mean quantiser of the two
/// blocks; the offsets come from the slice header.
pub fn filter_luma_edge(
    samples: &mut [u8; 8],
    bs: u8,
    qp_avg: i32,
    alpha_c0_offset: i32,
    beta_offset: i32,
)
    requires
        bs != 0 ==> i32::MIN <= qp_avg + alpha_c0_offset <= i32::MAX,
        bs != 0 ==> i32::MIN <= qp_avg + beta_offset <= i32::MAX,
    ensures
        forall|i: int|
            0 <= i < 8 ==> #[trigger] final(samples)[i] == luma_filtered(
                *old(samples),
                edge_params(bs, qp_avg, alpha_c0_offset, beta_offset),
                i,
            ),
{
    if bs == 0 {
        return ;
    }
    let index_a: usize = arith::clip3(0, 51, qp_avg + alpha_c0_offset) as usize;
    let index_b: usize = arith::clip3(0, 51, qp_avg + beta_offset) as usize;
    let alpha: i32 = ALPHA_TABLE[index_a] as i32;
    let beta: i32 = BETA_TABLE[index_b] as i32;
    let (p3, p2, p1, p0): (i32, i32, i32, i32) = (
        samples[0] as i32,
        samples[1] as i32,
        samples[2] as i32,
        samples[3] as i32,
    );
    let (q0, q1, q2, q3): (i32, i32, i32, i32) = (
        samples[4] as i32,
        samples[5] as i32,
        samples[6] as i32,
        samples[7] as i32,
    );
    if step(p0, q0) >= alpha || step(p1, p0) >= beta || step(q1, q0) >= beta {
        return ;
    }
    let ghost e = edge_params(bs, qp_avg, alpha_c0_offset, beta_offset);
    if bs < 4 {
        let tc0: i32 = TC0_TABLE[index_a][(bs - 1) as usize] as i32;
        let flat_p: bool = step(p2, p0) < beta;
        let flat_q: bool = step(q2, q0) < beta;
        let mut tc: i32 = tc0;
        if flat_p {
            tc = tc + 1;
        }
        if flat_q {
            tc = tc + 1;
        }
        let delta: i32 = normal_delta(Ghost(e), tc, p1, p0, q0, q1);
        samples[3] = arith::clip_sample(p0 + delta);
        samples[4] = arith::clip_sample(q0 - delta);
        if flat_p {
            samples[2] = normal_second(Ghost(e), tc0, p2, p1, p0, q0);
        }
        if flat_q {
            samples[5] = normal_second(Ghost(e), tc0, q2, q1, p0, q0);
        }
    } else {
        let p: [u8; 3] = strong_side(Ghost(e), alpha, beta, [p0, p1, p2, p3], q0, q1);
        let q: [u8; 3] = strong_side(Ghost(e), alpha, beta, [q0, q1, q2, q3], p0, p1);
        samples[3] = p[0];
        samples[2] = p[1];
        samples[1] = p[2];
        samples[4] = q[0];
        samples[5] = q[1];
        samples[6] = q[2];
    }
}

/// Filters a chroma line p1, p0, q0, q1 in place; only p0 and q0 change.
pub fn filter_chroma_edge(
    samples: &mut [u8; 4],
    bs: u8,
    qp_avg: i32,
    alpha_c0_offset: i32,
    beta_offset: i32,
)
    requires
        bs != 0 ==> i32::MIN <= qp_avg + alpha_c0_offset <= i32::MAX,
        bs != 0 ==> i32::MIN <= qp_avg + beta_offset <= i32::MAX,
    ensures
        forall|i: int|
            0 <= i < 4 ==> #[trigger] final(samples)[i] == chroma_filtered(
                *old(samples),
                edge_params(bs, qp_avg, alpha_c0_offset, beta_offset),
                i,
            ),
{
    if bs == 0 {
        return ;
    }
    let index_a: usize = arith::clip3(0, 51, qp_avg + alpha_c0_offset) as usize;
    let index_b: usize = arith::clip3(0, 51, qp_avg + beta_offset) as usize;
    let alpha: i32 = ALPHA_TABLE[index_a] as i32;
    let beta: i32 = BETA_TABLE[index_b] as i32;
    let (p1, p0, q0, q1): (i32, i32, i32, i32) = (
        samples[0] as i32,
        samples[1] as i32,
        samples[2] as i32,
        samples[3] as i32,
    );
    if step(p0, q0) >= alpha || step(p1, p0) >= beta || step(q1, q0) >= beta {
        return ;
    }
    let ghost e = edge_params(bs, qp_avg, alpha_c0_offset, beta_offset);
    if bs < 4 {
        let tc0: i32 = TC0_TABLE[index_a][(bs - 1) as usize] as i32;
        let delta: i32 = normal_delta(Ghost(e), tc0 + 1, p1, p0, q0, q1);
        samples[1] = arith::clip_sample(p0 + delta);
        samples[2] = arith::clip_sample(q0 - delta);
    } else {
        samples[1] = ((2 * p1 + p0 + q1 + 2) / 4) as u8;
        samples[2] = ((2 * q1 + q0 + p1 + 2) / 4) as u8;
    }
}

/// With strength 0, or a quantiser so low that a threshold is 0, nothing
/// changes.
pub proof fn inactive_edges_are_untouched(s: [u8; 8], c: [u8; 4], e: EdgeParams, i: int)
    requires
        e.bs == 0 || e.alpha == 0 || e.beta == 0,
        0 <= i < 8,
    ensures
        luma_filtered(s, e, i) == s[i],
        i < 4 ==> chroma_filtered(c, e, i) == c[i],
{
}

/// A step across the edge of at least the threshold is a feature of the
/// picture and is kept.
pub proof fn real_edges_are_kept(s: [u8; 8], e: EdgeParams, i: int)
    requires
        distance(s[3] as int, s[4] as int) >= e.alpha,
        0 <= i < 8,
    ensures
        luma_filtered(s, e, i) == s[i],
{
}

/// The outermost samples of a line never change.
pub proof fn outer_samples_are_untouched(s: [u8; 8], c: [u8; 4], e: EdgeParams)
    ensures
        luma_filtered(s, e, 0) == s[0],
        luma_filtered(s, e, 7) == s[7],
        chroma_filtered(c, e, 0) == c[0],
        chroma_filtered(c, e, 3) == c[3],
{
}

/// A flat line stays flat at every strength.
pub proof fn flat_lines_stay_flat(s: [u8; 8], c: [u8; 4], v: u8, e: EdgeParams, i: int)
    requires
        forall|j: int| 0 <= j < 8 ==> #[trigger] s[j] == v,
        forall|j: int| 0 <= j < 4 ==> #[trigger] c[j] == v,
        e.tc0 >= 0,
        0 <= i < 8,
    ensures
        luma_filtered(s, e, i) == v,
        i < 4 ==> chroma_filtered(c, e, i) == v,
{
}

/// The strong filter treats both sides alike: filtering a reversed line
/// reverses the filtered line.
pub proof fn strong_filter_is_symmetric(s: [u8; 8], t: [u8; 8], e: EdgeParams, i: int)
    requires
        e.bs >= 4,
        forall|j: int| 0 <= j < 8 ==> #[trigger] t[j] == s[7 - j],
        0 <= i < 8,
    ensures
        luma_filtered(t, e, i) == luma_filtered(s, e, 7 - i),
{
}

/// A line does not decrease from left to right.
pub open spec fn rises(s: [u8; 8]) -> bool {
    s[0] <= s[1] <= s[2] <= s[3] <= s[4] <= s[5] <= s[6] <= s[7]
}

/// Filtering never reverses the step across an edge.
pub proof fn steps_are_never_reversed(s: [u8; 8], c: [u8; 4], e: EdgeParams)
    requires
        e.tc0 >= 0,
    ensures
        s[2] <= s[3] <= s[4] <= s[5] && s[1] <= s[3] && s[4] <= s[6] ==> luma_filtered(s, e, 3)
            <= luma_filtered(s, e, 4),
        s[2] >= s[3] >= s[4] >= s[5] && s[1] >= s[3] && s[4] >= s[6] ==> luma_filtered(s, e, 3)
            >= luma_filtered(s, e, 4),
        c[0] <= c[1] <= c[2] <= c[3] ==> chroma_filtered(c, e, 1) <= chroma_filtered(c, e, 2),
        c[0] >= c[1] >= c[2] >= c[3] ==> chroma_filtered(c, e, 1) >= chroma_filtered(c, e, 2),
{
}

/// The strong filter keeps the order and the range of a line that does not decrease.
pub proof fn strong_filter_keeps_order(s: [u8; 8], e: EdgeParams, i: int)
    requires
        rises(s),
        e.bs >= 4,
        0 <= i < 7,
    ensures
        luma_filtered(s, e, i) <= luma_filtered(s, e, i + 1),
        s[0] <= luma_filtered(s, e, i) <= s[7],
{
}

/// A line that is flat on both sides of its edge: `a` before it and `b` behind it.
pub open spec fn is_step(s: [u8; 8], a: u8, b: u8) -> bool {
    &&& s[0] == a && s[1] == a && s[2] == a && s[3] == a
    &&& s[4] == b && s[5] == b && s[6] == b && s[7] == b
}

/// The strong filter turns a small step into a ramp of seven eighths, three quarters
/// and five eighths on each side, and a larger one, up to the threshold, into one of
/// three quarters.
pub proof fn strong_filter_spreads_a_step(s: [u8; 8], a: u8, b: u8, e: EdgeParams)
    requires
        is_step(s, a, b),
        e.bs >= 4,
        e.beta > 0,
        distance(a as int, b as int) < e.alpha,
    ensures
        distance(a as int, b as int) < e.alpha / 4 + 2 ==> {
            &&& near_eighths(luma_filtered(s, e, 1), a, b, 7)
            &&& near_eighths(luma_filtered(s, e, 2), a, b, 6)
            &&& near_eighths(luma_filtered(s, e, 3), a, b, 5)
            &&& near_eighths(luma_filtered(s, e, 4), a, b, 3)
            &&& near_eighths(luma_filtered(s, e, 5), a, b, 2)
            &&& near_eighths(luma_filtered(s, e, 6), a, b, 1)
        },
        distance(a as int, b as int) >= e.alpha / 4 + 2 ==> {
            &&& luma_filtered(s, e, 1) == a
            &&& luma_filtered(s, e, 2) == a
            &&& near_eighths(luma_filtered(s, e, 3), a, b, 6)
            &&& near_eighths(luma_filtered(s, e, 4), a, b, 2)
            &&& luma_filtered(s, e, 5) == b
            &&& luma_filtered(s, e, 6) == b
        },
{
}

/// A sample is the mean of two, with the given number of eighths of the first.
pub open spec fn near_eighths(v: int, a: u8, b: u8, n: int) -> bool {
    -4 <= n * a + (8 - n) * b - 8 * v <= 4
}

/// The strong filter of chroma takes a quarter of a step to each side.
pub proof fn strong_chroma_filter_spreads_a_step(c: [u8; 4], a: u8, b: u8, e: EdgeParams)
    requires
        c[0] == a && c[1] == a && c[2] == b && c[3] == b,
        e.bs >= 4,
        e.beta > 0,
        distance(a as int, b as int) < e.alpha,
    ensures
        near_eighths(chroma_filtered(c, e, 1), a, b, 6),
        near_eighths(chroma_filtered(c, e, 2), a, b, 2),
{
}

/// The normal filter moves the samples at the edge by the same amount in opposite
/// directions, towards each other on a step, by three eighths of it unless that is
/// more than the limit.
pub proof fn normal_filter_narrows_a_step(s: [u8; 8], a: u8, b: u8, e: EdgeParams)
    requires
        is_step(s, a, b),
        0 < e.bs < 4,
        e.beta > 0,
        e.tc0 >= 0,
        a <= b,
        b - a < e.alpha,
    ensures
        ({
            let up = luma_filtered(s, e, 3) - a;
            &&& b - luma_filtered(s, e, 4) == up
            &&& 0 <= up <= e.tc0 + 2
            &&& up == e.tc0 + 2 || -4 <= 3 * (b - a) - 8 * up <= 4
        }),
{
}

/// The normal filter of chroma does the same, with a limit that is larger by one.
pub proof fn normal_chroma_filter_narrows_a_step(c: [u8; 4], a: u8, b: u8, e: EdgeParams)
    requires
        c[0] == a && c[1] == a && c[2] == b && c[3] == b,
        0 < e.bs < 4,
        e.beta > 0,
        e.tc0 >= 0,
        a <= b,
        b - a < e.alpha,
    ensures
        ({
            let up = chroma_filtered(c, e, 1) - a;
            &&& b - chroma_filtered(c, e, 2) == up
            &&& 0 <= up <= e.tc0 + 1
            &&& up == e.tc0 + 1 || -4 <= 3 * (b - a) - 8 * up <= 4
        }),
{
}

/// The normal filter treats both sides of an edge alike, up to rounding: in a
/// reversed line the same samples change, by as much, up to one.
pub proof fn normal_filter_is_symmetric(s: [u8; 8], t: [u8; 8], e: EdgeParams, i: int)
    requires
        0 < e.bs < 4,
        e.tc0 >= 0,
        forall|j: int| 0 <= j < 8 ==> #[trigger] t[j] == s[7 - j],
        0 <= i < 8,
    ensures
        -1 <= luma_filtered(t, e, i) - luma_filtered(s, e, 7 - i) <= 1,
{
    assert(t[0] == s[7] && t[1] == s[6] && t[2] == s[5] && t[3] == s[4]);
    assert(t[4] == s[3] && t[5] == s[2] && t[6] == s[1] && t[7] == s[0]);
}

/// The normal filter changes no sample by more than its limit, which grows by one
/// for each flat side; the second sample of a side changes only if the side is flat,
/// and moves towards the middle between its neighbours.
pub proof fn normal_filter_is_limited(s: [u8; 8], e: EdgeParams)
    requires
        0 < e.bs < 4,
        e.tc0 >= 0,
    ensures
        ({
            let (p, q) = (
                distance(s[1] as int, s[3] as int) < e.beta,
                distance(s[6] as int, s[4] as int) < e.beta,
            );
            let limit = e.tc0 + (if p {
                1int
            } else {
                0
            }) + (if q {
                1int
            } else {
                0
            });
            let goal = s[3] + s[4] + 1;
            &&& distance(luma_filtered(s, e, 3), s[3] as int) <= limit
            &&& distance(luma_filtered(s, e, 4), s[4] as int) <= limit
            &&& distance(luma_filtered(s, e, 2), s[2] as int) <= e.tc0
            &&& distance(luma_filtered(s, e, 5), s[5] as int) <= e.tc0
            &&& !p ==> luma_filtered(s, e, 2) == s[2]
            &&& !q ==> luma_filtered(s, e, 5) == s[5]
            &&& luma_filtered(s, e, 2) > s[2] ==> 2 * s[1] + goal > 4 * s[2]
            &&& luma_filtered(s, e, 2) < s[2] ==> 2 * s[1] + goal < 4 * s[2] + 2
            &&& luma_filtered(s, e, 5) > s[5] ==> 2 * s[6] + goal > 4 * s[5]
            &&& luma_filtered(s, e, 5) < s[5] ==> 2 * s[6] + goal < 4 * s[5] + 2
        }),
{
}

/// On a flat side next to a step that is filtered, the second sample moves by a
/// quarter of the step, unless that is more than the limit.
pub proof fn normal_filter_reaches_the_second_sample(s: [u8; 8], a: u8, b: u8, e: EdgeParams)
    requires
        is_step(s, a, b),
        0 < e.bs < 4,
        e.beta > 0,
        e.tc0 >= 0,
        a <= b,
        b - a < e.alpha,
    ensures
        ({
            let up = luma_filtered(s, e, 2) - a;
            let back = b - luma_filtered(s, e, 5);
            &&& 0 <= up <= e.tc0
            &&& up == e.tc0 || -3 <= (b - a) - 4 * up <= 3
            &&& 0 <= back <= e.tc0
            &&& back == e.tc0 || -3 <= (b - a) - 4 * back <= 3
        }),
{
}

/// An edge is filtered only where the step across it, and those next to it, stay
/// below their thresholds.
pub proof fn large_steps_are_kept(s: [u8; 8], c: [u8; 4], e: EdgeParams, i: int)
    requires
        0 <= i < 8,
    ensures
        distance(s[3] as int, s[4] as int) >= e.alpha || distance(s[2] as int, s[3] as int)
            >= e.beta || distance(s[5] as int, s[4] as int) >= e.beta ==> luma_filtered(s, e, i)
            == s[i],
        i < 4 && (distance(c[1] as int, c[2] as int) >= e.alpha || distance(
            c[0] as int,
            c[1] as int,
        ) >= e.beta || distance(c[3] as int, c[2] as int) >= e.beta) ==> chroma_filtered(c, e, i)
            == c[i],
{
}

proof fn thresholds_grow(i: int)
    requires
        0 <= i < 51,
    ensures
        ALPHA_TABLE[i] <= ALPHA_TABLE[i + 1],
        BETA_TABLE[i] <= BETA_TABLE[i + 1],
        TC0_TABLE[i][0] <= TC0_TABLE[i + 1][0],
        TC0_TABLE[i][1] <= TC0_TABLE[i + 1][1],
        TC0_TABLE[i][2] <= TC0_TABLE[i + 1][2],
{
}

/// The thresholds for the step across an edge double every six steps of the
/// quantiser, up to rounding; those for the steps next to it grow by one every two;
/// and both are zero below 16. The limits of the normal filter grow with the
/// strength of the edge.
pub proof fn thresholds_follow_the_quantiser(i: int)
    requires
        0 <= i < 52,
    ensures
        i < 16 ==> ALPHA_TABLE[i] == 0 && BETA_TABLE[i] == 0,
        i >= 16 ==> ALPHA_TABLE[i] > 0 && BETA_TABLE[i] > 0,
        16 <= i < 45 ==> -1 <= ALPHA_TABLE[i + 6] - 2 * ALPHA_TABLE[i] <= 2,
        i >= 16 ==> i - 17 <= 2 * BETA_TABLE[i] <= i - 12,
        i >= 26 ==> i - 15 <= 2 * BETA_TABLE[i] <= i - 14,
        TC0_TABLE[i][0] <= TC0_TABLE[i][1] <= TC0_TABLE[i][2],
        i < 17 ==> TC0_TABLE[i][2] == 0,
        i >= 17 ==> TC0_TABLE[i][2] > 0,
{
}

proof fn tables_grow(i: int, j: int)
    requires
        0 <= i <= j < 52,
    ensures
        ALPHA_TABLE[i] <= ALPHA_TABLE[j],
        BETA_TABLE[i] <= BETA_TABLE[j],
        TC0_TABLE[i][0] <= TC0_TABLE[j][0],
        TC0_TABLE[i][1] <= TC0_TABLE[j][1],
        TC0_TABLE[i][2] <= TC0_TABLE[j][2],
    decreases j - i,
{
    if i < j {
        tables_grow(i, j - 1);
        thresholds_grow(j - 1);
    }
}

/// Coarser quantisers and larger offsets filter more: no threshold and no limit
/// becomes smaller.
pub proof fn coarser_quantisers_filter_more(
    bs: u8,
    qp: i32,
    a: i32,
    b: i32,
    bs2: u8,
    qp2: i32,
    a2: i32,
    b2: i32,
)
    requires
        qp + a <= qp2 + a2,
        qp + b <= qp2 + b2,
        1 <= bs <= bs2 <= 3,
    ensures
        edge_params(bs, qp, a, b).alpha <= edge_params(bs2, qp2, a2, b2).alpha,
        edge_params(bs, qp, a, b).beta <= edge_params(bs2, qp2, a2, b2).beta,
        edge_params(bs, qp, a, b).tc0 <= edge_params(bs2, qp2, a2, b2).tc0,
{
    let (i, j) = (table_index(qp as int, a as int), table_index(qp2 as int, a2 as int));
    tables_grow(i, j);
    tables_grow(table_index(qp as int, b as int), table_index(qp2 as int, b2 as int));
    thresholds_follow_the_quantiser(i);
    thresholds_follow_the_quantiser(j);
}

/// Each offset counts for its own threshold: the first, and the limits, depend on the
/// sum of the quantiser and the first offset, and the second on that with the other.
pub proof fn offsets_shift_the_quantiser(bs: u8, qp: i32, a: i32, b: i32, qp2: i32, a2: i32, b2: i32)
    ensures
        qp + a == qp2 + a2 ==> edge_params(bs, qp, a, b).alpha == edge_params(
            bs,
            qp2,
            a2,
            b2,
        ).alpha && edge_params(bs, qp, a, b).tc0 == edge_params(bs, qp2, a2, b2).tc0,
        qp + b == qp2 + b2 ==> edge_params(bs, qp, a, b).beta == edge_params(bs, qp2, a2, b2).beta,
        edge_params(bs, qp, a, b).bs == bs,
        0 <= qp + a < 52 && 1 <= bs <= 3 ==> edge_params(bs, qp, a, b).tc0 == TC0_TABLE[qp + a][bs
            - 1] && edge_params(bs, qp, a, b).alpha == ALPHA_TABLE[qp + a],
        0 <= qp + b < 52 ==> edge_params(bs, qp, a, b).beta == BETA_TABLE[qp + b],
{
}

/// Every edge has a strength, which does not depend on the order of the blocks.
/// Edges of intra blocks are stronger than others, and those between macroblocks
/// the strongest: they alone get the strong filter.
pub proof fn intra_edges_are_stronger(p: bool, q: bool, mb: bool)
    ensures
        1 <= strength_of(p, q, mb) <= 4,
        strength_of(p, q, mb) == strength_of(q, p, mb),
        p || q ==> strength_of(p, q, mb) > strength_of(false, false, mb) + 1,
        p || q ==> strength_of(p, q, true) == strength_of(p, q, false) + 1,
        strength_of(p, q, mb) >= 4 <==> (p || q) && mb,
        strength_of(false, false, true) == strength_of(false, false, false),
{
}

/// How many eighths of sample `k` the strong filter takes for sample `i` on the left of
/// the edge, where it reaches deep.
pub open spec fn deep_weight(i: int, k: int) -> int {
    if i == 1 {
        if k == 0 {
            2
        } else if k == 1 {
            3
        } else if k <= 4 {
            1
        } else {
            0
        }
    } else if i == 2 {
        if 1 <= k <= 4 {
            2
        } else {
            0
        }
    } else {
        if k == 1 || k == 5 {
            1
        } else if 2 <= k <= 4 {
            2
        } else {
            0
        }
    }
}

/// How many eighths of sample `k` the strong filter takes for the sample on the left of
/// the edge, where it does not reach deep.
pub open spec fn shallow_weight(k: int) -> int {
    if k == 2 {
        4
    } else if k == 3 || k == 5 {
        2
    } else {
        0
    }
}

/// Eight more in one sample of a line changes the samples that the strong filter gives
/// by the weight that it has in each.
pub proof fn strong_filter_weighs_the_line(
    s: [u8; 8],
    t: [u8; 8],
    e: EdgeParams,
    k: int,
    i: int,
)
    requires
        0 <= k < 8,
        1 <= i <= 3,
        forall|j: int|
            0 <= j < 8 ==> #[trigger] t[j] == if j == k {
                s[j] + 8
            } else {
                s[j] as int
            },
        e.bs >= 4,
        e.active(s[2] as int, s[3] as int, s[4] as int, s[5] as int),
        e.active(t[2] as int, t[3] as int, t[4] as int, t[5] as int),
    ensures
        e.deep(s[1] as int, s[3] as int, s[4] as int) && e.deep(
            t[1] as int,
            t[3] as int,
            t[4] as int,
        ) ==> luma_filtered(t, e, i) - luma_filtered(s, e, i) == deep_weight(i, k),
        !e.deep(s[1] as int, s[3] as int, s[4] as int) && !e.deep(
            t[1] as int,
            t[3] as int,
            t[4] as int,
        ) && i == 3 ==> luma_filtered(t, e, i) - luma_filtered(s, e, i) == shallow_weight(k),
{
    assert(k == 0 || k == 1 || k == 2 || k == 3 || k == 4 || k == 5 || k == 6 || k == 7);
    assert(t[0] == s[0] + if k == 0 { 8int } else { 0 });
    assert(t[1] == s[1] + if k == 1 { 8int } else { 0 });
    assert(t[2] == s[2] + if k == 2 { 8int } else { 0 });
    assert(t[3] == s[3] + if k == 3 { 8int } else { 0 });
    assert(t[4] == s[4] + if k == 4 { 8int } else { 0 });
    assert(t[5] == s[5] + if k == 5 { 8int } else { 0 });
    assert(t[6] == s[6] + if k == 6 { 8int } else { 0 });
    assert(t[7] == s[7] + if k == 7 { 8int } else { 0 });
}

/// A gentle slope is no edge: the normal filter leaves the samples at an edge that lies
/// on one, in luma and in chroma.
pub proof fn gentle_slopes_are_kept(s: [u8; 8], c: [u8; 4], e: EdgeParams, g: int)
    requires
        -4 <= g <= 3,
        0 <= e.bs < 4,
        e.tc0 >= 0,
        s[3] == s[2] + g,
        s[4] == s[2] + 2 * g,
        s[5] == s[2] + 3 * g,
        c[1] == c[0] + g,
        c[2] == c[0] + 2 * g,
        c[3] == c[0] + 3 * g,
    ensures
        luma_filtered(s, e, 3) == s[3],
        luma_filtered(s, e, 4) == s[4],
        chroma_filtered(c, e, 1) == c[1],
        chroma_filtered(c, e, 2) == c[2],
{
}

} // verus!
