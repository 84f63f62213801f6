//! Reconstruction of intra macroblocks.
//!
//! Ties intra prediction, the inverse transform and the addition of the
//! residual together for one 16x16 macroblock, and writes the result into the
//! planes of a frame.
use vstd::prelude::*;

use crate::arith;
use crate::h264_chroma_intra::{predict_chroma_8x8, ChromaIntraMode, ChromaNeighbors};
use crate::h264_idct::{add_residual_4x4, idct_4x4};
use crate::h264_intra16::{predict_16x16, Intra16x16Mode, Neighbors16x16};

verus! {

/// A frame in 4:2:0 format.
#[derive(Debug, Clone)]
pub struct Frame {
    pub width: u32,
    pub height: u32,
    /// Luma samples, row by row.
    pub y: Vec<u8>,
    /// Cb samples, half as many in each direction.
    pub cb: Vec<u8>,
    /// Cr samples, half as many in each direction.
    pub cr: Vec<u8>,
}

/// The sample at column `x` and row `y` of a plane.
pub open spec fn at(plane: Seq<u8>, stride: int, x: int, y: int) -> u8 {
    plane[y * stride + x]
}

impl Frame {
    pub open spec fn chroma_width(&self) -> int {
        self.width as int / 2
    }

    pub open spec fn chroma_height(&self) -> int {
        self.height as int / 2
    }

    /// Each plane holds as many samples as its size calls for.
    pub open spec fn wf(&self) -> bool {
        &&& self.y@.len() == self.width * self.height
        &&& self.cb@.len() == self.chroma_width() * self.chroma_height()
        &&& self.cr@.len() == self.chroma_width() * self.chroma_height()
    }

    /// Every sample of the frame has the value `v`.
    pub open spec fn solid(&self, v: u8) -> bool {
        &&& forall|i: int| 0 <= i < self.y@.len() ==> #[trigger] self.y@[i] == v
        &&& forall|i: int| 0 <= i < self.cb@.len() ==> #[trigger] self.cb@[i] == v
        &&& forall|i: int| 0 <= i < self.cr@.len() ==> #[trigger] self.cr@[i] == v
    }

    /// A grey frame.
    pub fn new(width: u32, height: u32) -> (r: Self)
        requires
            width * height <= u32::MAX,
        ensures
            r.width == width,
            r.height == height,
            r.wf(),
            r.solid(128),
    {
        let cw: u32 = width / 2;
        let ch: u32 = height / 2;
        assert(0 <= cw * ch <= width * height) by (nonlinear_arith)
            requires
                0 <= cw <= width,
                0 <= ch <= height,
        ;
        assert(0 <= width * height) by (nonlinear_arith);
        Frame {
            width,
            height,
            y: vec![128u8; (width * height) as usize],
            cb: vec![128u8; (cw * ch) as usize],
            cr: vec![128u8; (cw * ch) as usize],
        }
    }
}

/// What the bit stream says about one macroblock. The residuals are blocks of
/// coefficients, in raster order of the 4x4 blocks.
pub struct MbParams<'a> {
    pub luma_mode: Intra16x16Mode,
    pub chroma_mode: ChromaIntraMode,
    pub luma_residuals: &'a [[i32; 16]; 16],
    pub chroma_residuals_cb: &'a [[i32; 16]; 4],
    pub chroma_residuals_cr: &'a [[i32; 16]; 4],
}

impl<'a> MbParams<'a> {
    /// No coefficient overflows the inverse transform.
    pub open spec fn wf(&self) -> bool {
        &&& forall|i: int|
            0 <= i < 16 ==> crate::h264_idct::transform_fits(#[trigger] self.luma_residuals[i])
        &&& forall|i: int|
            0 <= i < 4 ==> crate::h264_idct::transform_fits(#[trigger] self.chroma_residuals_cb[i])
        &&& forall|i: int|
            0 <= i < 4 ==> crate::h264_idct::transform_fits(#[trigger] self.chroma_residuals_cr[i])
    }
}

pub open spec fn line_of_16(f: spec_fn(int) -> u8) -> [u8; 16] {
    [
        f(0),
        f(1),
        f(2),
        f(3),
        f(4),
        f(5),
        f(6),
        f(7),
        f(8),
        f(9),
        f(10),
        f(11),
        f(12),
        f(13),
        f(14),
        f(15),
    ]
}

pub open spec fn line_of_8(f: spec_fn(int) -> u8) -> [u8; 8] {
    [f(0), f(1), f(2), f(3), f(4), f(5), f(6), f(7)]
}

/// The neighbourhood of a luma macroblock. At the edges of the frame, the
/// samples that would lie outside are unavailable and count as 0.
pub open spec fn luma_neighbors(plane: Seq<u8>, stride: int, mb_x: int, mb_y: int)
    -> Neighbors16x16 {
    Neighbors16x16 {
        top: line_of_16(
            |i: int|
                if mb_y > 0 {
                    at(plane, stride, 16 * mb_x + i, 16 * mb_y - 1)
                } else {
                    0
                },
        ),
        left: line_of_16(
            |i: int|
                if mb_x > 0 {
                    at(plane, stride, 16 * mb_x - 1, 16 * mb_y + i)
                } else {
                    0
                },
        ),
        top_left: if mb_x > 0 && mb_y > 0 {
            at(plane, stride, 16 * mb_x - 1, 16 * mb_y - 1)
        } else {
            0
        },
        top_avail: mb_y > 0,
        left_avail: mb_x > 0,
    }
}

/// The neighbourhood of a chroma macroblock.
pub open spec fn chroma_neighbors(plane: Seq<u8>, stride: int, mb_x: int, mb_y: int)
    -> ChromaNeighbors {
    ChromaNeighbors {
        top: line_of_8(
            |i: int|
                if mb_y > 0 {
                    at(plane, stride, 8 * mb_x + i, 8 * mb_y - 1)
                } else {
                    0
                },
        ),
        left: line_of_8(
            |i: int|
                if mb_x > 0 {
                    at(plane, stride, 8 * mb_x - 1, 8 * mb_y + i)
                } else {
                    0
                },
        ),
        top_left: if mb_x > 0 && mb_y > 0 {
            at(plane, stride, 8 * mb_x - 1, 8 * mb_y - 1)
        } else {
            0
        },
        top_avail: mb_y > 0,
        left_avail: mb_x > 0,
    }
}

/// The reconstructed luma sample at column `x` and row `y` of a macroblock:
/// prediction plus residual, clamped to a byte.
pub open spec fn luma_value(
    mode: Intra16x16Mode,
    n: Neighbors16x16,
    residuals: [[i32; 16]; 16],
    x: int,
    y: int,
) -> int {
    arith::clipped(
        0,
        255,
        crate::h264_intra16::sample_16x16(mode, &n, x, y) + crate::h264_idct::residual_at(
            residuals[4 * (y / 4) + x / 4],
            y % 4,
            x % 4,
        ),
    )
}

/// The reconstructed chroma sample at column `x` and row `y` of a macroblock.
pub open spec fn chroma_value(
    mode: ChromaIntraMode,
    n: ChromaNeighbors,
    residuals: [[i32; 16]; 4],
    x: int,
    y: int,
) -> int {
    arith::clipped(
        0,
        255,
        crate::h264_chroma_intra::sample_chroma(mode, &n, x, y) + crate::h264_idct::residual_at(
            residuals[2 * (y / 4) + x / 4],
            y % 4,
            x % 4,
        ),
    )
}

/// `new` is the plane `old` with the luma macroblock at `(mb_x, mb_y)` written.
pub open spec fn luma_written(
    old: Seq<u8>,
    new: Seq<u8>,
    width: int,
    height: int,
    mb_x: int,
    mb_y: int,
    mode: Intra16x16Mode,
    residuals: [[i32; 16]; 16],
) -> bool {
    let n = luma_neighbors(old, width, mb_x, mb_y);
    &&& new.len() == old.len()
    &&& forall|x: int, y: int|
        0 <= x < width && 0 <= y < height ==> #[trigger] at(new, width, x, y) == (if x / 16 == mb_x
            && y / 16 == mb_y {
            luma_value(mode, n, residuals, x % 16, y % 16)
        } else {
            at(old, width, x, y) as int
        })
}

/// `new` is the plane `old` with the chroma macroblock at `(mb_x, mb_y)`
/// written.
pub open spec fn chroma_written(
    old: Seq<u8>,
    new: Seq<u8>,
    width: int,
    height: int,
    mb_x: int,
    mb_y: int,
    mode: ChromaIntraMode,
    residuals: [[i32; 16]; 4],
) -> bool {
    let n = chroma_neighbors(old, width, mb_x, mb_y);
    &&& new.len() == old.len()
    &&& forall|x: int, y: int|
        0 <= x < width && 0 <= y < height ==> #[trigger] at(new, width, x, y) == (if x / 8 == mb_x
            && y / 8 == mb_y {
            chroma_value(mode, n, residuals, x % 8, y % 8)
        } else {
            at(old, width, x, y) as int
        })
}

/// The luma mode can be predicted at this macroblock.
pub open spec fn luma_predictable(mode: Intra16x16Mode, mb_x: int, mb_y: int) -> bool {
    match mode {
        Intra16x16Mode::Vertical => mb_y > 0,
        Intra16x16Mode::Horizontal => mb_x > 0,
        Intra16x16Mode::Dc => true,
        Intra16x16Mode::Plane => mb_x > 0 && mb_y > 0,
    }
}

/// The chroma mode can be predicted at this macroblock.
pub open spec fn chroma_predictable(mode: ChromaIntraMode, mb_x: int, mb_y: int) -> bool {
    match mode {
        ChromaIntraMode::Vertical => mb_y > 0,
        ChromaIntraMode::Horizontal => mb_x > 0,
        ChromaIntraMode::Dc => true,
        ChromaIntraMode::Plane => mb_x > 0 && mb_y > 0,
    }
}

proof fn cell_in_plane(stride: int, rows: int, x: int, y: int)
    requires
        0 <= x < stride,
        0 <= y < rows,
    ensures
        0 <= y * stride + x < stride * rows,
        0 <= y * stride < stride * rows,
{
    assert(0 <= y * stride && y * stride + x < stride * rows) by (nonlinear_arith)
        requires
            0 <= x < stride,
            0 <= y < rows,
    ;
}

proof fn cells_are_distinct(stride: int, x: int, y: int, u: int, v: int)
    requires
        0 <= x < stride,
        0 <= u < stride,
        y * stride + x == v * stride + u,
    ensures
        x == u,
        y == v,
{
    assert(y == v) by (nonlinear_arith)
        requires
            0 <= x < stride,
            0 <= u < stride,
            y * stride + x == v * stride + u,
    ;
}

fn sample(plane: &Vec<u8>, stride: usize, Ghost(rows): Ghost<int>, x: usize, y: usize) -> (r: u8)
    requires
        plane@.len() == stride * rows,
        x < stride,
        y < rows,
    ensures
        r == at(plane@, stride as int, x as int, y as int),
{
    proof {
        cell_in_plane(stride as int, rows, x as int, y as int);
        assert(plane@.len() == plane.len());
    }
    plane[y * stride + x]
}

fn write_sub_block(
    plane: &mut Vec<u8>,
    stride: usize,
    Ghost(rows): Ghost<int>,
    x0: usize,
    y0: usize,
    src: &[u8; 16],
)
    requires
        old(plane)@.len() == stride * rows,
        x0 + 4 <= stride,
        y0 + 4 <= rows,
        rows <= usize::MAX,
    ensures
        final(plane)@.len() == old(plane)@.len(),
        forall|x: int, y: int|
            0 <= x < stride && 0 <= y < rows ==> #[trigger] at(
                final(plane)@,
                stride as int,
                x,
                y,
            ) == (if x0 <= x < x0 + 4 && y0 <= y < y0 + 4 {
                src[4 * (y - y0) + (x - x0)]
            } else {
                at(old(plane)@, stride as int, x, y)
            }),
{
    let mut k: usize = 0;
    while k < 16
        invariant
            k <= 16,
            plane@.len() == stride * rows,
            x0 + 4 <= stride,
            y0 + 4 <= rows,
            rows <= usize::MAX,
            forall|x: int, y: int|
                0 <= x < stride && 0 <= y < rows ==> #[trigger] at(plane@, stride as int, x, y)
                    == (if x0 <= x < x0 + 4 && y0 <= y < y0 + 4 && 4 * (y - y0) + (x - x0) < k {
                    src[4 * (y - y0) + (x - x0)]
                } else {
                    at(old(plane)@, stride as int, x, y)
                }),
        decreases 16 - k,
    {
        let x: usize = x0 + k % 4;
        let y: usize = y0 + k / 4;
        proof {
            cell_in_plane(stride as int, rows, x as int, y as int);
            assert(plane@.len() == plane.len());
        }
        let ghost before = plane@;
        plane.set(y * stride + x, src[k]);
        assert forall|u: int, v: int| 0 <= u < stride && 0 <= v < rows implies #[trigger] at(
            plane@,
            stride as int,
            u,
            v,
        ) == (if x0 <= u < x0 + 4 && y0 <= v < y0 + 4 && 4 * (v - y0) + (u - x0) < k + 1 {
            src[4 * (v - y0) + (u - x0)]
        } else {
            at(old(plane)@, stride as int, u, v)
        }) by {
            cell_in_plane(stride as int, rows, u, v);
            if v * stride + u == y * stride + x {
                cells_are_distinct(stride as int, u, v, x as int, y as int);
            } else {
                assert(at(plane@, stride as int, u, v) == at(before, stride as int, u, v));
            }
        }
        k = k + 1;
    }
}

fn build_luma_neighbors(
    plane: &Vec<u8>,
    stride: usize,
    Ghost(rows): Ghost<int>,
    mb_x: usize,
    mb_y: usize,
) -> (r: Neighbors16x16)
    requires
        plane@.len() == stride * rows,
        16 * (mb_x + 1) <= stride,
        16 * (mb_y + 1) <= rows,
        rows <= usize::MAX,
    ensures
        r == luma_neighbors(plane@, stride as int, mb_x as int, mb_y as int),
{
    let mx: usize = mb_x * 16;
    let my: usize = mb_y * 16;
    let mut top: [u8; 16] = [0u8; 16];
    let mut left: [u8; 16] = [0u8; 16];
    let mut top_left: u8 = 0;
    let ghost n = luma_neighbors(plane@, stride as int, mb_x as int, mb_y as int);
    if mb_y > 0 {
        for i in 0..16usize
            invariant
                plane@.len() == stride * rows,
                mx == 16 * mb_x,
                my == 16 * mb_y,
                mx + 16 <= stride,
                0 < my <= rows,
                forall|j: int|
                    0 <= j < i ==> #[trigger] top[j] == at(plane@, stride as int, mx + j, my - 1),
        {
            top[i] = sample(plane, stride, Ghost(rows), mx + i, my - 1);
        }
    }
    if mb_x > 0 {
        for i in 0..16usize
            invariant
                plane@.len() == stride * rows,
                mx == 16 * mb_x,
                my == 16 * mb_y,
                0 < mx <= stride,
                my + 16 <= rows,
                rows <= usize::MAX,
                forall|j: int|
                    0 <= j < i ==> #[trigger] left[j] == at(plane@, stride as int, mx - 1, my + j),
        {
            left[i] = sample(plane, stride, Ghost(rows), mx - 1, my + i);
        }
    }
    if mb_x > 0 && mb_y > 0 {
        top_left = sample(plane, stride, Ghost(rows), mx - 1, my - 1);
    }
    assert(top =~= n.top);
    assert(left =~= n.left);
    Neighbors16x16 { top, left, top_left, top_avail: mb_y > 0, left_avail: mb_x > 0 }
}

fn build_chroma_neighbors(
    plane: &Vec<u8>,
    stride: usize,
    Ghost(rows): Ghost<int>,
    mb_x: usize,
    mb_y: usize,
) -> (r: ChromaNeighbors)
    requires
        plane@.len() == stride * rows,
        8 * (mb_x + 1) <= stride,
        8 * (mb_y + 1) <= rows,
        rows <= usize::MAX,
    ensures
        r == chroma_neighbors(plane@, stride as int, mb_x as int, mb_y as int),
{
    let mx: usize = mb_x * 8;
    let my: usize = mb_y * 8;
    let mut top: [u8; 8] = [0u8; 8];
    let mut left: [u8; 8] = [0u8; 8];
    let mut top_left: u8 = 0;
    let ghost n = chroma_neighbors(plane@, stride as int, mb_x as int, mb_y as int);
    if mb_y > 0 {
        for i in 0..8usize
            invariant
                plane@.len() == stride * rows,
                mx == 8 * mb_x,
                my == 8 * mb_y,
                mx + 8 <= stride,
                0 < my <= rows,
                forall|j: int|
                    0 <= j < i ==> #[trigger] top[j] == at(plane@, stride as int, mx + j, my - 1),
        {
            top[i] = sample(plane, stride, Ghost(rows), mx + i, my - 1);
        }
    }
    if mb_x > 0 {
        for i in 0..8usize
            invariant
                plane@.len() == stride * rows,
                mx == 8 * mb_x,
                my == 8 * mb_y,
                0 < mx <= stride,
                my + 8 <= rows,
                rows <= usize::MAX,
                forall|j: int|
                    0 <= j < i ==> #[trigger] left[j] == at(plane@, stride as int, mx - 1, my + j),
        {
            left[i] = sample(plane, stride, Ghost(rows), mx - 1, my + i);
        }
    }
    if mb_x > 0 && mb_y > 0 {
        top_left = sample(plane, stride, Ghost(rows), mx - 1, my - 1);
    }
    assert(top =~= n.top);
    assert(left =~= n.left);
    ChromaNeighbors { top, left, top_left, top_avail: mb_y > 0, left_avail: mb_x > 0 }
}

/// The 4x4 block of a prediction at column `x0` and row `y0`.
fn sample_sub_block(pred: &[u8], pred_w: usize, x0: usize, y0: usize) -> (r: [u8; 16])
    requires
        pred_w == 16 && pred@.len() == 256 || pred_w == 8 && pred@.len() == 64,
        x0 + 4 <= pred_w,
        y0 + 4 <= pred_w,
    ensures
        forall|k: int|
            0 <= k < 16 ==> #[trigger] r[k] == pred@[(y0 + k / 4) * pred_w + x0 + k % 4],
{
    let mut out: [u8; 16] = [0u8; 16];
    for k in 0..16usize
        invariant
            pred_w == 16 && pred@.len() == 256 || pred_w == 8 && pred@.len() == 64,
            x0 + 4 <= pred_w,
            y0 + 4 <= pred_w,
            forall|j: int|
                0 <= j < k ==> #[trigger] out[j] == pred@[(y0 + j / 4) * pred_w + x0 + j % 4],
    {
        proof {
            cell_in_plane(
                pred_w as int,
                pred_w as int,
                (x0 + k % 4) as int,
                (y0 + k / 4) as int,
            );
            assert(pred_w * pred_w == pred@.len());
        }
        out[k] = pred[(y0 + k / 4) * pred_w + x0 + k % 4];
    }
    out
}

/// Prediction plus residual of one 4x4 block.
fn reconstruct(pred: &[u8; 16], coefficients: &[i32; 16]) -> (r: [u8; 16])
    requires
        crate::h264_idct::transform_fits(*coefficients),
    ensures
        forall|k: int|
            0 <= k < 16 ==> #[trigger] r[k] == arith::clipped(
                0,
                255,
                pred[k] + crate::h264_idct::residual_at(*coefficients, k / 4, k % 4),
            ),
{
    let residual: [i32; 16] = idct_4x4(coefficients);
    assert forall|i: int| 0 <= i < 16 implies #[trigger] residual[i] + pred[i] <= i32::MAX by {
        assert(crate::h264_idct::column_pass(*coefficients, i / 4, i % 4) + 32 <= i32::MAX);
    }
    add_residual_4x4(pred, &residual)
}

/// A predicted sample of a macroblock plus its residual.
#[verifier::opaque]
spec fn luma_sum(pred: [u8; 256], residuals: [[i32; 16]; 16], x: int, y: int) -> int {
    arith::clipped(
        0,
        255,
        pred[16 * y + x] + crate::h264_idct::residual_at(
            residuals[4 * (y / 4) + x / 4],
            y % 4,
            x % 4,
        ),
    )
}

fn write_luma_blocks(
    plane: &mut Vec<u8>,
    stride: usize,
    Ghost(rows): Ghost<int>,
    mb_x: usize,
    mb_y: usize,
    pred: &[u8; 256],
    residuals: &[[i32; 16]; 16],
)
    requires
        old(plane)@.len() == stride * rows,
        16 * (mb_x + 1) <= stride,
        16 * (mb_y + 1) <= rows,
        rows <= usize::MAX,
        forall|i: int| 0 <= i < 16 ==> crate::h264_idct::transform_fits(#[trigger] residuals[i]),
    ensures
        final(plane)@.len() == old(plane)@.len(),
        forall|x: int, y: int|
            0 <= x < stride && 0 <= y < rows ==> #[trigger] at(
                final(plane)@,
                stride as int,
                x,
                y,
            ) == (if x / 16 == mb_x && y / 16 == mb_y {
                luma_sum(*pred, *residuals, x % 16, y % 16)
            } else {
                at(old(plane)@, stride as int, x, y) as int
            }),
{
    let mx: usize = mb_x * 16;
    let my: usize = mb_y * 16;
    let mut sub: usize = 0;
    while sub < 16
        invariant
            sub <= 16,
            plane@.len() == old(plane)@.len(),
            plane@.len() == stride * rows,
            mx == 16 * mb_x,
            my == 16 * mb_y,
            mx + 16 <= stride,
            my + 16 <= rows,
            rows <= usize::MAX,
            forall|i: int|
                0 <= i < 16 ==> crate::h264_idct::transform_fits(#[trigger] residuals[i]),
            forall|x: int, y: int|
                0 <= x < stride && 0 <= y < rows ==> #[trigger] at(plane@, stride as int, x, y)
                    == (if x / 16 == mb_x && y / 16 == mb_y && 4 * ((y % 16) / 4) + (x % 16) / 4
                    < sub {
                    luma_sum(*pred, *residuals, x % 16, y % 16)
                } else {
                    at(old(plane)@, stride as int, x, y) as int
                }),
        decreases 16 - sub,
    {
        let sx: usize = (sub % 4) * 4;
        let sy: usize = (sub / 4) * 4;
        let p: [u8; 16] = sample_sub_block(pred.as_slice(), 16, sx, sy);
        assert(crate::h264_idct::transform_fits(residuals[sub as int]));
        let recon: [u8; 16] = reconstruct(&p, &residuals[sub]);
        let ghost before = plane@;
        write_sub_block(plane, stride, Ghost(rows), mx + sx, my + sy, &recon);
        assert forall|x: int, y: int| 0 <= x < stride && 0 <= y < rows implies #[trigger] at(
            plane@,
            stride as int,
            x,
            y,
        ) == (if x / 16 == mb_x && y / 16 == mb_y && 4 * ((y % 16) / 4) + (x % 16) / 4 < sub + 1 {
            luma_sum(*pred, *residuals, x % 16, y % 16)
        } else {
            at(old(plane)@, stride as int, x, y) as int
        }) by {
            let old_value = at(before, stride as int, x, y);
            if mx + sx <= x < mx + sx + 4 && my + sy <= y < my + sy + 4 {
                let k = 4 * (y - (my + sy)) + (x - (mx + sx));
                assert(0 <= k < 16 && k / 4 == (y % 16) % 4 && k % 4 == (x % 16) % 4);
                assert(recon[k] == arith::clipped(
                    0,
                    255,
                    p[k] + crate::h264_idct::residual_at(residuals[sub as int], k / 4, k % 4),
                ));
                assert(p[k] == pred@[(sy + k / 4) * 16 + sx + k % 4]);
                assert((sy + k / 4) * 16 + sx + k % 4 == 16 * (y % 16) + x % 16);
                assert(4 * ((y % 16) / 4) + (x % 16) / 4 == sub);
                reveal(luma_sum);
            }
        }
        sub = sub + 1;
    }
}

fn write_luma(
    plane: &mut Vec<u8>,
    stride: usize,
    Ghost(rows): Ghost<int>,
    mb_x: usize,
    mb_y: usize,
    mode: Intra16x16Mode,
    residuals: &[[i32; 16]; 16],
) -> (r: bool)
    requires
        old(plane)@.len() == stride * rows,
        16 * (mb_x + 1) <= stride,
        16 * (mb_y + 1) <= rows,
        rows <= usize::MAX,
        forall|i: int| 0 <= i < 16 ==> crate::h264_idct::transform_fits(#[trigger] residuals[i]),
    ensures
        r == luma_predictable(mode, mb_x as int, mb_y as int),
        !r ==> *final(plane) == *old(plane),
        r ==> luma_written(
            old(plane)@,
            final(plane)@,
            stride as int,
            rows,
            mb_x as int,
            mb_y as int,
            mode,
            *residuals,
        ),
{
    let n: Neighbors16x16 = build_luma_neighbors(plane, stride, Ghost(rows), mb_x, mb_y);
    let pred: [u8; 256] = match predict_16x16(mode, &n) {
        None => {
            return false;
        },
        Some(p) => p,
    };
    write_luma_blocks(plane, stride, Ghost(rows), mb_x, mb_y, &pred, residuals);
    assert forall|x: int, y: int| 0 <= x < 16 && 0 <= y < 16 implies #[trigger] luma_sum(
        pred,
        *residuals,
        x,
        y,
    ) == luma_value(mode, n, *residuals, x, y) by {
        reveal(luma_sum);
        let k = 16 * y + x;
        assert(pred[k] == crate::h264_intra16::sample_16x16(mode, &n, k % 16, k / 16));
        assert(k % 16 == x && k / 16 == y);
    }
    true
}

/// A predicted sample of a macroblock plus its residual.
#[verifier::opaque]
spec fn chroma_sum(pred: [u8; 64], residuals: [[i32; 16]; 4], x: int, y: int) -> int {
    arith::clipped(
        0,
        255,
        pred[8 * y + x] + crate::h264_idct::residual_at(
            residuals[2 * (y / 4) + x / 4],
            y % 4,
            x % 4,
        ),
    )
}

fn write_chroma_blocks(
    plane: &mut Vec<u8>,
    stride: usize,
    Ghost(rows): Ghost<int>,
    mb_x: usize,
    mb_y: usize,
    pred: &[u8; 64],
    residuals: &[[i32; 16]; 4],
)
    requires
        old(plane)@.len() == stride * rows,
        8 * (mb_x + 1) <= stride,
        8 * (mb_y + 1) <= rows,
        rows <= usize::MAX,
        forall|i: int| 0 <= i < 4 ==> crate::h264_idct::transform_fits(#[trigger] residuals[i]),
    ensures
        final(plane)@.len() == old(plane)@.len(),
        forall|x: int, y: int|
            0 <= x < stride && 0 <= y < rows ==> #[trigger] at(
                final(plane)@,
                stride as int,
                x,
                y,
            ) == (if x / 8 == mb_x && y / 8 == mb_y {
                chroma_sum(*pred, *residuals, x % 8, y % 8)
            } else {
                at(old(plane)@, stride as int, x, y) as int
            }),
{
    let mx: usize = mb_x * 8;
    let my: usize = mb_y * 8;
    let mut sub: usize = 0;
    while sub < 4
        invariant
            sub <= 4,
            plane@.len() == old(plane)@.len(),
            plane@.len() == stride * rows,
            mx == 8 * mb_x,
            my == 8 * mb_y,
            mx + 8 <= stride,
            my + 8 <= rows,
            rows <= usize::MAX,
            forall|i: int|
                0 <= i < 4 ==> crate::h264_idct::transform_fits(#[trigger] residuals[i]),
            forall|x: int, y: int|
                0 <= x < stride && 0 <= y < rows ==> #[trigger] at(plane@, stride as int, x, y)
                    == (if x / 8 == mb_x && y / 8 == mb_y && 2 * ((y % 8) / 4) + (x % 8) / 4
                    < sub {
                    chroma_sum(*pred, *residuals, x % 8, y % 8)
                } else {
                    at(old(plane)@, stride as int, x, y) as int
                }),
        decreases 4 - sub,
    {
        let sx: usize = (sub % 2) * 4;
        let sy: usize = (sub / 2) * 4;
        let p: [u8; 16] = sample_sub_block(pred.as_slice(), 8, sx, sy);
        assert(crate::h264_idct::transform_fits(residuals[sub as int]));
        let recon: [u8; 16] = reconstruct(&p, &residuals[sub]);
        let ghost before = plane@;
        write_sub_block(plane, stride, Ghost(rows), mx + sx, my + sy, &recon);
        assert forall|x: int, y: int| 0 <= x < stride && 0 <= y < rows implies #[trigger] at(
            plane@,
            stride as int,
            x,
            y,
        ) == (if x / 8 == mb_x && y / 8 == mb_y && 2 * ((y % 8) / 4) + (x % 8) / 4 < sub + 1 {
            chroma_sum(*pred, *residuals, x % 8, y % 8)
        } else {
            at(old(plane)@, stride as int, x, y) as int
        }) by {
            let old_value = at(before, stride as int, x, y);
            if mx + sx <= x < mx + sx + 4 && my + sy <= y < my + sy + 4 {
                let k = 4 * (y - (my + sy)) + (x - (mx + sx));
                assert(0 <= k < 16 && k / 4 == (y % 8) % 4 && k % 4 == (x % 8) % 4);
                assert(recon[k] == arith::clipped(
                    0,
                    255,
                    p[k] + crate::h264_idct::residual_at(residuals[sub as int], k / 4, k % 4),
                ));
                assert(p[k] == pred@[(sy + k / 4) * 8 + sx + k % 4]);
                assert((sy + k / 4) * 8 + sx + k % 4 == 8 * (y % 8) + x % 8);
                assert(2 * ((y % 8) / 4) + (x % 8) / 4 == sub);
                reveal(chroma_sum);
            }
        }
        sub = sub + 1;
    }
}

fn write_chroma(
    plane: &mut Vec<u8>,
    stride: usize,
    Ghost(rows): Ghost<int>,
    mb_x: usize,
    mb_y: usize,
    mode: ChromaIntraMode,
    residuals: &[[i32; 16]; 4],
) -> (r: bool)
    requires
        old(plane)@.len() == stride * rows,
        8 * (mb_x + 1) <= stride,
        8 * (mb_y + 1) <= rows,
        rows <= usize::MAX,
        forall|i: int| 0 <= i < 4 ==> crate::h264_idct::transform_fits(#[trigger] residuals[i]),
    ensures
        r == chroma_predictable(mode, mb_x as int, mb_y as int),
        !r ==> *final(plane) == *old(plane),
        r ==> chroma_written(
            old(plane)@,
            final(plane)@,
            stride as int,
            rows,
            mb_x as int,
            mb_y as int,
            mode,
            *residuals,
        ),
{
    let n: ChromaNeighbors = build_chroma_neighbors(plane, stride, Ghost(rows), mb_x, mb_y);
    let pred: [u8; 64] = match predict_chroma_8x8(mode, &n) {
        None => {
            return false;
        },
        Some(p) => p,
    };
    write_chroma_blocks(plane, stride, Ghost(rows), mb_x, mb_y, &pred, residuals);
    assert forall|x: int, y: int| 0 <= x < 8 && 0 <= y < 8 implies #[trigger] chroma_sum(
        pred,
        *residuals,
        x,
        y,
    ) == chroma_value(mode, n, *residuals, x, y) by {
        reveal(chroma_sum);
        let k = 8 * y + x;
        assert(pred[k] == crate::h264_chroma_intra::sample_chroma(mode, &n, k % 8, k / 8));
        assert(k % 8 == x && k / 8 == y);
    }
    true
}

/// Reconstructs the macroblock in column `mb_x` and row `mb_y` of the
/// macroblock grid. `None` if a mode needs a neighbour that lies outside the
/// frame; the luma samples have been written even so where only the chroma mode
/// fails.
pub fn decode_macroblock(frame: &mut Frame, mb_x: u32, mb_y: u32, params: &MbParams<'_>) -> (r:
    Option<()>)
    requires
        old(frame).wf(),
        params.wf(),
        16 * (mb_x + 1) <= old(frame).width,
        16 * (mb_y + 1) <= old(frame).height,
    ensures
        final(frame).wf(),
        final(frame).width == old(frame).width,
        final(frame).height == old(frame).height,
        r is Some <==> luma_predictable(params.luma_mode, mb_x as int, mb_y as int)
            && chroma_predictable(params.chroma_mode, mb_x as int, mb_y as int),
        !luma_predictable(params.luma_mode, mb_x as int, mb_y as int) ==> *final(frame) == *old(
            frame,
        ),
        luma_predictable(params.luma_mode, mb_x as int, mb_y as int) ==> luma_written(
            old(frame).y@,
            final(frame).y@,
            old(frame).width as int,
            old(frame).height as int,
            mb_x as int,
            mb_y as int,
            params.luma_mode,
            *params.luma_residuals,
        ),
        r is None ==> final(frame).cb@ == old(frame).cb@ && final(frame).cr@ == old(frame).cr@,
        r is Some ==> chroma_written(
            old(frame).cb@,
            final(frame).cb@,
            old(frame).chroma_width(),
            old(frame).chroma_height(),
            mb_x as int,
            mb_y as int,
            params.chroma_mode,
            *params.chroma_residuals_cb,
        ),
        r is Some ==> chroma_written(
            old(frame).cr@,
            final(frame).cr@,
            old(frame).chroma_width(),
            old(frame).chroma_height(),
            mb_x as int,
            mb_y as int,
            params.chroma_mode,
            *params.chroma_residuals_cr,
        ),
{
    let width: usize = frame.width as usize;
    let cw: usize = (frame.width / 2) as usize;
    let ghost rows = frame.height as int;
    let ghost crows = frame.height as int / 2;
    let bx: usize = mb_x as usize;
    let by: usize = mb_y as usize;
    let luma: bool = write_luma(
        &mut frame.y,
        width,
        Ghost(rows),
        bx,
        by,
        params.luma_mode,
        params.luma_residuals,
    );
    if !luma {
        return None;
    }
    let cb: bool = write_chroma(
        &mut frame.cb,
        cw,
        Ghost(crows),
        bx,
        by,
        params.chroma_mode,
        params.chroma_residuals_cb,
    );
    if !cb {
        return None;
    }
    let cr: bool = write_chroma(
        &mut frame.cr,
        cw,
        Ghost(crows),
        bx,
        by,
        params.chroma_mode,
        params.chroma_residuals_cr,
    );
    if !cr {
        return None;
    }
    Some(())
}

/// Every coefficient of every block is zero.
pub open spec fn no_residual<const N: usize>(residuals: [[i32; 16]; N]) -> bool {
    forall|i: int, j: int| 0 <= i < N && 0 <= j < 16 ==> #[trigger] residuals[i][j] == 0
}

/// Every sample of a plane is 128.
pub open spec fn grey(plane: Seq<u8>) -> bool {
    forall|i: int| 0 <= i < plane.len() ==> #[trigger] plane[i] == 128
}

proof fn grey_sample(plane: Seq<u8>, width: int, height: int, x: int, y: int)
    requires
        grey(plane),
        plane.len() == width * height,
        0 <= x < width,
        0 <= y < height,
    ensures
        at(plane, width, x, y) == 128,
{
    cell_in_plane(width, height, x, y);
}

/// DC prediction without a residual leaves a grey luma plane grey.
pub proof fn dc_keeps_grey_luma(
    old: Seq<u8>,
    new: Seq<u8>,
    width: int,
    height: int,
    mb_x: int,
    mb_y: int,
    residuals: [[i32; 16]; 16],
)
    requires
        luma_written(old, new, width, height, mb_x, mb_y, Intra16x16Mode::Dc, residuals),
        grey(old),
        old.len() == width * height,
        no_residual(residuals),
        0 <= mb_x,
        0 <= mb_y,
        16 * (mb_x + 1) <= width,
        16 * (mb_y + 1) <= height,
    ensures
        grey(new),
{
    let n = luma_neighbors(old, width, mb_x, mb_y);
    assert(n.dc() == 128) by {
        if mb_y > 0 {
            assert forall|i: int| 0 <= i < 16 implies #[trigger] n.top@[i] == 128 by {
                grey_sample(old, width, height, 16 * mb_x + i, 16 * mb_y - 1);
            }
            arith::prefix_sum_of_solid(n.top@, 16, 128);
        }
        if mb_x > 0 {
            assert forall|i: int| 0 <= i < 16 implies #[trigger] n.left@[i] == 128 by {
                grey_sample(old, width, height, 16 * mb_x - 1, 16 * mb_y + i);
            }
            arith::prefix_sum_of_solid(n.left@, 16, 128);
        }
    }
    assert forall|i: int| 0 <= i < new.len() implies #[trigger] new[i] == 128 by {
        vstd::arithmetic::div_mod::lemma_fundamental_div_mod(i, width);
        let (x, y) = (i % width, i / width);
        assert(0 <= y < height) by (nonlinear_arith)
            requires
                i == width * y + x,
                0 <= x < width,
                0 <= i < width * height,
        ;
        assert(y * width == width * y) by (nonlinear_arith);
        assert(new[i] == at(new, width, x, y));
        if x / 16 == mb_x && y / 16 == mb_y {
            let c = residuals[4 * ((y % 16) / 4) + (x % 16) / 4];
            assert forall|j: int| 1 <= j < 16 implies #[trigger] c[j] == 0 by {
                assert(residuals[4 * ((y % 16) / 4) + (x % 16) / 4][j] == 0);
            }
            assert(residuals[4 * ((y % 16) / 4) + (x % 16) / 4][0] == 0);
            crate::h264_idct::dc_only_block_is_constant(c, (y % 16) % 4, (x % 16) % 4);
        } else {
            grey_sample(old, width, height, x, y);
        }
    }
}

/// DC prediction without a residual leaves a grey chroma plane grey.
pub proof fn dc_keeps_grey_chroma(
    old: Seq<u8>,
    new: Seq<u8>,
    width: int,
    height: int,
    mb_x: int,
    mb_y: int,
    residuals: [[i32; 16]; 4],
)
    requires
        chroma_written(old, new, width, height, mb_x, mb_y, ChromaIntraMode::Dc, residuals),
        grey(old),
        old.len() == width * height,
        no_residual(residuals),
        0 <= mb_x,
        0 <= mb_y,
        8 * (mb_x + 1) <= width,
        8 * (mb_y + 1) <= height,
    ensures
        grey(new),
{
    let n = chroma_neighbors(old, width, mb_x, mb_y);
    if mb_y > 0 {
        assert forall|i: int| 0 <= i < 8 implies #[trigger] n.top@[i] == 128 by {
            grey_sample(old, width, height, 8 * mb_x + i, 8 * mb_y - 1);
        }
    }
    if mb_x > 0 {
        assert forall|i: int| 0 <= i < 8 implies #[trigger] n.left@[i] == 128 by {
            grey_sample(old, width, height, 8 * mb_x - 1, 8 * mb_y + i);
        }
    }
    assert forall|i: int| 0 <= i < new.len() implies #[trigger] new[i] == 128 by {
        vstd::arithmetic::div_mod::lemma_fundamental_div_mod(i, width);
        let (x, y) = (i % width, i / width);
        assert(0 <= y < height) by (nonlinear_arith)
            requires
                i == width * y + x,
                0 <= x < width,
                0 <= i < width * height,
        ;
        assert(y * width == width * y) by (nonlinear_arith);
        assert(new[i] == at(new, width, x, y));
        if x / 8 == mb_x && y / 8 == mb_y {
            let c = residuals[2 * ((y % 8) / 4) + (x % 8) / 4];
            assert forall|j: int| 1 <= j < 16 implies #[trigger] c[j] == 0 by {
                assert(residuals[2 * ((y % 8) / 4) + (x % 8) / 4][j] == 0);
            }
            assert(residuals[2 * ((y % 8) / 4) + (x % 8) / 4][0] == 0);
            crate::h264_idct::dc_only_block_is_constant(c, (y % 8) % 4, (x % 8) % 4);
        } else {
            grey_sample(old, width, height, x, y);
        }
    }
}

proof fn no_residual_in_block<const N: usize>(residuals: [[i32; 16]; N], k: int, x: int, y: int)
    requires
        no_residual(residuals),
        0 <= k < N,
        0 <= x < 4,
        0 <= y < 4,
    ensures
        crate::h264_idct::residual_at(residuals[k], y, x) == 0,
{
    let c = residuals[k];
    assert forall|j: int| 1 <= j < 16 implies #[trigger] c[j] == 0 by {
        assert(residuals[k][j] == 0);
    }
    assert(residuals[k][0] == 0);
    crate::h264_idct::dc_only_block_is_constant(c, y, x);
}

/// Vertical prediction without a residual repeats the row of the frame above the
/// macroblock; horizontal prediction repeats the column to its left.
pub proof fn luma_predictions_repeat_their_neighbors(
    old: Seq<u8>,
    new: Seq<u8>,
    width: int,
    height: int,
    mb_x: int,
    mb_y: int,
    mode: Intra16x16Mode,
    residuals: [[i32; 16]; 16],
    x: int,
    y: int,
)
    requires
        luma_written(old, new, width, height, mb_x, mb_y, mode, residuals),
        luma_predictable(mode, mb_x, mb_y),
        no_residual(residuals),
        0 <= mb_x,
        0 <= mb_y,
        16 * mb_x <= x < 16 * (mb_x + 1) <= width,
        16 * mb_y <= y < 16 * (mb_y + 1) <= height,
    ensures
        mode == Intra16x16Mode::Vertical ==> at(new, width, x, y) == at(
            new,
            width,
            x,
            16 * mb_y - 1,
        ),
        mode == Intra16x16Mode::Horizontal ==> at(new, width, x, y) == at(
            new,
            width,
            16 * mb_x - 1,
            y,
        ),
{
    no_residual_in_block(residuals, 4 * ((y % 16) / 4) + (x % 16) / 4, (x % 16) % 4, (y % 16) % 4);
    let n = luma_neighbors(old, width, mb_x, mb_y);
    assert(x % 16 == x - 16 * mb_x && y % 16 == y - 16 * mb_y);
    if mode == Intra16x16Mode::Vertical {
        line_of_16_at(
            |i: int|
                if mb_y > 0 {
                    at(old, width, 16 * mb_x + i, 16 * mb_y - 1)
                } else {
                    0
                },
            x % 16,
        );
        assert(n.top[x % 16] == at(old, width, x, 16 * mb_y - 1));
        assert(at(new, width, x, 16 * mb_y - 1) == at(old, width, x, 16 * mb_y - 1));
    }
    if mode == Intra16x16Mode::Horizontal {
        line_of_16_at(
            |i: int|
                if mb_x > 0 {
                    at(old, width, 16 * mb_x - 1, 16 * mb_y + i)
                } else {
                    0
                },
            y % 16,
        );
        assert(n.left[y % 16] == at(old, width, 16 * mb_x - 1, y));
        assert(at(new, width, 16 * mb_x - 1, y) == at(old, width, 16 * mb_x - 1, y));
    }
}

proof fn line_of_16_at(f: spec_fn(int) -> u8, i: int)
    requires
        0 <= i < 16,
    ensures
        line_of_16(f)[i] == f(i),
{
}

proof fn line_of_8_at(f: spec_fn(int) -> u8, i: int)
    requires
        0 <= i < 8,
    ensures
        line_of_8(f)[i] == f(i),
{
}

/// Vertical chroma prediction without a residual repeats the row above the macroblock;
/// horizontal prediction repeats the column to its left.
pub proof fn chroma_predictions_repeat_their_neighbors(
    old: Seq<u8>,
    new: Seq<u8>,
    width: int,
    height: int,
    mb_x: int,
    mb_y: int,
    mode: ChromaIntraMode,
    residuals: [[i32; 16]; 4],
    x: int,
    y: int,
)
    requires
        chroma_written(old, new, width, height, mb_x, mb_y, mode, residuals),
        chroma_predictable(mode, mb_x, mb_y),
        no_residual(residuals),
        0 <= mb_x,
        0 <= mb_y,
        8 * mb_x <= x < 8 * (mb_x + 1) <= width,
        8 * mb_y <= y < 8 * (mb_y + 1) <= height,
    ensures
        mode == ChromaIntraMode::Vertical ==> at(new, width, x, y) == at(
            new,
            width,
            x,
            8 * mb_y - 1,
        ),
        mode == ChromaIntraMode::Horizontal ==> at(new, width, x, y) == at(
            new,
            width,
            8 * mb_x - 1,
            y,
        ),
{
    no_residual_in_block(residuals, 2 * ((y % 8) / 4) + (x % 8) / 4, (x % 8) % 4, (y % 8) % 4);
    let n = chroma_neighbors(old, width, mb_x, mb_y);
    assert(x % 8 == x - 8 * mb_x && y % 8 == y - 8 * mb_y);
    if mode == ChromaIntraMode::Vertical {
        line_of_8_at(
            |i: int|
                if mb_y > 0 {
                    at(old, width, 8 * mb_x + i, 8 * mb_y - 1)
                } else {
                    0
                },
            x % 8,
        );
        assert(n.top[x % 8] == at(old, width, x, 8 * mb_y - 1));
        assert(at(new, width, x, 8 * mb_y - 1) == at(old, width, x, 8 * mb_y - 1));
    }
    if mode == ChromaIntraMode::Horizontal {
        line_of_8_at(
            |i: int|
                if mb_x > 0 {
                    at(old, width, 8 * mb_x - 1, 8 * mb_y + i)
                } else {
                    0
                },
            y % 8,
        );
        assert(n.left[y % 8] == at(old, width, 8 * mb_x - 1, y));
        assert(at(new, width, 8 * mb_x - 1, y) == at(old, width, 8 * mb_x - 1, y));
    }
}

/// The residual of block `k` reaches the 4x4 samples of that block, which are counted
/// row by row, and no others: elsewhere it makes no difference.
pub proof fn luma_residuals_reach_their_block(
    old: Seq<u8>,
    one: Seq<u8>,
    two: Seq<u8>,
    width: int,
    height: int,
    mb_x: int,
    mb_y: int,
    mode: Intra16x16Mode,
    first: [[i32; 16]; 16],
    second: [[i32; 16]; 16],
    k: int,
    x: int,
    y: int,
)
    requires
        luma_written(old, one, width, height, mb_x, mb_y, mode, first),
        luma_written(old, two, width, height, mb_x, mb_y, mode, second),
        0 <= k < 16,
        forall|i: int| 0 <= i < 16 && i != k ==> #[trigger] first[i] == second[i],
        0 <= x < width,
        0 <= y < height,
        !(16 * mb_x + 4 * (k % 4) <= x < 16 * mb_x + 4 * (k % 4) + 4 && 16 * mb_y + 4 * (k / 4) <= y
            < 16 * mb_y + 4 * (k / 4) + 4),
    ensures
        at(one, width, x, y) == at(two, width, x, y),
{
    let i = 4 * ((y % 16) / 4) + (x % 16) / 4;
    assert(at(one, width, x, y) == at(one, width, x, y) && at(two, width, x, y) == at(
        two,
        width,
        x,
        y,
    ));
    if x / 16 == mb_x && y / 16 == mb_y && i == k {
        assert(k % 4 == (x % 16) / 4 && k / 4 == (y % 16) / 4);
    } else if x / 16 == mb_x && y / 16 == mb_y {
        assert(first[i] == second[i]);
    }
}

/// The residual of a chroma block reaches the samples of that block and no others.
pub proof fn chroma_residuals_reach_their_block(
    old: Seq<u8>,
    one: Seq<u8>,
    two: Seq<u8>,
    width: int,
    height: int,
    mb_x: int,
    mb_y: int,
    mode: ChromaIntraMode,
    first: [[i32; 16]; 4],
    second: [[i32; 16]; 4],
    k: int,
    x: int,
    y: int,
)
    requires
        chroma_written(old, one, width, height, mb_x, mb_y, mode, first),
        chroma_written(old, two, width, height, mb_x, mb_y, mode, second),
        0 <= k < 4,
        forall|i: int| 0 <= i < 4 && i != k ==> #[trigger] first[i] == second[i],
        0 <= x < width,
        0 <= y < height,
        !(8 * mb_x + 4 * (k % 2) <= x < 8 * mb_x + 4 * (k % 2) + 4 && 8 * mb_y + 4 * (k / 2) <= y
            < 8 * mb_y + 4 * (k / 2) + 4),
    ensures
        at(one, width, x, y) == at(two, width, x, y),
{
    let i = 2 * ((y % 8) / 4) + (x % 8) / 4;
    assert(at(one, width, x, y) == at(one, width, x, y) && at(two, width, x, y) == at(
        two,
        width,
        x,
        y,
    ));
    if x / 8 == mb_x && y / 8 == mb_y && i == k {
        assert(k % 2 == (x % 8) / 4 && k / 2 == (y % 8) / 4);
    } else if x / 8 == mb_x && y / 8 == mb_y {
        assert(first[i] == second[i]);
    }
}

/// Within a block, the sample is raised by the residual at its place, as far as a byte
/// allows: `x` and `y` count from the corner of block `k`.
pub proof fn luma_residuals_are_added_in_place(
    old: Seq<u8>,
    plain: Seq<u8>,
    new: Seq<u8>,
    width: int,
    height: int,
    mb_x: int,
    mb_y: int,
    mode: Intra16x16Mode,
    zeros: [[i32; 16]; 16],
    residuals: [[i32; 16]; 16],
    k: int,
    x: int,
    y: int,
)
    requires
        luma_written(old, plain, width, height, mb_x, mb_y, mode, zeros),
        luma_written(old, new, width, height, mb_x, mb_y, mode, residuals),
        no_residual(zeros),
        0 <= mb_x,
        0 <= mb_y,
        16 * (mb_x + 1) <= width,
        16 * (mb_y + 1) <= height,
        0 <= k < 16,
        0 <= x < 4,
        0 <= y < 4,
        0 <= crate::h264_intra16::sample_16x16(
            mode,
            &luma_neighbors(old, width, mb_x, mb_y),
            4 * (k % 4) + x,
            4 * (k / 4) + y,
        ) <= 255,
    ensures
        ({
            let u = 16 * mb_x + 4 * (k % 4) + x;
            let v = 16 * mb_y + 4 * (k / 4) + y;
            at(new, width, u, v) == arith::clipped(
                0,
                255,
                at(plain, width, u, v) + crate::h264_idct::residual_at(residuals[k], y, x),
            )
        }),
{
    let (i, j) = (4 * (k % 4) + x, 4 * (k / 4) + y);
    let u = 16 * mb_x + i;
    let v = 16 * mb_y + j;
    assert(u / 16 == mb_x && v / 16 == mb_y && u % 16 == i && v % 16 == j);
    assert(i / 4 == k % 4 && j / 4 == k / 4 && i % 4 == x && j % 4 == y);
    no_residual_in_block(zeros, k, x, y);
    assert(at(new, width, u, v) == at(new, width, u, v));
    assert(at(plain, width, u, v) == at(plain, width, u, v));
}

} // verus!
