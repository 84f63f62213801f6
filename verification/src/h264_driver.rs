//! From a NAL stream to a picture: finds the sequence parameter set and the
//! first IDR slice, runs the macroblock loop over the picture and converts the
//! planes to BGRA.
//!
//! Slice data is not read: every macroblock is predicted in DC mode without a
//! residual, so that the picture is grey.
use vstd::prelude::*;

use crate::color::{yuv420_to_bgra, ColorMatrix};
use crate::h264::{ebsp_to_rbsp, nal_type, parse_sps, split_nal_units, NalHeader, Sps};
use crate::h264_chroma_intra::ChromaIntraMode;
use crate::h264_intra16::Intra16x16Mode;
use crate::h264_mb_loop::{decode_macroblock, Frame, MbParams};

verus! {

/// A decoded picture: its planes, and its pixels row by row.
#[derive(Debug, Clone)]
pub struct DecodedFrame {
    pub width: u32,
    pub height: u32,
    pub frame_y: Vec<u8>,
    pub frame_cb: Vec<u8>,
    pub frame_cr: Vec<u8>,
    pub bgra: Vec<u32>,
}

/// Why a stream could not be decoded. Macroblocks in DC mode always decode, so
/// that `DecodeFailed` does not occur yet.
#[derive(Debug, Clone, PartialEq, Eq)]
pub enum DriverError {
    NoSps,
    BadSps,
    NoIdr,
    DecodeFailed(String),
}

/// Whether a NAL unit has the given type.
pub open spec fn has_type(unit: Seq<u8>, kind: u8) -> bool {
    unit.len() > 0 && unit[0] % 32 == kind
}

/// The first sequence parameter set among the units from `i` on that can be
/// parsed.
pub open spec fn first_sps(units: Seq<Seq<u8>>, i: int) -> Option<Sps>
    decreases units.len() - i,
{
    if i >= units.len() {
        None
    } else if has_type(units[i], nal_type::SPS) && crate::h264::sps_of(
        crate::h264::unescaped(units[i].skip(1)),
    ) is Some {
        crate::h264::sps_of(crate::h264::unescaped(units[i].skip(1)))
    } else {
        first_sps(units, i + 1)
    }
}

/// Some unit is a slice of an IDR picture.
pub open spec fn has_idr(units: Seq<Seq<u8>>) -> bool {
    exists|i: int| 0 <= i < units.len() && has_type(#[trigger] units[i], nal_type::SLICE_IDR)
}

/// The parameter set of a stream.
pub open spec fn stream_sps(bitstream: Seq<u8>) -> Option<Sps> {
    first_sps(crate::h264::nal_units(bitstream), 0)
}

/// The error that a stream is refused with, if it is.
pub open spec fn refusal(bitstream: Seq<u8>) -> Option<DriverError> {
    match stream_sps(bitstream) {
        None => Some(DriverError::NoSps),
        Some(sps) => if !has_idr(crate::h264::nal_units(bitstream)) {
            Some(DriverError::NoIdr)
        } else if sps.width == 0 || sps.height == 0 || sps.width % 16 != 0 || sps.height % 16
            != 0 {
            Some(DriverError::BadSps)
        } else {
            None
        },
    }
}

/// The number of samples of the picture fits in 32 bits, if there is one.
pub open spec fn picture_fits(bitstream: Seq<u8>) -> bool {
    refusal(bitstream) is None ==> stream_sps(bitstream)->0.width * stream_sps(
        bitstream,
    )->0.height <= u32::MAX
}

fn find_sps(units: &Vec<&[u8]>) -> (r: Option<Sps>)
    ensures
        r == first_sps(crate::h264::slice_views(units@), 0),
{
    let ghost views = crate::h264::slice_views(units@);
    let mut i: usize = 0;
    while i < units.len()
        invariant
            i <= units@.len(),
            views == crate::h264::slice_views(units@),
            first_sps(views, 0) == first_sps(views, i as int),
        decreases units@.len() - i,
    {
        let unit: &[u8] = units[i];
        assert(views[i as int] == unit@);
        if unit.len() > 0 && NalHeader::parse(unit[0]).nal_unit_type == nal_type::SPS {
            let body: &[u8] = vstd::slice::slice_subrange(unit, 1, unit.len());
            assert(body@ =~= unit@.skip(1));
            let rbsp: Vec<u8> = ebsp_to_rbsp(body);
            let sps: Option<Sps> = parse_sps(rbsp.as_slice());
            if sps.is_some() {
                return sps;
            }
        }
        i = i + 1;
    }
    None
}

fn find_idr(units: &Vec<&[u8]>) -> (r: bool)
    ensures
        r == has_idr(crate::h264::slice_views(units@)),
{
    let ghost views = crate::h264::slice_views(units@);
    let mut i: usize = 0;
    while i < units.len()
        invariant
            i <= units@.len(),
            views == crate::h264::slice_views(units@),
            forall|j: int| 0 <= j < i ==> !has_type(#[trigger] views[j], nal_type::SLICE_IDR),
        decreases units@.len() - i,
    {
        let unit: &[u8] = units[i];
        assert(views[i as int] == unit@);
        if unit.len() > 0 && NalHeader::parse(unit[0]).nal_unit_type == nal_type::SLICE_IDR {
            return true;
        }
        i = i + 1;
    }
    false
}

/// Finds the parameter set of the picture that a stream holds.
fn find_picture(bitstream: &[u8]) -> (r: Result<Sps, DriverError>)
    ensures
        r is Err <==> refusal(bitstream@) is Some,
        r is Err ==> r->Err_0 == refusal(bitstream@)->0,
        r is Ok ==> stream_sps(bitstream@) == Some(r->Ok_0),
{
    let units: Vec<&[u8]> = split_nal_units(bitstream);
    let sps: Sps = match find_sps(&units) {
        None => {
            return Err(DriverError::NoSps);
        },
        Some(sps) => sps,
    };
    if !find_idr(&units) {
        return Err(DriverError::NoIdr);
    }
    if sps.width == 0 || sps.height == 0 || sps.width % 16 != 0 || sps.height % 16 != 0 {
        return Err(DriverError::BadSps);
    }
    Ok(sps)
}

/// Whether the picture of a stream is small enough to be decoded, if there is one.
pub fn check_picture_size(bitstream: &[u8]) -> (r: bool)
    ensures
        r == picture_fits(bitstream@),
{
    match find_picture(bitstream) {
        Err(_) => true,
        Ok(sps) => {
            let (w, h): (u64, u64) = (sps.width as u64, sps.height as u64);
            assert(w * h <= 0xFFFF_FFFF * 0xFFFF_FFFF) by (nonlinear_arith)
                requires
                    w <= 0xFFFF_FFFF,
                    h <= 0xFFFF_FFFF,
            ;
            w * h <= u32::MAX as u64
        },
    }
}

/// Runs the macroblock loop over a grey frame whose sides are multiples of 16.
fn decode_picture(width: u32, height: u32) -> (r: Frame)
    requires
        width * height <= u32::MAX,
        width % 16 == 0,
        height % 16 == 0,
    ensures
        r.wf(),
        r.width == width,
        r.height == height,
        r.solid(128),
{
    let mb_cols: u32 = width / 16;
    let mb_rows: u32 = height / 16;
    let mut frame: Frame = Frame::new(width, height);
    let zero_luma: [[i32; 16]; 16] = [[0i32; 16]; 16];
    let zero_chroma: [[i32; 16]; 4] = [[0i32; 16]; 4];
    proof {
        assert forall|i: int| 0 <= i < 16 implies crate::h264_idct::transform_fits(
            #[trigger] zero_luma[i],
        ) by {
            crate::h264_idct::moderate_coefficients_fit(zero_luma[i]);
        }
        assert forall|i: int| 0 <= i < 4 implies crate::h264_idct::transform_fits(
            #[trigger] zero_chroma[i],
        ) by {
            crate::h264_idct::moderate_coefficients_fit(zero_chroma[i]);
        }
    }
    let params: MbParams<'_> = MbParams {
        luma_mode: Intra16x16Mode::Dc,
        chroma_mode: ChromaIntraMode::Dc,
        luma_residuals: &zero_luma,
        chroma_residuals_cb: &zero_chroma,
        chroma_residuals_cr: &zero_chroma,
    };
    let mut mb_y: u32 = 0;
    while mb_y < mb_rows
        invariant
            mb_y <= mb_rows,
            mb_rows == height / 16,
            mb_cols == width / 16,
            frame.wf(),
            frame.width == width,
            frame.height == height,
            frame.solid(128),
            params.wf(),
            params.luma_mode == Intra16x16Mode::Dc,
            params.chroma_mode == ChromaIntraMode::Dc,
            crate::h264_mb_loop::no_residual(*params.luma_residuals),
            crate::h264_mb_loop::no_residual(*params.chroma_residuals_cb),
            crate::h264_mb_loop::no_residual(*params.chroma_residuals_cr),
        decreases mb_rows - mb_y,
    {
        let mut mb_x: u32 = 0;
        while mb_x < mb_cols
            invariant
                mb_x <= mb_cols,
                mb_y < mb_rows,
                mb_rows == height / 16,
                mb_cols == width / 16,
                frame.wf(),
                frame.width == width,
                frame.height == height,
                frame.solid(128),
                params.wf(),
                params.luma_mode == Intra16x16Mode::Dc,
                params.chroma_mode == ChromaIntraMode::Dc,
                crate::h264_mb_loop::no_residual(*params.luma_residuals),
                crate::h264_mb_loop::no_residual(*params.chroma_residuals_cb),
                crate::h264_mb_loop::no_residual(*params.chroma_residuals_cr),
            decreases mb_cols - mb_x,
        {
            let ghost before = frame;
            let done: Option<()> = decode_macroblock(&mut frame, mb_x, mb_y, &params);
            proof {
                assert(done is Some);
                crate::h264_mb_loop::dc_keeps_grey_luma(
                    before.y@,
                    frame.y@,
                    width as int,
                    height as int,
                    mb_x as int,
                    mb_y as int,
                    *params.luma_residuals,
                );
                crate::h264_mb_loop::dc_keeps_grey_chroma(
                    before.cb@,
                    frame.cb@,
                    before.chroma_width(),
                    before.chroma_height(),
                    mb_x as int,
                    mb_y as int,
                    *params.chroma_residuals_cb,
                );
                crate::h264_mb_loop::dc_keeps_grey_chroma(
                    before.cr@,
                    frame.cr@,
                    before.chroma_width(),
                    before.chroma_height(),
                    mb_x as int,
                    mb_y as int,
                    *params.chroma_residuals_cr,
                );
            }
            mb_x = mb_x + 1;
        }
        mb_y = mb_y + 1;
    }
    frame
}

/// Every sample of the picture is 128 and every pixel the grey of that value.
pub open spec fn grey_picture(f: DecodedFrame, sps: Sps) -> bool {
    &&& f.width == sps.width
    &&& f.height == sps.height
    &&& f.frame_y@ == Seq::new((sps.width * sps.height) as nat, |i: int| 128u8)
    &&& f.frame_cb@ == Seq::new(((sps.width / 2) * (sps.height / 2)) as nat, |i: int| 128u8)
    &&& f.frame_cr@ == Seq::new(((sps.width / 2) * (sps.height / 2)) as nat, |i: int| 128u8)
    &&& f.bgra@ == Seq::new(
        (sps.width * sps.height) as nat,
        |i: int| crate::color::pixel(128, 128, 128, ColorMatrix::Bt709) as u32,
    )
}

/// Decodes the first IDR picture of a stream. A stream without a usable
/// parameter set, without an IDR slice, or with an empty picture is refused.
pub fn decode_first_idr(bitstream: &[u8]) -> (r: Result<DecodedFrame, DriverError>)
    requires
        picture_fits(bitstream@),
    ensures
        r is Err <==> refusal(bitstream@) is Some,
        r is Err ==> r->Err_0 == refusal(bitstream@)->0,
        r is Ok ==> grey_picture(r->Ok_0, stream_sps(bitstream@)->0),
{
    let sps: Sps = match find_picture(bitstream) {
        Err(e) => {
            return Err(e);
        },
        Ok(sps) => sps,
    };
    let frame: Frame = decode_picture(sps.width, sps.height);
    let bgra: Vec<u32> = yuv420_to_bgra(
        sps.width,
        sps.height,
        frame.y.as_slice(),
        frame.cb.as_slice(),
        frame.cr.as_slice(),
        ColorMatrix::Bt709,
    );
    let decoded: DecodedFrame = DecodedFrame {
        width: sps.width,
        height: sps.height,
        frame_y: frame.y,
        frame_cb: frame.cb,
        frame_cr: frame.cr,
        bgra,
    };
    proof {
        let (w, h) = (sps.width as int, sps.height as int);
        assert forall|i: int| 0 <= i < decoded.bgra@.len() implies decoded.bgra@[i]
            == crate::color::pixel(128, 128, 128, ColorMatrix::Bt709) by {
            vstd::arithmetic::div_mod::lemma_fundamental_div_mod(i, w);
            let (x, y) = (i % w, i / w);
            assert(0 <= y < h) by (nonlinear_arith)
                requires
                    i == w * y + x,
                    0 <= x < w,
                    0 <= i < w * h,
            ;
            assert(y * w + x == i) by (nonlinear_arith)
                requires
                    i == w * y + x,
            ;
            crate::color::solid_planes_upsample_solid(
                decoded.frame_cb@,
                w / 2,
                h / 2,
                128,
                x,
                y,
            );
            crate::color::solid_planes_upsample_solid(
                decoded.frame_cr@,
                w / 2,
                h / 2,
                128,
                x,
                y,
            );
        }
        assert(decoded.frame_y@ =~= Seq::new((w * h) as nat, |i: int| 128u8));
        assert(decoded.frame_cb@ =~= Seq::new(((w / 2) * (h / 2)) as nat, |i: int| 128u8));
        assert(decoded.frame_cr@ =~= Seq::new(((w / 2) * (h / 2)) as nat, |i: int| 128u8));
        assert(decoded.bgra@ =~= Seq::new(
            (w * h) as nat,
            |i: int| crate::color::pixel(128, 128, 128, ColorMatrix::Bt709) as u32,
        ));
    }
    Ok(decoded)
}

/// A unit is a parameter set that can be used: it is of type 7, and what it holds can
/// be read.
pub open spec fn usable_set(unit: Seq<u8>) -> bool {
    unit.len() > 0 && unit[0] % 32 == 7 && crate::h264::sps_of(
        crate::h264::unescaped(unit.skip(1)),
    ) is Some
}

/// The first usable parameter set of a stream counts, wherever it stands; units before
/// it that cannot be used are passed over.
pub proof fn first_usable_set_counts(units: Seq<Seq<u8>>, i: int, k: int)
    requires
        0 <= i <= k <= units.len(),
        forall|j: int| i <= j < k ==> !usable_set(#[trigger] units[j]),
    ensures
        k < units.len() && usable_set(units[k]) ==> first_sps(units, i) == crate::h264::sps_of(
            crate::h264::unescaped(units[k].skip(1)),
        ),
        k == units.len() ==> first_sps(units, i) is None,
    decreases k - i,
{
    if i < k {
        assert(!usable_set(units[i]));
        first_usable_set_counts(units, i + 1, k);
    }
}

/// A stream is refused for want of a parameter set, of a slice of an IDR picture (a
/// unit of type 5), or of a picture that is not empty, in this order, and for nothing
/// else.
pub proof fn streams_are_refused_in_order(bitstream: Seq<u8>)
    ensures
        ({
            let units = crate::h264::nal_units(bitstream);
            let idr = exists|i: int|
                0 <= i < units.len() && (#[trigger] units[i]).len() > 0 && units[i][0] % 32 == 5;
            let sps = stream_sps(bitstream);
            &&& (refusal(bitstream) == Some(DriverError::NoSps)) == (sps is None)
            &&& (refusal(bitstream) == Some(DriverError::NoIdr)) == (sps is Some && !idr)
            &&& sps is Some && idr && sps->0.width > 0 && sps->0.height > 0 && sps->0.width % 16
                == 0 && sps->0.height % 16 == 0 ==> refusal(bitstream) is None
            &&& refusal(bitstream) is None ==> sps->0.width > 0 && sps->0.height > 0
        }),
{
    let units = crate::h264::nal_units(bitstream);
    if has_idr(units) {
        let i = choose|i: int|
            0 <= i < units.len() && has_type(#[trigger] units[i], nal_type::SLICE_IDR);
        assert(units[i].len() > 0 && units[i][0] % 32 == 5);
    } else {
        assert forall|i: int| 0 <= i < units.len() implies !((#[trigger] units[i]).len() > 0
            && units[i][0] % 32 == 5) by {
            assert(!has_type(units[i], nal_type::SLICE_IDR));
        }
    }
}

} // verus!
