//! H.264 picture parameter sets and slice headers.
//!
//! Enough of both to know which parameter sets a coded slice refers to, its
//! type, its quantiser and the settings of its deblocking filter. Slice headers
//! are those of IDR pictures.
use vstd::prelude::*;

use crate::h264::fields;
use crate::h264::{BitReader, Cursor};

verus! {

broadcast use crate::h264::reader_has_not_failed;

/// The always-present fields of a picture parameter set (section 7.4.2.2).
#[derive(Debug, Clone, PartialEq, Eq, Structural)]
pub struct Pps {
    pub pic_parameter_set_id: u32,
    pub seq_parameter_set_id: u32,
    /// False for CAVLC, true for CABAC.
    pub entropy_coding_mode_flag: bool,
    pub bottom_field_pic_order_in_frame_present_flag: bool,
    pub num_slice_groups_minus1: u32,
    pub num_ref_idx_l0_default_active_minus1: u32,
    pub num_ref_idx_l1_default_active_minus1: u32,
    pub weighted_pred_flag: bool,
    pub weighted_bipred_idc: u32,
    pub pic_init_qp_minus26: i32,
    pub pic_init_qs_minus26: i32,
    pub chroma_qp_index_offset: i32,
    pub deblocking_filter_control_present_flag: bool,
    pub constrained_intra_pred_flag: bool,
    pub redundant_pic_cnt_present_flag: bool,
}

/// Slice types, in the order of their coded values.
#[derive(Debug, Clone, Copy, PartialEq, Eq, Structural)]
pub enum SliceType {
    P,
    B,
    I,
    Sp,
    Si,
}

impl SliceType {
    /// The type with coded value `v`. The values 5 to 9 repeat 0 to 4, for
    /// pictures all of whose slices have one type.
    pub open spec fn of(v: u32) -> SliceType {
        if v % 5 == 0 {
            SliceType::P
        } else if v % 5 == 1 {
            SliceType::B
        } else if v % 5 == 2 {
            SliceType::I
        } else if v % 5 == 3 {
            SliceType::Sp
        } else {
            SliceType::Si
        }
    }

    /// The type with coded value `v`; every value has one.
    pub fn from_raw(v: u32) -> (r: Option<Self>)
        ensures
            r == Some(SliceType::of(v)),
    {
        Some(
            match v % 5 {
                0 => SliceType::P,
                1 => SliceType::B,
                2 => SliceType::I,
                3 => SliceType::Sp,
                _ => SliceType::Si,
            },
        )
    }

    /// Whether slices of this type are coded without reference pictures.
    pub fn is_intra(self) -> (r: bool)
        ensures
            r == (self == SliceType::I || self == SliceType::Si),
    {
        match self {
            SliceType::I | SliceType::Si => true,
            _ => false,
        }
    }
}

/// The header of a slice of an IDR picture (part of section 7.3.3).
#[derive(Debug, Clone, PartialEq, Eq, Structural)]
pub struct SliceHeader {
    pub first_mb_in_slice: u32,
    pub slice_type: SliceType,
    pub pic_parameter_set_id: u32,
    pub frame_num: u32,
    pub idr_pic_id: Option<u32>,
    pub slice_qp_delta: i32,
    pub disable_deblocking_filter_idc: u32,
    pub slice_alpha_c0_offset_div2: i32,
    pub slice_beta_offset_div2: i32,
}

/// The picture parameter set that `rbsp` holds. Sets with more than one slice
/// group are not supported.
pub open spec fn pps_of(rbsp: Seq<u8>) -> Option<Pps> {
    let (id, c) = Cursor::start(rbsp).ue();
    let (sps_id, c) = c.ue();
    let (cabac, c) = c.bit();
    let (bottom_field, c) = c.bit();
    let (slice_groups, c) = c.ue();
    let (refs_l0, c) = c.ue();
    let (refs_l1, c) = c.ue();
    let (weighted, c) = c.bit();
    let (bipred, c) = c.bits(2);
    let (qp, c) = c.se();
    let (qs, c) = c.se();
    let (chroma_offset, c) = c.se();
    let (deblocking, c) = c.bit();
    let (constrained, c) = c.bit();
    let (redundant, c) = c.bit();
    if !c.ok || slice_groups > 0 {
        None
    } else {
        Some(
            Pps {
                pic_parameter_set_id: id,
                seq_parameter_set_id: sps_id,
                entropy_coding_mode_flag: cabac == 1,
                bottom_field_pic_order_in_frame_present_flag: bottom_field == 1,
                num_slice_groups_minus1: slice_groups,
                num_ref_idx_l0_default_active_minus1: refs_l0,
                num_ref_idx_l1_default_active_minus1: refs_l1,
                weighted_pred_flag: weighted == 1,
                weighted_bipred_idc: bipred as u32,
                pic_init_qp_minus26: qp as i32,
                pic_init_qs_minus26: qs as i32,
                chroma_qp_index_offset: chroma_offset as i32,
                deblocking_filter_control_present_flag: deblocking == 1,
                constrained_intra_pred_flag: constrained == 1,
                redundant_pic_cnt_present_flag: redundant == 1,
            },
        )
    }
}

/// The length of the frame number field, in 32 bits.
pub open spec fn frame_num_bits(log2_max_frame_num_minus4: u32) -> u32 {
    crate::h264::wrapped(log2_max_frame_num_minus4 + 4)
}

/// The slice header that `rbsp` holds. The offsets of the deblocking filter are
/// coded unless the filter is switched off.
pub open spec fn slice_header_of(rbsp: Seq<u8>, log2_max_frame_num_minus4: u32) -> Option<
    SliceHeader,
> {
    let bits = frame_num_bits(log2_max_frame_num_minus4);
    let (first_mb, c) = Cursor::start(rbsp).ue();
    let (slice_type, c) = c.ue();
    let (pps_id, c) = c.ue();
    let (frame_num, c) = c.bits(bits as nat);
    let (idr_pic_id, c) = c.ue();
    let (qp_delta, c) = c.se();
    let (deblocking, c) = c.ue();
    let (alpha, c) = if deblocking != 1 {
        c.se()
    } else {
        (0, c)
    };
    let (beta, c) = if deblocking != 1 {
        c.se()
    } else {
        (0, c)
    };
    if !c.ok || bits == 0 || bits > 16 {
        None
    } else {
        Some(
            SliceHeader {
                first_mb_in_slice: first_mb,
                slice_type: SliceType::of(slice_type),
                pic_parameter_set_id: pps_id,
                frame_num: frame_num as u32,
                idr_pic_id: Some(idr_pic_id),
                slice_qp_delta: qp_delta as i32,
                disable_deblocking_filter_idc: deblocking,
                slice_alpha_c0_offset_div2: alpha as i32,
                slice_beta_offset_div2: beta as i32,
            },
        )
    }
}

/// Parses a picture parameter set: the bytes behind the NAL header, without
/// emulation prevention.
pub fn parse_pps(rbsp: &[u8]) -> (r: Option<Pps>)
    ensures
        r == pps_of(rbsp@),
{
    let mut br: BitReader<'_> = BitReader::new(rbsp);
    let pic_parameter_set_id: u32 = br.read_ue()?;
    let seq_parameter_set_id: u32 = br.read_ue()?;
    let entropy_coding_mode_flag: bool = br.read_bit()? == 1;
    let bottom_field_pic_order_in_frame_present_flag: bool = br.read_bit()? == 1;
    let num_slice_groups_minus1: u32 = br.read_ue()?;
    if num_slice_groups_minus1 > 0 {
        return None;
    }
    let num_ref_idx_l0_default_active_minus1: u32 = br.read_ue()?;
    let num_ref_idx_l1_default_active_minus1: u32 = br.read_ue()?;
    let weighted_pred_flag: bool = br.read_bit()? == 1;
    let weighted_bipred_idc: u32 = br.read_bits(2)?;
    let pic_init_qp_minus26: i32 = br.read_se()?;
    let pic_init_qs_minus26: i32 = br.read_se()?;
    let chroma_qp_index_offset: i32 = br.read_se()?;
    let deblocking_filter_control_present_flag: bool = br.read_bit()? == 1;
    let constrained_intra_pred_flag: bool = br.read_bit()? == 1;
    let redundant_pic_cnt_present_flag: bool = br.read_bit()? == 1;
    Some(
        Pps {
            pic_parameter_set_id,
            seq_parameter_set_id,
            entropy_coding_mode_flag,
            bottom_field_pic_order_in_frame_present_flag,
            num_slice_groups_minus1,
            num_ref_idx_l0_default_active_minus1,
            num_ref_idx_l1_default_active_minus1,
            weighted_pred_flag,
            weighted_bipred_idc,
            pic_init_qp_minus26,
            pic_init_qs_minus26,
            chroma_qp_index_offset,
            deblocking_filter_control_present_flag,
            constrained_intra_pred_flag,
            redundant_pic_cnt_present_flag,
        },
    )
}

/// Parses the header of a slice of an IDR picture. The length of the frame
/// number comes from the sequence parameter set; lengths of 0 and of more than
/// 16 bits are refused. The header holds the settings of the deblocking filter,
/// but neither a picture order count nor marks for reference pictures.
pub fn parse_slice_header_idr(rbsp: &[u8], sps_log2_max_frame_num_minus4: u32) -> (r: Option<
    SliceHeader,
>)
    ensures
        r == slice_header_of(rbsp@, sps_log2_max_frame_num_minus4),
{
    let mut br: BitReader<'_> = BitReader::new(rbsp);
    let first_mb_in_slice: u32 = br.read_ue()?;
    let slice_type_raw: u32 = br.read_ue()?;
    let slice_type: SliceType = SliceType::from_raw(slice_type_raw)?;
    let pic_parameter_set_id: u32 = br.read_ue()?;
    let frame_num_bits: u32 = ((sps_log2_max_frame_num_minus4 as u64 + 4) % 0x1_0000_0000) as u32;
    if frame_num_bits == 0 || frame_num_bits > 16 {
        return None;
    }
    let frame_num: u32 = br.read_bits(frame_num_bits)?;
    let idr_pic_id: Option<u32> = Some(br.read_ue()?);
    let slice_qp_delta: i32 = br.read_se()?;
    let disable_deblocking_filter_idc: u32 = br.read_ue()?;
    let mut slice_alpha_c0_offset_div2: i32 = 0;
    let mut slice_beta_offset_div2: i32 = 0;
    if disable_deblocking_filter_idc != 1 {
        slice_alpha_c0_offset_div2 = br.read_se()?;
        slice_beta_offset_div2 = br.read_se()?;
    }
    Some(
        SliceHeader {
            first_mb_in_slice,
            slice_type,
            pic_parameter_set_id,
            frame_num,
            idr_pic_id,
            slice_qp_delta,
            disable_deblocking_filter_idc,
            slice_alpha_c0_offset_div2,
            slice_beta_offset_div2,
        },
    )
}

/// Slice type values that differ by five mean the same type.
pub proof fn slice_types_repeat(v: u32)
    requires
        v <= u32::MAX - 5,
    ensures
        SliceType::of((v + 5) as u32) == SliceType::of(v),
{
}

/// A picture parameter set as it is written.
pub open spec fn written_pps(p: Pps) -> Seq<int> {
    fields::unsigned(p.pic_parameter_set_id as int) + (fields::unsigned(
        p.seq_parameter_set_id as int,
    ) + (fields::flag(p.entropy_coding_mode_flag) + (fields::flag(
        p.bottom_field_pic_order_in_frame_present_flag,
    ) + (fields::unsigned(p.num_slice_groups_minus1 as int) + (fields::unsigned(
        p.num_ref_idx_l0_default_active_minus1 as int,
    ) + (fields::unsigned(p.num_ref_idx_l1_default_active_minus1 as int) + (fields::flag(
        p.weighted_pred_flag,
    ) + (fields::digits(p.weighted_bipred_idc as int, 2) + (fields::signed(
        p.pic_init_qp_minus26 as int,
    ) + (fields::signed(p.pic_init_qs_minus26 as int) + (fields::signed(
        p.chroma_qp_index_offset as int,
    ) + (fields::flag(p.deblocking_filter_control_present_flag) + (fields::flag(
        p.constrained_intra_pred_flag,
    ) + fields::flag(p.redundant_pic_cnt_present_flag))))))))))))))
}

/// A picture parameter set that was written is read back; one with more than one slice
/// group is refused.
pub proof fn written_picture_sets_are_read(rbsp: Seq<u8>, p: Pps)
    requires
        fields::stands_before(Cursor::start(rbsp), written_pps(p)),
        p.pic_parameter_set_id < u32::MAX,
        p.seq_parameter_set_id < u32::MAX,
        p.num_slice_groups_minus1 < u32::MAX,
        p.num_ref_idx_l0_default_active_minus1 < u32::MAX,
        p.num_ref_idx_l1_default_active_minus1 < u32::MAX,
        p.weighted_bipred_idc < 4,
        p.pic_init_qp_minus26 > i32::MIN,
        p.pic_init_qs_minus26 > i32::MIN,
        p.chroma_qp_index_offset > i32::MIN,
    ensures
        pps_of(rbsp) == if p.num_slice_groups_minus1 == 0 {
            Some(p)
        } else {
            None
        },
{
    vstd::arithmetic::power2::lemma2_to64();
    let e = Seq::<int>::empty();
    let r14 = fields::flag(p.redundant_pic_cnt_present_flag);
    assert(r14 =~= r14 + e);
    let r13 = fields::flag(p.constrained_intra_pred_flag) + r14;
    let r12 = fields::flag(p.deblocking_filter_control_present_flag) + r13;
    let r11 = fields::signed(p.chroma_qp_index_offset as int) + r12;
    let r10 = fields::signed(p.pic_init_qs_minus26 as int) + r11;
    let r9 = fields::signed(p.pic_init_qp_minus26 as int) + r10;
    let r8 = fields::digits(p.weighted_bipred_idc as int, 2) + r9;
    let r7 = fields::flag(p.weighted_pred_flag) + r8;
    let r6 = fields::unsigned(p.num_ref_idx_l1_default_active_minus1 as int) + r7;
    let r5 = fields::unsigned(p.num_ref_idx_l0_default_active_minus1 as int) + r6;
    let r4 = fields::unsigned(p.num_slice_groups_minus1 as int) + r5;
    let r3 = fields::flag(p.bottom_field_pic_order_in_frame_present_flag) + r4;
    let r2 = fields::flag(p.entropy_coding_mode_flag) + r3;
    let r1 = fields::unsigned(p.seq_parameter_set_id as int) + r2;
    let c0 = Cursor::start(rbsp);
    fields::unsigned_codes_are_read(c0, p.pic_parameter_set_id, r1);
    let c1 = c0.ue().1;
    fields::unsigned_codes_are_read(c1, p.seq_parameter_set_id, r2);
    let c2 = c1.ue().1;
    fields::flags_are_read(c2, p.entropy_coding_mode_flag, r3);
    let c3 = c2.bit().1;
    fields::flags_are_read(c3, p.bottom_field_pic_order_in_frame_present_flag, r4);
    let c4 = c3.bit().1;
    fields::unsigned_codes_are_read(c4, p.num_slice_groups_minus1, r5);
    let c5 = c4.ue().1;
    fields::unsigned_codes_are_read(c5, p.num_ref_idx_l0_default_active_minus1, r6);
    let c6 = c5.ue().1;
    fields::unsigned_codes_are_read(c6, p.num_ref_idx_l1_default_active_minus1, r7);
    let c7 = c6.ue().1;
    fields::flags_are_read(c7, p.weighted_pred_flag, r8);
    let c8 = c7.bit().1;
    fields::numbers_are_read(c8, p.weighted_bipred_idc as int, 2, r9);
    let c9 = c8.bits(2).1;
    fields::signed_codes_are_read(c9, p.pic_init_qp_minus26, r10);
    let c10 = c9.se().1;
    fields::signed_codes_are_read(c10, p.pic_init_qs_minus26, r11);
    let c11 = c10.se().1;
    fields::signed_codes_are_read(c11, p.chroma_qp_index_offset, r12);
    let c12 = c11.se().1;
    fields::flags_are_read(c12, p.deblocking_filter_control_present_flag, r13);
    let c13 = c12.bit().1;
    fields::flags_are_read(c13, p.constrained_intra_pred_flag, r14);
    let c14 = c13.bit().1;
    fields::flags_are_read(c14, p.redundant_pic_cnt_present_flag, e);
}

/// The number that is coded for a slice type of which the picture may have others.
pub open spec fn coded_type(t: SliceType) -> int {
    match t {
        SliceType::P => 0,
        SliceType::B => 1,
        SliceType::I => 2,
        SliceType::Sp => 3,
        SliceType::Si => 4,
    }
}

/// A slice header as it is written, with a frame number of `bits` bits.
pub open spec fn written_slice_header(h: SliceHeader, bits: nat) -> Seq<int> {
    fields::unsigned(h.first_mb_in_slice as int) + (fields::unsigned(coded_type(h.slice_type)) + (
    fields::unsigned(h.pic_parameter_set_id as int) + (fields::digits(h.frame_num as int, bits) + (
    fields::unsigned(h.idr_pic_id->0 as int) + (fields::signed(h.slice_qp_delta as int) + (
    fields::unsigned(h.disable_deblocking_filter_idc as int) + (if h.disable_deblocking_filter_idc
        == 1 {
        Seq::empty()
    } else {
        fields::signed(h.slice_alpha_c0_offset_div2 as int) + fields::signed(
            h.slice_beta_offset_div2 as int,
        )
    })))))))
}

/// A slice header that was written is read back.
pub proof fn written_slice_headers_are_read(rbsp: Seq<u8>, h: SliceHeader, log2_minus4: u32)
    requires
        log2_minus4 <= 12,
        fields::stands_before(
            Cursor::start(rbsp),
            written_slice_header(h, (log2_minus4 + 4) as nat),
        ),
        h.first_mb_in_slice < u32::MAX,
        h.pic_parameter_set_id < u32::MAX,
        h.frame_num < vstd::arithmetic::power2::pow2((log2_minus4 + 4) as nat),
        h.idr_pic_id matches Some(id) && id < u32::MAX,
        h.slice_qp_delta > i32::MIN,
        h.disable_deblocking_filter_idc < u32::MAX,
        h.slice_alpha_c0_offset_div2 > i32::MIN,
        h.slice_beta_offset_div2 > i32::MIN,
        h.disable_deblocking_filter_idc == 1 ==> h.slice_alpha_c0_offset_div2 == 0
            && h.slice_beta_offset_div2 == 0,
    ensures
        slice_header_of(rbsp, log2_minus4) == Some(h),
{
    let n = (log2_minus4 + 4) as nat;
    let kind = coded_type(h.slice_type) as u32;
    let e = Seq::<int>::empty();
    let r8 = fields::signed(h.slice_beta_offset_div2 as int);
    assert(r8 =~= r8 + e);
    let r7 = if h.disable_deblocking_filter_idc == 1 {
        e
    } else {
        fields::signed(h.slice_alpha_c0_offset_div2 as int) + r8
    };
    let r6 = fields::unsigned(h.disable_deblocking_filter_idc as int) + r7;
    let r5 = fields::signed(h.slice_qp_delta as int) + r6;
    let r4 = fields::unsigned(h.idr_pic_id->0 as int) + r5;
    let r3 = fields::digits(h.frame_num as int, n) + r4;
    let r2 = fields::unsigned(h.pic_parameter_set_id as int) + r3;
    let r1 = fields::unsigned(kind as int) + r2;
    let c0 = Cursor::start(rbsp);
    fields::unsigned_codes_are_read(c0, h.first_mb_in_slice, r1);
    let c1 = c0.ue().1;
    fields::unsigned_codes_are_read(c1, kind, r2);
    let c2 = c1.ue().1;
    fields::unsigned_codes_are_read(c2, h.pic_parameter_set_id, r3);
    let c3 = c2.ue().1;
    fields::numbers_are_read(c3, h.frame_num as int, n, r4);
    let c4 = c3.bits(n).1;
    fields::unsigned_codes_are_read(c4, h.idr_pic_id->0, r5);
    let c5 = c4.ue().1;
    fields::signed_codes_are_read(c5, h.slice_qp_delta, r6);
    let c6 = c5.se().1;
    fields::unsigned_codes_are_read(c6, h.disable_deblocking_filter_idc, r7);
    let c7 = c6.ue().1;
    if h.disable_deblocking_filter_idc != 1 {
        fields::signed_codes_are_read(c7, h.slice_alpha_c0_offset_div2, r8);
        let c8 = c7.se().1;
        fields::signed_codes_are_read(c8, h.slice_beta_offset_div2, e);
    }
}

} // verus!
