use conclave::h264::BitReader;
use conclave::h264_slice::{parse_pps, parse_slice_header_idr, SliceType};

/// Helper: pack a Vec of (bits, value) into a big-endian byte
/// stream. Asserts each value fits in its declared bit width.
fn pack_bits(parts: &[(u32, u32)]) -> Vec<u8> {
    let mut buf = Vec::new();
    let mut acc: u64 = 0;
    let mut filled: u32 = 0;
    for &(bits, val) in parts {
        assert!(bits <= 32);
        assert!(val < (1u64 << bits) as u32 || bits == 32);
        acc = (acc << bits) | (val as u64);
        filled += bits;
        while filled >= 8 {
            let shift = filled - 8;
            buf.push(((acc >> shift) & 0xFF) as u8);
            acc &= (1u64 << shift) - 1;
            filled -= 8;
        }
    }
    if filled > 0 {
        buf.push(((acc << (8 - filled)) & 0xFF) as u8);
    }
    buf
}

/// Helper: encode codeNum as unsigned Exp-Golomb and return
/// (bits, value) suitable for `pack_bits`.
fn ue_bits(code_num: u32) -> (u32, u32) {
    if code_num == 0 {
        return (1, 1);
    }
    let m = 32 - (code_num + 1).leading_zeros() - 1; // floor(log2(codeNum+1))
    let info = code_num - ((1u32 << m) - 1);
    // Stream is M zeros + 1 + M-bit info. Total length 2M+1.
    let total_bits = 2 * m + 1;
    // Compose: prefix is just "1" sitting in bit position m (value 1<<m),
    // plus info in the low m bits.
    let value = (1u32 << m) | info;
    (total_bits, value)
}

/// Signed Exp-Golomb encoder.
fn se_bits(v: i32) -> (u32, u32) {
    let code_num = if v <= 0 {
        (-v as u32) * 2
    } else {
        (v as u32) * 2 - 1
    };
    ue_bits(code_num)
}

#[test]
fn ue_helper_roundtrips() {
    for &k in &[0, 1, 2, 3, 7, 15, 16, 39, 100] {
        let (bits, value) = ue_bits(k);
        let buf = pack_bits(&[(bits, value)]);
        let mut br = BitReader::new(&buf);
        assert_eq!(br.read_ue(), Some(k), "ue roundtrip for {k}");
    }
}

#[test]
fn se_helper_roundtrips() {
    for &v in &[0i32, 1, -1, 2, -2, 7, -7] {
        let (bits, value) = se_bits(v);
        let buf = pack_bits(&[(bits, value)]);
        let mut br = BitReader::new(&buf);
        assert_eq!(br.read_se(), Some(v), "se roundtrip for {v}");
    }
}

#[test]
fn parse_pps_minimal_baseline() {
    // Build a minimal PPS for CAVLC, single slice group, common
    // reference defaults.
    let mut parts: Vec<(u32, u32)> = Vec::new();
    parts.push(ue_bits(0)); // pic_parameter_set_id = 0
    parts.push(ue_bits(0)); // seq_parameter_set_id = 0
    parts.push((1, 0)); // entropy_coding_mode_flag = CAVLC
    parts.push((1, 0)); // bottom_field_pic_order_in_frame_present_flag
    parts.push(ue_bits(0)); // num_slice_groups_minus1 = 0
    parts.push(ue_bits(0)); // num_ref_idx_l0_default_active_minus1
    parts.push(ue_bits(0)); // num_ref_idx_l1_default_active_minus1
    parts.push((1, 0)); // weighted_pred_flag
    parts.push((2, 0)); // weighted_bipred_idc
    parts.push(se_bits(-2)); // pic_init_qp_minus26 = -2 → QP 24
    parts.push(se_bits(0)); // pic_init_qs_minus26
    parts.push(se_bits(0)); // chroma_qp_index_offset
    parts.push((1, 1)); // deblocking_filter_control_present_flag = 1
    parts.push((1, 0)); // constrained_intra_pred_flag
    parts.push((1, 0)); // redundant_pic_cnt_present_flag
    let rbsp = pack_bits(&parts);
    let pps = parse_pps(&rbsp).expect("parse_pps");
    assert_eq!(pps.pic_parameter_set_id, 0);
    assert_eq!(pps.seq_parameter_set_id, 0);
    assert!(!pps.entropy_coding_mode_flag);
    assert_eq!(pps.num_slice_groups_minus1, 0);
    assert_eq!(pps.pic_init_qp_minus26, -2);
    assert!(pps.deblocking_filter_control_present_flag);
}

#[test]
fn parse_pps_rejects_unsupported_slice_groups() {
    let mut parts: Vec<(u32, u32)> = Vec::new();
    parts.push(ue_bits(0));
    parts.push(ue_bits(0));
    parts.push((1, 0));
    parts.push((1, 0));
    parts.push(ue_bits(1)); // num_slice_groups_minus1 = 1 → unsupported
    let rbsp = pack_bits(&parts);
    assert!(parse_pps(&rbsp).is_none());
}

#[test]
fn parse_slice_header_idr_intra() {
    // SPS log2_max_frame_num_minus4 = 0 → frame_num is 4 bits.
    let log2_minus4 = 0u32;
    let mut parts: Vec<(u32, u32)> = Vec::new();
    parts.push(ue_bits(0)); // first_mb_in_slice = 0
    parts.push(ue_bits(7)); // slice_type = 7 → I-only picture; 7 % 5 = 2 → I
    parts.push(ue_bits(0)); // pic_parameter_set_id = 0
    parts.push((4, 0)); // frame_num = 0
    parts.push(ue_bits(0)); // idr_pic_id = 0
    parts.push(se_bits(3)); // slice_qp_delta = 3
    parts.push(ue_bits(0)); // disable_deblocking_filter_idc = 0 (enabled)
    parts.push(se_bits(0)); // slice_alpha_c0_offset_div2
    parts.push(se_bits(0)); // slice_beta_offset_div2
    let rbsp = pack_bits(&parts);
    let sh = parse_slice_header_idr(&rbsp, log2_minus4).expect("slice header");
    assert_eq!(sh.first_mb_in_slice, 0);
    assert_eq!(sh.slice_type, SliceType::I);
    assert!(sh.slice_type.is_intra());
    assert_eq!(sh.frame_num, 0);
    assert_eq!(sh.idr_pic_id, Some(0));
    assert_eq!(sh.slice_qp_delta, 3);
    assert_eq!(sh.disable_deblocking_filter_idc, 0);
}

#[test]
fn slice_header_skips_deblock_offsets_when_idc_eq_1() {
    let mut parts: Vec<(u32, u32)> = Vec::new();
    parts.push(ue_bits(0));
    parts.push(ue_bits(2)); // I
    parts.push(ue_bits(0));
    parts.push((4, 1)); // frame_num = 1
    parts.push(ue_bits(2)); // idr_pic_id = 2
    parts.push(se_bits(-4)); // slice_qp_delta = -4
    parts.push(ue_bits(1)); // disable_deblocking_filter_idc = 1 → skip offsets
    let rbsp = pack_bits(&parts);
    let sh = parse_slice_header_idr(&rbsp, 0).expect("slice header");
    assert_eq!(sh.disable_deblocking_filter_idc, 1);
    assert_eq!(sh.slice_alpha_c0_offset_div2, 0);
    assert_eq!(sh.slice_beta_offset_div2, 0);
}
