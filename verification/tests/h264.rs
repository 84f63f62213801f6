use conclave::h264::{
    ebsp_to_rbsp, nal_type, parse_sps, split_nal_units, BitReader, NalHeader,
};

#[test]
fn split_finds_three_nals_with_mixed_start_codes() {
    // [0001 NAL_A] [001 NAL_B] [0001 NAL_C]
    let bytes = vec![
        0, 0, 0, 1, 0xAA, 0xBB, // NAL_A
        0, 0, 1, 0xCC, // NAL_B
        0, 0, 0, 1, 0xDD, 0xEE, 0xFF, // NAL_C
    ];
    let nals = split_nal_units(&bytes);
    assert_eq!(nals.len(), 3);
    assert_eq!(nals[0], &[0xAA, 0xBB]);
    assert_eq!(nals[1], &[0xCC]);
    assert_eq!(nals[2], &[0xDD, 0xEE, 0xFF]);
}

#[test]
fn nal_header_parses_idr_slice() {
    // nal_ref_idc=3, nal_unit_type=5 (IDR) → 0b0_11_00101 = 0x65
    let h = NalHeader::parse(0x65);
    assert_eq!(h.forbidden_zero_bit, 0);
    assert_eq!(h.nal_ref_idc, 3);
    assert_eq!(h.nal_unit_type, nal_type::SLICE_IDR);
}

#[test]
fn ebsp_strips_emulation_byte() {
    // 00 00 03 04 → 00 00 04
    let ebsp = vec![0, 0, 0x03, 0x04];
    let rbsp = ebsp_to_rbsp(&ebsp);
    assert_eq!(rbsp, vec![0, 0, 0x04]);
}

#[test]
fn ebsp_leaves_non_match_alone() {
    let ebsp = vec![0xAB, 0xCD, 0xEF];
    let rbsp = ebsp_to_rbsp(&ebsp);
    assert_eq!(rbsp, ebsp);
}

#[test]
fn ue_decodes_table_values() {
    // codeNum=0  → "1"
    // codeNum=1  → "010"
    // codeNum=2  → "011"
    // codeNum=3  → "00100"
    // Concat: 1 010 011 00100 = 1_010_011_00100 → 0b10100110_0100_0000
    let data = vec![0b1010_0110, 0b0100_0000];
    let mut br = BitReader::new(&data);
    assert_eq!(br.read_ue(), Some(0));
    assert_eq!(br.read_ue(), Some(1));
    assert_eq!(br.read_ue(), Some(2));
    assert_eq!(br.read_ue(), Some(3));
}

#[test]
fn se_decodes_alternating_sign_sequence() {
    // ue 0,1,2,3,4 → se 0,1,-1,2,-2
    // ue stream: 1 010 011 00100 00101 → 5 codes
    // bits: 1_010_011_00100_00101
    //     = 1010 0110 0100 0010 1
    let data = vec![0b1010_0110, 0b0100_0010, 0b1000_0000];
    let mut br = BitReader::new(&data);
    assert_eq!(br.read_se(), Some(0));
    assert_eq!(br.read_se(), Some(1));
    assert_eq!(br.read_se(), Some(-1));
    assert_eq!(br.read_se(), Some(2));
    assert_eq!(br.read_se(), Some(-2));
}

#[test]
fn parse_sps_baseline_recovers_geometry() {
    // Hand-built minimal Baseline (profile_idc=66) SPS RBSP:
    //   profile_idc = 66
    //   constraint flags + reserved = 0
    //   level_idc = 30
    //   seq_parameter_set_id = 0          → ue "1"
    //   log2_max_frame_num_minus4 = 0     → ue "1"
    //   pic_order_cnt_type = 0            → ue "1"
    //   log2_max_pic_order_cnt_lsb_minus4 = 0 → ue "1"
    //   max_num_ref_frames = 1            → ue "010"
    //   gaps_in_frame_num_allowed = 0     → 1 bit "0"
    //   pic_width_in_mbs_minus1 = 39      → 40 mbs * 16 = 640 px
    //     ue(39) = unary 5 zeros, then 5-bit binary of (40-32)=8 → "00000_101000"
    //   pic_height_in_map_units_minus1 = 29 → 30 * 16 = 480 px
    //     ue(29) = unary 4 zeros, then 4-bit binary of (30-16)=14 → "00001_1110"
    //   frame_mbs_only_flag = 1
    //   [stop — we don't decode further fields]
    //
    // Bit stream (MSB first):
    //   1 1 1 1 010 0 00000_1_01000 0000_1_1110 1
    //
    // Flat: 1111_0100 | 0000_0101 | 0000_0001 | 1110_1 (+ padding)
    //   = F4 05 01 E8
    let rbsp = vec![66, 0, 30, 0xF4, 0x05, 0x01, 0xE8];
    let sps = parse_sps(&rbsp).expect("parse_sps");
    assert_eq!(sps.profile_idc, 66);
    assert_eq!(sps.level_idc, 30);
    assert_eq!(sps.pic_width_in_mbs_minus1, 39);
    assert_eq!(sps.pic_height_in_map_units_minus1, 29);
    assert!(sps.frame_mbs_only_flag);
    assert_eq!(sps.width, 640);
    assert_eq!(sps.height, 480);
}

#[test]
fn streams_split_into_their_units() {
    // A short, a long and a short start code, and an empty unit.
    let bytes = [0, 0, 1, 0x67, 0, 0, 0, 0, 1, 0x68, 5, 0, 0, 1, 0, 0, 1, 0x65, 0, 0];
    let units = split_nal_units(&bytes);
    let expected: [&[u8]; 4] = [&[0x67, 0], &[0x68, 5], &[], &[0x65, 0, 0]];
    assert_eq!(units, expected);
    // A zero before a short start code makes it a long one.
    let units = split_nal_units(&[0, 0, 1, 7, 0, 0, 0, 1, 8]);
    let expected: [&[u8]; 2] = [&[7], &[8]];
    assert_eq!(units, expected);
}
