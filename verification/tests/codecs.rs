use conclave::av1::parse_sequence_header;
use conclave::h265;
use conclave::vp9::parse_uncompressed_header;

#[test]
fn av1_sequence_headers_hold_profile_and_size() {
    let h = parse_sequence_header(&[0x0A, 0x04, 0x21, 0x67, 0x02, 0x7F]).expect("header");
    assert_eq!(h.profile, 1);
    assert_eq!(h.width, 0x027F + 1);
    assert_eq!(h.height, 0x2167 + 1);
}

#[test]
fn av1_other_units_are_refused() {
    assert!(parse_sequence_header(&[]).is_none());
    assert!(parse_sequence_header(&[0x12, 0x00]).is_none());
    assert!(parse_sequence_header(&[0x0A, 0x03, 1, 2, 3]).is_none());
    assert!(parse_sequence_header(&[0x0A, 0x05, 1, 2, 3, 4]).is_none());
    assert!(parse_sequence_header(&[0x0A, 0x80]).is_none());
}

#[test]
fn av1_sizes_may_take_two_bytes() {
    let h = parse_sequence_header(&[0x0A, 0x84, 0x00, 0, 0, 0, 1]).expect("header");
    assert_eq!((h.width, h.height), (2, 1));
}

#[test]
fn h265_parameter_sets_hold_profile_and_level() {
    let mut nal = vec![0u8; 16];
    nal[0] = 33 << 1;
    nal[3] = 0x62;
    nal[14] = 93;
    let s = h265::parse_sps(&nal).expect("parameter set");
    assert_eq!((s.profile_idc, s.level_idc), (2, 93));
    assert!(h265::parse_sps(&nal[..15]).is_none());
    nal[0] = 34 << 1;
    assert!(h265::parse_sps(&nal).is_none());
}

#[test]
fn vp9_key_frames_hold_a_size() {
    // Marker 10, profile 0, shown, key frame; sync code; space and range; size.
    let mut bits = String::from("10000010");
    for byte in [0x49u8, 0x83, 0x42] {
        bits.push_str(&format!("{byte:08b}"));
    }
    bits.push_str("0010");
    bits.push_str(&format!("{:016b}{:016b}", 319, 239));
    while bits.len() % 8 != 0 {
        bits.push('0');
    }
    let bytes: Vec<u8> = bits
        .as_bytes()
        .chunks(8)
        .map(|c| c.iter().fold(0u8, |v, b| v * 2 + (b - b'0')))
        .collect();
    let h = parse_uncompressed_header(&bytes).expect("header");
    assert!(h.key_frame && !h.show_existing_frame);
    assert_eq!((h.width_minus_1, h.height_minus_1), (319, 239));
    let mut wrong = bytes.clone();
    wrong[1] = 0x48;
    assert!(parse_uncompressed_header(&wrong).is_none());
}

#[test]
fn vp9_other_frames_have_no_size() {
    let inter = parse_uncompressed_header(&[0b1000_0110, 0, 0]).expect("header");
    assert!(!inter.key_frame);
    assert_eq!((inter.width_minus_1, inter.height_minus_1), (0, 0));
    let again = parse_uncompressed_header(&[0b1000_1000, 0, 0]).expect("header");
    assert!(again.show_existing_frame);
    assert!(parse_uncompressed_header(&[0b0100_0000, 0, 0]).is_none());
    assert!(parse_uncompressed_header(&[0b1000_0000, 0]).is_none());
}
