use conclave::vorbis::parse_id_header;

#[test]
fn parses_id_header() {
    let mut buf = vec![0u8; 30];
    buf[0] = 1;
    buf[1..7].copy_from_slice(b"vorbis");
    buf[11] = 2;
    buf[12..16].copy_from_slice(&48000u32.to_le_bytes());
    let h = parse_id_header(&buf).unwrap();
    assert_eq!(h.channels, 2);
    assert_eq!(h.sample_rate, 48000);
}

#[test]
fn other_packets_are_refused() {
    let mut buf = vec![0u8; 30];
    buf[0] = 3;
    buf[1..7].copy_from_slice(b"vorbis");
    assert!(parse_id_header(&buf).is_none());
    buf[0] = 1;
    assert!(parse_id_header(&buf[..29]).is_none());
}
