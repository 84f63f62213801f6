use conclave::flac::parse_streaminfo;

#[test]
fn parses_synthetic_streaminfo() {
    let mut buf = Vec::new();
    buf.extend_from_slice(b"fLaC");
    buf.extend_from_slice(&[0, 0, 0, 34]); // STREAMINFO block, len=34
    // 34-byte payload — choose 48000Hz, 2ch, 16bit.
    let mut s = [0u8; 34];
    s[0..2].copy_from_slice(&4096u16.to_be_bytes());
    s[2..4].copy_from_slice(&4096u16.to_be_bytes());
    // sample rate 48000 = 0x0BB80; channels=2; bits=16
    // bits 0..20 of bytes 10..12.5 hold sample_rate
    s[10] = ((48000u32 >> 12) & 0xFF) as u8;
    s[11] = ((48000u32 >> 4) & 0xFF) as u8;
    s[12] = (((48000u32 << 4) & 0xF0) as u8) | ((2u8 - 1) << 1) | (((16u8 - 1) >> 4) & 1);
    s[13] = (((16u8 - 1) & 0x0F) << 4) | 0;
    buf.extend_from_slice(&s);
    let info = parse_streaminfo(&buf).unwrap();
    assert_eq!(info.sample_rate, 48000);
    assert_eq!(info.channels, 2);
    assert_eq!(info.bits_per_sample, 16);
}

#[test]
fn other_streams_are_refused() {
    assert!(parse_streaminfo(b"fLaX").is_none());
    let mut buf = b"fLaC".to_vec();
    buf.extend_from_slice(&[1, 0, 0, 34]);
    buf.extend_from_slice(&[0; 34]);
    assert!(parse_streaminfo(&buf).is_none());
    buf[4] = 0;
    assert!(parse_streaminfo(&buf).is_some());
    assert!(parse_streaminfo(&buf[..41]).is_none());
}
