use conclave::h264_driver::{check_picture_size, decode_first_idr, DriverError};

/// Build a minimal NAL byte-stream with our hand-crafted SPS
/// (640x480 Baseline) and an IDR slice header with no residuals.
fn synth_bitstream(sps_rbsp: &[u8]) -> Vec<u8> {
    let mut out = Vec::new();
    // SPS NAL: prefix 4-byte start code, NAL header (forbidden=0,
    // ref_idc=3, type=7), then RBSP bytes.
    out.extend_from_slice(&[0, 0, 0, 1]);
    out.push(0x67); // 0_11_00111 = ref_idc=3 type=7
    out.extend_from_slice(sps_rbsp);
    // IDR NAL: prefix start code, header (ref_idc=3 type=5), then
    // a single dummy byte (slice data we don't read).
    out.extend_from_slice(&[0, 0, 0, 1]);
    out.push(0x65); // 0_11_00101 = ref_idc=3 type=5
    out.push(0x80);
    out
}

#[test]
fn end_to_end_decode_yields_bgra_buffer() {
    // Baseline, 640x480.
    let sps_rbsp = vec![66, 0, 30, 0xF4, 0x05, 0x01, 0xE8];
    let bs = synth_bitstream(&sps_rbsp);
    let decoded = decode_first_idr(&bs).expect("decode");
    assert_eq!(decoded.width, 640);
    assert_eq!(decoded.height, 480);
    assert_eq!(decoded.bgra.len(), (640 * 480) as usize);
    // YUV (128, 128, 128) → grey → BGRA channels roughly equal.
    let p = decoded.bgra[640 * 100 + 320];
    let r = ((p >> 16) & 0xFF) as i32;
    let g = ((p >> 8) & 0xFF) as i32;
    let b = (p & 0xFF) as i32;
    assert!((r - g).abs() < 5);
    assert!((g - b).abs() < 5);
    assert!((100..=160).contains(&r));
}

#[test]
fn no_sps_returns_error() {
    let bs = vec![0, 0, 0, 1, 0x65, 0x80];
    let err = decode_first_idr(&bs).unwrap_err();
    assert_eq!(err, DriverError::NoSps);
}

#[test]
fn no_idr_returns_error() {
    let sps_rbsp = vec![66, 0, 30, 0xF4, 0x05, 0x01, 0xE8];
    let mut bs = Vec::new();
    bs.extend_from_slice(&[0, 0, 0, 1]);
    bs.push(0x67);
    bs.extend_from_slice(&sps_rbsp);
    let err = decode_first_idr(&bs).unwrap_err();
    assert_eq!(err, DriverError::NoIdr);
}

/// A stream with the parameter set of a picture of 65536 by 65536 samples.
fn huge_stream() -> Vec<u8> {
    let long = "0".repeat(12) + "1" + &"0".repeat(12);
    let bits = format!("1101110{long}{long}11");
    let mut rbsp = vec![66u8, 0, 30];
    for byte in bits.as_bytes().chunks(8) {
        let ones = byte.iter().enumerate().filter(|(_, &b)| b == b'1');
        rbsp.push(ones.map(|(i, _)| 0x80u8 >> i).sum());
    }
    let mut out = vec![0, 0, 0, 1, 0x67];
    let mut zeros = 0;
    for b in rbsp {
        if zeros == 2 && b <= 3 {
            out.push(3);
            zeros = 0;
        }
        zeros = if b == 0 { zeros + 1 } else { 0 };
        out.push(b);
    }
    out
}

#[test]
fn sizes_do_not_matter_without_a_picture() {
    let mut stream = huge_stream();
    assert!(check_picture_size(&stream));
    assert_eq!(decode_first_idr(&stream).unwrap_err(), DriverError::NoIdr);
    stream.extend_from_slice(&[0, 0, 0, 1, 0x65, 0x80]);
    assert!(!check_picture_size(&stream));
}
