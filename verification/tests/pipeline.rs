use conclave::color::ColorMatrix;
use conclave::h264_chroma_intra::ChromaIntraMode;
use conclave::h264_driver::DriverError;
use conclave::h264_intra16::Intra16x16Mode;
use conclave::h264_mb_loop::{decode_macroblock, Frame, MbParams};
use conclave::pipeline::{
    decode_h264_first_frame, decode_webm_first_frame, probe_webm, to_annexb,
    try_decode_webm_first_frame, yuv420_frame, DecodeStatus,
};
use conclave::webm::{ids, RealBits, StreamLength, Timestamp};

/// Build a 4-byte-start-code Annex-B stream with a Baseline 640x480
/// SPS + an IDR NAL.
fn synth_h264_640x480() -> Vec<u8> {
    let sps_rbsp = vec![66, 0, 30, 0xF4, 0x05, 0x01, 0xE8];
    let mut out = Vec::new();
    out.extend_from_slice(&[0, 0, 0, 1]);
    out.push(0x67); // SPS NAL header
    out.extend_from_slice(&sps_rbsp);
    out.extend_from_slice(&[0, 0, 0, 1]);
    out.push(0x65); // IDR NAL header
    out.push(0x80);
    out
}

#[test]
fn h264_first_frame_decodes_to_real_bgra() {
    let bs = synth_h264_640x480();
    let f = decode_h264_first_frame(&bs).expect("decode");
    assert_eq!(f.width, 640);
    assert_eq!(f.height, 480);
    assert_eq!(f.bgra.len(), 640 * 480);
    // The reconstructed picture is grey: DC prediction, no residual.
    let p = f.bgra[640 * 200 + 320];
    let r = (p >> 16) & 0xFF;
    let g = (p >> 8) & 0xFF;
    let b = p & 0xFF;
    assert!((100..=160).contains(&r), "r={r}");
    assert!((r as i32 - g as i32).abs() < 5);
    assert!((g as i32 - b as i32).abs() < 5);
    assert_eq!((p >> 24) & 0xFF, 0xFF); // opaque
}

#[test]
fn intra_prediction_produces_nonuniform_pixels() {
    let mut frame = Frame::new(16, 32);
    // Seed bottom row of MB(0,0) with a horizontal gradient that
    // MB(0,1) Vertical-predicts downward.
    for x in 0..16 {
        frame.y[15 * 16 + x] = (x as u8) * 8;
    }
    let zero_luma = [[0i32; 16]; 16];
    let zero_chroma = [[0i32; 16]; 4];
    let params = MbParams {
        luma_mode: Intra16x16Mode::Vertical,
        chroma_mode: ChromaIntraMode::Dc,
        luma_residuals: &zero_luma,
        chroma_residuals_cb: &zero_chroma,
        chroma_residuals_cr: &zero_chroma,
    };
    decode_macroblock(&mut frame, 0, 1, &params).unwrap();
    let vf = yuv420_frame(16, 32, &frame.y, &frame.cb, &frame.cr, ColorMatrix::Bt709, Timestamp { units: 0, scale_ns: 1 });
    // Column 0 (Y≈0) is darker than column 15 (Y≈120) in row 20.
    let left = vf.bgra[20 * 16 + 0] & 0xFF;
    let right = vf.bgra[20 * 16 + 15] & 0xFF;
    assert!(right > left + 40, "left={left} right={right} (gradient lost)");
}

#[test]
fn probe_webm_reports_geometry_and_codec() {
    // Minimal WebM with a VP9 video track 320x240, duration 2s.
    let bytes = build_probe_webm();
    let p = probe_webm(&bytes);
    assert!(p.has_video);
    assert_eq!(p.width, 320);
    assert_eq!(p.height, 240);
    assert_eq!(p.video_codec, "V_VP9");
    let d = match p.duration {
        StreamLength::Declared(d) => d,
        other => panic!("expected a declared duration, got {other:?}"),
    };
    let units = match d.units {
        RealBits::Single(b) => f32::from_bits(b) as f64,
        RealBits::Double(b) => f64::from_bits(b),
        RealBits::Absent => 0.0,
    };
    assert!((units * d.scale_ns as f64 / 1e9 - 2.0).abs() < 1e-9);
}

#[test]
fn webm_with_unwired_codec_returns_header_only_not_black_frame() {
    let bytes = build_probe_webm_with_frame();
    let status = decode_webm_first_frame(&bytes).unwrap_err();
    match status {
        DecodeStatus::HeaderOnly { width, height, codec } => {
            assert_eq!(width, 320);
            assert_eq!(height, 240);
            assert_eq!(codec, "V_VP9");
        }
        other => panic!("expected HeaderOnly, got {other:?}"),
    }
}

fn elem(id: u64, payload: &[u8]) -> Vec<u8> {
    let mut out = Vec::new();
    let mut bytes = id.to_be_bytes().to_vec();
    while bytes.len() > 1 && bytes[0] == 0 {
        bytes.remove(0);
    }
    out.extend_from_slice(&bytes);
    let len = payload.len();
    if len <= 0x7E {
        out.push(0x80 | len as u8);
    } else {
        out.push(0x40 | ((len >> 8) as u8));
        out.push((len & 0xFF) as u8);
    }
    out.extend_from_slice(payload);
    out
}

fn build_probe_webm() -> Vec<u8> {
    let mut vsub = Vec::new();
    vsub.extend(elem(ids::PIXEL_WIDTH, &[0x01, 0x40]));
    vsub.extend(elem(ids::PIXEL_HEIGHT, &[0xF0]));
    let mut video = Vec::new();
    video.extend(elem(ids::TRACK_NUMBER, &[0x01]));
    video.extend(elem(ids::TRACK_TYPE, &[0x01]));
    video.extend(elem(ids::CODEC_ID, b"V_VP9"));
    video.extend(elem(ids::VIDEO, &vsub));
    let tracks = elem(ids::TRACKS, &elem(ids::TRACK_ENTRY, &video));
    let mut info = Vec::new();
    info.extend(elem(ids::TIMESTAMP_SCALE, &1_000_000u32.to_be_bytes()));
    info.extend(elem(ids::DURATION, &2000.0f64.to_be_bytes()));
    let info_el = elem(ids::INFO, &info);
    let mut seg = Vec::new();
    seg.extend(info_el);
    seg.extend(tracks);
    elem(ids::SEGMENT, &seg)
}

fn build_probe_webm_with_frame() -> Vec<u8> {
    let mut vsub = Vec::new();
    vsub.extend(elem(ids::PIXEL_WIDTH, &[0x01, 0x40]));
    vsub.extend(elem(ids::PIXEL_HEIGHT, &[0xF0]));
    let mut video = Vec::new();
    video.extend(elem(ids::TRACK_NUMBER, &[0x01]));
    video.extend(elem(ids::TRACK_TYPE, &[0x01]));
    video.extend(elem(ids::CODEC_ID, b"V_VP9"));
    video.extend(elem(ids::VIDEO, &vsub));
    let tracks = elem(ids::TRACKS, &elem(ids::TRACK_ENTRY, &video));
    let mut block = Vec::new();
    block.push(0x81);
    block.extend_from_slice(&0i16.to_be_bytes());
    block.push(0x80); // keyframe
    block.extend_from_slice(&[0xAA, 0xBB]); // VP9 payload (not decoded)
    let mut cluster = Vec::new();
    cluster.extend(elem(ids::TIMESTAMP, &[0x00]));
    cluster.extend(elem(ids::SIMPLE_BLOCK, &block));
    let cluster_el = elem(ids::CLUSTER, &cluster);
    let mut seg = Vec::new();
    seg.extend(tracks);
    seg.extend(cluster_el);
    elem(ids::SEGMENT, &seg)
}

/// One video track with a codec and one key frame.
fn one_frame(codec: &[u8], data: &[u8]) -> Vec<u8> {
    let mut video = Vec::new();
    video.extend(elem(ids::TRACK_NUMBER, &[0x01]));
    video.extend(elem(ids::TRACK_TYPE, &[0x01]));
    video.extend(elem(ids::CODEC_ID, codec));
    let mut block = vec![0x81, 0, 0, 0x80];
    block.extend_from_slice(data);
    let mut cluster = Vec::new();
    cluster.extend(elem(ids::TIMESTAMP, &[0x00]));
    cluster.extend(elem(ids::SIMPLE_BLOCK, &block));
    let mut seg = Vec::new();
    seg.extend(elem(ids::TRACKS, &elem(ids::TRACK_ENTRY, &video)));
    seg.extend(elem(ids::CLUSTER, &cluster));
    elem(ids::SEGMENT, &seg)
}

#[test]
fn h264_in_webm_decodes_its_first_frame() {
    let bytes = one_frame(b"V_MPEG4/ISO/AVC", &synth_h264_640x480());
    let f = try_decode_webm_first_frame(&bytes).expect("size").expect("frame");
    assert_eq!((f.width, f.height), (640, 480));
    assert_eq!(f.timestamp.units, 0);
    let same = decode_webm_first_frame(&bytes).expect("frame");
    assert_eq!(same.bgra, f.bgra);
}

#[test]
fn streams_without_video_have_no_poster() {
    let bytes = elem(ids::SEGMENT, &[]);
    assert!(matches!(decode_webm_first_frame(&bytes), Err(DecodeStatus::Unsupported)));
}

#[test]
fn streams_without_parameters_are_refused() {
    assert_eq!(decode_h264_first_frame(&[0, 0, 0, 1, 0x65, 0x80]).unwrap_err(), DriverError::NoSps);
}

#[test]
fn lengths_turn_into_start_codes() {
    let framed = [0, 0, 0, 2, 0x67, 0x42, 0, 0, 0, 3, 0x65, 1, 2];
    assert_eq!(
        to_annexb(&framed),
        vec![0, 0, 0, 1, 0x67, 0x42, 0, 0, 0, 1, 0x65, 1, 2]
    );
    let ready = synth_h264_640x480();
    assert_eq!(to_annexb(&ready), ready);
}

#[test]
fn probes_fall_back_to_the_last_frame() {
    // A frame at five seconds, and no declared duration.
    let mut video = Vec::new();
    video.extend(elem(ids::TRACK_NUMBER, &[0x01]));
    video.extend(elem(ids::TRACK_TYPE, &[0x01]));
    let mut cluster = Vec::new();
    cluster.extend(elem(ids::TIMESTAMP, &[0x13, 0x88]));
    cluster.extend(elem(ids::SIMPLE_BLOCK, &[0x81, 0, 0, 0x80, 1]));
    cluster.extend(elem(ids::SIMPLE_BLOCK, &[0x81, 0xFF, 0xFF, 0x00, 2]));
    let mut seg = Vec::new();
    seg.extend(elem(ids::TRACKS, &elem(ids::TRACK_ENTRY, &video)));
    seg.extend(elem(ids::CLUSTER, &cluster));
    let p = probe_webm(&elem(ids::SEGMENT, &seg));
    assert_eq!(p.duration, StreamLength::Last(Timestamp { units: 5000, scale_ns: 1_000_000 }));
    let nothing = probe_webm(&[]);
    assert_eq!(nothing.duration, StreamLength::Last(Timestamp { units: 0, scale_ns: 1_000_000 }));
}
