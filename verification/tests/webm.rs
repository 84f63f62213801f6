use conclave::webm::{
    codec_name, demux, ids, RealBits, StreamLength, Timestamp, TrackType, WebmDemux,
};

fn seconds(t: Timestamp) -> f64 {
    t.units as f64 * t.scale_ns as f64 / 1e9
}

fn number(bits: RealBits) -> f64 {
    match bits {
        RealBits::Single(b) => f32::from_bits(b) as f64,
        RealBits::Double(b) => f64::from_bits(b),
        RealBits::Absent => 0.0,
    }
}

fn length_s(length: StreamLength) -> f64 {
    match length {
        StreamLength::Declared(d) => number(d.units) * d.scale_ns as f64 / 1e9,
        StreamLength::Last(t) => seconds(t),
    }
}

/// How long a stream lasts, in seconds.
fn duration_s(dem: &WebmDemux) -> f64 {
    length_s(dem.length())
}

/// Encode an element ID (already a canonical multi-byte ID) + a
/// 1-byte size prefix VINT + payload. IDs here are <= 4 bytes and
/// emitted verbatim; size uses the 1-byte form (payload < 127).
fn elem(id: u64, payload: &[u8]) -> Vec<u8> {
    let mut out = Vec::new();
    // Emit ID big-endian using its natural byte length.
    let id_bytes = id_to_bytes(id);
    out.extend_from_slice(&id_bytes);
    // Size: use a VINT. For payload <= 0x7E use 1-byte (0x80 | len).
    let len = payload.len();
    if len <= 0x7E {
        out.push(0x80 | len as u8);
    } else {
        // 2-byte VINT.
        out.push(0x40 | ((len >> 8) as u8));
        out.push((len & 0xFF) as u8);
    }
    out.extend_from_slice(payload);
    out
}

fn id_to_bytes(id: u64) -> Vec<u8> {
    // Emit the minimal big-endian bytes (the canonical Matroska ID
    // already carries its length marker bit).
    let mut bytes = id.to_be_bytes().to_vec();
    while bytes.len() > 1 && bytes[0] == 0 {
        bytes.remove(0);
    }
    bytes
}

#[test]
fn vint_roundtrip_id_bytes() {
    assert_eq!(id_to_bytes(0xAE), vec![0xAE]);
    assert_eq!(id_to_bytes(ids::SEGMENT), vec![0x18, 0x53, 0x80, 0x67]);
}

#[test]
fn demux_extracts_track_table_and_geometry() {
    // Build Video track entry: number=1, type=1, codec V_VP9, 320x240.
    let video = {
        let mut v = Vec::new();
        v.extend(elem(ids::TRACK_NUMBER, &[0x01]));
        v.extend(elem(ids::TRACK_TYPE, &[0x01]));
        v.extend(elem(ids::CODEC_ID, b"V_VP9"));
        let mut vsub = Vec::new();
        vsub.extend(elem(ids::PIXEL_WIDTH, &[0x01, 0x40])); // 320
        vsub.extend(elem(ids::PIXEL_HEIGHT, &[0xF0])); // 240
        v.extend(elem(ids::VIDEO, &vsub));
        v
    };
    let track_entry = elem(ids::TRACK_ENTRY, &video);
    let tracks = elem(ids::TRACKS, &track_entry);

    // Info: TimestampScale = 1_000_000 (1ms), Duration = 2000.0 ⇒ 2s.
    let info = {
        let mut i = Vec::new();
        i.extend(elem(ids::TIMESTAMP_SCALE, &1_000_000u32.to_be_bytes()));
        i.extend(elem(ids::DURATION, &2000.0f64.to_be_bytes()));
        i
    };
    let info_el = elem(ids::INFO, &info);

    let mut seg_body = Vec::new();
    seg_body.extend(info_el);
    seg_body.extend(tracks);
    let segment = elem(ids::SEGMENT, &seg_body);

    let dem = demux(&segment);
    assert_eq!(dem.tracks.len(), 1);
    let t = dem.first_video_track().expect("video track");
    assert_eq!(t.number, 1);
    assert_eq!(t.codec_id, "V_VP9");
    assert_eq!(t.pixel_width, 320);
    assert_eq!(t.pixel_height, 240);
    assert!((duration_s(&dem) - 2.0).abs() < 1e-9, "dur={}", duration_s(&dem));
}

#[test]
fn demux_extracts_simpleblock_frames_with_timestamps() {
    // Cluster with timestamp 0, two SimpleBlocks on track 1.
    // SimpleBlock payload: track VINT(0x81), rel timecode (i16 BE),
    // flags byte, then the coded data.
    let make_block = |rel: i16, key: bool, data: &[u8]| -> Vec<u8> {
        let mut b = Vec::new();
        b.push(0x81); // track number 1, 1-byte VINT
        b.extend_from_slice(&rel.to_be_bytes());
        b.push(if key { 0x80 } else { 0x00 }); // keyframe flag, no lacing
        b.extend_from_slice(data);
        b
    };
    let mut cluster = Vec::new();
    cluster.extend(elem(ids::TIMESTAMP, &[0x00]));
    cluster.extend(elem(
        ids::SIMPLE_BLOCK,
        &make_block(0, true, &[0xDE, 0xAD]),
    ));
    cluster.extend(elem(
        ids::SIMPLE_BLOCK,
        &make_block(33, false, &[0xBE, 0xEF, 0x00]),
    ));
    let cluster_el = elem(ids::CLUSTER, &cluster);
    let segment = elem(ids::SEGMENT, &cluster_el);

    let dem = demux(&segment);
    assert_eq!(dem.frames.len(), 2);
    assert_eq!(dem.frames[0].track_number, 1);
    assert!(dem.frames[0].keyframe);
    assert_eq!(dem.frames[0].data, vec![0xDE, 0xAD]);
    assert!((seconds(dem.frames[0].timestamp) - 0.0).abs() < 1e-9);
    // 33 ms cluster-relative @ 1ms scale ⇒ 0.033s.
    assert!((seconds(dem.frames[1].timestamp) - 0.033).abs() < 1e-9);
    assert!(!dem.frames[1].keyframe);
    assert_eq!(dem.frames[1].data, vec![0xBE, 0xEF, 0x00]);
    // Duration falls back to last frame ts when Info absent.
    assert!((duration_s(&dem) - 0.033).abs() < 1e-9);
}

#[test]
fn fixed_lacing_splits_equal_frames() {
    // SimpleBlock, fixed lacing (lacing bits = 10 ⇒ flags 0x04),
    // count-1 = 2 (3 frames), 6 bytes body ⇒ 2 each.
    let mut b = Vec::new();
    b.push(0x81); // track 1
    b.extend_from_slice(&0i16.to_be_bytes());
    b.push(0x04); // fixed lacing, no keyframe
    b.push(0x02); // frame count - 1 = 2
    b.extend_from_slice(&[1, 2, 3, 4, 5, 6]);
    let cluster = {
        let mut c = Vec::new();
        c.extend(elem(ids::TIMESTAMP, &[0x00]));
        c.extend(elem(ids::SIMPLE_BLOCK, &b));
        c
    };
    let segment = elem(ids::SEGMENT, &elem(ids::CLUSTER, &cluster));
    let dem = demux(&segment);
    assert_eq!(dem.frames.len(), 3);
    assert_eq!(dem.frames[0].data, vec![1, 2]);
    assert_eq!(dem.frames[1].data, vec![3, 4]);
    assert_eq!(dem.frames[2].data, vec![5, 6]);
}

#[test]
fn blockgroup_block_is_demuxed() {
    let mut blk = Vec::new();
    blk.push(0x81);
    blk.extend_from_slice(&0i16.to_be_bytes());
    blk.push(0x00);
    blk.extend_from_slice(&[0xAA]);
    let bg = elem(ids::BLOCK, &blk);
    let cluster = {
        let mut c = Vec::new();
        c.extend(elem(ids::TIMESTAMP, &[0x00]));
        c.extend(elem(ids::BLOCK_GROUP, &bg));
        c
    };
    let segment = elem(ids::SEGMENT, &elem(ids::CLUSTER, &cluster));
    let dem = demux(&segment);
    assert_eq!(dem.frames.len(), 1);
    assert_eq!(dem.frames[0].data, vec![0xAA]);
    assert!(!dem.frames[0].keyframe); // Block (not SimpleBlock) ⇒ not flagged
}

/// A cluster at time zero with one block in it.
fn one_block(block: &[u8]) -> Vec<u8> {
    let mut c = Vec::new();
    c.extend(elem(ids::TIMESTAMP, &[0x00]));
    c.extend(elem(ids::SIMPLE_BLOCK, block));
    elem(ids::SEGMENT, &elem(ids::CLUSTER, &c))
}

#[test]
fn xiph_lacing_reads_its_sizes() {
    // Two frames of 3 and 2 bytes.
    let block = [0x81, 0, 0, 0x02, 0x01, 0x03, 1, 2, 3, 4, 5];
    let dem = demux(&one_block(&block));
    assert_eq!(dem.frames.len(), 2);
    assert_eq!(dem.frames[0].data, vec![1, 2, 3]);
    assert_eq!(dem.frames[1].data, vec![4, 5]);
}

#[test]
fn ebml_lacing_reads_differences() {
    // Three frames: 2, then one more than that, then the rest.
    let block = [0x81, 0, 0, 0x06, 0x02, 0x82, 0xC0, 1, 2, 3, 4, 5, 6];
    let dem = demux(&one_block(&block));
    let all: Vec<u8> = dem.frames.iter().flat_map(|f| f.data.clone()).collect();
    assert_eq!(all, vec![1, 2, 3, 4, 5, 6]);
    assert_eq!(dem.frames[0].data, vec![1, 2]);
    assert_eq!(dem.frames[1].data, vec![3, 4, 5]);
    assert_eq!(dem.frames[2].data, vec![6]);
}

#[test]
fn codec_names_are_trimmed_of_nulls() {
    assert_eq!(codec_name("V_VP9\0\0"), "V_VP9");
}

#[test]
fn codec_bytes_outside_utf8_are_replaced() {
    let mut v = Vec::new();
    v.extend(elem(ids::TRACK_NUMBER, &[0x07]));
    v.extend(elem(ids::TRACK_TYPE, &[0x02]));
    v.extend(elem(ids::CODEC_ID, &[b'A', 0xFF, b'B', 0]));
    let segment = elem(ids::SEGMENT, &elem(ids::TRACKS, &elem(ids::TRACK_ENTRY, &v)));
    let dem = demux(&segment);
    let t = dem.first_audio_track().expect("audio track");
    assert_eq!(t.codec_id, "A\u{FFFD}B");
    assert_eq!(t.track_type, Some(TrackType::Audio));
    assert!(dem.first_video_track().is_none());
}

#[test]
fn frames_are_selected_by_track() {
    let mut c = Vec::new();
    c.extend(elem(ids::TIMESTAMP, &[0x05]));
    c.extend(elem(ids::SIMPLE_BLOCK, &[0x81, 0, 1, 0x80, 1]));
    c.extend(elem(ids::SIMPLE_BLOCK, &[0x82, 0, 2, 0x80, 2]));
    c.extend(elem(ids::SIMPLE_BLOCK, &[0x81, 0xFF, 0xFF, 0x00, 3]));
    let dem = demux(&elem(ids::SEGMENT, &elem(ids::CLUSTER, &c)));
    let of_one = dem.frames_for(1);
    assert_eq!(of_one.len(), 2);
    assert_eq!(of_one[0].timestamp.units, 6);
    assert_eq!(of_one[1].timestamp.units, 4);
    assert_eq!(dem.frames_for(2).len(), 1);
    assert!(dem.frames_for(3).is_empty());
    assert_eq!(dem.last_timestamp().units, 7);
}

#[test]
fn a_lace_of_one_frame_has_no_sizes() {
    for lacing in [0x02, 0x04, 0x06] {
        let block = [0x81, 0, 0, lacing, 0x00, 0x82, 1, 2];
        let dem = demux(&one_block(&block));
        assert_eq!(dem.frames.len(), 1);
        assert_eq!(dem.frames[0].data, vec![0x82, 1, 2]);
    }
}
