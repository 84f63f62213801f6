use conclave::mp4::{find_child, parse_boxes, parse_ftyp};

/// Encode `(type, payload)` as a normal-size box.
fn write_box(type_tag: &[u8; 4], payload: &[u8]) -> Vec<u8> {
    let total = 8 + payload.len();
    let mut out = Vec::with_capacity(total);
    out.extend_from_slice(&(total as u32).to_be_bytes());
    out.extend_from_slice(type_tag);
    out.extend_from_slice(payload);
    out
}

#[test]
fn parses_single_box() {
    let buf = write_box(b"free", b"hello world!");
    let boxes = parse_boxes(&buf);
    assert_eq!(boxes.len(), 1);
    assert_eq!(boxes[0].type_as_str(), "free");
    assert_eq!(boxes[0].payload, b"hello world!");
}

#[test]
fn parses_back_to_back_boxes() {
    let mut buf = write_box(b"ftyp", &[0x69, 0x73, 0x6F, 0x6D, 0, 0, 0, 1]);
    buf.extend_from_slice(&write_box(b"moov", b"placeholder"));
    let boxes = parse_boxes(&buf);
    assert_eq!(boxes.len(), 2);
    assert_eq!(boxes[0].type_as_str(), "ftyp");
    assert_eq!(boxes[1].type_as_str(), "moov");
}

#[test]
fn ftyp_decodes_major_brand_and_minor_version() {
    let buf = write_box(
        b"ftyp",
        &[0x6D, 0x70, 0x34, 0x32, 0, 0, 0, 0, 0x69, 0x73, 0x6F, 0x6D],
    );
    let boxes = parse_boxes(&buf);
    let ftyp = parse_ftyp(&boxes[0]).unwrap();
    assert_eq!(&ftyp.major_brand, b"mp42");
    assert_eq!(ftyp.minor_version, 0);
    assert_eq!(ftyp.compatible_brands, vec![*b"isom"]);
}

#[test]
fn find_child_locates_nested_box() {
    let inner = write_box(b"mvhd", b"\x00\x00\x00\x00");
    let outer = write_box(b"moov", &inner);
    let boxes = parse_boxes(&outer);
    assert_eq!(boxes[0].type_as_str(), "moov");
    let mvhd = find_child(boxes[0].payload, b"mvhd").unwrap();
    assert_eq!(mvhd.payload, &[0, 0, 0, 0]);
}

#[test]
fn truncated_header_stops_walking() {
    // 7-byte tail (less than a header) should be ignored.
    let mut buf = write_box(b"free", b"");
    buf.extend_from_slice(&[0u8; 7]);
    let boxes = parse_boxes(&buf);
    assert_eq!(boxes.len(), 1);
}

#[test]
fn size_eq_zero_consumes_rest() {
    // Size 0 means "to the end".
    let mut buf = Vec::new();
    buf.extend_from_slice(&0u32.to_be_bytes());
    buf.extend_from_slice(b"mdat");
    buf.extend_from_slice(&[1, 2, 3, 4, 5]);
    let boxes = parse_boxes(&buf);
    assert_eq!(boxes.len(), 1);
    assert_eq!(boxes[0].type_as_str(), "mdat");
    assert_eq!(boxes[0].payload, &[1, 2, 3, 4, 5]);
}

#[test]
fn tags_outside_utf8_have_no_text() {
    let buf = write_box(&[0xFF, 0xFE, b'a', b'b'], b"");
    let boxes = parse_boxes(&buf);
    assert_eq!(boxes.len(), 1);
    assert_eq!(boxes[0].type_as_str(), "????");
}

#[test]
fn boxes_may_have_long_sizes() {
    let mut buf = vec![0, 0, 0, 1];
    buf.extend_from_slice(b"mdat");
    buf.extend_from_slice(&18u64.to_be_bytes());
    buf.extend_from_slice(&[7, 8]);
    let boxes = parse_boxes(&buf);
    assert_eq!(boxes.len(), 1);
    assert_eq!(boxes[0].payload, &[7, 8]);
}
