use conclave::ebml::{parse_elements, read_vint};

#[test]
fn vint_single_byte_root() {
    // 0b1000_0001 = length 1, value 1
    let (v, len) = read_vint(&[0x81], false).unwrap();
    assert_eq!(v, 1);
    assert_eq!(len, 1);
}

#[test]
fn vint_two_byte_value() {
    // 0b0100_0001 0xFF = length 2, value (0x01_FF & 0x3FFF) = 0x01FF
    let (v, len) = read_vint(&[0x41, 0xFF], false).unwrap();
    assert_eq!(v, 0x01FF);
    assert_eq!(len, 2);
}

#[test]
fn vint_ebml_header_id() {
    // 0x1A 0x45 0xDF 0xA3 — the EBML root ID. With mask_marker
    // = true the full ID is preserved.
    let buf = [0x1A, 0x45, 0xDF, 0xA3];
    let (v, len) = read_vint(&buf, true).unwrap();
    assert_eq!(v, 0x1A45DFA3);
    assert_eq!(len, 4);
}

#[test]
fn vint_rejects_zero_first_byte() {
    assert!(read_vint(&[0x00, 0x80], false).is_none());
}

#[test]
fn parse_walks_two_elements() {
    // Element 1: ID 0x82 (1 byte, marker-preserving val 0x82),
    // size 0x82 = 2 bytes payload [0xAA, 0xBB]. Then element 2.
    let buf: Vec<u8> = vec![
        0x82, 0x82, 0xAA, 0xBB, // first element
        0x83, 0x81, 0xCC, // second element id=0x83 size=1 payload=CC
    ];
    let elts = parse_elements(&buf);
    assert_eq!(elts.len(), 2);
    assert_eq!(elts[0].id, 0x82);
    assert_eq!(elts[0].payload, &[0xAA, 0xBB]);
    assert_eq!(elts[1].id, 0x83);
    assert_eq!(elts[1].payload, &[0xCC]);
}

#[test]
fn sizes_read_back_at_every_length() {
    for n in 1..=8usize {
        let mut bytes = 5u64.to_be_bytes()[8 - n..].to_vec();
        bytes[0] += 1 << (8 - n);
        bytes.push(0xFF);
        assert_eq!(read_vint(&bytes, false), Some((5, n)));
    }
}

#[test]
fn written_elements_follow_one_another() {
    let buf = [0x1A, 0x45, 0xDF, 0xA3, 0x40, 0x02, 7, 8, 0xEC, 0x80, 0xEC, 0x81, 9];
    let found = parse_elements(&buf);
    assert_eq!(found.len(), 3);
    assert_eq!((found[0].id, found[0].payload), (0x1A45_DFA3, &[7u8, 8][..]));
    assert_eq!((found[1].id, found[1].payload.len()), (0xEC, 0));
    assert_eq!((found[2].id, found[2].payload), (0xEC, &[9u8][..]));
}
