use conclave::native_messaging::{FrameError, Framer, HostManifest};

#[test]
fn parse_manifest() {
    let txt = r#"{
        "name": "com.example.host",
        "description": "Test host",
        "path": "C:\\bin\\host.exe",
        "type": "stdio",
        "allowed_origins": ["chrome-extension://abc/", "chrome-extension://def/"]
    }"#;
    let m = HostManifest::parse(txt).unwrap();
    assert_eq!(m.name, "com.example.host");
    assert_eq!(m.message_type, "stdio");
    assert_eq!(m.path, "C:\\bin\\host.exe");
    assert_eq!(m.allowed_origins.len(), 2);
    assert!(m.origin_allowed("chrome-extension://abc/popup.html"));
    assert!(!m.origin_allowed("chrome-extension://evil/"));
}

#[test]
fn frame_roundtrip() {
    let payload = br#"{"hello":"world"}"#;
    let mut buf: Vec<u8> = Vec::new();
    Framer::write_frame(&mut buf, payload).unwrap();
    assert_eq!(&buf[..4], &(payload.len() as u32).to_le_bytes());
    let got = Framer::read_frame(&buf).unwrap();
    assert_eq!(got, payload);
}

#[test]
fn reject_oversized_frame() {
    // 0x07FF_FFFF bytes are more than the limit of 0x0400_0000.
    let buf: Vec<u8> = vec![0xff, 0xff, 0xff, 0x07];
    let err = Framer::read_frame(&buf).unwrap_err();
    assert_eq!(err, FrameError::InvalidData);
}

#[test]
fn frames_cut_short_are_refused() {
    assert_eq!(Framer::read_frame(&[3, 0, 0]).unwrap_err(), FrameError::UnexpectedEof);
    assert_eq!(Framer::read_frame(&[3, 0, 0, 0, 1, 2]).unwrap_err(), FrameError::UnexpectedEof);
    assert_eq!(Framer::read_frame(&[2, 0, 0, 0, 1, 2, 3]).unwrap(), vec![1, 2]);
}

#[test]
fn frames_of_the_largest_size_are_allowed() {
    assert_eq!(Framer::payload_len(&[0, 0, 0, 4]), Ok(0x400_0000));
    assert_eq!(Framer::payload_len(&[1, 0, 0, 4]), Err(FrameError::InvalidData));
}

#[test]
fn manifests_without_braces_are_refused() {
    assert!(HostManifest::parse("").is_err());
    assert!(HostManifest::parse("[]").is_err());
}

#[test]
fn bare_words_may_hold_letters_of_any_script() {
    let m = HostManifest::parse("{\"extra\": \u{e9}t\u{e9}9, \"name\": \"n\"}").unwrap();
    assert_eq!(m.name, "n");
}

#[test]
fn written_manifests_are_read() {
    let text = "{\"name\":\"a\\\"b\",\"description\":\"x\\ny\\tz\\r\",\"path\":\"\",\"type\":\"c\\\\d\",\"allowed_origins\":[\"p\",\"q,]\"]}";
    let m = HostManifest::parse(text).unwrap();
    assert_eq!(m.name, "a\"b");
    assert_eq!(m.description, "x\ny\tz\r");
    assert_eq!(m.path, "");
    assert_eq!(m.message_type, "c\\d");
    assert_eq!(m.allowed_origins, vec!["p".to_string(), "q,]".to_string()]);
}

#[test]
fn other_fields_are_ignored() {
    let m = HostManifest::parse(r#"{"x":{"a":"}"},"name":"n"}"#).unwrap();
    assert_eq!(m.name, "n");
    assert_eq!(m.path, "");
    assert!(m.allowed_origins.is_empty());
    let m = HostManifest::parse(r#"{"x":["]\"]",{"y":["A"]}],"z":"A","path":"p"}"#);
    assert_eq!(m.unwrap().path, "p");
    let cut = HostManifest::parse(r#"{"x":{"a":"}"#);
    assert_eq!(cut.unwrap_err(), "unterminated object");
}
