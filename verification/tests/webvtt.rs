use conclave::webvtt::parse;

#[test]
fn parses_two_cues() {
    let text = "WEBVTT\n\n00:00:00.000 --> 00:00:01.500\nHello\n\n00:00:02.000 --> 00:00:03.000\nWorld";
    let cues = parse(text);
    assert_eq!(cues.len(), 2);
    assert_eq!(cues[0].start_ms, 0);
    assert_eq!(cues[0].end_ms, 1500);
    assert_eq!(cues[1].text, "World");
}

#[test]
fn texts_without_header_have_no_cues() {
    assert!(parse("00:00:00.000 --> 00:00:01.500\nHello").is_empty());
    assert!(parse("").is_empty());
}

#[test]
fn cues_may_have_a_name_and_several_lines() {
    let cues = parse("WEBVTT\n\nintro\n01:02.003 --> 01:00:00.000 align:start\nA\nB\n");
    assert_eq!(cues.len(), 1);
    assert_eq!(cues[0].id.as_deref(), Some("intro"));
    assert_eq!((cues[0].start_ms, cues[0].end_ms), (62_003, 3_600_000));
    assert_eq!(cues[0].text, "A\nB");
}

#[test]
fn written_captions_are_read() {
    let text = "WEBVTT\n\nfirst\n0:0:1.5 --> 0:0:2.0\nOne\nTwo\n\n1:0:0.0 --> 2:3:4.5\nThree\n\n0:0:9.9 --> 0:0:10.0\n";
    let cues = parse(text);
    assert_eq!(cues.len(), 3);
    assert_eq!(cues[0].id.as_deref(), Some("first"));
    assert_eq!((cues[0].start_ms, cues[0].end_ms), (1_005, 2_000));
    assert_eq!(cues[0].text, "One\nTwo");
    assert_eq!(cues[1].id, None);
    assert_eq!((cues[1].start_ms, cues[1].end_ms), (3_600_000, 7_384_005));
    assert_eq!(cues[2].text, "");
}
