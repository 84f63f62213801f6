use conclave::dash::parse;

#[test]
fn parses_minimal_mpd() {
    let xml = r#"<MPD minBufferTime="PT2.0S"><Period id="0">
        <AdaptationSet mimeType="video/mp4">
            <Representation id="hd" bandwidth="3000000" width="1280" height="720" codecs="avc1.42e00a"/>
        </AdaptationSet>
    </Period></MPD>"#;
    let m = parse(xml);
    assert_eq!(m.periods.len(), 1);
    assert_eq!(m.periods[0].adaptation_sets.len(), 1);
    assert_eq!(m.periods[0].adaptation_sets[0].representations.len(), 1);
    assert_eq!(
        m.periods[0].adaptation_sets[0].representations[0].bandwidth,
        3_000_000
    );
}

#[test]
fn periods_that_are_not_closed_are_dropped() {
    assert!(parse("no tags here").periods.is_empty());
    let m = parse("<MPD mediaPresentationDuration=\"PT1M30S\"><Period id=\"p\" start=\"PT0S\"></Period>");
    assert_eq!(m.periods.len(), 1);
    assert_eq!(m.periods[0].id, "p");
}

#[test]
fn closing_tags_add_no_representations() {
    let m = parse(
        "<MPD><Period><AdaptationSet><Representation id=\"a\"></Representation></AdaptationSet></Period></MPD>",
    );
    let reps = &m.periods[0].adaptation_sets[0].representations;
    assert_eq!(reps.len(), 1);
    assert_eq!(reps[0].id, "a");
}
