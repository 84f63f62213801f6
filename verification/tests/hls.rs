use conclave::hls::{check_attributes, parse, Either};

#[test]
fn parses_master_with_one_variant() {
    let text = "#EXTM3U\n#EXT-X-STREAM-INF:BANDWIDTH=1280000,CODECS=\"avc1.42e00a\",RESOLUTION=640x360\nlow.m3u8";
    match parse(text).unwrap() {
        Either::Left(m) => {
            assert_eq!(m.variants.len(), 1);
            assert_eq!(m.variants[0].bandwidth, 1_280_000);
            assert_eq!(m.variants[0].resolution, Some((640, 360)));
            assert_eq!(m.variants[0].uri, "low.m3u8");
        }
        _ => panic!("expected master"),
    }
}

#[test]
fn parses_media_segments() {
    let text = "#EXTM3U\n#EXT-X-TARGETDURATION:6\n#EXTINF:5.0,\nseg1.ts\n#EXTINF:5.0,\nseg2.ts\n#EXT-X-ENDLIST";
    match parse(text).unwrap() {
        Either::Right(m) => {
            assert_eq!(m.segments.len(), 2);
            assert!(m.end_list);
        }
        _ => panic!("expected media"),
    }
}

#[test]
fn texts_without_header_are_refused() {
    assert!(parse("").is_err());
    assert!(parse("#EXTINF:5.0,\nseg1.ts").is_err());
}

#[test]
fn segments_keep_ranges_and_discontinuities() {
    let text = "#EXTM3U\n#EXT-X-MEDIA-SEQUENCE:7\n#EXTINF:4.5,title\n#EXT-X-BYTERANGE:100@20\na.ts\n#EXT-X-DISCONTINUITY\n#EXTINF:3,\nb.ts";
    assert!(check_attributes(text));
    match parse(text).unwrap() {
        Either::Right(m) => {
            assert_eq!(m.media_sequence, 7);
            assert!(!m.end_list);
            assert_eq!(m.segments[0].duration, "4.5");
            assert_eq!(m.segments[0].byte_range, Some((100, 20)));
            assert!(!m.segments[0].discontinuity);
            assert_eq!(m.segments[1].duration, "3");
            assert!(m.segments[1].discontinuity);
        }
        _ => panic!("expected media"),
    }
}

#[test]
fn attributes_need_values_in_playlists_only() {
    assert!(!check_attributes("#EXTM3U\n#EXT-X-STREAM-INF:BANDWIDTH=\na.m3u8"));
    let other = "#EXT-X-STREAM-INF:BANDWIDTH=\na.m3u8";
    assert!(check_attributes(other));
    assert!(parse(other).is_err());
}

#[test]
fn written_playlists_are_read() {
    let text = "#EXTM3U\n#EXT-X-TARGETDURATION:10\n#EXT-X-MEDIA-SEQUENCE:3\n#EXT-X-DISCONTINUITY\n#EXT-X-BYTERANGE:512@1024\n#EXTINF:9.5,\none.ts\n#EXTINF:4,\ntwo.ts\n#EXT-X-ENDLIST\n";
    match parse(text).unwrap() {
        Either::Right(m) => {
            assert_eq!(m.target_duration.as_deref(), Some("10"));
            assert_eq!(m.media_sequence, 3);
            assert!(m.end_list);
            assert_eq!(m.segments.len(), 2);
            assert_eq!(m.segments[0].duration, "9.5");
            assert_eq!(m.segments[0].uri, "one.ts");
            assert_eq!(m.segments[0].byte_range, Some((512, 1024)));
            assert!(m.segments[0].discontinuity);
            assert_eq!(m.segments[1].uri, "two.ts");
            assert_eq!(m.segments[1].byte_range, None);
            assert!(!m.segments[1].discontinuity);
        }
        _ => panic!("expected media"),
    }
}
