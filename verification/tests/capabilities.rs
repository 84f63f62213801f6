use conclave::capabilities::{can_play_type, mse_is_type_supported, Support};

#[test]
fn unsupported_container_is_empty_string() {
    assert_eq!(can_play_type("video/x-msvideo"), Support::No);
    assert_eq!(can_play_type("application/json"), Support::No);
    assert_eq!(can_play_type("").as_str(), "");
}

#[test]
fn supported_container_without_codecs_is_maybe() {
    assert_eq!(can_play_type("video/mp4"), Support::Maybe);
    assert_eq!(can_play_type("video/webm"), Support::Maybe);
    assert_eq!(can_play_type("audio/mp4").as_str(), "maybe");
}

#[test]
fn supported_container_and_codecs_is_probably() {
    assert_eq!(
        can_play_type("video/mp4; codecs=\"avc1.42E01E\""),
        Support::Probably
    );
    assert_eq!(
        can_play_type("video/webm; codecs=\"vp9\""),
        Support::Probably
    );
    assert_eq!(
        can_play_type("video/webm; codecs=\"vp8, vorbis\"").as_str(),
        "probably"
    );
    assert_eq!(
        can_play_type("video/mp4; codecs=\"av01.0.05M.08\"").as_str(),
        "probably"
    );
    assert_eq!(
        can_play_type("audio/mp4; codecs=\"mp4a.40.2\"").as_str(),
        "probably"
    );
}

#[test]
fn supported_container_with_unsupported_codec_is_empty() {
    // Container is fine, but the codec family is not one we decode.
    assert_eq!(
        can_play_type("video/mp4; codecs=\"theora\""),
        Support::No
    );
    assert_eq!(
        can_play_type("video/webm; codecs=\"vp9, theora\""),
        Support::No
    );
}

#[test]
fn mse_is_type_supported_tracks_real_capability() {
    assert!(mse_is_type_supported("video/mp4; codecs=\"avc1.42E01E\""));
    assert!(mse_is_type_supported("video/webm; codecs=\"vp9, opus\""));
    assert!(!mse_is_type_supported("audio/flac")); // not an MSE container
    assert!(!mse_is_type_supported("video/mp4; codecs=\"theora\""));
}

#[test]
fn profiles_do_not_matter() {
    assert_eq!(can_play_type("video/webm; codecs=\"vp9.0, opus\""), Support::Probably);
    assert_eq!(can_play_type("video/webm; codecs=\"VP09.00.10.08\""), Support::Probably);
    assert_eq!(can_play_type("video/webm; codecs=\"vp90\""), Support::No);
}

#[test]
fn lists_are_answered_codec_by_codec() {
    let ask = |codecs: &str| can_play_type(&format!("video/mp4; codecs=\"{codecs}\""));
    assert_eq!(can_play_type("video/mp4"), Support::Maybe);
    for (list, all) in [("avc1.42E01E, mp4a.40.2", true), ("avc1.42E01E, theora", false)] {
        let each = list.split(", ").all(|c| ask(c) == Support::Probably);
        assert_eq!(each, all);
        assert_eq!(ask(list), if all { Support::Probably } else { Support::No });
    }
}
