//! Media capability probing, as behind `HTMLMediaElement.canPlayType()` and
//! `MediaSource.isTypeSupported()`.
//!
//! A content type is a MIME type, optionally followed by parameters. The answer
//! is "" for a type that is not supported, "maybe" for a supported container
//! without a list of codecs, and "probably" for a supported container all of
//! whose listed codecs can be decoded.
use vstd::prelude::*;

use crate::text;

pub mod listed;

verus! {

/// The three answers.
#[derive(Debug, Clone, Copy, PartialEq, Eq, Structural)]
pub enum Support {
    No,
    Maybe,
    Probably,
}

impl Support {
    /// The answer as a script sees it.
    pub fn as_str(self) -> (r: &'static str)
        ensures
            r@ == (match self {
                Support::No => ""@,
                Support::Maybe => "maybe"@,
                Support::Probably => "probably"@,
            }),
    {
        match self {
            Support::No => "",
            Support::Maybe => "maybe",
            Support::Probably => "probably",
        }
    }
}

/// The containers that can be demuxed.
pub open spec fn known_container(mime: Seq<char>) -> bool {
    ||| mime == "video/webm"@
    ||| mime == "audio/webm"@
    ||| mime == "video/mp4"@
    ||| mime == "audio/mp4"@
    ||| mime == "audio/flac"@
    ||| mime == "audio/x-flac"@
    ||| mime == "audio/ogg"@
    ||| mime == "video/ogg"@
    ||| mime == "application/ogg"@
    ||| mime == "audio/mpeg"@
    ||| mime == "audio/mp3"@
    ||| mime == "audio/aac"@
    ||| mime == "audio/wav"@
    ||| mime == "audio/x-wav"@
}

/// The containers that can be streamed through a media source.
pub open spec fn known_mse_container(mime: Seq<char>) -> bool {
    ||| mime == "video/mp4"@
    ||| mime == "audio/mp4"@
    ||| mime == "video/webm"@
    ||| mime == "audio/webm"@
}

/// The family of a codec: its name up to the first point, behind which is the
/// profile. Case and surrounding white space do not matter.
pub open spec fn family_of(codec: Seq<char>) -> Seq<char> {
    let name = text::lowered(text::trim(codec));
    name.take(text::find(name, '.'))
}

/// The codecs that can be decoded, by their family.
pub open spec fn known_codec(codec: Seq<char>) -> bool {
    let c = family_of(codec);
    ||| text::has_prefix(c, "avc1"@)
    ||| text::has_prefix(c, "avc3"@)
    ||| c == "h264"@
    ||| text::has_prefix(c, "hev1"@)
    ||| text::has_prefix(c, "hvc1"@)
    ||| c == "h265"@
    ||| c == "hevc"@
    ||| text::has_prefix(c, "av01"@)
    ||| c == "av1"@
    ||| c == "vp8"@
    ||| c == "vp9"@
    ||| text::has_prefix(c, "vp09"@)
    ||| text::has_prefix(c, "vp08"@)
    ||| text::has_prefix(c, "mp4a"@)
    ||| c == "aac"@
    ||| c == "opus"@
    ||| c == "vorbis"@
    ||| c == "flac"@
    ||| c == "mp3"@
}

/// The MIME type at the start of a content type, in lower case.
pub open spec fn mime_of(content_type: Seq<char>) -> Seq<char> {
    text::lowered(text::trim(text::split(content_type, ';')[0]))
}

/// What a `codecs` parameter says, without quotes; `None` for another one.
pub open spec fn codecs_value(parameter: Seq<char>) -> Option<Seq<char>> {
    let p = text::trim(parameter);
    let rest = text::trim_start(p.skip(6));
    if text::has_prefix(p, "codecs"@) && rest.len() > 0 && rest[0] == '=' {
        Some(text::trim_char(text::trim_char(text::trim(rest.skip(1)), '"'), '\''))
    } else {
        None
    }
}

/// A list of codecs names at least one.
pub open spec fn lists_some(value: Seq<char>) -> bool {
    exists|k: int|
        0 <= k < text::split(value, ',').len() && text::trim(
            #[trigger] text::split(value, ',')[k],
        ).len() > 0
}

/// Every codec that a list names can be decoded.
pub open spec fn lists_only_known(value: Seq<char>) -> bool {
    forall|k: int|
        0 <= k < text::split(value, ',').len() && text::trim(
            #[trigger] text::split(value, ',')[k],
        ).len() > 0 ==> known_codec(text::split(value, ',')[k])
}

/// The last list of codecs among the first `n` parts of a content type, of
/// which the very first is the MIME type. Empty lists do not count.
pub open spec fn codecs_among(parts: Seq<Seq<char>>, n: int) -> Option<Seq<char>>
    decreases n,
{
    if n <= 1 {
        None
    } else if codecs_value(parts[n - 1]) is Some && lists_some(codecs_value(parts[n - 1])->0) {
        codecs_value(parts[n - 1])
    } else {
        codecs_among(parts, n - 1)
    }
}

/// The list of codecs of a content type, if it has one.
pub open spec fn codecs_of(content_type: Seq<char>) -> Option<Seq<char>> {
    let parts = text::split(content_type, ';');
    codecs_among(parts, parts.len() as int)
}

/// The answer for a content type.
pub open spec fn support_for(content_type: Seq<char>) -> Support {
    let t = text::trim(content_type);
    if t.len() == 0 || !known_container(mime_of(t)) {
        Support::No
    } else {
        match codecs_of(t) {
            None => Support::Maybe,
            Some(list) => if lists_only_known(list) {
                Support::Probably
            } else {
                Support::No
            },
        }
    }
}

/// Whether a content type can be streamed through a media source.
pub open spec fn mse_support_for(content_type: Seq<char>) -> bool {
    let t = text::trim(content_type);
    known_mse_container(mime_of(t)) && (codecs_of(t) matches Some(list) ==> lists_only_known(list))
}

fn container_supported(mime: &[char]) -> (r: bool)
    ensures
        r == known_container(mime@),
{
    text::is_text(mime, "video/webm") || text::is_text(mime, "audio/webm") || text::is_text(
        mime,
        "video/mp4",
    ) || text::is_text(mime, "audio/mp4") || text::is_text(mime, "audio/flac") || text::is_text(
        mime,
        "audio/x-flac",
    ) || text::is_text(mime, "audio/ogg") || text::is_text(mime, "video/ogg") || text::is_text(
        mime,
        "application/ogg",
    ) || text::is_text(mime, "audio/mpeg") || text::is_text(mime, "audio/mp3") || text::is_text(
        mime,
        "audio/aac",
    ) || text::is_text(mime, "audio/wav") || text::is_text(mime, "audio/x-wav")
}

fn mse_container_supported(mime: &[char]) -> (r: bool)
    ensures
        r == known_mse_container(mime@),
{
    text::is_text(mime, "video/mp4") || text::is_text(mime, "audio/mp4") || text::is_text(
        mime,
        "video/webm",
    ) || text::is_text(mime, "audio/webm")
}

fn codec_supported(codec: &[char]) -> (r: bool)
    ensures
        r == known_codec(codec@),
{
    let name: Vec<char> = text::lowercase(text::trimmed(codec));
    let c: &[char] = text::head(
        name.as_slice(),
        text::position_from(name.as_slice(), '.', 0),
    );
    text::starts_with(c, "avc1") || text::starts_with(c, "avc3") || text::is_text(c, "h264")
        || text::starts_with(c, "hev1") || text::starts_with(c, "hvc1") || text::is_text(c, "h265")
        || text::is_text(c, "hevc") || text::starts_with(c, "av01") || text::is_text(c, "av1")
        || text::is_text(c, "vp8") || text::is_text(c, "vp9") || text::starts_with(c, "vp09")
        || text::starts_with(c, "vp08") || text::starts_with(c, "mp4a") || text::is_text(c, "aac")
        || text::is_text(c, "opus") || text::is_text(c, "vorbis") || text::is_text(c, "flac")
        || text::is_text(c, "mp3")
}

fn parameter_value<'a>(parameter: &'a [char]) -> (r: Option<&'a [char]>)
    ensures
        match r {
            None => codecs_value(parameter@) is None,
            Some(v) => codecs_value(parameter@) == Some(v@),
        },
{
    proof {
        reveal_strlit("codecs");
    }
    let p: &'a [char] = text::trimmed(parameter);
    let rest: &'a [char] = match text::strip_prefix(p, "codecs") {
        None => {
            return None;
        },
        Some(rest) => text::trimmed_start(rest),
    };
    if rest.len() == 0 || rest[0] != '=' {
        return None;
    }
    let value: &'a [char] = text::trimmed(text::tail(rest, 1));
    Some(text::trimmed_char(text::trimmed_char(value, '"'), '\''))
}

/// Whether a list of codecs names any, and whether all that it names can be
/// decoded.
fn check_codecs(value: &[char]) -> (r: (bool, bool))
    ensures
        r.0 == lists_some(value@),
        r.1 == lists_only_known(value@),
{
    let names: Vec<&[char]> = text::split_at(value, ',');
    let ghost parts = text::split(value@, ',');
    let mut any: bool = false;
    let mut all: bool = true;
    let mut i: usize = 0;
    while i < names.len()
        invariant
            i <= names@.len(),
            parts == text::split(value@, ','),
            parts == text::views(names@),
            any ==> lists_some(value@),
            !any ==> forall|k: int| 0 <= k < i ==> text::trim(#[trigger] parts[k]).len() == 0,
            !all ==> !lists_only_known(value@),
            all ==> forall|k: int|
                0 <= k < i && text::trim(#[trigger] parts[k]).len() > 0 ==> known_codec(parts[k]),
        decreases names@.len() - i,
    {
        let name: &[char] = names[i];
        assert(parts[i as int] == name@);
        if text::trimmed(name).len() > 0 {
            any = true;
            if !codec_supported(name) {
                all = false;
            }
        }
        i = i + 1;
    }
    (any, all)
}

/// Splits a content type: its MIME type in lower case, and whether all listed
/// codecs can be decoded, if there is a list.
fn split_type(content_type: &[char]) -> (r: (Vec<char>, Option<bool>))
    ensures
        r.0@ == mime_of(content_type@),
        match r.1 {
            None => codecs_of(content_type@) is None,
            Some(all) => codecs_of(content_type@) matches Some(list) && all == lists_only_known(
                list,
            ),
        },
{
    let pieces: Vec<&[char]> = text::split_at(content_type, ';');
    let ghost parts = text::split(content_type@, ';');
    assert(parts[0] == pieces@[0]@);
    let mime: Vec<char> = text::lowercase(text::trimmed(pieces[0]));
    let mut codecs: Option<bool> = None;
    let mut i: usize = 1;
    while i < pieces.len()
        invariant
            1 <= i <= pieces@.len(),
            parts == text::split(content_type@, ';'),
            parts == text::views(pieces@),
            match codecs {
                None => codecs_among(parts, i as int) is None,
                Some(all) => codecs_among(parts, i as int) matches Some(list) && all
                    == lists_only_known(list),
            },
        decreases pieces@.len() - i,
    {
        let piece: &[char] = pieces[i];
        assert(parts[i as int] == piece@);
        if let Some(value) = parameter_value(piece) {
            let (any, all): (bool, bool) = check_codecs(value);
            if any {
                codecs = Some(all);
            }
        }
        i = i + 1;
    }
    (mime, codecs)
}

/// Implements `HTMLMediaElement.canPlayType(type)`.
pub fn can_play_type(content_type: &str) -> (r: Support)
    ensures
        r == support_for(content_type@),
{
    let all: Vec<char> = text::chars_of(content_type);
    let ct: &[char] = text::trimmed(all.as_slice());
    if ct.len() == 0 {
        return Support::No;
    }
    let (mime, codecs): (Vec<char>, Option<bool>) = split_type(ct);
    if !container_supported(mime.as_slice()) {
        return Support::No;
    }
    match codecs {
        None => Support::Maybe,
        Some(known) => if known {
            Support::Probably
        } else {
            Support::No
        },
    }
}

/// Implements `MediaSource.isTypeSupported(type)`.
pub fn mse_is_type_supported(content_type: &str) -> (r: bool)
    ensures
        r == mse_support_for(content_type@),
{
    let all: Vec<char> = text::chars_of(content_type);
    let (mime, codecs): (Vec<char>, Option<bool>) = split_type(text::trimmed(all.as_slice()));
    if !mse_container_supported(mime.as_slice()) {
        return false;
    }
    match codecs {
        None => true,
        Some(known) => known,
    }
}

/// A media source supports nothing that an element would refuse to play.
pub proof fn media_sources_are_stricter(content_type: Seq<char>)
    requires
        mse_support_for(content_type),
        text::trim(content_type).len() > 0,
    ensures
        support_for(content_type) != Support::No,
{
}

/// The answer is "maybe" only where no codecs are listed, and "probably" only
/// where they are and all can be decoded.
pub proof fn answers_reflect_codecs(content_type: Seq<char>)
    ensures
        support_for(content_type) == Support::Maybe ==> codecs_of(text::trim(content_type)) is None,
        support_for(content_type) == Support::Probably ==> codecs_of(
            text::trim(content_type),
        ) is Some && lists_only_known(codecs_of(text::trim(content_type))->0),
{
}

/// The profile of a codec, behind the first point, does not matter.
pub proof fn profiles_do_not_matter(family: Seq<char>, profile: Seq<char>)
    requires
        family.len() > 0,
        profile.len() > 0,
        forall|i: int| 0 <= i < family.len() ==> #[trigger] family[i] != '.' && !text::is_white(
            family[i],
        ),
        forall|i: int| 0 <= i < profile.len() ==> !text::is_white(#[trigger] profile[i]),
    ensures
        known_codec(family + (seq!['.'] + profile)) == known_codec(family),
{
    let long = family + (seq!['.'] + profile);
    assert(!text::is_white(family[0]) && !text::is_white(family.last()));
    assert(!text::is_white(profile.last()));
    assert(long[0] == family[0] && long.last() == profile.last());
    assert(text::trim(long) == long);
    assert(text::trim(family) == family);
    let low = text::lowered(long);
    let name = text::lowered(family);
    assert forall|i: int| 0 <= i < family.len() implies #[trigger] low[i] != '.' && name[i]
        != '.' by {
        assert(long[i] == family[i]);
    }
    assert(long[family.len() as int] == '.');
    assert(low[family.len() as int] == '.');
    text::written::found_at(low, '.', 0, family.len() as int);
    text::written::not_found(name, '.', 0);
    assert(low.take(family.len() as int) =~= name);
    assert(name.take(name.len() as int) =~= name);
}

/// What can be streamed through a media source is video or audio in MP4 or WebM.
pub proof fn media_sources_take_two_containers(content_type: Seq<char>)
    requires
        mse_support_for(content_type),
    ensures
        ({
            let mime = mime_of(text::trim(content_type));
            ||| mime == "video/mp4"@
            ||| mime == "audio/mp4"@
            ||| mime == "video/webm"@
            ||| mime == "audio/webm"@
        }),
{
}

/// Containers are known by these names and no others: WebM and MP4 for pictures and
/// sound, FLAC, Ogg, MPEG audio, AAC and WAV.
pub proof fn containers_are_known_by_name(mime: Seq<char>)
    ensures
        known_container(mime) <==> seq![
            "video/webm"@,
            "audio/webm"@,
            "video/mp4"@,
            "audio/mp4"@,
            "audio/flac"@,
            "audio/x-flac"@,
            "audio/ogg"@,
            "video/ogg"@,
            "application/ogg"@,
            "audio/mpeg"@,
            "audio/mp3"@,
            "audio/aac"@,
            "audio/wav"@,
            "audio/x-wav"@,
        ].contains(mime),
{
    let all = seq![
        "video/webm"@,
        "audio/webm"@,
        "video/mp4"@,
        "audio/mp4"@,
        "audio/flac"@,
        "audio/x-flac"@,
        "audio/ogg"@,
        "video/ogg"@,
        "application/ogg"@,
        "audio/mpeg"@,
        "audio/mp3"@,
        "audio/aac"@,
        "audio/wav"@,
        "audio/x-wav"@,
    ];
    assert(all[0] == "video/webm"@ && all[1] == "audio/webm"@ && all[2] == "video/mp4"@);
    assert(all[3] == "audio/mp4"@ && all[4] == "audio/flac"@ && all[5] == "audio/x-flac"@);
    assert(all[6] == "audio/ogg"@ && all[7] == "video/ogg"@ && all[8] == "application/ogg"@);
    assert(all[9] == "audio/mpeg"@ && all[10] == "audio/mp3"@ && all[11] == "audio/aac"@);
    assert(all[12] == "audio/wav"@ && all[13] == "audio/x-wav"@);
}

/// Names of codecs are compared without regard to case and to white space around them.
pub proof fn codec_names_have_no_case(codec: Seq<char>)
    requires
        codec.len() > 0,
        !text::is_white(codec[0]),
        !text::is_white(codec.last()),
    ensures
        known_codec(text::uppered(codec)) == known_codec(codec),
        known_codec(text::lowered(codec)) == known_codec(codec),
        known_codec(seq![' '] + codec + seq![' ']) == known_codec(codec),
{
    let upper = text::uppered(codec);
    let lower = text::lowered(codec);
    text::case_is_ignored(codec, 0);
    assert(!text::is_white(upper[0]) && !text::is_white(upper.last()));
    assert(!text::is_white(lower[0]) && !text::is_white(lower.last()));
    assert(text::trim(upper) == upper && text::trim(lower) == lower && text::trim(codec) == codec);
    let blank = seq![' '];
    assert(text::is_white(' '));
    assert forall|i: int| 0 <= i < blank.len() implies text::is_white(#[trigger] blank[i]) by {}
    text::white_space_is_trimmed(blank, codec, blank);
}

/// Codecs are known by their own name, or by a family whose sample entries begin with four
/// letters: H.264, H.265, AV1, VP8 and VP9 for pictures, AAC, Opus, Vorbis, FLAC and MP3 for
/// sound. No others are.
pub proof fn codecs_are_known_by_name(name: Seq<char>)
    requires
        listed::can_be_codec(name),
        text::lowered(name) == name,
        forall|i: int| 0 <= i < name.len() ==> #[trigger] name[i] != '.',
    ensures
        known_codec(name) <==> {
            ||| seq![
                "h264"@,
                "h265"@,
                "hevc"@,
                "av1"@,
                "vp8"@,
                "vp9"@,
                "aac"@,
                "opus"@,
                "vorbis"@,
                "flac"@,
                "mp3"@,
            ].contains(name)
            ||| name.len() >= 4 && seq![
                "avc1"@,
                "avc3"@,
                "hev1"@,
                "hvc1"@,
                "av01"@,
                "vp08"@,
                "vp09"@,
                "mp4a"@,
            ].contains(name.take(4))
        },
{
    reveal_strlit("avc1");
    reveal_strlit("avc3");
    reveal_strlit("hev1");
    reveal_strlit("hvc1");
    reveal_strlit("av01");
    reveal_strlit("vp08");
    reveal_strlit("vp09");
    reveal_strlit("mp4a");
    assert(listed::is_name_char(name[0]) && listed::is_name_char(name.last()));
    assert(text::trim(name) == name);
    text::written::not_found(name, '.', 0);
    assert(name.take(name.len() as int) =~= name);
    let own = seq![
        "h264"@,
        "h265"@,
        "hevc"@,
        "av1"@,
        "vp8"@,
        "vp9"@,
        "aac"@,
        "opus"@,
        "vorbis"@,
        "flac"@,
        "mp3"@,
    ];
    assert(own[0] == "h264"@ && own[1] == "h265"@ && own[2] == "hevc"@ && own[3] == "av1"@);
    assert(own[4] == "vp8"@ && own[5] == "vp9"@ && own[6] == "aac"@ && own[7] == "opus"@);
    assert(own[8] == "vorbis"@ && own[9] == "flac"@ && own[10] == "mp3"@);
    let entries = seq![
        "avc1"@,
        "avc3"@,
        "hev1"@,
        "hvc1"@,
        "av01"@,
        "vp08"@,
        "vp09"@,
        "mp4a"@,
    ];
    assert(entries[0] == "avc1"@ && entries[1] == "avc3"@ && entries[2] == "hev1"@);
    assert(entries[3] == "hvc1"@ && entries[4] == "av01"@ && entries[5] == "vp08"@);
    assert(entries[6] == "vp09"@ && entries[7] == "mp4a"@);
}

} // verus!
