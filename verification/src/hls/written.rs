//! Media playlists that were written are read back.
use vstd::prelude::*;

use crate::hls::{self, MediaState, MediaView, SegmentView};
use crate::text;

verus! {

/// The line that says how long segments are at most.
pub open spec fn target_line(duration: Seq<char>) -> Seq<char> {
    "#EXT-X-TARGETDURATION:"@ + duration
}

/// The line that says which segment is the first.
pub open spec fn sequence_line(n: int) -> Seq<char> {
    "#EXT-X-MEDIA-SEQUENCE:"@ + text::written::digits(n)
}

/// The line that says how long the next segment is.
pub open spec fn duration_line(duration: Seq<char>) -> Seq<char> {
    "#EXTINF:"@ + (duration + seq![','])
}

/// The line that says which bytes the next segment is made of.
pub open spec fn range_line(range: (int, int)) -> Seq<char> {
    "#EXT-X-BYTERANGE:"@ + (text::written::digits(range.0) + (seq!['@'] + text::written::digits(range.1)))
}

/// The lines of a segment.
pub open spec fn segment_lines(segment: SegmentView) -> Seq<Seq<char>> {
    let mark = if segment.discontinuity {
        seq!["#EXT-X-DISCONTINUITY"@]
    } else {
        Seq::empty()
    };
    let range = match segment.byte_range {
        Some(range) => seq![range_line(range)],
        None => Seq::empty(),
    };
    mark + range + seq![duration_line(segment.duration), segment.uri]
}

/// The lines of the first `n` segments.
pub open spec fn lines_of_segments(segments: Seq<SegmentView>, n: int) -> Seq<Seq<char>>
    decreases n,
{
    if n <= 0 {
        Seq::empty()
    } else {
        lines_of_segments(segments, n - 1) + segment_lines(segments[n - 1])
    }
}

/// The lines behind the first one of a media playlist.
pub open spec fn body_of(list: MediaView) -> Seq<Seq<char>> {
    let target = match list.target_duration {
        Some(duration) => seq![target_line(duration)],
        None => Seq::empty(),
    };
    let end = if list.end_list {
        seq!["#EXT-X-ENDLIST"@]
    } else {
        Seq::empty()
    };
    target + seq![sequence_line(list.media_sequence)] + lines_of_segments(
        list.segments,
        list.segments.len() as int,
    ) + end
}

/// A media playlist as it is written.
pub open spec fn written_media(list: MediaView) -> Seq<char> {
    text::written::written_lines(seq!["#EXTM3U"@] + body_of(list))
}

/// A duration that can be written: a number on a line of its own, without commas.
pub open spec fn can_be_duration(s: Seq<char>) -> bool {
    &&& text::written::is_line(s)
    &&& text::is_real(s)
    &&& forall|i: int| 0 <= i < s.len() ==> #[trigger] s[i] != ','
}

/// A segment that can be written: with a duration, an address that is no tag, and
/// numbers of 64 bits.
pub open spec fn can_be_segment(segment: SegmentView) -> bool {
    &&& can_be_duration(segment.duration)
    &&& text::written::is_line(segment.uri)
    &&& segment.uri[0] != '#'
    &&& segment.byte_range matches Some(range) ==> 0 <= range.0 <= u64::MAX && 0 <= range.1
        <= u64::MAX
}

/// A playlist that can be written.
pub open spec fn can_be_media(list: MediaView) -> bool {
    &&& list.target_duration matches Some(duration) ==> can_be_duration(duration)
    &&& 0 <= list.media_sequence <= u64::MAX
    &&& forall|k: int| 0 <= k < list.segments.len() ==> can_be_segment(#[trigger] list.segments[k])
}

proof fn lines_are_kept(lines: Seq<Seq<char>>, n: int)
    requires
        forall|k: int| 0 <= k < lines.len() ==> text::written::is_line(#[trigger] lines[k]),
        0 <= n <= lines.len(),
    ensures
        hls::kept(lines.push(Seq::empty()), n) == lines.take(n),
    decreases n,
{
    if n == 0 {
        assert(lines.take(0) =~= Seq::<Seq<char>>::empty());
    } else {
        lines_are_kept(lines, n - 1);
        assert(text::written::is_line(lines[n - 1]));
        text::written::lines_are_trimmed(lines[n - 1]);
        assert(lines.take(n - 1).push(lines[n - 1]) =~= lines.take(n));
    }
}

/// Lines that were written are read back.
pub proof fn written_lines_are_read(lines: Seq<Seq<char>>)
    requires
        forall|k: int| 0 <= k < lines.len() ==> text::written::is_line(#[trigger] lines[k]),
    ensures
        hls::lines_of(text::written::written_lines(lines)) == lines,
{
    let parts = lines.push(Seq::empty());
    text::written::lines_split_back(lines);
    lines_are_kept(lines, lines.len() as int);
    assert(lines.take(lines.len() as int) =~= lines);
    let blank = Seq::<char>::empty();
    assert(text::trim(blank) =~= blank);
    assert(parts[lines.len() as int] == blank);
}

proof fn other_prefix(s: Seq<char>, p: Seq<char>, k: int)
    requires
        0 <= k < p.len(),
        k < s.len() ==> s[k] != p[k],
    ensures
        !text::has_prefix(s, p),
{
    if text::has_prefix(s, p) {
        assert(s.take(p.len() as int)[k] == s[k]);
    }
}

/// The words that tags start with.
proof fn tags()
    ensures
        "#EXT-X-TARGETDURATION:"@.len() == 22 && "#EXT-X-TARGETDURATION:"@[0] == '#'
            && "#EXT-X-TARGETDURATION:"@[7] == 'T',
        "#EXT-X-MEDIA-SEQUENCE:"@.len() == 22 && "#EXT-X-MEDIA-SEQUENCE:"@[0] == '#'
            && "#EXT-X-MEDIA-SEQUENCE:"@[7] == 'M',
        "#EXTINF:"@.len() == 8 && "#EXTINF:"@[0] == '#' && "#EXTINF:"@[4] == 'I' && "#EXTINF:"@[7]
            == ':',
        "#EXT-X-BYTERANGE:"@.len() == 17 && "#EXT-X-BYTERANGE:"@[0] == '#'
            && "#EXT-X-BYTERANGE:"@[4] == '-' && "#EXT-X-BYTERANGE:"@[7] == 'B',
        "#EXT-X-STREAM-INF"@.len() == 17 && "#EXT-X-STREAM-INF"@[0] == '#'
            && "#EXT-X-STREAM-INF"@[7] == 'S',
        "#ext-x-endlist"@.len() == 14 && "#ext-x-endlist"@[0] == '#' && "#ext-x-endlist"@[7] == 'e',
        "#ext-x-discontinuity"@.len() == 20 && "#ext-x-discontinuity"@[0] == '#'
            && "#ext-x-discontinuity"@[7] == 'd',
{
    reveal_strlit("#EXT-X-TARGETDURATION:");
    reveal_strlit("#EXT-X-MEDIA-SEQUENCE:");
    reveal_strlit("#EXTINF:");
    reveal_strlit("#EXT-X-BYTERANGE:");
    reveal_strlit("#EXT-X-STREAM-INF");
    reveal_strlit("#ext-x-endlist");
    reveal_strlit("#ext-x-discontinuity");
}

/// A line that can be written and describes no variant.
pub open spec fn is_plain_line(s: Seq<char>) -> bool {
    text::written::is_line(s) && !text::has_prefix(s, "#EXT-X-STREAM-INF"@)
}

proof fn target_step(st: MediaState, duration: Seq<char>)
    requires
        can_be_duration(duration),
    ensures
        is_plain_line(target_line(duration)),
        hls::media_step(st, target_line(duration)) == (MediaState {
            list: MediaView { target_duration: Some(duration), ..st.list },
            ..st
        }),
{
    let line = target_line(duration);
    let tag = "#EXT-X-TARGETDURATION:"@;
    tags();
    reveal_strlit("#EXT-X-TARGETDURATION:");
    assert(line.take(22) =~= tag);
    assert(line.skip(22) =~= duration);
    assert(line.last() == duration.last());
    assert forall|i: int| 0 <= i < line.len() implies #[trigger] line[i] != '\n' by {
        if i >= 22 {
            assert(line[i] == duration[i - 22]);
        } else {
            assert(line[i] == tag[i]);
        }
    }
    text::written::lines_are_trimmed(duration);
    other_prefix(line, "#EXT-X-STREAM-INF"@, 7);
}

proof fn sequence_step(st: MediaState, n: int)
    requires
        0 <= n <= u64::MAX,
    ensures
        is_plain_line(sequence_line(n)),
        hls::media_step(st, sequence_line(n)) == (MediaState {
            list: MediaView { media_sequence: n, ..st.list },
            ..st
        }),
{
    let line = sequence_line(n);
    let tag = "#EXT-X-MEDIA-SEQUENCE:"@;
    tags();
    reveal_strlit("#EXT-X-MEDIA-SEQUENCE:");
    text::written::digits_are_read(n);
    text::written::numbers_are_parsed(n);
    assert(line.take(22) =~= tag);
    assert(line.skip(22) =~= text::written::digits(n));
    assert(line.last() == text::written::digits(n).last());
    assert forall|i: int| 0 <= i < line.len() implies #[trigger] line[i] != '\n' by {
        if i >= 22 {
            assert(line[i] == text::written::digits(n)[i - 22]);
        } else {
            assert(line[i] == tag[i]);
        }
    }
    other_prefix(line, "#EXT-X-TARGETDURATION:"@, 7);
    other_prefix(line, "#EXT-X-STREAM-INF"@, 7);
}

proof fn end_step(st: MediaState)
    ensures
        is_plain_line("#EXT-X-ENDLIST"@),
        hls::media_step(st, "#EXT-X-ENDLIST"@) == (MediaState {
            list: MediaView { end_list: true, ..st.list },
            ..st
        }),
{
    let line = "#EXT-X-ENDLIST"@;
    tags();
    reveal_strlit("#EXT-X-ENDLIST");
    reveal_strlit("#ext-x-endlist");
    other_prefix(line, "#EXT-X-TARGETDURATION:"@, 7);
    other_prefix(line, "#EXT-X-MEDIA-SEQUENCE:"@, 7);
    other_prefix(line, "#EXT-X-STREAM-INF"@, 7);
    assert(text::lowered(line) =~= "#ext-x-endlist"@);
}

proof fn discontinuity_step(st: MediaState)
    ensures
        is_plain_line("#EXT-X-DISCONTINUITY"@),
        hls::media_step(st, "#EXT-X-DISCONTINUITY"@) == (MediaState { discontinuity: true, ..st }),
{
    let line = "#EXT-X-DISCONTINUITY"@;
    tags();
    reveal_strlit("#EXT-X-DISCONTINUITY");
    reveal_strlit("#ext-x-discontinuity");
    other_prefix(line, "#EXT-X-TARGETDURATION:"@, 7);
    other_prefix(line, "#EXT-X-MEDIA-SEQUENCE:"@, 7);
    other_prefix(line, "#EXT-X-STREAM-INF"@, 7);
    assert(text::lowered(line).len() == 20);
    assert(text::lowered(line) =~= "#ext-x-discontinuity"@);
}

/// A line that is none of the tags that stand alone.
proof fn no_lone_tag(line: Seq<char>)
    requires
        line.len() > 0,
        line[0] != '#' || line.len() > 7 && line[7] != 'E' && line[7] != 'e' && line[7] != 'D'
            && line[7] != 'd',
    ensures
        text::lowered(line) != "#ext-x-endlist"@,
        text::lowered(line) != "#ext-x-discontinuity"@,
{
    tags();
    let low = text::lowered(line);
    assert(low[0] == text::ascii_lower(line[0]));
    if line.len() > 7 {
        assert(low[7] == text::ascii_lower(line[7]));
    }
}

proof fn duration_step(st: MediaState, duration: Seq<char>)
    requires
        can_be_duration(duration),
    ensures
        is_plain_line(duration_line(duration)),
        hls::media_step(st, duration_line(duration)) == (MediaState {
            duration: Some(duration),
            ..st
        }),
{
    let line = duration_line(duration);
    let tag = "#EXTINF:"@;
    let rest = duration + seq![','];
    tags();
    reveal_strlit("#EXTINF:");
    assert(line.take(8) =~= tag);
    assert(line.skip(8) =~= rest);
    assert(line.last() == ',');
    assert forall|i: int| 0 <= i < line.len() implies #[trigger] line[i] != '\n' by {
        if i >= 8 {
            assert(line[i] == rest[i - 8]);
        } else {
            assert(line[i] == tag[i]);
        }
    }
    assert forall|j: int| 0 <= j < duration.len() implies #[trigger] rest[j] != ',' by {
        assert(rest[j] == duration[j]);
    }
    text::written::found_at(rest, ',', 0, duration.len() as int);
    assert(rest.take(duration.len() as int) =~= duration);
    text::written::lines_are_trimmed(duration);
    other_prefix(line, "#EXT-X-TARGETDURATION:"@, 7);
    other_prefix(line, "#EXT-X-MEDIA-SEQUENCE:"@, 7);
    other_prefix(line, "#EXT-X-STREAM-INF"@, 7);
    no_lone_tag(line);
}

proof fn range_step(st: MediaState, range: (int, int))
    requires
        0 <= range.0 <= u64::MAX,
        0 <= range.1 <= u64::MAX,
    ensures
        is_plain_line(range_line(range)),
        hls::media_step(st, range_line(range)) == (MediaState { byte_range: Some(range), ..st }),
{
    let line = range_line(range);
    let tag = "#EXT-X-BYTERANGE:"@;
    let (a, b) = (text::written::digits(range.0), text::written::digits(range.1));
    let rest = a + (seq!['@'] + b);
    tags();
    reveal_strlit("#EXT-X-BYTERANGE:");
    text::written::digits_are_read(range.0);
    text::written::digits_are_read(range.1);
    text::written::numbers_are_parsed(range.0);
    text::written::numbers_are_parsed(range.1);
    assert(line.take(17) =~= tag);
    assert(line.skip(17) =~= rest);
    assert(line.last() == b.last());
    assert forall|i: int| 0 <= i < line.len() implies #[trigger] line[i] != '\n' by {
        if i < 17 {
            assert(line[i] == tag[i]);
        } else if i - 17 < a.len() {
            assert(line[i] == a[i - 17]);
        } else if i - 17 > a.len() {
            assert(line[i] == b[i - 18 - a.len()]);
        }
    }
    assert forall|j: int| 0 <= j < a.len() implies #[trigger] rest[j] != '@' by {
        assert(rest[j] == a[j]);
    }
    text::written::found_at(rest, '@', 0, a.len() as int);
    assert(rest.take(a.len() as int) =~= a);
    assert(rest.skip(1 + a.len() as int) =~= b);
    other_prefix(line, "#EXT-X-TARGETDURATION:"@, 7);
    other_prefix(line, "#EXT-X-MEDIA-SEQUENCE:"@, 7);
    other_prefix(line, "#EXTINF:"@, 4);
    other_prefix(line, "#EXT-X-STREAM-INF"@, 7);
    no_lone_tag(line);
}

proof fn address_step(st: MediaState, uri: Seq<char>)
    requires
        text::written::is_line(uri),
        uri[0] != '#',
        st.duration is Some,
    ensures
        is_plain_line(uri),
        hls::media_step(st, uri) == (MediaState {
            list: MediaView {
                segments: st.list.segments.push(
                    SegmentView {
                        duration: st.duration->0,
                        uri,
                        byte_range: st.byte_range,
                        discontinuity: st.discontinuity,
                    },
                ),
                ..st.list
            },
            duration: None,
            byte_range: None,
            discontinuity: false,
        }),
{
    tags();
    other_prefix(uri, "#EXT-X-TARGETDURATION:"@, 0);
    other_prefix(uri, "#EXT-X-MEDIA-SEQUENCE:"@, 0);
    other_prefix(uri, "#EXTINF:"@, 0);
    other_prefix(uri, "#EXT-X-BYTERANGE:"@, 0);
    other_prefix(uri, "#EXT-X-STREAM-INF"@, 0);
    no_lone_tag(uri);
}

/// What lines do to a playlist, one after the other.
pub open spec fn media_run(st: MediaState, lines: Seq<Seq<char>>) -> MediaState
    decreases lines.len(),
{
    if lines.len() == 0 {
        st
    } else {
        hls::media_step(media_run(st, lines.drop_last()), lines.last())
    }
}

proof fn media_run_append(st: MediaState, a: Seq<Seq<char>>, b: Seq<Seq<char>>)
    ensures
        media_run(st, a + b) == media_run(media_run(st, a), b),
    decreases b.len(),
{
    if b.len() == 0 {
        assert(a + b =~= a);
    } else {
        media_run_append(st, a, b.drop_last());
        assert((a + b).drop_last() =~= a + b.drop_last());
    }
}

proof fn media_run_one(st: MediaState, line: Seq<char>)
    ensures
        media_run(st, seq![line]) == hls::media_step(st, line),
        media_run(st, Seq::empty()) == st,
{
    assert(seq![line].drop_last() =~= Seq::<Seq<char>>::empty());
    reveal_with_fuel(media_run, 2);
}

proof fn media_after_is_a_run(body: Seq<Seq<char>>, n: int)
    requires
        0 <= n <= body.len(),
    ensures
        hls::media_after(body, n) == media_run(hls::media_after(body, 0), body.take(n)),
    decreases n,
{
    if n == 0 {
        assert(body.take(0) =~= Seq::<Seq<char>>::empty());
    } else {
        media_after_is_a_run(body, n - 1);
        assert(body.take(n).drop_last() =~= body.take(n - 1));
    }
}

/// A playlist with nothing pending.
pub open spec fn at_rest(list: MediaView) -> MediaState {
    MediaState { list, duration: None, byte_range: None, discontinuity: false }
}

pub open spec fn all_plain(lines: Seq<Seq<char>>) -> bool {
    forall|k: int| 0 <= k < lines.len() ==> is_plain_line(#[trigger] lines[k])
}

proof fn segment_run(list: MediaView, segment: SegmentView)
    requires
        can_be_segment(segment),
    ensures
        all_plain(segment_lines(segment)),
        media_run(at_rest(list), segment_lines(segment)) == at_rest(
            MediaView { segments: list.segments.push(segment), ..list },
        ),
{
    let none = Seq::<Seq<char>>::empty();
    let mark = if segment.discontinuity {
        seq!["#EXT-X-DISCONTINUITY"@]
    } else {
        none
    };
    let range = match segment.byte_range {
        Some(range) => seq![range_line(range)],
        None => none,
    };
    let inf = seq![duration_line(segment.duration)];
    let uri = seq![segment.uri];
    let st0 = at_rest(list);
    let st1 = MediaState { discontinuity: segment.discontinuity, ..st0 };
    let st2 = MediaState { byte_range: segment.byte_range, ..st1 };
    let st3 = MediaState { duration: Some(segment.duration), ..st2 };
    discontinuity_step(st0);
    media_run_one(st0, "#EXT-X-DISCONTINUITY"@);
    assert(media_run(st0, mark) == st1);
    if let Some(r) = segment.byte_range {
        range_step(st1, r);
        media_run_one(st1, range_line(r));
    }
    assert(media_run(st1, range) == st2);
    duration_step(st2, segment.duration);
    media_run_one(st2, duration_line(segment.duration));
    address_step(st3, segment.uri);
    media_run_one(st3, segment.uri);
    media_run_append(st0, mark, range);
    media_run_append(st0, mark + range, inf);
    media_run_append(st0, mark + range + inf, uri);
    assert(segment_lines(segment) =~= mark + range + inf + uri);
}

proof fn segments_run(list: MediaView, segments: Seq<SegmentView>, n: int)
    requires
        0 <= n <= segments.len(),
        list.segments.len() == 0,
        forall|k: int| 0 <= k < segments.len() ==> can_be_segment(#[trigger] segments[k]),
    ensures
        all_plain(lines_of_segments(segments, n)),
        media_run(at_rest(list), lines_of_segments(segments, n)) == at_rest(
            MediaView { segments: segments.take(n), ..list },
        ),
    decreases n,
{
    if n == 0 {
        assert(segments.take(0) =~= list.segments);
        media_run_one(at_rest(list), Seq::empty());
    } else {
        segments_run(list, segments, n - 1);
        let before = MediaView { segments: segments.take(n - 1), ..list };
        assert(can_be_segment(segments[n - 1]));
        segment_run(before, segments[n - 1]);
        media_run_append(
            at_rest(list),
            lines_of_segments(segments, n - 1),
            segment_lines(segments[n - 1]),
        );
        assert(segments.take(n - 1).push(segments[n - 1]) =~= segments.take(n));
    }
}

proof fn body_runs(list: MediaView)
    requires
        can_be_media(list),
    ensures
        all_plain(body_of(list)),
        hls::media_of(body_of(list)) == list,
{
    let none = Seq::<Seq<char>>::empty();
    let body = body_of(list);
    let start = hls::media_after(body, 0);
    let target = match list.target_duration {
        Some(duration) => seq![target_line(duration)],
        None => none,
    };
    let sequence = seq![sequence_line(list.media_sequence)];
    let middle = lines_of_segments(list.segments, list.segments.len() as int);
    let end = if list.end_list {
        seq!["#EXT-X-ENDLIST"@]
    } else {
        none
    };
    let l1 = MediaView { target_duration: list.target_duration, ..start.list };
    let l2 = MediaView { media_sequence: list.media_sequence, ..l1 };
    let l3 = MediaView { segments: list.segments, ..l2 };
    assert(start == at_rest(start.list));
    if let Some(duration) = list.target_duration {
        target_step(start, duration);
        media_run_one(start, target_line(duration));
    } else {
        media_run_one(start, "#EXT-X-ENDLIST"@);
    }
    assert(media_run(start, target) == at_rest(l1));
    sequence_step(at_rest(l1), list.media_sequence);
    media_run_one(at_rest(l1), sequence_line(list.media_sequence));
    segments_run(l2, list.segments, list.segments.len() as int);
    assert(list.segments.take(list.segments.len() as int) =~= list.segments);
    end_step(at_rest(l3));
    media_run_one(at_rest(l3), "#EXT-X-ENDLIST"@);
    media_run_append(start, target, sequence);
    media_run_append(start, target + sequence, middle);
    media_run_append(start, target + sequence + middle, end);
    assert(body =~= target + sequence + middle + end);
    media_after_is_a_run(body, body.len() as int);
    assert(body.take(body.len() as int) =~= body);
}

/// A media playlist that was written is read back.
pub proof fn written_playlists_are_read(list: MediaView)
    requires
        can_be_media(list),
    ensures
        ({
            let text = written_media(list);
            let body = hls::lines_of(text).skip(1);
            &&& hls::well_formed(text)
            &&& hls::has_playlist_header(text)
            &&& !hls::is_master(body)
            &&& hls::media_of(body) == list
        }),
{
    let header = "#EXTM3U"@;
    let body = body_of(list);
    let lines = seq![header] + body;
    reveal_strlit("#EXTM3U");
    tags();
    reveal_strlit("#EXT-X-STREAM-INF:");
    reveal_strlit("#EXT-X-STREAM-INF");
    body_runs(list);
    assert forall|k: int| 0 <= k < lines.len() implies text::written::is_line(#[trigger] lines[k]) by {
        if k > 0 {
            assert(is_plain_line(body[k - 1]));
        }
    }
    written_lines_are_read(lines);
    assert(lines.skip(1) =~= body);
    assert(header.take(7) =~= header);
    assert forall|k: int| 0 <= k < lines.len() implies !text::has_prefix(
        #[trigger] lines[k],
        "#EXT-X-STREAM-INF:"@,
    ) by {
        let line = lines[k];
        if k == 0 {
            other_prefix(line, "#EXT-X-STREAM-INF:"@, 7);
        } else {
            assert(is_plain_line(body[k - 1]));
            if text::has_prefix(line, "#EXT-X-STREAM-INF:"@) {
                assert(line.take(17) =~= line.take(18).take(17));
                assert(line.take(17) =~= "#EXT-X-STREAM-INF"@);
            }
        }
    }
}

} // verus!
