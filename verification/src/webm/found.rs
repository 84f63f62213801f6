//! What is found in a stream, element by element.
use vstd::prelude::*;

use crate::webm::{
    self, block_frames, DemuxView, HeaderView, SegmentState, TrackType, TrackView,
};

verus! {

/// A block as it is written: the number of its track, the time, the flags and the
/// payload.
pub open spec fn written_block(
    track: int,
    n: int,
    time: int,
    key: bool,
    other_flags: u8,
    payload: Seq<u8>,
) -> Seq<u8> {
    let t = time % 0x1_0000;
    crate::ebml::written_size(track, n) + (seq![
        (t / 0x100) as u8,
        (t % 0x100) as u8,
        (other_flags + if key {
            128int
        } else {
            0
        }) as u8,
    ] + payload)
}

/// A block without lacing that was written is one frame, of its track, at its time
/// behind that of the cluster, with its payload. It is a key frame if it is a simple
/// block that is marked as one.
pub proof fn written_blocks_are_read(
    track: int,
    n: int,
    time: int,
    key: bool,
    other_flags: u8,
    payload: Seq<u8>,
    cluster: int,
    simple: bool,
    scale_ns: u64,
)
    requires
        1 <= n <= 8,
        0 <= track,
        track + 1 < crate::bytes::power_128(n as nat),
        -0x8000 <= time < 0x8000,
        other_flags < 128,
        (other_flags / 2) % 4 == 0,
        0 <= cluster,
        cluster < 0x7FFF_FFFF_FFFF_0000,
    ensures
        ({
            let frames = block_frames(
                written_block(track, n, time, key, other_flags, payload),
                cluster,
                simple,
                scale_ns,
            );
            &&& frames.len() == 1
            &&& frames[0].track_number == track
            &&& frames[0].timestamp.units == cluster + time
            &&& frames[0].timestamp.scale_ns == scale_ns
            &&& frames[0].keyframe == (simple && key)
            &&& frames[0].data == payload
        }),
{
    let t = time % 0x1_0000;
    let tail = seq![
        (t / 0x100) as u8,
        (t % 0x100) as u8,
        (other_flags + if key {
            128int
        } else {
            0
        }) as u8,
    ] + payload;
    let block = written_block(track, n, time, key, other_flags, payload);
    crate::ebml::written_sizes_are_read(track, n, tail);
    assert(block == crate::ebml::written_size(track, n) + tail);
    let flags = block[n + 2];
    assert(block[n] == t / 0x100 && block[n + 1] == t % 0x100);
    assert(flags == other_flags + if key {
        128int
    } else {
        0
    });
    assert((flags as int / 2) % 4 == 0);
    assert(webm::signed_16(block[n], block[n + 1]) == time);
    assert(block.skip(n + 3) =~= payload);
    assert(webm::wrapped_i64(cluster + time) == cluster + time);
    assert(webm::laced_frames(payload, 0) == seq![payload]);
}

/// A list that begins with another.
pub open spec fn begins_with<T>(all: Seq<T>, first: Seq<T>) -> bool {
    first.len() <= all.len() && all.take(first.len() as int) == first
}

proof fn begins_with_itself<T>(a: Seq<T>)
    ensures
        begins_with(a, a),
{
    assert(a.take(a.len() as int) =~= a);
}

proof fn appending_keeps_the_beginning<T>(a: Seq<T>, b: Seq<T>, c: Seq<T>)
    requires
        begins_with(b, a),
    ensures
        begins_with(b + c, a),
{
    assert((b + c).take(a.len() as int) =~= b.take(a.len() as int));
}

/// Frames of a cluster that have been found stay, in their order, and those that are
/// found later come behind them.
pub proof fn frames_of_a_cluster_stay(
    buf: Seq<u8>,
    kids: Seq<HeaderView>,
    m: int,
    n: int,
    scale_ns: u64,
)
    requires
        0 <= m <= n <= kids.len(),
    ensures
        begins_with(
            webm::cluster_after(buf, kids, n, scale_ns).frames,
            webm::cluster_after(buf, kids, m, scale_ns).frames,
        ),
    decreases n - m,
{
    let first = webm::cluster_after(buf, kids, m, scale_ns).frames;
    if m == n {
        begins_with_itself(first);
    } else {
        frames_of_a_cluster_stay(buf, kids, m, n - 1, scale_ns);
        let before = webm::cluster_after(buf, kids, n - 1, scale_ns);
        let h = kids[n - 1];
        let inner = webm::children_of(buf, h.start, h.end);
        appending_keeps_the_beginning(
            first,
            before.frames,
            block_frames(buf.subrange(h.start, h.end), before.ts, true, scale_ns),
        );
        appending_keeps_the_beginning(
            first,
            before.frames,
            webm::group_after(buf, inner, inner.len() as int, before.ts, scale_ns),
        );
    }
}

/// The time of a cluster, its simple blocks and its groups of blocks have elements of
/// their own; a time holds for the blocks behind it, and a block adds its frames at
/// that time. Other elements change nothing.
pub proof fn clusters_are_read_element_by_element(
    buf: Seq<u8>,
    kids: Seq<HeaderView>,
    n: int,
    scale_ns: u64,
)
    requires
        0 < n <= kids.len(),
    ensures
        ({
            let before = webm::cluster_after(buf, kids, n - 1, scale_ns);
            let after = webm::cluster_after(buf, kids, n, scale_ns);
            let h = kids[n - 1];
            &&& h.id == 0xE7 ==> after.frames == before.frames && after.ts == webm::wrapped_i64(
                webm::uint_at(buf, h),
            )
            &&& h.id == 0xA3 ==> after.ts == before.ts && after.frames == before.frames
                + block_frames(buf.subrange(h.start, h.end), before.ts, true, scale_ns)
            &&& h.id != 0xE7 ==> after.ts == before.ts
            &&& h.id != 0xA3 && h.id != 0xA0 ==> after.frames == before.frames
        }),
{
}

/// A block in a group is found at the time of its cluster, and is no key frame.
pub proof fn grouped_blocks_are_no_key_frames(
    buf: Seq<u8>,
    kids: Seq<HeaderView>,
    n: int,
    cluster: int,
    scale_ns: u64,
    k: int,
)
    requires
        0 <= n <= kids.len(),
        0 <= k < webm::group_after(buf, kids, n, cluster, scale_ns).len(),
    ensures
        !webm::group_after(buf, kids, n, cluster, scale_ns)[k].keyframe,
        webm::group_after(buf, kids, n, cluster, scale_ns)[k].timestamp.scale_ns == scale_ns,
        n > 0 && kids[n - 1].id == 0xA1 ==> webm::group_after(buf, kids, n, cluster, scale_ns)
            == webm::group_after(buf, kids, n - 1, cluster, scale_ns) + block_frames(
            buf.subrange(kids[n - 1].start, kids[n - 1].end),
            cluster,
            false,
            scale_ns,
        ),
    decreases n,
{
    let before = webm::group_after(buf, kids, n - 1, cluster, scale_ns);
    if n > 0 && k < before.len() {
        grouped_blocks_are_no_key_frames(buf, kids, n - 1, cluster, scale_ns, k);
    }
}

/// How many of the elements are track entries.
pub open spec fn entries(kids: Seq<HeaderView>, n: int) -> int
    decreases n,
{
    if n <= 0 {
        0
    } else {
        entries(kids, n - 1) + if kids[n - 1].id == 0xAE {
            1int
        } else {
            0
        }
    }
}

/// Each entry of the track table is a track, in the same order.
pub proof fn entries_are_tracks(buf: Seq<u8>, kids: Seq<HeaderView>, i: int, n: int)
    requires
        0 <= i < n <= kids.len(),
        kids[i].id == 0xAE,
    ensures
        webm::tracks_after(buf, kids, n).len() == entries(kids, n),
        0 <= entries(kids, i) < entries(kids, n),
        webm::tracks_after(buf, kids, n)[entries(kids, i)] == webm::track_at(buf, kids[i]),
    decreases n,
{
    tracks_are_counted(buf, kids, n - 1);
    tracks_are_counted(buf, kids, i);
    if i < n - 1 {
        entries_are_tracks(buf, kids, i, n - 1);
    }
}

proof fn tracks_are_counted(buf: Seq<u8>, kids: Seq<HeaderView>, n: int)
    requires
        0 <= n <= kids.len(),
    ensures
        webm::tracks_after(buf, kids, n).len() == entries(kids, n),
    decreases n,
{
    if n > 0 {
        tracks_are_counted(buf, kids, n - 1);
    }
}

/// An element of a track entry sets what it is there for and leaves the rest alone.
pub proof fn track_elements_set_their_field(buf: Seq<u8>, kids: Seq<HeaderView>, n: int)
    requires
        0 < n <= kids.len(),
    ensures
        ({
            let before = webm::track_after(buf, kids, n - 1);
            let after = webm::track_after(buf, kids, n);
            let h = kids[n - 1];
            &&& h.id == 0xD7 ==> after == TrackView { number: webm::uint_at(buf, h), ..before }
            &&& h.id == 0x83 ==> after.track_type == Some(
                TrackType::of(webm::uint_at(buf, h) % 0x100),
            ) && after == TrackView { track_type: after.track_type, ..before }
            &&& h.id == 0x86 ==> after == TrackView { codec_id: after.codec_id, ..before }
            &&& h.id == 0xE0 ==> after == TrackView {
                pixel_width: after.pixel_width,
                pixel_height: after.pixel_height,
                ..before
            }
            &&& h.id == 0xE1 ==> after == TrackView {
                sampling_frequency: after.sampling_frequency,
                channels: after.channels,
                ..before
            }
            &&& h.id != 0xD7 && h.id != 0x83 && h.id != 0x86 && h.id != 0xE0 && h.id != 0xE1
                ==> after == before
        }),
{
    let h = kids[n - 1];
    let before = webm::track_after(buf, kids, n - 1);
    let inner = webm::children_of(buf, h.start, h.end);
    video_keeps_the_rest(buf, before, inner, inner.len() as int);
    audio_keeps_the_rest(buf, before, inner, inner.len() as int);
}

proof fn video_keeps_the_rest(buf: Seq<u8>, t: TrackView, kids: Seq<HeaderView>, n: int)
    requires
        0 <= n <= kids.len(),
    ensures
        webm::video_after(buf, t, kids, n) == (TrackView {
            pixel_width: webm::video_after(buf, t, kids, n).pixel_width,
            pixel_height: webm::video_after(buf, t, kids, n).pixel_height,
            ..t
        }),
    decreases n,
{
    if n > 0 {
        video_keeps_the_rest(buf, t, kids, n - 1);
    }
}

proof fn audio_keeps_the_rest(buf: Seq<u8>, t: TrackView, kids: Seq<HeaderView>, n: int)
    requires
        0 <= n <= kids.len(),
    ensures
        webm::audio_after(buf, t, kids, n) == (TrackView {
            sampling_frequency: webm::audio_after(buf, t, kids, n).sampling_frequency,
            channels: webm::audio_after(buf, t, kids, n).channels,
            ..t
        }),
    decreases n,
{
    if n > 0 {
        audio_keeps_the_rest(buf, t, kids, n - 1);
    }
}

/// The last width and the last height among the video settings count, and of the audio
/// settings the last rate and the last number of channels.
pub proof fn last_settings_count(
    buf: Seq<u8>,
    t: TrackView,
    kids: Seq<HeaderView>,
    i: int,
    n: int,
)
    requires
        0 <= i < n <= kids.len(),
        forall|k: int| i < k < n ==> (#[trigger] kids[k]).id != kids[i].id,
        webm::uint_at(buf, kids[i]) < 0x1_0000_0000,
        0 <= webm::uint_at(buf, kids[i]),
    ensures
        kids[i].id == 0xB0 ==> webm::video_after(buf, t, kids, n).pixel_width == webm::uint_at(
            buf,
            kids[i],
        ),
        kids[i].id == 0xBA ==> webm::video_after(buf, t, kids, n).pixel_height == webm::uint_at(
            buf,
            kids[i],
        ),
        kids[i].id == 0x9F ==> webm::audio_after(buf, t, kids, n).channels == webm::uint_at(
            buf,
            kids[i],
        ),
        kids[i].id == 0xB5 ==> webm::audio_after(buf, t, kids, n).sampling_frequency
            == webm::real_at(buf, kids[i]),
    decreases n,
{
    if i < n - 1 {
        assert(kids[n - 1].id != kids[i].id);
        last_settings_count(buf, t, kids, i, n - 1);
    }
}

/// Tracks and frames that have been found in a segment stay, in their order.
pub proof fn tracks_and_frames_stay(
    buf: Seq<u8>,
    found: DemuxView,
    kids: Seq<HeaderView>,
    m: int,
    n: int,
)
    requires
        0 <= m <= n <= kids.len(),
    ensures
        begins_with(
            webm::segment_after(buf, found, kids, n).found.tracks,
            webm::segment_after(buf, found, kids, m).found.tracks,
        ),
        begins_with(
            webm::segment_after(buf, found, kids, n).found.frames,
            webm::segment_after(buf, found, kids, m).found.frames,
        ),
    decreases n - m,
{
    let first = webm::segment_after(buf, found, kids, m).found;
    if m == n {
        begins_with_itself(first.tracks);
        begins_with_itself(first.frames);
    } else {
        tracks_and_frames_stay(buf, found, kids, m, n - 1);
        let before = webm::segment_after(buf, found, kids, n - 1);
        let h = kids[n - 1];
        let inner = webm::children_of(buf, h.start, h.end);
        information_keeps_tracks_and_frames(buf, before, inner, inner.len() as int);
        appending_keeps_the_beginning(
            first.tracks,
            before.found.tracks,
            webm::tracks_after(buf, inner, inner.len() as int),
        );
        appending_keeps_the_beginning(
            first.frames,
            before.found.frames,
            webm::cluster_frames(buf, h, before.found.timestamp_scale_ns as u64),
        );
    }
}

proof fn information_keeps_tracks_and_frames(
    buf: Seq<u8>,
    st: SegmentState,
    kids: Seq<HeaderView>,
    n: int,
)
    requires
        0 <= n <= kids.len(),
    ensures
        webm::info_after(buf, st, kids, n).found.tracks == st.found.tracks,
        webm::info_after(buf, st, kids, n).found.frames == st.found.frames,
        webm::info_after(buf, st, kids, n).found.duration == st.found.duration,
    decreases n,
{
    if n > 0 {
        information_keeps_tracks_and_frames(buf, st, kids, n - 1);
    }
}

/// The elements of a segment: information, a track table and clusters. A table adds its
/// tracks, a cluster its frames, in the time unit known so far; others add nothing.
pub proof fn segments_are_read_element_by_element(
    buf: Seq<u8>,
    found: DemuxView,
    kids: Seq<HeaderView>,
    n: int,
)
    requires
        0 < n <= kids.len(),
    ensures
        ({
            let before = webm::segment_after(buf, found, kids, n - 1);
            let after = webm::segment_after(buf, found, kids, n);
            let h = kids[n - 1];
            let inner = webm::children_of(buf, h.start, h.end);
            &&& h.id == 0x1654_AE6B ==> after.found.tracks == before.found.tracks
                + webm::tracks_after(buf, inner, inner.len() as int)
            &&& h.id == 0x1F43_B675 ==> after.found.frames == before.found.frames
                + webm::cluster_frames(buf, h, before.found.timestamp_scale_ns as u64)
            &&& h.id != 0x1654_AE6B ==> after.found.tracks == before.found.tracks
            &&& h.id != 0x1F43_B675 ==> after.found.frames == before.found.frames
            &&& h.id != 0x1549_A966 ==> after.found.timestamp_scale_ns
                == before.found.timestamp_scale_ns && after.units == before.units
        }),
{
    let h = kids[n - 1];
    let before = webm::segment_after(buf, found, kids, n - 1);
    let inner = webm::children_of(buf, h.start, h.end);
    information_keeps_tracks_and_frames(buf, before, inner, inner.len() as int);
}

/// The last time unit in an information element counts, and is one nanosecond at least;
/// so does the last duration.
pub proof fn last_information_counts(
    buf: Seq<u8>,
    st: SegmentState,
    kids: Seq<HeaderView>,
    i: int,
    n: int,
)
    requires
        0 <= i < n <= kids.len(),
        forall|k: int| i < k < n ==> (#[trigger] kids[k]).id != kids[i].id,
    ensures
        kids[i].id == 0x2AD7_B1 && webm::uint_at(buf, kids[i]) >= 1 ==> webm::info_after(
            buf,
            st,
            kids,
            n,
        ).found.timestamp_scale_ns == webm::uint_at(buf, kids[i]),
        kids[i].id == 0x2AD7_B1 ==> webm::info_after(
            buf,
            st,
            kids,
            n,
        ).found.timestamp_scale_ns >= 1,
        kids[i].id == 0x4489 ==> webm::info_after(buf, st, kids, n).units == webm::real_at(
            buf,
            kids[i],
        ),
    decreases n,
{
    if i < n - 1 {
        assert(kids[n - 1].id != kids[i].id);
        last_information_counts(buf, st, kids, i, n - 1);
    }
}

/// The frames of a track are those with its number, all of them and in their order.
pub proof fn frames_of_a_track_are_its_own(frames: Seq<webm::Frame>, number: u64, n: int)
    requires
        0 <= n <= frames.len(),
    ensures
        webm::track_frames(frames, number, n) == frames.take(n).filter(
            |f: webm::Frame| f.track_number == number,
        ),
    decreases n,
{
    reveal(Seq::filter);
    let own = |f: webm::Frame| f.track_number == number;
    if n > 0 {
        frames_of_a_track_are_its_own(frames, number, n - 1);
        assert(frames.take(n).drop_last() =~= frames.take(n - 1));
        assert(frames.take(n).last() == frames[n - 1]);
        assert(own(frames[n - 1]) == (frames[n - 1].track_number == number));
    }
}

/// No frame is shown later than the last time, which is that of a frame or the start.
pub proof fn nothing_is_shown_later(d: DemuxView, n: int, k: int)
    requires
        0 <= k < n <= d.frames.len(),
    ensures
        d.frames[k].timestamp.nanos() <= webm::last_shown(d, n).nanos(),
        0 <= webm::last_shown(d, n).nanos(),
        webm::last_shown(d, n).units == 0 || exists|j: int|
            0 <= j < n && (#[trigger] d.frames[j]).timestamp == webm::last_shown(d, n),
    decreases n,
{
    if n == 1 {
        let start = webm::last_shown(d, 0);
        assert(start.nanos() == 0) by {
            assert(0 * start.scale_ns == 0);
        }
        assert(webm::last_shown(d, 1) == start || d.frames[0].timestamp == webm::last_shown(d, 1));
    } else {
        nothing_is_shown_later(
            d,
            n - 1,
            if k < n - 1 {
                k
            } else {
                0
            },
        );
        let before = webm::last_shown(d, n - 1);
        let last = webm::last_shown(d, n);
        if last != before {
            assert(d.frames[n - 1].timestamp == last);
        } else if before.units != 0 {
            let j = choose|j: int|
                0 <= j < n - 1 && (#[trigger] d.frames[j]).timestamp == before;
            assert(d.frames[j].timestamp == last);
        }
    }
}

/// Tracks of pictures, of sound and of subtitles are told apart by their number.
pub proof fn track_types_are_told_apart(v: int)
    requires
        0 <= v < 0x100,
    ensures
        (TrackType::of(v) is Video) == (v == 1),
        (TrackType::of(v) is Audio) == (v == 2),
        (TrackType::of(v) is Subtitle) == (v == 17),
{
}

/// A duration is declared if it is positive, in the unit of the segment; a segment that
/// declares none leaves what was declared before.
pub proof fn positive_durations_are_declared(buf: Seq<u8>, found: DemuxView, h: HeaderView)
    ensures
        ({
            let kids = webm::children_of(buf, h.start, h.end);
            let st = webm::segment_after(buf, found, kids, kids.len() as int);
            let after = webm::with_segment(buf, found, h);
            &&& after.tracks == st.found.tracks
            &&& after.frames == st.found.frames
            &&& st.units.positive() ==> (after.duration matches Some(d) && d.units == st.units)
            &&& !st.units.positive() ==> after.duration == st.found.duration
        }),
{
}

} // verus!
