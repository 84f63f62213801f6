//! From the bytes of a resource to a picture: demuxes, hands the first frame
//! to the decoder of its codec, and converts it to BGRA.
//!
//! AVC is decoded. Of other codecs only the geometry is known, which is said
//! in a status rather than by a made-up picture.
use vstd::prelude::*;

use crate::color::{yuv420_to_bgra, ColorMatrix};
use crate::h264_driver::{check_picture_size, decode_first_idr, DriverError};
use crate::text;
use crate::webm;
use crate::webm::{demux, RealBits, StreamLength, Timestamp, Track, TrackType, WebmDemux};

verus! {

/// A picture ready to be painted: its pixels row by row, and when it is shown.
#[derive(Debug, Clone)]
pub struct VideoFrame {
    pub width: u32,
    pub height: u32,
    pub bgra: Vec<u32>,
    pub timestamp: Timestamp,
}

/// Why there is no picture.
#[derive(Debug, Clone, PartialEq, Eq)]
pub enum DecodeStatus {
    /// The geometry is known, but no picture can be decoded.
    HeaderOnly { width: u32, height: u32, codec: String },
    /// The resource has no video track.
    Unsupported,
}

/// What is known of a resource without decoding it.
#[derive(Debug, Clone)]
pub struct MediaProbe {
    /// The duration that the resource declares, or else the time of its last frame.
    pub duration: StreamLength,
    pub width: u32,
    pub height: u32,
    pub video_codec: String,
    pub audio_codec: String,
    pub audio_channels: u32,
    pub audio_sample_rate: RealBits,
    pub has_video: bool,
    pub has_audio: bool,
}

#[verifier::ext_equal]
pub struct ProbeView {
    pub duration: StreamLength,
    pub width: int,
    pub height: int,
    pub video_codec: Seq<char>,
    pub audio_codec: Seq<char>,
    pub audio_channels: int,
    pub audio_sample_rate: RealBits,
    pub has_video: bool,
    pub has_audio: bool,
}

impl View for MediaProbe {
    type V = ProbeView;

    open spec fn view(&self) -> ProbeView {
        ProbeView {
            duration: self.duration,
            width: self.width as int,
            height: self.height as int,
            video_codec: self.video_codec@,
            audio_codec: self.audio_codec@,
            audio_channels: self.audio_channels as int,
            audio_sample_rate: self.audio_sample_rate,
            has_video: self.has_video,
            has_audio: self.has_audio,
        }
    }
}

/// A probe that found nothing.
pub open spec fn empty_probe() -> ProbeView {
    ProbeView {
        duration: StreamLength::Last(at_start()),
        width: 0,
        height: 0,
        video_codec: Seq::empty(),
        audio_codec: Seq::empty(),
        audio_channels: 0,
        audio_sample_rate: RealBits::Absent,
        has_video: false,
        has_audio: false,
    }
}

impl Default for MediaProbe {
    fn default() -> (r: Self)
        ensures
            r@ == empty_probe(),
    {
        MediaProbe {
            duration: StreamLength::Last(Timestamp { units: 0, scale_ns: 1_000_000 }),
            width: 0,
            height: 0,
            video_codec: String::new(),
            audio_codec: String::new(),
            audio_channels: 0,
            audio_sample_rate: RealBits::Absent,
            has_video: false,
            has_audio: false,
        }
    }
}

/// The first track of a kind from `i` on.
pub open spec fn first_track(tracks: Seq<webm::TrackView>, kind: TrackType, i: int) -> Option<
    webm::TrackView,
>
    decreases tracks.len() - i,
{
    if i >= tracks.len() {
        None
    } else if tracks[i].track_type == Some(kind) {
        Some(tracks[i])
    } else {
        first_track(tracks, kind, i + 1)
    }
}

proof fn first_track_is_first(tracks: Seq<Track>, kind: TrackType, r: Option<&Track>, i: int)
    requires
        webm::is_first_of_type(tracks, kind, r),
        0 <= i <= tracks.len(),
        forall|j: int| 0 <= j < i ==> (#[trigger] tracks[j]).track_type != Some(kind),
    ensures
        match r {
            None => first_track(webm::track_views(tracks), kind, i) is None,
            Some(t) => first_track(webm::track_views(tracks), kind, i) == Some(t@),
        },
    decreases tracks.len() - i,
{
    if i < tracks.len() {
        assert(webm::track_views(tracks)[i] == tracks[i]@);
        if tracks[i].track_type != Some(kind) {
            first_track_is_first(tracks, kind, r, i + 1);
        }
    }
}

/// The first frame of a track from `i` on; the first key frame if `key` asks
/// for one.
pub open spec fn first_frame(
    frames: Seq<webm::FrameView>,
    number: int,
    key: bool,
    i: int,
) -> Option<webm::FrameView>
    decreases frames.len() - i,
{
    if i >= frames.len() {
        None
    } else if frames[i].track_number == number && (key ==> frames[i].keyframe) {
        Some(frames[i])
    } else {
        first_frame(frames, number, key, i + 1)
    }
}

/// The frame to show first: the first key frame of a track or, where it has
/// none, its first frame.
pub open spec fn poster_frame(frames: Seq<webm::FrameView>, number: int) -> Option<
    webm::FrameView,
> {
    match first_frame(frames, number, true, 0) {
        Some(f) => Some(f),
        None => first_frame(frames, number, false, 0),
    }
}

/// What is known of a demuxed resource.
pub open spec fn probe_of(d: webm::DemuxView) -> ProbeView {
    let p = ProbeView { duration: webm::length_of(d), ..empty_probe() };
    let p = match first_track(d.tracks, TrackType::Video, 0) {
        None => p,
        Some(t) => ProbeView {
            has_video: true,
            width: t.pixel_width,
            height: t.pixel_height,
            video_codec: t.codec_id,
            ..p
        },
    };
    match first_track(d.tracks, TrackType::Audio, 0) {
        None => p,
        Some(t) => ProbeView {
            has_audio: true,
            audio_codec: t.codec_id,
            audio_channels: t.channels,
            audio_sample_rate: t.sampling_frequency,
            ..p
        },
    }
}

/// Learns what it can of a demuxed resource.
pub fn probe(dem: &WebmDemux) -> (r: MediaProbe)
    ensures
        r@ == probe_of(dem@),
{
    let mut p: MediaProbe = MediaProbe::default();
    p.duration = dem.length();
    let video: Option<&Track> = dem.first_video_track();
    let audio: Option<&Track> = dem.first_audio_track();
    proof {
        first_track_is_first(dem.tracks@, TrackType::Video, video, 0);
        first_track_is_first(dem.tracks@, TrackType::Audio, audio, 0);
    }
    if let Some(v) = video {
        p.has_video = true;
        p.width = v.pixel_width;
        p.height = v.pixel_height;
        p.video_codec = v.codec_id.clone();
    }
    if let Some(a) = audio {
        p.has_audio = true;
        p.audio_codec = a.codec_id.clone();
        p.audio_channels = a.channels;
        p.audio_sample_rate = a.sampling_frequency;
    }
    p
}

/// Learns what it can of a WebM stream.
pub fn probe_webm(bytes: &[u8]) -> (r: MediaProbe)
    ensures
        r@ == probe_of(webm::demux_of(bytes@)),
{
    let dem: WebmDemux = demux(bytes);
    probe(&dem)
}

/// The start of a resource.
pub open spec fn at_start() -> Timestamp {
    Timestamp { units: 0, scale_ns: 1_000_000 }
}

/// The frame shows the decoded picture of a stream.
pub open spec fn shows(f: VideoFrame, annexb: Seq<u8>, timestamp: Timestamp) -> bool {
    let sps = crate::h264_driver::stream_sps(annexb)->0;
    &&& f.width == sps.width
    &&& f.height == sps.height
    &&& f.bgra@ == Seq::new(
        (sps.width * sps.height) as nat,
        |i: int| crate::color::pixel(128, 128, 128, ColorMatrix::Bt709) as u32,
    )
    &&& f.timestamp == timestamp
}

/// Decodes the first picture of an H.264 stream with start codes.
pub fn decode_h264_first_frame(annexb: &[u8]) -> (r: Result<VideoFrame, DriverError>)
    requires
        crate::h264_driver::picture_fits(annexb@),
    ensures
        r is Err <==> crate::h264_driver::refusal(annexb@) is Some,
        r is Err ==> r->Err_0 == crate::h264_driver::refusal(annexb@)->0,
        r is Ok ==> shows(r->Ok_0, annexb@, at_start()),
{
    match decode_first_idr(annexb) {
        Err(e) => Err(e),
        Ok(d) => Ok(
            VideoFrame {
                width: d.width,
                height: d.height,
                bgra: d.bgra,
                timestamp: Timestamp { units: 0, scale_ns: 1_000_000 },
            },
        ),
    }
}

/// A buffer that starts with a start code.
pub open spec fn starts_with_code(data: Seq<u8>) -> bool {
    data.len() >= 4 && data[0] == 0 && data[1] == 0 && (data[2] == 1 || data[2] == 0 && data[3]
        == 1)
}

/// The units from `i` on, each behind its length in four bytes, most significant
/// first. None of them is empty. Up to three bytes behind the last are ignored.
pub open spec fn prefixed_units(data: Seq<u8>, i: int) -> Option<Seq<Seq<u8>>>
    decreases data.len() - i,
    when 0 <= i
    via prefixed_units_decreases
{
    let len = crate::bytes::be_value(data, i, 4);
    if i + 4 > data.len() {
        Some(Seq::empty())
    } else if len == 0 || i + 4 + len > data.len() {
        None
    } else {
        match prefixed_units(data, i + 4 + len) {
            None => None,
            Some(rest) => Some(seq![data.subrange(i + 4, i + 4 + len)] + rest),
        }
    }
}

#[via_fn]
proof fn prefixed_units_decreases(data: Seq<u8>, i: int) {
    if i + 4 <= data.len() {
        crate::bytes::be_value_spelled_out(data, i);
    }
}

/// The units, each behind a start code.
pub open spec fn framed(units: Seq<Seq<u8>>) -> Seq<u8>
    decreases units.len(),
{
    if units.len() == 0 {
        Seq::empty()
    } else {
        seq![0u8, 0u8, 0u8, 1u8] + units[0] + framed(units.skip(1))
    }
}

/// The units of a payload behind start codes instead of lengths. A payload that
/// has start codes already, or is not made of units with lengths, stays as it is.
pub open spec fn annexb_of(data: Seq<u8>) -> Seq<u8> {
    if starts_with_code(data) {
        data
    } else {
        match prefixed_units(data, 0) {
            None => data,
            Some(units) => if units.len() == 0 {
                data
            } else {
                framed(units)
            },
        }
    }
}

proof fn framed_push(units: Seq<Seq<u8>>, u: Seq<u8>)
    ensures
        framed(units.push(u)) == framed(units) + (seq![0u8, 0u8, 0u8, 1u8] + u),
    decreases units.len(),
{
    let code = seq![0u8, 0u8, 0u8, 1u8];
    if units.len() == 0 {
        assert(framed(units.push(u).skip(1)) =~= Seq::<u8>::empty());
        assert(code + u + Seq::<u8>::empty() =~= Seq::<u8>::empty() + (code + u));
    } else {
        assert(units.push(u).skip(1) =~= units.skip(1).push(u));
        framed_push(units.skip(1), u);
        assert(code + units[0] + (framed(units.skip(1)) + (code + u)) =~= code + units[0] + framed(
            units.skip(1),
        ) + (code + u));
    }
}

/// Puts the units of a payload behind start codes.
pub fn to_annexb(data: &[u8]) -> (r: Vec<u8>)
    ensures
        r@ == annexb_of(data@),
{
    if data.len() >= 4 && data[0] == 0 && data[1] == 0 && (data[2] == 1 || data[2] == 0 && data[3]
        == 1) {
        return vstd::slice::slice_to_vec(data);
    }
    let mut out: Vec<u8> = Vec::new();
    let mut i: usize = 0;
    let ghost mut units: Seq<Seq<u8>> = Seq::empty();
    proof {
        if let Some(rest) = prefixed_units(data@, 0) {
            assert(units + rest =~= rest);
        }
    }
    while data.len() - i >= 4
        invariant
            i <= data@.len(),
            !starts_with_code(data@),
            out@ == framed(units),
            match prefixed_units(data@, i as int) {
                None => prefixed_units(data@, 0) is None,
                Some(rest) => prefixed_units(data@, 0) == Some(units + rest),
            },
        decreases data@.len() - i,
    {
        let len: u32 = crate::bytes::read_be(data, i, 4) as u32;
        proof {
            crate::bytes::be_value_spelled_out(data@, i as int);
        }
        if len == 0 || data.len() - i - 4 < len as usize {
            return vstd::slice::slice_to_vec(data);
        }
        let unit: &[u8] = vstd::slice::slice_subrange(data, i + 4, i + 4 + len as usize);
        let ghost before = out@;
        out.extend_from_slice([0u8, 0u8, 0u8, 1u8].as_slice());
        out.extend_from_slice(unit);
        proof {
            framed_push(units, unit@);
            assert(out@ =~= before + (seq![0u8, 0u8, 0u8, 1u8] + unit@));
            if let Some(rest) = prefixed_units(data@, i + 4 + len) {
                assert(units + (seq![unit@] + rest) =~= units.push(unit@) + rest);
            }
            units = units.push(unit@);
        }
        i = i + 4 + len as usize;
    }
    proof {
        assert(units + Seq::<Seq<u8>>::empty() =~= units);
        if units.len() > 0 {
            assert(framed(units)[3] == 1u8);
        }
    }
    if out.len() == 0 {
        vstd::slice::slice_to_vec(data)
    } else {
        out
    }
}

/// Whether `part` occurs in `s`.
pub open spec fn occurs(s: Seq<char>, part: Seq<char>) -> bool {
    exists|i: int| 0 <= i <= s.len() && text::has_prefix(#[trigger] s.skip(i), part)
}

/// Whether a codec name stands for AVC, in upper or lower case.
pub open spec fn is_avc(codec: Seq<char>) -> bool {
    occurs(text::uppered(codec), "AVC"@)
}

fn names_avc(codec: &str) -> (r: bool)
    ensures
        r == is_avc(codec@),
{
    let chars: Vec<char> = text::chars_of(codec);
    let upper: Vec<char> = text::uppercase(chars.as_slice());
    let mut i: usize = 0;
    proof {
        reveal_strlit("AVC");
    }
    while i < upper.len()
        invariant
            i <= upper@.len(),
            upper@ == text::uppered(codec@),
            "AVC"@.len() == 3,
            forall|j: int| 0 <= j < i ==> !text::has_prefix(#[trigger] upper@.skip(j), "AVC"@),
        decreases upper@.len() - i,
    {
        if text::starts_with(text::tail(upper.as_slice(), i), "AVC") {
            assert(text::has_prefix(upper@.skip(i as int), "AVC"@));
            return true;
        }
        i = i + 1;
    }
    false
}

/// The frame to show first of a demuxed resource, behind start codes, where it
/// can be decoded.
pub open spec fn decodable(d: webm::DemuxView) -> Option<webm::FrameView> {
    match first_track(d.tracks, TrackType::Video, 0) {
        None => None,
        Some(t) => if is_avc(t.codec_id) {
            poster_frame(d.frames, t.number)
        } else {
            None
        },
    }
}

/// The picture that a demuxed resource shows first, if it is decoded, has no
/// more samples than fit in 32 bits.
pub open spec fn poster_fits(d: webm::DemuxView) -> bool {
    decodable(d) matches Some(f) ==> crate::h264_driver::picture_fits(annexb_of(f.data))
}

/// The status of a track whose picture is not decoded.
pub open spec fn is_header_only(s: DecodeStatus, t: webm::TrackView) -> bool {
    match s {
        DecodeStatus::HeaderOnly { width, height, codec } => width == t.pixel_width && height
            == t.pixel_height && codec@ == t.codec_id,
        DecodeStatus::Unsupported => false,
    }
}

/// What decoding a demuxed resource gives: the picture of its AVC frame where
/// that can be decoded, and else the geometry of its video track.
pub open spec fn is_poster(d: webm::DemuxView, r: Result<VideoFrame, DecodeStatus>) -> bool {
    match first_track(d.tracks, TrackType::Video, 0) {
        None => r matches Err(s) && s is Unsupported,
        Some(t) => match decodable(d) {
            Some(f) if crate::h264_driver::refusal(annexb_of(f.data)) is None => {
                r matches Ok(v) && shows(v, annexb_of(f.data), f.timestamp)
            },
            _ => r matches Err(s) && is_header_only(s, t),
        },
    }
}

fn header_only(t: &Track) -> (r: DecodeStatus)
    ensures
        is_header_only(r, t@),
{
    DecodeStatus::HeaderOnly {
        width: t.pixel_width,
        height: t.pixel_height,
        codec: t.codec_id.clone(),
    }
}

fn find_frame(dem: &WebmDemux, number: u64, key: bool) -> (r: Option<&webm::Frame>)
    ensures
        match r {
            None => first_frame(dem@.frames, number as int, key, 0) is None,
            Some(f) => first_frame(dem@.frames, number as int, key, 0) == Some(f@),
        },
{
    let mut i: usize = 0;
    while i < dem.frames.len()
        invariant
            i <= dem.frames@.len(),
            first_frame(dem@.frames, number as int, key, 0) == first_frame(
                dem@.frames,
                number as int,
                key,
                i as int,
            ),
        decreases dem.frames@.len() - i,
    {
        let f: &webm::Frame = &dem.frames[i];
        assert(dem@.frames[i as int] == f@);
        if f.track_number == number && (!key || f.keyframe) {
            return Some(f);
        }
        i = i + 1;
    }
    None
}

fn find_poster(dem: &WebmDemux, number: u64) -> (r: Option<&webm::Frame>)
    ensures
        match r {
            None => poster_frame(dem@.frames, number as int) is None,
            Some(f) => poster_frame(dem@.frames, number as int) == Some(f@),
        },
{
    match find_frame(dem, number, true) {
        Some(f) => Some(f),
        None => find_frame(dem, number, false),
    }
}

/// Whether the picture that a demuxed resource shows first is small enough to
/// be decoded.
pub fn check_poster_size(dem: &WebmDemux) -> (r: bool)
    ensures
        r == poster_fits(dem@),
{
    let video: Option<&Track> = dem.first_video_track();
    proof {
        first_track_is_first(dem.tracks@, TrackType::Video, video, 0);
    }
    match video {
        None => true,
        Some(t) => {
            if !names_avc(t.codec_id.as_str()) {
                return true;
            }
            match find_poster(dem, t.number) {
                None => true,
                Some(f) => {
                    let annexb: Vec<u8> = to_annexb(f.data.as_slice());
                    check_picture_size(annexb.as_slice())
                },
            }
        },
    }
}

/// Decodes the picture that a demuxed resource shows first.
pub fn decode_poster(dem: &WebmDemux) -> (r: Result<VideoFrame, DecodeStatus>)
    requires
        poster_fits(dem@),
    ensures
        is_poster(dem@, r),
{
    let video: Option<&Track> = dem.first_video_track();
    proof {
        first_track_is_first(dem.tracks@, TrackType::Video, video, 0);
    }
    let track: &Track = match video {
        None => {
            return Err(DecodeStatus::Unsupported);
        },
        Some(t) => t,
    };
    let frame: &webm::Frame = match find_poster(dem, track.number) {
        None => {
            return Err(header_only(track));
        },
        Some(f) => f,
    };
    if !names_avc(track.codec_id.as_str()) {
        return Err(header_only(track));
    }
    let annexb: Vec<u8> = to_annexb(frame.data.as_slice());
    match decode_first_idr(annexb.as_slice()) {
        Err(_) => Err(header_only(track)),
        Ok(d) => Ok(
            VideoFrame {
                width: d.width,
                height: d.height,
                bgra: d.bgra,
                timestamp: frame.timestamp,
            },
        ),
    }
}

/// Decodes the first picture of a WebM stream.
pub fn decode_webm_first_frame(bytes: &[u8]) -> (r: Result<VideoFrame, DecodeStatus>)
    requires
        poster_fits(webm::demux_of(bytes@)),
    ensures
        is_poster(webm::demux_of(bytes@), r),
{
    let dem: WebmDemux = demux(bytes);
    decode_poster(&dem)
}

/// Decodes the first picture of a WebM stream if it is small enough.
pub fn try_decode_webm_first_frame(bytes: &[u8]) -> (r: Option<Result<VideoFrame, DecodeStatus>>)
    ensures
        r is Some <==> poster_fits(webm::demux_of(bytes@)),
        r is Some ==> is_poster(webm::demux_of(bytes@), r->0),
{
    let dem: WebmDemux = demux(bytes);
    if check_poster_size(&dem) {
        Some(decode_webm_first_frame(bytes))
    } else {
        None
    }
}

/// A picture made of 4:2:0 planes.
pub fn yuv420_frame(
    width: u32,
    height: u32,
    y: &[u8],
    u: &[u8],
    v: &[u8],
    matrix: ColorMatrix,
    timestamp: Timestamp,
) -> (r: VideoFrame)
    requires
        width * height <= u32::MAX,
        y@.len() == width * height,
        u@.len() == (width / 2) * (height / 2),
        v@.len() == (width / 2) * (height / 2),
        width == 0 || height == 0 || width >= 2 && height >= 2,
    ensures
        r.width == width,
        r.height == height,
        r.timestamp == timestamp,
        r.bgra@.len() == width * height,
        forall|i: int|
            0 <= i < r.bgra@.len() ==> #[trigger] r.bgra@[i] == crate::color::picture_pixel(
                width as int,
                height as int,
                y@,
                u@,
                v@,
                matrix,
                i % (width as int),
                i / (width as int),
            ),
{
    VideoFrame { width, height, bgra: yuv420_to_bgra(width, height, y, u, v, matrix), timestamp }
}

proof fn framed_is_a_stream(units: Seq<Seq<u8>>, long: Seq<bool>, k: int)
    requires
        0 <= k <= units.len(),
        long == Seq::new(units.len(), |i: int| true),
    ensures
        framed(units.skip(k)) == crate::h264::stream_from(units, long, k),
    decreases units.len() - k,
{
    let rest = units.skip(k);
    if k < units.len() {
        let more = crate::h264::stream_from(units, long, k + 1);
        framed_is_a_stream(units, long, k + 1);
        assert(rest.skip(1) =~= units.skip(k + 1));
        assert(seq![0u8, 0u8, 0u8, 1u8] + rest[0] + more =~= seq![0u8, 0u8, 0u8, 1u8] + (units[k]
            + more));
    }
}

/// Units in which no start code stands are the NAL units of the stream in which
/// each follows a start code.
pub proof fn framed_units_split_back(units: Seq<Seq<u8>>)
    requires
        forall|k: int|
            0 <= k < units.len() ==> crate::h264::without_codes(#[trigger] units[k]),
    ensures
        crate::h264::nal_units(framed(units)) == units,
{
    let long = Seq::new(units.len(), |i: int| true);
    framed_is_a_stream(units, long, 0);
    assert(units.skip(0) =~= units);
    crate::h264::stream_splits_into_its_units(units, long);
}

/// No start code stands in what an encoder emits for a payload.
pub proof fn escaped_payloads_hold_no_code(rbsp: Seq<u8>)
    ensures
        crate::h264::without_codes(crate::h264::escaped(rbsp)),
    decreases rbsp.len(),
{
    let e = crate::h264::escaped(rbsp);
    if rbsp.len() == 0 {
    } else if rbsp.len() > 2 && rbsp[0] == 0 && rbsp[1] == 0 && rbsp[2] <= 3 {
        let tail = crate::h264::escaped(rbsp.skip(2));
        escaped_payloads_hold_no_code(rbsp.skip(2));
        assert forall|i: int| 0 <= i < e.len() implies #[trigger] crate::h264::start_code_at(e, i)
            == 0 by {
            if i >= 3 {
                assert(crate::h264::start_code_at(tail, i - 3) == 0);
            }
        }
    } else {
        let tail = crate::h264::escaped(rbsp.skip(1));
        escaped_payloads_hold_no_code(rbsp.skip(1));
        escaped_starts_alike(rbsp.skip(1));
        assert forall|i: int| 0 <= i < e.len() implies #[trigger] crate::h264::start_code_at(e, i)
            == 0 by {
            if i >= 1 {
                assert(crate::h264::start_code_at(tail, i - 1) == 0);
            }
        }
    }
}

proof fn escaped_starts_alike(rbsp: Seq<u8>)
    ensures
        rbsp.len() <= crate::h264::escaped(rbsp).len(),
        rbsp.len() == 0 ==> crate::h264::escaped(rbsp).len() == 0,
        rbsp.len() > 0 ==> crate::h264::escaped(rbsp)[0] == rbsp[0],
        rbsp.len() == 1 ==> crate::h264::escaped(rbsp).len() == 1,
        rbsp.len() > 1 ==> crate::h264::escaped(rbsp)[1] == rbsp[1],
    decreases rbsp.len(),
{
    if rbsp.len() > 0 {
        escaped_starts_alike(rbsp.skip(1));
    }
    if rbsp.len() > 1 {
        escaped_starts_alike(rbsp.skip(2));
    }
}

proof fn escaped_ends_alike(rbsp: Seq<u8>)
    requires
        rbsp.len() > 0,
    ensures
        crate::h264::escaped(rbsp).len() > 0,
        crate::h264::escaped(rbsp).last() == rbsp.last(),
    decreases rbsp.len(),
{
    escaped_starts_alike(rbsp);
    if rbsp.len() > 2 && rbsp[0] == 0 && rbsp[1] == 0 && rbsp[2] <= 3 {
        escaped_ends_alike(rbsp.skip(2));
        assert(crate::h264::escaped(rbsp).last() == crate::h264::escaped(rbsp.skip(2)).last());
    } else if rbsp.len() > 1 {
        escaped_ends_alike(rbsp.skip(1));
        assert(crate::h264::escaped(rbsp).last() == crate::h264::escaped(rbsp.skip(1)).last());
    } else {
        assert(crate::h264::escaped(rbsp.skip(1)) =~= Seq::<u8>::empty());
        assert(crate::h264::escaped(rbsp) =~= rbsp);
    }
}

/// Payloads survive the way through a stream: escaped, put behind start codes of
/// three or four bytes, split and stripped, they are what they were. Before a short
/// start code stands none that ends in a zero.
pub proof fn payloads_survive_a_stream(payloads: Seq<Seq<u8>>, long: Seq<bool>)
    requires
        long.len() == payloads.len(),
        forall|k: int|
            0 < k < payloads.len() && !(#[trigger] long[k]) ==> payloads[k - 1].len() == 0
                || payloads[k - 1].last() != 0,
    ensures
        crate::h264::nal_units(
            crate::h264::stream_from(
                payloads.map_values(|p: Seq<u8>| crate::h264::escaped(p)),
                long,
                0,
            ),
        ).map_values(|u: Seq<u8>| crate::h264::unescaped(u)) == payloads,
{
    let units = payloads.map_values(|p: Seq<u8>| crate::h264::escaped(p));
    assert forall|k: int| 0 <= k < units.len() implies crate::h264::without_codes(
        #[trigger] units[k],
    ) by {
        escaped_payloads_hold_no_code(payloads[k]);
    }
    assert forall|k: int| 0 < k < units.len() && !(#[trigger] long[k]) implies units[k - 1].len()
        == 0 || units[k - 1].last() != 0 by {
        if payloads[k - 1].len() > 0 {
            escaped_ends_alike(payloads[k - 1]);
        } else {
            escaped_starts_alike(payloads[k - 1]);
        }
    }
    crate::h264::stream_splits_into_its_units(units, long);
    let back = units.map_values(|u: Seq<u8>| crate::h264::unescaped(u));
    assert forall|k: int| 0 <= k < payloads.len() implies back[k] == payloads[k] by {
        crate::h264::unescaping_undoes_escaping(payloads[k]);
    }
    assert(back =~= payloads);
}

/// The four bytes of a length, most significant first.
pub open spec fn length_bytes(n: int) -> Seq<u8> {
    seq![
        (n / 0x100_0000 % 0x100) as u8,
        (n / 0x1_0000 % 0x100) as u8,
        (n / 0x100 % 0x100) as u8,
        (n % 0x100) as u8,
    ]
}

/// The units, each behind its length.
pub open spec fn length_prefixed(units: Seq<Seq<u8>>) -> Seq<u8>
    decreases units.len(),
{
    if units.len() == 0 {
        Seq::empty()
    } else {
        length_bytes(units[0].len() as int) + units[0] + length_prefixed(units.skip(1))
    }
}

proof fn length_is_read(data: Seq<u8>, i: int, n: int, rest: Seq<u8>)
    requires
        0 <= i <= data.len(),
        0 <= n <= u32::MAX,
        data.skip(i) == length_bytes(n) + rest,
    ensures
        crate::bytes::be_value(data, i, 4) == n,
        data.skip(i + 4) == rest,
        data.len() == i + 4 + rest.len(),
{
    let here = data.skip(i);
    assert(here.len() == 4 + rest.len());
    assert(data.skip(i + 4) =~= here.skip(4));
    assert(here.skip(4) =~= rest);
    assert(data[i] == here[0] && data[i + 1] == here[1] && data[i + 2] == here[2] && data[i + 3]
        == here[3]);
    crate::bytes::be_value_spelled_out(data, i);
    bytes_add_up(n);
}

proof fn bytes_add_up(n: int)
    requires
        0 <= n <= u32::MAX,
    ensures
        0x100_0000 * (n / 0x100_0000 % 0x100) + 0x1_0000 * (n / 0x1_0000 % 0x100) + 0x100 * (n
            / 0x100 % 0x100) + n % 0x100 == n,
{
    vstd::arithmetic::div_mod::lemma_div_denominator(n, 0x100, 0x100);
    vstd::arithmetic::div_mod::lemma_div_denominator(n, 0x1_0000, 0x100);
}

proof fn prefixed_units_read_back(data: Seq<u8>, i: int, units: Seq<Seq<u8>>)
    requires
        0 <= i <= data.len(),
        data.skip(i) == length_prefixed(units),
        forall|k: int| 0 <= k < units.len() ==> 0 < (#[trigger] units[k]).len() <= u32::MAX,
    ensures
        prefixed_units(data, i) == Some(units),
    decreases units.len(),
{
    if units.len() == 0 {
        assert(data.skip(i).len() == 0);
        assert(Seq::<Seq<u8>>::empty() =~= units);
    } else {
        let n = units[0].len() as int;
        let rest = length_prefixed(units.skip(1));
        let body = units[0] + rest;
        assert(data.skip(i) =~= length_bytes(n) + body);
        length_is_read(data, i, n, body);
        assert(data.subrange(i + 4, i + 4 + n) =~= body.take(n));
        assert(body.take(n) =~= units[0]);
        assert(data.skip(i + 4 + n) =~= body.skip(n));
        assert(body.skip(n) =~= rest);
        prefixed_units_read_back(data, i + 4 + n, units.skip(1));
        assert(seq![units[0]] + units.skip(1) =~= units);
    }
}

/// Units behind their lengths become the same units behind start codes, unless
/// the first length looks like a start code.
pub proof fn lengths_become_start_codes(units: Seq<Seq<u8>>)
    requires
        units.len() > 0,
        forall|k: int| 0 <= k < units.len() ==> 0 < (#[trigger] units[k]).len() <= u32::MAX,
        !starts_with_code(length_prefixed(units)),
    ensures
        annexb_of(length_prefixed(units)) == framed(units),
{
    let data = length_prefixed(units);
    assert(data.skip(0) =~= data);
    prefixed_units_read_back(data, 0, units);
}

/// Streams with start codes are left alone.
pub proof fn framed_units_stay(units: Seq<Seq<u8>>)
    ensures
        annexb_of(framed(units)) == framed(units),
{
    if units.len() > 0 {
        assert(starts_with_code(framed(units)));
    } else {
        assert(prefixed_units(framed(units), 0) == Some(Seq::<Seq<u8>>::empty()));
    }
}

proof fn first_track_at(tracks: Seq<webm::TrackView>, kind: TrackType, i: int, k: int)
    requires
        0 <= i <= k <= tracks.len(),
        forall|j: int| i <= j < k ==> (#[trigger] tracks[j]).track_type != Some(kind),
        k < tracks.len() ==> tracks[k].track_type == Some(kind),
    ensures
        k < tracks.len() ==> first_track(tracks, kind, i) == Some(tracks[k]),
        k == tracks.len() ==> first_track(tracks, kind, i) is None,
    decreases k - i,
{
    if i < k {
        assert(tracks[i].track_type != Some(kind));
        first_track_at(tracks, kind, i + 1, k);
    }
}

/// A resource is as large as its first video track and sounds as its first audio track,
/// whatever other tracks there are; without one of them it has nothing of it.
pub proof fn first_tracks_are_described(d: webm::DemuxView, v: int, a: int)
    requires
        0 <= v <= d.tracks.len(),
        0 <= a <= d.tracks.len(),
        forall|j: int| 0 <= j < v ==> (#[trigger] d.tracks[j]).track_type != Some(TrackType::Video),
        forall|j: int| 0 <= j < a ==> (#[trigger] d.tracks[j]).track_type != Some(TrackType::Audio),
        v < d.tracks.len() ==> d.tracks[v].track_type == Some(TrackType::Video),
        a < d.tracks.len() ==> d.tracks[a].track_type == Some(TrackType::Audio),
    ensures
        probe_of(d).has_video == (v < d.tracks.len()),
        probe_of(d).has_audio == (a < d.tracks.len()),
        v < d.tracks.len() ==> probe_of(d).width == d.tracks[v].pixel_width && probe_of(d).height
            == d.tracks[v].pixel_height && probe_of(d).video_codec == d.tracks[v].codec_id,
        a < d.tracks.len() ==> probe_of(d).audio_codec == d.tracks[a].codec_id && probe_of(
            d,
        ).audio_channels == d.tracks[a].channels && probe_of(d).audio_sample_rate
            == d.tracks[a].sampling_frequency,
        v == d.tracks.len() ==> probe_of(d).width == 0 && probe_of(d).height == 0 && probe_of(
            d,
        ).video_codec.len() == 0,
        a == d.tracks.len() ==> probe_of(d).audio_channels == 0 && probe_of(d).audio_codec.len()
            == 0,
{
    first_track_at(d.tracks, TrackType::Video, 0, v);
    first_track_at(d.tracks, TrackType::Audio, 0, a);
}

proof fn first_frame_at(
    frames: Seq<webm::FrameView>,
    number: int,
    key: bool,
    i: int,
    k: int,
)
    requires
        0 <= i <= k <= frames.len(),
        forall|j: int|
            i <= j < k ==> !((#[trigger] frames[j]).track_number == number && (key
                ==> frames[j].keyframe)),
        k < frames.len() ==> frames[k].track_number == number && (key ==> frames[k].keyframe),
    ensures
        k < frames.len() ==> first_frame(frames, number, key, i) == Some(frames[k]),
        k == frames.len() ==> first_frame(frames, number, key, i) is None,
    decreases k - i,
{
    if i < k {
        assert(!(frames[i].track_number == number && (key ==> frames[i].keyframe)));
        first_frame_at(frames, number, key, i + 1, k);
    }
}

/// The first key frame of a track is shown first, even where other frames of the track
/// come before it; without a key frame its first frame is.
pub proof fn key_frames_are_shown_first(frames: Seq<webm::FrameView>, number: int, k: int)
    requires
        0 <= k < frames.len(),
        frames[k].track_number == number,
    ensures
        frames[k].keyframe && (forall|j: int|
            0 <= j < k ==> !((#[trigger] frames[j]).track_number == number && frames[j].keyframe))
            ==> poster_frame(frames, number) == Some(frames[k]),
        (forall|j: int|
            0 <= j < frames.len() ==> !((#[trigger] frames[j]).track_number == number
                && frames[j].keyframe)) && (forall|j: int|
            0 <= j < k ==> (#[trigger] frames[j]).track_number != number) ==> poster_frame(
            frames,
            number,
        ) == Some(frames[k]),
{
    if frames[k].keyframe && (forall|j: int|
        0 <= j < k ==> !((#[trigger] frames[j]).track_number == number && frames[j].keyframe)) {
        first_frame_at(frames, number, true, 0, k);
    }
    if (forall|j: int|
        0 <= j < frames.len() ==> !((#[trigger] frames[j]).track_number == number
            && frames[j].keyframe)) && (forall|j: int|
        0 <= j < k ==> (#[trigger] frames[j]).track_number != number) {
        first_frame_at(frames, number, true, 0, frames.len() as int);
        first_frame_at(frames, number, false, 0, k);
    }
}

} // verus!
