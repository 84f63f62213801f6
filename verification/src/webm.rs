//! A demuxer for WebM and Matroska.
//!
//! Walks the tree of elements and collects the track table, the duration and
//! the coded frames in stream order. Times are kept in the units of the file,
//! together with the length of a unit; real numbers are kept as their bits.
use vstd::prelude::*;

use crate::bytes;
use crate::ebml::read_vint;
use crate::text;

pub mod found;
pub mod ids;
pub mod laces;

verus! {

/// The kind of a track.
#[derive(Debug, Clone, Copy, PartialEq, Eq, Structural)]
pub enum TrackType {
    Video,
    Audio,
    Subtitle,
    Other(u8),
}

impl TrackType {
    /// The kind with coded value `v`.
    pub open spec fn of(v: int) -> TrackType {
        if v == 1 {
            TrackType::Video
        } else if v == 2 {
            TrackType::Audio
        } else if v == 0x11 {
            TrackType::Subtitle
        } else {
            TrackType::Other(v as u8)
        }
    }

    fn from_u8(v: u8) -> (r: Self)
        ensures
            r == TrackType::of(v as int),
    {
        match v {
            1 => TrackType::Video,
            2 => TrackType::Audio,
            0x11 => TrackType::Subtitle,
            _ => TrackType::Other(v),
        }
    }
}

/// A real number as it is stored: the bits of its single or double precision
/// form, or nothing, which counts as zero.
#[derive(Debug, Clone, Copy, PartialEq, Eq, Structural)]
pub enum RealBits {
    Absent,
    Single(u32),
    Double(u64),
}

impl RealBits {
    /// Whether the number is greater than zero: its sign bit is clear, and it is
    /// neither zero nor a not-a-number.
    pub open spec fn positive(self) -> bool {
        match self {
            RealBits::Absent => false,
            RealBits::Single(b) => 0 < b <= 0x7F80_0000,
            RealBits::Double(b) => 0 < b <= 0x7FF0_0000_0000_0000,
        }
    }

    /// Whether the number is greater than zero.
    pub fn is_positive(self) -> (r: bool)
        ensures
            r == self.positive(),
    {
        match self {
            RealBits::Absent => false,
            RealBits::Single(b) => 0 < b && b <= 0x7F80_0000,
            RealBits::Double(b) => 0 < b && b <= 0x7FF0_0000_0000_0000,
        }
    }
}

/// A track of the track table.
#[derive(Debug, Clone)]
pub struct Track {
    pub number: u64,
    pub track_type: Option<TrackType>,
    /// For instance `V_VP9`, `V_MPEG4/ISO/AVC` or `A_OPUS`.
    pub codec_id: String,
    pub pixel_width: u32,
    pub pixel_height: u32,
    pub sampling_frequency: RealBits,
    pub channels: u32,
}

/// A number of time units, and the length of a unit in nanoseconds.
#[derive(Debug, Clone, Copy, PartialEq, Eq, Structural)]
pub struct Timestamp {
    pub units: i64,
    pub scale_ns: u64,
}

impl Timestamp {
    /// The time in nanoseconds.
    pub open spec fn nanos(self) -> int {
        self.units * self.scale_ns
    }

    /// Whether a time lies behind another.
    pub fn is_behind(self, other: Timestamp) -> (r: bool)
        ensures
            r == (self.nanos() > other.nanos()),
    {
        let (a, b): (i128, i128) = (self.units as i128, self.scale_ns as i128);
        let (c, d): (i128, i128) = (other.units as i128, other.scale_ns as i128);
        proof {
            product_is_small(a, b);
            product_is_small(c, d);
        }
        a * b > c * d
    }
}

proof fn product_is_small(a: i128, b: i128)
    requires
        -0x8000_0000_0000_0000 <= a < 0x8000_0000_0000_0000,
        0 <= b < 0x1_0000_0000_0000_0000,
    ensures
        i128::MIN <= a * b <= i128::MAX,
{
    assert(-0x8000_0000_0000_0000 * 0x1_0000_0000_0000_0000 <= a * b < 0x8000_0000_0000_0000
        * 0x1_0000_0000_0000_0000) by (nonlinear_arith)
        requires
            -0x8000_0000_0000_0000 <= a < 0x8000_0000_0000_0000,
            0 <= b < 0x1_0000_0000_0000_0000,
    ;
}

/// A coded frame.
#[derive(Debug, Clone)]
pub struct Frame {
    pub track_number: u64,
    pub timestamp: Timestamp,
    /// From the flags of a simple block; other blocks are no key frames.
    pub keyframe: bool,
    pub data: Vec<u8>,
}

/// A positive number of time units, and the length of a unit in nanoseconds.
#[derive(Debug, Clone, Copy, PartialEq, Eq, Structural)]
pub struct SegmentDuration {
    pub units: RealBits,
    pub scale_ns: u64,
}

/// How long a stream lasts.
#[derive(Debug, Clone, Copy, PartialEq, Eq, Structural)]
pub enum StreamLength {
    /// As long as it declares.
    Declared(SegmentDuration),
    /// Up to its last frame, where it does not say.
    Last(Timestamp),
}

/// What was found in a stream.
#[derive(Debug, Clone)]
pub struct WebmDemux {
    pub timestamp_scale_ns: u64,
    /// The duration that the stream declares, if it does.
    pub duration: Option<SegmentDuration>,
    pub tracks: Vec<Track>,
    pub frames: Vec<Frame>,
}

#[verifier::ext_equal]
pub struct TrackView {
    pub number: int,
    pub track_type: Option<TrackType>,
    pub codec_id: Seq<char>,
    pub pixel_width: int,
    pub pixel_height: int,
    pub sampling_frequency: RealBits,
    pub channels: int,
}

#[verifier::ext_equal]
pub struct FrameView {
    pub track_number: int,
    pub timestamp: Timestamp,
    pub keyframe: bool,
    pub data: Seq<u8>,
}

#[verifier::ext_equal]
pub struct DemuxView {
    pub timestamp_scale_ns: int,
    pub duration: Option<SegmentDuration>,
    pub tracks: Seq<TrackView>,
    pub frames: Seq<FrameView>,
}

impl View for Track {
    type V = TrackView;

    open spec fn view(&self) -> TrackView {
        TrackView {
            number: self.number as int,
            track_type: self.track_type,
            codec_id: self.codec_id@,
            pixel_width: self.pixel_width as int,
            pixel_height: self.pixel_height as int,
            sampling_frequency: self.sampling_frequency,
            channels: self.channels as int,
        }
    }
}

impl View for Frame {
    type V = FrameView;

    open spec fn view(&self) -> FrameView {
        FrameView {
            track_number: self.track_number as int,
            timestamp: self.timestamp,
            keyframe: self.keyframe,
            data: self.data@,
        }
    }
}

pub open spec fn track_views(v: Seq<Track>) -> Seq<TrackView> {
    v.map_values(|t: Track| t@)
}

pub open spec fn frame_views(v: Seq<Frame>) -> Seq<FrameView> {
    v.map_values(|f: Frame| f@)
}

impl View for WebmDemux {
    type V = DemuxView;

    open spec fn view(&self) -> DemuxView {
        DemuxView {
            timestamp_scale_ns: self.timestamp_scale_ns as int,
            duration: self.duration,
            tracks: track_views(self.tracks@),
            frames: frame_views(self.frames@),
        }
    }
}

/// A track entry without any fields.
pub open spec fn empty_track() -> TrackView {
    TrackView {
        number: 0,
        track_type: None,
        codec_id: Seq::empty(),
        pixel_width: 0,
        pixel_height: 0,
        sampling_frequency: RealBits::Absent,
        channels: 0,
    }
}

impl Default for Track {
    fn default() -> (r: Self)
        ensures
            r@ == empty_track(),
    {
        Track {
            number: 0,
            track_type: None,
            codec_id: String::new(),
            pixel_width: 0,
            pixel_height: 0,
            sampling_frequency: RealBits::Absent,
            channels: 0,
        }
    }
}

impl Default for WebmDemux {
    fn default() -> (r: Self)
        ensures
            r.timestamp_scale_ns == 0,
            r.duration is None,
            r.tracks@.len() == 0,
            r.frames@.len() == 0,
    {
        WebmDemux {
            timestamp_scale_ns: 0,
            duration: None,
            tracks: Vec::new(),
            frames: Vec::new(),
        }
    }
}

/// The frames of track `number` among the first `n`.
pub open spec fn track_frames(frames: Seq<Frame>, number: u64, n: int) -> Seq<Frame>
    decreases n,
{
    if n <= 0 {
        Seq::empty()
    } else if frames[n - 1].track_number == number {
        track_frames(frames, number, n - 1).push(frames[n - 1])
    } else {
        track_frames(frames, number, n - 1)
    }
}

/// `r` is the first track of the given kind.
pub open spec fn is_first_of_type(tracks: Seq<Track>, kind: TrackType, r: Option<&Track>) -> bool {
    match r {
        None => forall|j: int|
            0 <= j < tracks.len() ==> (#[trigger] tracks[j]).track_type != Some(kind),
        Some(t) => exists|i: int|
            {
                &&& 0 <= i < tracks.len()
                &&& *t == #[trigger] tracks[i]
                &&& t.track_type == Some(kind)
                &&& forall|j: int| 0 <= j < i ==> (#[trigger] tracks[j]).track_type != Some(kind)
            },
    }
}

/// The latest time among the first `n` frames, or the start where none lies behind
/// it.
pub open spec fn last_shown(d: DemuxView, n: int) -> Timestamp
    decreases n,
{
    if n <= 0 {
        Timestamp { units: 0, scale_ns: d.timestamp_scale_ns as u64 }
    } else if d.frames[n - 1].timestamp.nanos() > last_shown(d, n - 1).nanos() {
        d.frames[n - 1].timestamp
    } else {
        last_shown(d, n - 1)
    }
}

/// How long a demuxed stream lasts: as long as it declares, or else up to its last
/// frame.
pub open spec fn length_of(d: DemuxView) -> StreamLength {
    match d.duration {
        Some(duration) => StreamLength::Declared(duration),
        None => StreamLength::Last(last_shown(d, d.frames.len() as int)),
    }
}

impl WebmDemux {
    fn first_of_type(&self, kind: TrackType) -> (r: Option<&Track>)
        ensures
            is_first_of_type(self.tracks@, kind, r),
    {
        let mut i: usize = 0;
        while i < self.tracks.len()
            invariant
                i <= self.tracks@.len(),
                forall|j: int|
                    0 <= j < i ==> (#[trigger] self.tracks@[j]).track_type != Some(kind),
            decreases self.tracks@.len() - i,
        {
            let found: bool = match self.tracks[i].track_type {
                Some(t) => t == kind,
                None => false,
            };
            if found {
                assert(self.tracks@[i as int].track_type == Some(kind));
                return Some(&self.tracks[i]);
            }
            i = i + 1;
        }
        None
    }

    /// The first video track.
    pub fn first_video_track(&self) -> (r: Option<&Track>)
        ensures
            is_first_of_type(self.tracks@, TrackType::Video, r),
    {
        self.first_of_type(TrackType::Video)
    }

    /// The first audio track.
    pub fn first_audio_track(&self) -> (r: Option<&Track>)
        ensures
            is_first_of_type(self.tracks@, TrackType::Audio, r),
    {
        self.first_of_type(TrackType::Audio)
    }

    /// The time of the last frame to be shown, which is how long a stream lasts
    /// that does not say so; the start where there are no frames behind it.
    pub fn last_timestamp(&self) -> (r: Timestamp)
        ensures
            r == last_shown(self@, self.frames@.len() as int),
            forall|j: int|
                0 <= j < self.frames@.len() ==> (#[trigger] self.frames@[j]).timestamp.nanos()
                    <= r.nanos(),
            r == (Timestamp { units: 0, scale_ns: self.timestamp_scale_ns }) || r.nanos() > 0
                && exists|i: int|
                0 <= i < self.frames@.len() && r == (#[trigger] self.frames@[i]).timestamp,
    {
        let mut last: Timestamp = Timestamp { units: 0, scale_ns: self.timestamp_scale_ns };
        let mut i: usize = 0;
        while i < self.frames.len()
            invariant
                i <= self.frames@.len(),
                last == last_shown(self@, i as int),
                last.nanos() >= 0,
                forall|j: int|
                    0 <= j < i ==> (#[trigger] self.frames@[j]).timestamp.nanos() <= last.nanos(),
                last == (Timestamp { units: 0, scale_ns: self.timestamp_scale_ns }) || last.nanos()
                    > 0 && exists|k: int|
                    0 <= k < i && last == (#[trigger] self.frames@[k]).timestamp,
            decreases self.frames@.len() - i,
        {
            let t: Timestamp = self.frames[i].timestamp;
            assert(self@.frames[i as int] == self.frames@[i as int]@);
            if t.is_behind(last) {
                last = t;
                assert(last == self.frames@[i as int].timestamp);
            }
            i = i + 1;
        }
        last
    }

    /// How long the stream lasts: as long as it declares, or else up to its last
    /// frame.
    pub fn length(&self) -> (r: StreamLength)
        ensures
            r == length_of(self@),
            match self.duration {
                Some(d) => r == StreamLength::Declared(d),
                None => r == StreamLength::Last(last_shown(self@, self.frames@.len() as int)),
            },
    {
        match self.duration {
            Some(d) => StreamLength::Declared(d),
            None => StreamLength::Last(self.last_timestamp()),
        }
    }

    /// The frames of a track, in stream order.
    pub fn frames_for(&self, track_number: u64) -> (r: Vec<&Frame>)
        ensures
            r@.map_values(|f: &Frame| *f) == track_frames(
                self.frames@,
                track_number,
                self.frames@.len() as int,
            ),
    {
        let mut out: Vec<&Frame> = Vec::new();
        let mut i: usize = 0;
        assert(out@.map_values(|f: &Frame| *f) =~= Seq::<Frame>::empty());
        while i < self.frames.len()
            invariant
                i <= self.frames@.len(),
                out@.map_values(|f: &Frame| *f) == track_frames(
                    self.frames@,
                    track_number,
                    i as int,
                ),
            decreases self.frames@.len() - i,
        {
            let frame: &Frame = &self.frames[i];
            if frame.track_number == track_number {
                let ghost before = out@.map_values(|f: &Frame| *f);
                out.push(frame);
                assert(out@.map_values(|f: &Frame| *f) =~= before.push(*frame));
            }
            i = i + 1;
        }
        out
    }
}

/// An element: its identifier, and where its payload starts and ends.
#[verifier::ext_equal]
pub struct HeaderView {
    pub id: int,
    pub start: int,
    pub end: int,
}

/// Whether an element header stands at `pos`.
pub open spec fn has_header(buf: Seq<u8>, pos: int) -> bool {
    let id = buf.skip(pos);
    crate::ebml::has_vint(id) && crate::ebml::has_vint(id.skip(crate::ebml::vint_len(id[0])))
}

/// The element at `pos`. A size with all its bits set is unknown and extends to
/// the end of the buffer; a payload that would reach beyond it is cut off there.
pub open spec fn header_at(buf: Seq<u8>, pos: int) -> HeaderView {
    let id = buf.skip(pos);
    let size = id.skip(crate::ebml::vint_len(id[0]));
    let value = crate::ebml::vint_value(size, false);
    let len = crate::ebml::vint_len(size[0]);
    let start = pos + crate::ebml::vint_len(id[0]) + len;
    HeaderView {
        id: crate::ebml::vint_value(id, true),
        start,
        end: if value + 1 == bytes::power_128(len as nat) || start + value > buf.len() {
            buf.len() as int
        } else {
            start + value
        },
    }
}

/// The elements in `pos..end`, up to one that is malformed or whose payload
/// would start behind `end`.
pub open spec fn children_of(buf: Seq<u8>, pos: int, end: int) -> Seq<HeaderView>
    decreases buf.len() - pos,
    when 0 <= pos <= buf.len()
    via children_of_decreases
{
    if pos >= end || !has_header(buf, pos) || header_at(buf, pos).start > end {
        Seq::empty()
    } else {
        seq![header_at(buf, pos)] + children_of(buf, header_at(buf, pos).end, end)
    }
}

#[via_fn]
proof fn children_of_decreases(buf: Seq<u8>, pos: int, end: int) {
    if pos < end && has_header(buf, pos) {
        header_bounds(buf, pos);
    }
}

proof fn header_bounds(buf: Seq<u8>, pos: int)
    requires
        0 <= pos <= buf.len(),
        has_header(buf, pos),
    ensures
        pos < header_at(buf, pos).start <= header_at(buf, pos).end <= buf.len(),
{
    let id = buf.skip(pos);
    crate::ebml::vint_value_bound(id.skip(crate::ebml::vint_len(id[0])));
}

/// A big-endian number in `buf[start..end]`, of which the first eight bytes
/// count.
pub open spec fn uint_at(buf: Seq<u8>, h: HeaderView) -> int {
    bytes::be_value(
        buf,
        h.start,
        (if h.end - h.start > 8 {
            8
        } else {
            h.end - h.start
        }) as nat,
    )
}

/// A real number in `buf[start..end]`: four bytes or eight.
pub open spec fn real_at(buf: Seq<u8>, h: HeaderView) -> RealBits {
    if h.end - h.start == 4 {
        RealBits::Single(bytes::be_value(buf, h.start, 4) as u32)
    } else if h.end - h.start == 8 {
        RealBits::Double(bytes::be_value(buf, h.start, 8) as u64)
    } else {
        RealBits::Absent
    }
}

/// `v` as a signed 64-bit number in two's complement.
pub open spec fn wrapped_i64(v: int) -> int {
    (v + 0x8000_0000_0000_0000) % 0x1_0000_0000_0000_0000 - 0x8000_0000_0000_0000
}

/// What `String::from_utf8_lossy` makes of bytes that need not be valid UTF-8.
pub uninterp spec fn lossy_text(bytes: Seq<u8>) -> Seq<char>;

/// `String::from_utf8_lossy`: the text of a byte string, which is its decoding
/// if it is valid UTF-8; otherwise each faulty part is replaced.
#[verifier::external_body]
fn decode_lossy(bytes: &[u8]) -> (r: String)
    ensures
        r@ == lossy_text(bytes@),
        vstd::utf8::valid_utf8(bytes@) ==> r@ == vstd::utf8::decode_utf8(bytes@),
{
    String::from_utf8_lossy(bytes).into_owned()
}

/// What the first `n` elements of a track's video settings say.
pub open spec fn video_after(buf: Seq<u8>, t: TrackView, kids: Seq<HeaderView>, n: int) -> TrackView
    decreases n,
{
    if n <= 0 {
        t
    } else {
        let before = video_after(buf, t, kids, n - 1);
        let h = kids[n - 1];
        if h.id == ids::PIXEL_WIDTH {
            TrackView { pixel_width: uint_at(buf, h) % 0x1_0000_0000, ..before }
        } else if h.id == ids::PIXEL_HEIGHT {
            TrackView { pixel_height: uint_at(buf, h) % 0x1_0000_0000, ..before }
        } else {
            before
        }
    }
}

/// What the first `n` elements of a track's audio settings say.
pub open spec fn audio_after(buf: Seq<u8>, t: TrackView, kids: Seq<HeaderView>, n: int) -> TrackView
    decreases n,
{
    if n <= 0 {
        t
    } else {
        let before = audio_after(buf, t, kids, n - 1);
        let h = kids[n - 1];
        if h.id == ids::SAMPLING_FREQUENCY {
            TrackView { sampling_frequency: real_at(buf, h), ..before }
        } else if h.id == ids::CHANNELS {
            TrackView { channels: uint_at(buf, h) % 0x1_0000_0000, ..before }
        } else {
            before
        }
    }
}

/// What the first `n` elements of a track entry say.
pub open spec fn track_after(buf: Seq<u8>, kids: Seq<HeaderView>, n: int) -> TrackView
    decreases n,
{
    if n <= 0 {
        empty_track()
    } else {
        let before = track_after(buf, kids, n - 1);
        let h = kids[n - 1];
        let inner = children_of(buf, h.start, h.end);
        if h.id == ids::TRACK_NUMBER {
            TrackView { number: uint_at(buf, h), ..before }
        } else if h.id == ids::TRACK_TYPE {
            TrackView { track_type: Some(TrackType::of(uint_at(buf, h) % 0x100)), ..before }
        } else if h.id == ids::CODEC_ID {
            TrackView {
                codec_id: text::trim_end_char(lossy_text(buf.subrange(h.start, h.end)), '\0'),
                ..before
            }
        } else if h.id == ids::VIDEO {
            video_after(buf, before, inner, inner.len() as int)
        } else if h.id == ids::AUDIO {
            audio_after(buf, before, inner, inner.len() as int)
        } else {
            before
        }
    }
}

/// The track that an entry describes.
pub open spec fn track_at(buf: Seq<u8>, h: HeaderView) -> TrackView {
    let kids = children_of(buf, h.start, h.end);
    track_after(buf, kids, kids.len() as int)
}

/// The tracks among the first `n` elements of the track table.
pub open spec fn tracks_after(buf: Seq<u8>, kids: Seq<HeaderView>, n: int) -> Seq<TrackView>
    decreases n,
{
    if n <= 0 {
        Seq::empty()
    } else if kids[n - 1].id == ids::TRACK_ENTRY {
        tracks_after(buf, kids, n - 1).push(track_at(buf, kids[n - 1]))
    } else {
        tracks_after(buf, kids, n - 1)
    }
}

/// A size that is coded as the sum of bytes up to the first that is not 255,
/// from `i` on, and the position behind it.
pub open spec fn xiph_size(payload: Seq<u8>, i: int, sum: int) -> Option<(int, int)>
    decreases payload.len() - i,
{
    if i >= payload.len() {
        None
    } else if payload[i] == 255 {
        xiph_size(payload, i + 1, sum + 255)
    } else {
        Some((sum + payload[i], i + 1))
    }
}

/// `n` such sizes from `i` on, behind `sizes`, and the position behind them.
pub open spec fn xiph_sizes(payload: Seq<u8>, i: int, n: nat, sizes: Seq<int>) -> Option<
    (Seq<int>, int),
>
    decreases n,
{
    if n == 0 {
        Some((sizes, i))
    } else {
        match xiph_size(payload, i, 0) {
            None => None,
            Some((size, next)) => xiph_sizes(payload, next, (n - 1) as nat, sizes.push(size)),
        }
    }
}

/// `n` further sizes from `i` on, behind `sizes`: each is coded as its
/// difference to the one before, as a variable-length integer with a bias.
pub open spec fn ebml_sizes(payload: Seq<u8>, i: int, n: nat, sizes: Seq<int>) -> Option<
    (Seq<int>, int),
>
    decreases n,
{
    let v = payload.skip(i);
    let len = crate::ebml::vint_len(v[0]);
    if n == 0 {
        Some((sizes, i))
    } else if !crate::ebml::has_vint(v) {
        None
    } else {
        ebml_sizes(
            payload,
            i + len,
            (n - 1) as nat,
            sizes.push(
                sizes.last() + crate::ebml::vint_value(v, false) - (bytes::power_128(len as nat) / 2
                    - 1),
            ),
        )
    }
}

/// `payload` from `pos` on, cut into pieces of the given sizes from the `k`-th
/// on; what is left is the last piece. `None` where a piece does not fit.
pub open spec fn pieces(payload: Seq<u8>, pos: int, sizes: Seq<int>, k: int) -> Option<
    Seq<Seq<u8>>,
>
    decreases sizes.len() - k,
{
    if k >= sizes.len() {
        Some(seq![payload.skip(pos)])
    } else if sizes[k] < 0 || pos + sizes[k] > payload.len() {
        None
    } else {
        match pieces(payload, pos + sizes[k], sizes, k + 1) {
            None => None,
            Some(rest) => Some(seq![payload.subrange(pos, pos + sizes[k])] + rest),
        }
    }
}

/// The pieces, or the whole payload if it cannot be cut up.
pub open spec fn pieces_or_whole(payload: Seq<u8>, sizes: Option<(Seq<int>, int)>) -> Seq<Seq<u8>> {
    match sizes {
        None => seq![payload],
        Some((s, pos)) => match pieces(payload, pos, s, 0) {
            None => seq![payload],
            Some(p) => p,
        },
    }
}

/// Xiph lacing: the number of frames less one, the sizes of all but the last,
/// and the frames.
pub open spec fn xiph_frames(payload: Seq<u8>) -> Seq<Seq<u8>> {
    if payload.len() == 0 {
        seq![payload]
    } else {
        pieces_or_whole(payload, xiph_sizes(payload, 1, payload[0] as nat, Seq::empty()))
    }
}

/// EBML lacing: the number of frames less one, the size of the first frame, the
/// differences of the sizes up to the last but one, and the frames. A single
/// frame has no size.
pub open spec fn ebml_frames(payload: Seq<u8>) -> Seq<Seq<u8>> {
    let v = payload.skip(1);
    if payload.len() > 0 && payload[0] == 0 {
        seq![v]
    } else if payload.len() == 0 || !crate::ebml::has_vint(v) {
        seq![payload]
    } else {
        pieces_or_whole(
            payload,
            ebml_sizes(
                payload,
                1 + crate::ebml::vint_len(v[0]),
                (payload[0] - 1) as nat,
                seq![crate::ebml::vint_value(v, false)],
            ),
        )
    }
}

/// Fixed-size lacing: the number of frames less one, and frames of equal size.
/// A body that cannot be divided is one frame.
pub open spec fn fixed_frames(payload: Seq<u8>) -> Seq<Seq<u8>> {
    let count = payload[0] + 1;
    let body = payload.skip(1);
    let size = body.len() as int / count;
    if payload.len() == 0 {
        Seq::empty()
    } else if body.len() as int % count != 0 {
        seq![body]
    } else {
        Seq::new(count as nat, |i: int| body.subrange(size * i, size * i + size))
    }
}

/// The frames of a block payload with the given kind of lacing.
pub open spec fn laced_frames(payload: Seq<u8>, lacing: int) -> Seq<Seq<u8>> {
    if lacing == 1 {
        xiph_frames(payload)
    } else if lacing == 2 {
        fixed_frames(payload)
    } else if lacing == 3 {
        ebml_frames(payload)
    } else {
        seq![payload]
    }
}

/// A big-endian 16-bit number in two's complement.
pub open spec fn signed_16(high: u8, low: u8) -> int {
    let v = 0x100 * high + low;
    if v >= 0x8000 {
        v - 0x1_0000
    } else {
        v
    }
}

/// The frames of a block: a track number, a time relative to the cluster, flags
/// and the laced frames.
pub open spec fn block_frames(block: Seq<u8>, cluster_ts: int, simple: bool, scale_ns: u64) -> Seq<
    FrameView,
> {
    let n = crate::ebml::vint_len(block[0]);
    if !crate::ebml::has_vint(block) || n + 3 > block.len() {
        Seq::empty()
    } else {
        let flags = block[n + 2];
        laced_frames(block.skip(n + 3), (flags as int / 2) % 4).map_values(
            |data: Seq<u8>|
                FrameView {
                    track_number: crate::ebml::vint_value(block, false),
                    timestamp: Timestamp {
                        units: wrapped_i64(cluster_ts + signed_16(block[n], block[n + 1])) as i64,
                        scale_ns,
                    },
                    keyframe: simple && flags >= 128,
                    data,
                },
        )
    }
}

/// The frames of the blocks among the first `n` elements of a block group.
pub open spec fn group_after(
    buf: Seq<u8>,
    kids: Seq<HeaderView>,
    n: int,
    cluster_ts: int,
    scale_ns: u64,
) -> Seq<FrameView>
    decreases n,
{
    if n <= 0 {
        Seq::empty()
    } else {
        let before = group_after(buf, kids, n - 1, cluster_ts, scale_ns);
        let h = kids[n - 1];
        if h.id == ids::BLOCK {
            before + block_frames(buf.subrange(h.start, h.end), cluster_ts, false, scale_ns)
        } else {
            before
        }
    }
}

/// The time of a cluster, and the frames found in it so far.
pub struct ClusterState {
    pub ts: int,
    pub frames: Seq<FrameView>,
}

/// A cluster after its first `n` elements.
pub open spec fn cluster_after(
    buf: Seq<u8>,
    kids: Seq<HeaderView>,
    n: int,
    scale_ns: u64,
) -> ClusterState
    decreases n,
{
    if n <= 0 {
        ClusterState { ts: 0, frames: Seq::empty() }
    } else {
        let before = cluster_after(buf, kids, n - 1, scale_ns);
        let h = kids[n - 1];
        if h.id == ids::TIMESTAMP {
            ClusterState { ts: wrapped_i64(uint_at(buf, h)), ..before }
        } else if h.id == ids::SIMPLE_BLOCK {
            ClusterState {
                frames: before.frames + block_frames(
                    buf.subrange(h.start, h.end),
                    before.ts,
                    true,
                    scale_ns,
                ),
                ..before
            }
        } else if h.id == ids::BLOCK_GROUP {
            let inner = children_of(buf, h.start, h.end);
            ClusterState {
                frames: before.frames + group_after(
                    buf,
                    inner,
                    inner.len() as int,
                    before.ts,
                    scale_ns,
                ),
                ..before
            }
        } else {
            before
        }
    }
}

/// The frames of a cluster.
pub open spec fn cluster_frames(buf: Seq<u8>, h: HeaderView, scale_ns: u64) -> Seq<FrameView> {
    let kids = children_of(buf, h.start, h.end);
    cluster_after(buf, kids, kids.len() as int, scale_ns).frames
}

/// What has been found in a segment, and its duration in time units.
#[verifier::ext_equal]
pub struct SegmentState {
    pub found: DemuxView,
    pub units: RealBits,
}

/// A segment after the first `n` elements of an information element.
pub open spec fn info_after(
    buf: Seq<u8>,
    st: SegmentState,
    kids: Seq<HeaderView>,
    n: int,
) -> SegmentState
    decreases n,
{
    if n <= 0 {
        st
    } else {
        let before = info_after(buf, st, kids, n - 1);
        let h = kids[n - 1];
        if h.id == ids::TIMESTAMP_SCALE {
            let scale = uint_at(buf, h);
            SegmentState {
                found: DemuxView {
                    timestamp_scale_ns: if scale < 1 {
                        1
                    } else {
                        scale
                    },
                    ..before.found
                },
                ..before
            }
        } else if h.id == ids::DURATION {
            SegmentState { units: real_at(buf, h), ..before }
        } else {
            before
        }
    }
}

/// A segment after its first `n` elements.
pub open spec fn segment_after(
    buf: Seq<u8>,
    found: DemuxView,
    kids: Seq<HeaderView>,
    n: int,
) -> SegmentState
    decreases n,
{
    if n <= 0 {
        SegmentState { found, units: RealBits::Absent }
    } else {
        let before = segment_after(buf, found, kids, n - 1);
        let h = kids[n - 1];
        let inner = children_of(buf, h.start, h.end);
        if h.id == ids::INFO {
            info_after(buf, before, inner, inner.len() as int)
        } else if h.id == ids::TRACKS {
            SegmentState {
                found: DemuxView {
                    tracks: before.found.tracks + tracks_after(buf, inner, inner.len() as int),
                    ..before.found
                },
                ..before
            }
        } else if h.id == ids::CLUSTER {
            SegmentState {
                found: DemuxView {
                    frames: before.found.frames + cluster_frames(
                        buf,
                        h,
                        before.found.timestamp_scale_ns as u64,
                    ),
                    ..before.found
                },
                ..before
            }
        } else {
            before
        }
    }
}

/// What has been found after a segment. Its duration counts if it is positive.
pub open spec fn with_segment(buf: Seq<u8>, found: DemuxView, h: HeaderView) -> DemuxView {
    let kids = children_of(buf, h.start, h.end);
    let st = segment_after(buf, found, kids, kids.len() as int);
    if st.units.positive() {
        DemuxView {
            duration: Some(
                SegmentDuration {
                    units: st.units,
                    scale_ns: st.found.timestamp_scale_ns as u64,
                },
            ),
            ..st.found
        }
    } else {
        st.found
    }
}

/// What has been found after the first `n` top-level elements. Time units are
/// milliseconds unless the stream says otherwise.
pub open spec fn demux_after(buf: Seq<u8>, kids: Seq<HeaderView>, n: int) -> DemuxView
    decreases n,
{
    if n <= 0 {
        DemuxView {
            timestamp_scale_ns: 1_000_000,
            duration: None,
            tracks: Seq::empty(),
            frames: Seq::empty(),
        }
    } else if kids[n - 1].id == ids::SEGMENT {
        with_segment(buf, demux_after(buf, kids, n - 1), kids[n - 1])
    } else {
        demux_after(buf, kids, n - 1)
    }
}

/// What a stream holds.
pub open spec fn demux_of(buf: Seq<u8>) -> DemuxView {
    let kids = children_of(buf, 0, buf.len() as int);
    demux_after(buf, kids, kids.len() as int)
}

struct Header {
    id: u64,
    start: usize,
    end: usize,
}

impl View for Header {
    type V = HeaderView;

    closed spec fn view(&self) -> HeaderView {
        HeaderView { id: self.id as int, start: self.start as int, end: self.end as int }
    }
}

spec fn header_views(v: Seq<Header>) -> Seq<HeaderView> {
    v.map_values(|h: Header| h@)
}

fn read_header(buf: &[u8], pos: usize) -> (r: Option<Header>)
    requires
        pos <= buf@.len(),
    ensures
        match r {
            None => !has_header(buf@, pos as int),
            Some(h) => has_header(buf@, pos as int) && h@ == header_at(buf@, pos as int),
        },
{
    let rest: &[u8] = vstd::slice::slice_subrange(buf, pos, buf.len());
    assert(rest@ =~= buf@.skip(pos as int));
    let (id, id_len): (u64, usize) = read_vint(rest, true)?;
    let rest: &[u8] = vstd::slice::slice_subrange(rest, id_len, rest.len());
    assert(rest@ =~= buf@.skip(pos as int).skip(id_len as int));
    let (size, size_len): (u64, usize) = read_vint(rest, false)?;
    let start: usize = pos + id_len + size_len;
    let unknown: bool = size == bytes::pow_128(size_len) - 1;
    let end: usize = if unknown || size > (buf.len() - start) as u64 {
        buf.len()
    } else {
        start + size as usize
    };
    Some(Header { id, start, end })
}

/// The elements directly inside `start..end`.
fn children(buf: &[u8], start: usize, end: usize) -> (r: Vec<Header>)
    requires
        start <= buf@.len(),
    ensures
        header_views(r@) == children_of(buf@, start as int, end as int),
        forall|k: int|
            0 <= k < r@.len() ==> (#[trigger] r@[k]).start <= r@[k].end && r@[k].end <= buf@.len(),
{
    let mut out: Vec<Header> = Vec::new();
    let mut pos: usize = start;
    let ghost all = children_of(buf@, start as int, end as int);
    assert(header_views(out@) + all =~= all);
    loop
        invariant
            start <= pos <= buf@.len(),
            header_views(out@) + children_of(buf@, pos as int, end as int) == all,
            all == children_of(buf@, start as int, end as int),
            forall|k: int|
                0 <= k < out@.len() ==> (#[trigger] out@[k]).start <= out@[k].end && out@[k].end
                    <= buf@.len(),
        decreases buf@.len() - pos,
    {
        let ghost before = header_views(out@);
        assert(before + Seq::<HeaderView>::empty() =~= before);
        if pos >= end {
            return out;
        }
        let h: Header = match read_header(buf, pos) {
            None => {
                return out;
            },
            Some(h) => h,
        };
        proof {
            header_bounds(buf@, pos as int);
        }
        if h.start > end {
            return out;
        }
        let next: usize = h.end;
        let ghost view = h@;
        out.push(h);
        assert(header_views(out@) =~= before.push(view));
        assert(before.push(view) + children_of(buf@, next as int, end as int) =~= before + (
        seq![view] + children_of(buf@, next as int, end as int)));
        pos = next;
    }
}

fn read_uint(buf: &[u8], h: &Header) -> (r: u64)
    requires
        h.start <= h.end <= buf@.len(),
    ensures
        r == uint_at(buf@, h@),
{
    let len: usize = h.end - h.start;
    bytes::read_be(
        buf,
        h.start,
        if len > 8 {
            8
        } else {
            len
        },
    )
}

fn read_real(buf: &[u8], h: &Header) -> (r: RealBits)
    requires
        h.start <= h.end <= buf@.len(),
    ensures
        r == real_at(buf@, h@),
{
    proof {
        bytes::power_256_values();
    }
    if h.end - h.start == 4 {
        RealBits::Single(bytes::read_be(buf, h.start, 4) as u32)
    } else if h.end - h.start == 8 {
        RealBits::Double(bytes::read_be(buf, h.start, 8))
    } else {
        RealBits::Absent
    }
}

fn low_32(v: u64) -> (r: u32)
    ensures
        r == v % 0x1_0000_0000,
{
    (v % 0x1_0000_0000) as u32
}

fn parse_video(buf: &[u8], h: &Header, t: &mut Track)
    requires
        h.start <= h.end <= buf@.len(),
    ensures
        ({
            let kids = children_of(buf@, h@.start, h@.end);
            final(t)@ == video_after(buf@, old(t)@, kids, kids.len() as int)
        }),
{
    let inner: Vec<Header> = children(buf, h.start, h.end);
    let ghost kids = children_of(buf@, h@.start, h@.end);
    let mut i: usize = 0;
    while i < inner.len()
        invariant
            i <= inner@.len(),
            kids == header_views(inner@),
            forall|k: int|
                0 <= k < inner@.len() ==> (#[trigger] inner@[k]).start <= inner@[k].end
                    && inner@[k].end <= buf@.len(),
            t@ == video_after(buf@, old(t)@, kids, i as int),
        decreases inner@.len() - i,
    {
        let v: &Header = &inner[i];
        assert(kids[i as int] == v@);
        if v.id == ids::PIXEL_WIDTH {
            t.pixel_width = low_32(read_uint(buf, v));
        } else if v.id == ids::PIXEL_HEIGHT {
            t.pixel_height = low_32(read_uint(buf, v));
        }
        i = i + 1;
    }
}

fn parse_audio(buf: &[u8], h: &Header, t: &mut Track)
    requires
        h.start <= h.end <= buf@.len(),
    ensures
        ({
            let kids = children_of(buf@, h@.start, h@.end);
            final(t)@ == audio_after(buf@, old(t)@, kids, kids.len() as int)
        }),
{
    let inner: Vec<Header> = children(buf, h.start, h.end);
    let ghost kids = children_of(buf@, h@.start, h@.end);
    let mut i: usize = 0;
    while i < inner.len()
        invariant
            i <= inner@.len(),
            kids == header_views(inner@),
            forall|k: int|
                0 <= k < inner@.len() ==> (#[trigger] inner@[k]).start <= inner@[k].end
                    && inner@[k].end <= buf@.len(),
            t@ == audio_after(buf@, old(t)@, kids, i as int),
        decreases inner@.len() - i,
    {
        let a: &Header = &inner[i];
        assert(kids[i as int] == a@);
        if a.id == ids::SAMPLING_FREQUENCY {
            t.sampling_frequency = read_real(buf, a);
        } else if a.id == ids::CHANNELS {
            t.channels = low_32(read_uint(buf, a));
        }
        i = i + 1;
    }
}

/// The codec identifier in a track entry: its text, without the zero
/// characters that pad it.
pub fn codec_name(text: &str) -> (r: String)
    ensures
        r@ == text::trim_end_char(text@, '\0'),
{
    let chars: Vec<char> = text::chars_of(text);
    text::string_of(text::trimmed_end_char(chars.as_slice(), '\0'))
}

fn parse_track_entry(buf: &[u8], h: &Header) -> (r: Track)
    requires
        h.start <= h.end <= buf@.len(),
    ensures
        r@ == track_at(buf@, h@),
{
    let mut t: Track = Track::default();
    let entries: Vec<Header> = children(buf, h.start, h.end);
    let ghost kids = children_of(buf@, h@.start, h@.end);
    let mut i: usize = 0;
    while i < entries.len()
        invariant
            i <= entries@.len(),
            kids == header_views(entries@),
            forall|k: int|
                0 <= k < entries@.len() ==> (#[trigger] entries@[k]).start <= entries@[k].end
                    && entries@[k].end <= buf@.len(),
            t@ == track_after(buf@, kids, i as int),
        decreases entries@.len() - i,
    {
        let el: &Header = &entries[i];
        assert(kids[i as int] == el@);
        if el.id == ids::TRACK_NUMBER {
            t.number = read_uint(buf, el);
        } else if el.id == ids::TRACK_TYPE {
            t.track_type = Some(TrackType::from_u8((read_uint(buf, el) % 0x100) as u8));
        } else if el.id == ids::CODEC_ID {
            let raw: &[u8] = vstd::slice::slice_subrange(buf, el.start, el.end);
            let text: String = decode_lossy(raw);
            t.codec_id = codec_name(text.as_str());
        } else if el.id == ids::VIDEO {
            parse_video(buf, el, &mut t);
        } else if el.id == ids::AUDIO {
            parse_audio(buf, el, &mut t);
        }
        i = i + 1;
    }
    t
}

fn parse_tracks(buf: &[u8], h: &Header, out: &mut Vec<Track>)
    requires
        h.start <= h.end <= buf@.len(),
    ensures
        ({
            let kids = children_of(buf@, h@.start, h@.end);
            track_views(final(out)@) == track_views(old(out)@) + tracks_after(
                buf@,
                kids,
                kids.len() as int,
            )
        }),
{
    let entries: Vec<Header> = children(buf, h.start, h.end);
    let ghost kids = children_of(buf@, h@.start, h@.end);
    let ghost start = track_views(out@);
    let mut i: usize = 0;
    assert(start + Seq::<TrackView>::empty() =~= start);
    while i < entries.len()
        invariant
            i <= entries@.len(),
            kids == header_views(entries@),
            forall|k: int|
                0 <= k < entries@.len() ==> (#[trigger] entries@[k]).start <= entries@[k].end
                    && entries@[k].end <= buf@.len(),
            track_views(out@) == start + tracks_after(buf@, kids, i as int),
        decreases entries@.len() - i,
    {
        let te: &Header = &entries[i];
        assert(kids[i as int] == te@);
        if te.id == ids::TRACK_ENTRY {
            let ghost before = track_views(out@);
            let track: Track = parse_track_entry(buf, te);
            let ghost view = track@;
            out.push(track);
            assert(track_views(out@) =~= before.push(view));
            assert(start + tracks_after(buf@, kids, i as int).push(view) =~= (start + tracks_after(
                buf@,
                kids,
                i as int,
            )).push(view));
        }
        i = i + 1;
    }
}

/// Cuts a payload into pieces; what is left is the last piece.
fn cut<'a>(payload: &'a [u8], from: usize, sizes: &Vec<i128>) -> (r: Option<Vec<&'a [u8]>>)
    requires
        from <= payload@.len(),
    ensures
        ({
            let want = pieces(payload@, from as int, sizes@.map_values(|s: i128| s as int), 0);
            match r {
                None => want is None,
                Some(v) => want == Some(crate::h264::slice_views(v@)),
            }
        }),
{
    let ghost all = sizes@.map_values(|s: i128| s as int);
    let mut out: Vec<&'a [u8]> = Vec::new();
    let mut pos: usize = from;
    let mut k: usize = 0;
    assert(crate::h264::slice_views(out@) =~= Seq::<Seq<u8>>::empty());
    assert(match pieces(payload@, from as int, all, 0) {
        None => true,
        Some(rest) => Seq::<Seq<u8>>::empty() + rest =~= rest,
    });
    while k < sizes.len()
        invariant
            k <= sizes@.len(),
            pos <= payload@.len(),
            all == sizes@.map_values(|s: i128| s as int),
            match pieces(payload@, pos as int, all, k as int) {
                None => pieces(payload@, from as int, all, 0) is None,
                Some(rest) => pieces(payload@, from as int, all, 0) == Some(
                    crate::h264::slice_views(out@) + rest,
                ),
            },
        decreases sizes@.len() - k,
    {
        let size: i128 = sizes[k];
        assert(all[k as int] == size);
        if size < 0 || size > (payload.len() - pos) as i128 {
            return None;
        }
        let end: usize = pos + size as usize;
        let piece: &'a [u8] = vstd::slice::slice_subrange(payload, pos, end);
        let ghost before = crate::h264::slice_views(out@);
        out.push(piece);
        proof {
            assert(crate::h264::slice_views(out@) =~= before.push(piece@));
            match pieces(payload@, end as int, all, k + 1) {
                None => {},
                Some(rest) => {
                    assert(before.push(piece@) + rest =~= before + (seq![piece@] + rest));
                },
            }
        }
        pos = end;
        k = k + 1;
    }
    let last: &'a [u8] = vstd::slice::slice_subrange(payload, pos, payload.len());
    let ghost before = crate::h264::slice_views(out@);
    out.push(last);
    assert(last@ =~= payload@.skip(pos as int));
    assert(crate::h264::slice_views(out@) =~= before + seq![last@]);
    Some(out)
}

fn whole<'a>(payload: &'a [u8]) -> (r: Vec<&'a [u8]>)
    ensures
        crate::h264::slice_views(r@) == seq![payload@],
{
    let mut out: Vec<&'a [u8]> = Vec::new();
    out.push(payload);
    assert(crate::h264::slice_views(out@) =~= seq![payload@]);
    out
}

/// A size in Xiph lacing: its value and the position behind it.
fn read_xiph_size(payload: &[u8], from: usize) -> (r: Option<(i128, usize)>)
    ensures
        match r {
            None => xiph_size(payload@, from as int, 0) is None,
            Some((size, next)) => xiph_size(payload@, from as int, 0) == Some(
                (size as int, next as int),
            ) && next <= payload@.len(),
        },
{
    let mut sum: i128 = 0;
    let mut i: usize = from;
    while i < payload.len()
        invariant
            from <= i,
            i <= payload@.len() || i == from,
            sum == 255 * (i - from),
            xiph_size(payload@, from as int, 0) == xiph_size(payload@, i as int, sum as int),
        decreases payload@.len() - i,
    {
        let b: u8 = payload[i];
        i = i + 1;
        if b != 255 {
            return Some((sum + b as i128, i));
        }
        sum = sum + 255;
    }
    None
}

fn xiph_lacing<'a>(payload: &'a [u8]) -> (r: Vec<&'a [u8]>)
    ensures
        crate::h264::slice_views(r@) == xiph_frames(payload@),
{
    if payload.len() == 0 {
        return whole(payload);
    }
    let n: usize = payload[0] as usize;
    let mut sizes: Vec<i128> = Vec::new();
    let mut i: usize = 1;
    let mut k: usize = 0;
    assert(sizes@.map_values(|s: i128| s as int) =~= Seq::<int>::empty());
    while k < n
        invariant
            payload@.len() > 0,
            k <= n,
            n == payload@[0],
            i <= payload@.len(),
            xiph_sizes(payload@, 1, n as nat, Seq::empty()) == xiph_sizes(
                payload@,
                i as int,
                (n - k) as nat,
                sizes@.map_values(|s: i128| s as int),
            ),
        decreases n - k,
    {
        match read_xiph_size(payload, i) {
            None => {
                return whole(payload);
            },
            Some((size, next)) => {
                let ghost before = sizes@.map_values(|s: i128| s as int);
                sizes.push(size);
                assert(sizes@.map_values(|s: i128| s as int) =~= before.push(size as int));
                i = next;
            },
        }
        k = k + 1;
    }
    match cut(payload, i, &sizes) {
        None => whole(payload),
        Some(frames) => frames,
    }
}

fn ebml_lacing<'a>(payload: &'a [u8]) -> (r: Vec<&'a [u8]>)
    ensures
        crate::h264::slice_views(r@) == ebml_frames(payload@),
{
    if payload.len() == 0 {
        return whole(payload);
    }
    let rest: &[u8] = vstd::slice::slice_subrange(payload, 1, payload.len());
    assert(rest@ =~= payload@.skip(1));
    if payload[0] == 0 {
        return whole(rest);
    }
    let n: usize = payload[0] as usize - 1;
    let (first, len): (u64, usize) = match read_vint(rest, false) {
        None => {
            return whole(payload);
        },
        Some(x) => x,
    };
    let mut i: usize = 1 + len;
    let mut size: i128 = first as i128;
    let mut sizes: Vec<i128> = Vec::new();
    sizes.push(size);
    let mut k: usize = 0;
    assert(sizes@.map_values(|s: i128| s as int) =~= seq![crate::ebml::vint_value(
        payload@.skip(1),
        false,
    )]);
    while k < n
        invariant
            k <= n <= 254,
            i <= payload@.len(),
            payload@.len() > 0,
            n == payload@[0] - 1,
            crate::ebml::has_vint(payload@.skip(1)),
            len == crate::ebml::vint_len(payload@.skip(1)[0]),
            sizes@.len() > 0,
            size == sizes@.last(),
            -0x1_0000_0000_0000_0000 * (k + 1) <= size <= 0x1_0000_0000_0000_0000 * (k + 1),
            ebml_sizes(
                payload@,
                1 + len,
                n as nat,
                seq![crate::ebml::vint_value(payload@.skip(1), false)],
            ) == ebml_sizes(
                payload@,
                i as int,
                (n - k) as nat,
                sizes@.map_values(|s: i128| s as int),
            ),
        decreases n - k,
    {
        let rest: &[u8] = vstd::slice::slice_subrange(payload, i, payload.len());
        assert(rest@ =~= payload@.skip(i as int));
        let (raw, step): (u64, usize) = match read_vint(rest, false) {
            None => {
                return whole(payload);
            },
            Some(x) => x,
        };
        let half: u64 = bytes::pow_128(step) / 2;
        let ghost before = sizes@.map_values(|s: i128| s as int);
        assert(before.last() == size);
        size = size + raw as i128 - (half as i128 - 1);
        sizes.push(size);
        assert(sizes@.map_values(|s: i128| s as int) =~= before.push(size as int));
        i = i + step;
        k = k + 1;
    }
    match cut(payload, i, &sizes) {
        None => whole(payload),
        Some(frames) => frames,
    }
}

fn fixed_lacing<'a>(payload: &'a [u8]) -> (r: Vec<&'a [u8]>)
    ensures
        crate::h264::slice_views(r@) == fixed_frames(payload@),
{
    let mut out: Vec<&'a [u8]> = Vec::new();
    assert(crate::h264::slice_views(out@) =~= Seq::<Seq<u8>>::empty());
    if payload.len() == 0 {
        return out;
    }
    let count: usize = payload[0] as usize + 1;
    let body: &'a [u8] = vstd::slice::slice_subrange(payload, 1, payload.len());
    assert(body@ =~= payload@.skip(1));
    if body.len() % count != 0 {
        return whole(body);
    }
    let size: usize = body.len() / count;
    let ghost want = fixed_frames(payload@);
    let mut i: usize = 0;
    let mut pos: usize = 0;
    proof {
        vstd::arithmetic::div_mod::lemma_fundamental_div_mod(
            body@.len() as int,
            count as int,
        );
        assert(size * count == body@.len()) by (nonlinear_arith)
            requires
                body@.len() == count * size + 0,
        ;
        assert(size * 0 == 0) by (nonlinear_arith);
    }
    while i < count
        invariant
            i <= count,
            pos == size * i,
            size * count == body@.len(),
            want.len() == count,
            forall|j: int|
                0 <= j < count ==> #[trigger] want[j] == body@.subrange(size * j, size * j + size),
            out@.len() == i,
            forall|j: int| 0 <= j < i ==> (#[trigger] out@[j])@ == want[j],
        decreases count - i,
    {
        assert(size * i + size <= size * count) by (nonlinear_arith)
            requires
                i + 1 <= count,
        ;
        assert(size * (i + 1) == size * i + size) by (nonlinear_arith);
        assert(body@.len() == body.len());
        out.push(vstd::slice::slice_subrange(body, pos, pos + size));
        assert(want[i as int] == body@.subrange(size * i, size * i + size));
        pos = pos + size;
        i = i + 1;
    }
    assert(crate::h264::slice_views(out@) =~= want);
    out
}

fn to_signed(v: u64) -> (r: i64)
    ensures
        r == wrapped_i64(v as int),
{
    if v >= 0x8000_0000_0000_0000 {
        (v as i128 - 0x1_0000_0000_0000_0000) as i64
    } else {
        v as i64
    }
}

fn shifted_time(cluster_ts: i64, rel: i64) -> (r: i64)
    requires
        -0x8000 <= rel < 0x8000,
    ensures
        r == wrapped_i64(cluster_ts + rel),
{
    let sum: i128 = cluster_ts as i128 + rel as i128;
    if sum > i64::MAX as i128 {
        (sum - 0x1_0000_0000_0000_0000) as i64
    } else if sum < i64::MIN as i128 {
        (sum + 0x1_0000_0000_0000_0000) as i64
    } else {
        sum as i64
    }
}

fn parse_block(block: &[u8], cluster_ts: i64, simple: bool, scale_ns: u64, out: &mut Vec<Frame>)
    ensures
        frame_views(final(out)@) == frame_views(old(out)@) + block_frames(
            block@,
            cluster_ts as int,
            simple,
            scale_ns,
        ),
{
    let ghost start = frame_views(out@);
    let ghost want = block_frames(block@, cluster_ts as int, simple, scale_ns);
    assert(start + Seq::<FrameView>::empty() =~= start);
    let (track_number, n): (u64, usize) = match read_vint(block, false) {
        None => {
            return ;
        },
        Some(x) => x,
    };
    if block.len() - n < 3 {
        return ;
    }
    let unsigned: i64 = 0x100 * block[n] as i64 + block[n + 1] as i64;
    let rel: i64 = if unsigned >= 0x8000 {
        unsigned - 0x1_0000
    } else {
        unsigned
    };
    let flags: u8 = block[n + 2];
    let keyframe: bool = simple && flags >= 128;
    let lacing: u8 = (flags / 2) % 4;
    let timestamp: Timestamp = Timestamp { units: shifted_time(cluster_ts, rel), scale_ns };
    let payload: &[u8] = vstd::slice::slice_subrange(block, n + 3, block.len());
    assert(payload@ =~= block@.skip(n + 3));
    let frames: Vec<&[u8]> = match lacing {
        1 => xiph_lacing(payload),
        2 => fixed_lacing(payload),
        3 => ebml_lacing(payload),
        _ => whole(payload),
    };
    let ghost datas = laced_frames(payload@, lacing as int);
    let mut i: usize = 0;
    assert(frame_views(out@) =~= start + want.take(0));
    while i < frames.len()
        invariant
            i <= frames@.len(),
            datas == crate::h264::slice_views(frames@),
            want.len() == datas.len(),
            forall|j: int|
                0 <= j < datas.len() ==> #[trigger] want[j] == (FrameView {
                    track_number: track_number as int,
                    timestamp,
                    keyframe,
                    data: datas[j],
                }),
            frame_views(out@) == start + want.take(i as int),
        decreases frames@.len() - i,
    {
        let data: Vec<u8> = vstd::slice::slice_to_vec(frames[i]);
        assert(datas[i as int] == data@);
        let ghost before = frame_views(out@);
        let frame: Frame = Frame { track_number, timestamp, keyframe, data };
        let ghost view = frame@;
        out.push(frame);
        assert(frame_views(out@) =~= before.push(view));
        assert(want[i as int] == view);
        assert(start + want.take(i + 1) =~= (start + want.take(i as int)).push(view));
        i = i + 1;
    }
    assert(want.take(want.len() as int) =~= want);
}

fn parse_block_group(
    buf: &[u8],
    h: &Header,
    cluster_ts: i64,
    scale_ns: u64,
    out: &mut Vec<Frame>,
)
    requires
        h.start <= h.end <= buf@.len(),
    ensures
        ({
            let kids = children_of(buf@, h@.start, h@.end);
            frame_views(final(out)@) == frame_views(old(out)@) + group_after(
                buf@,
                kids,
                kids.len() as int,
                cluster_ts as int,
                scale_ns,
            )
        }),
{
    let inner: Vec<Header> = children(buf, h.start, h.end);
    let ghost kids = children_of(buf@, h@.start, h@.end);
    let ghost start = frame_views(out@);
    let mut i: usize = 0;
    assert(start + Seq::<FrameView>::empty() =~= start);
    while i < inner.len()
        invariant
            i <= inner@.len(),
            kids == header_views(inner@),
            forall|k: int|
                0 <= k < inner@.len() ==> (#[trigger] inner@[k]).start <= inner@[k].end
                    && inner@[k].end <= buf@.len(),
            frame_views(out@) == start + group_after(
                buf@,
                kids,
                i as int,
                cluster_ts as int,
                scale_ns,
            ),
        decreases inner@.len() - i,
    {
        let bg: &Header = &inner[i];
        assert(kids[i as int] == bg@);
        if bg.id == ids::BLOCK {
            let ghost before = group_after(buf@, kids, i as int, cluster_ts as int, scale_ns);
            let block: &[u8] = vstd::slice::slice_subrange(buf, bg.start, bg.end);
            parse_block(block, cluster_ts, false, scale_ns, out);
            assert(start + (before + block_frames(block@, cluster_ts as int, false, scale_ns))
                =~= start + before + block_frames(block@, cluster_ts as int, false, scale_ns));
        }
        i = i + 1;
    }
}

fn parse_cluster(buf: &[u8], h: &Header, scale_ns: u64, out: &mut Vec<Frame>)
    requires
        h.start <= h.end <= buf@.len(),
    ensures
        frame_views(final(out)@) == frame_views(old(out)@) + cluster_frames(buf@, h@, scale_ns),
{
    let inner: Vec<Header> = children(buf, h.start, h.end);
    let ghost kids = children_of(buf@, h@.start, h@.end);
    let ghost start = frame_views(out@);
    let mut cluster_ts: i64 = 0;
    let mut i: usize = 0;
    assert(start + Seq::<FrameView>::empty() =~= start);
    while i < inner.len()
        invariant
            i <= inner@.len(),
            kids == header_views(inner@),
            forall|k: int|
                0 <= k < inner@.len() ==> (#[trigger] inner@[k]).start <= inner@[k].end
                    && inner@[k].end <= buf@.len(),
            cluster_ts == cluster_after(buf@, kids, i as int, scale_ns).ts,
            frame_views(out@) == start + cluster_after(buf@, kids, i as int, scale_ns).frames,
        decreases inner@.len() - i,
    {
        let el: &Header = &inner[i];
        assert(kids[i as int] == el@);
        let ghost before = cluster_after(buf@, kids, i as int, scale_ns).frames;
        if el.id == ids::TIMESTAMP {
            cluster_ts = to_signed(read_uint(buf, el));
        } else if el.id == ids::SIMPLE_BLOCK {
            let block: &[u8] = vstd::slice::slice_subrange(buf, el.start, el.end);
            parse_block(block, cluster_ts, true, scale_ns, out);
            assert(start + (before + block_frames(block@, cluster_ts as int, true, scale_ns))
                =~= start + before + block_frames(block@, cluster_ts as int, true, scale_ns));
        } else if el.id == ids::BLOCK_GROUP {
            parse_block_group(buf, el, cluster_ts, scale_ns, out);
            proof {
                let deeper = children_of(buf@, el@.start, el@.end);
                let added = group_after(
                    buf@,
                    deeper,
                    deeper.len() as int,
                    cluster_ts as int,
                    scale_ns,
                );
                assert(start + (before + added) =~= start + before + added);
            }
        }
        i = i + 1;
    }
}

/// Reads the time scale and the duration of a segment.
fn parse_info(buf: &[u8], h: &Header, out: &mut WebmDemux, units: RealBits) -> (r: RealBits)
    requires
        h.start <= h.end <= buf@.len(),
    ensures
        ({
            let kids = children_of(buf@, h@.start, h@.end);
            SegmentState { found: final(out)@, units: r } == info_after(
                buf@,
                SegmentState { found: old(out)@, units },
                kids,
                kids.len() as int,
            )
        }),
{
    let inner: Vec<Header> = children(buf, h.start, h.end);
    let ghost kids = children_of(buf@, h@.start, h@.end);
    let ghost start = SegmentState { found: out@, units };
    let mut units: RealBits = units;
    let mut i: usize = 0;
    while i < inner.len()
        invariant
            i <= inner@.len(),
            kids == header_views(inner@),
            forall|k: int|
                0 <= k < inner@.len() ==> (#[trigger] inner@[k]).start <= inner@[k].end
                    && inner@[k].end <= buf@.len(),
            (SegmentState { found: out@, units }) == info_after(buf@, start, kids, i as int),
        decreases inner@.len() - i,
    {
        let el: &Header = &inner[i];
        assert(kids[i as int] == el@);
        if el.id == ids::TIMESTAMP_SCALE {
            let scale: u64 = read_uint(buf, el);
            out.timestamp_scale_ns = if scale < 1 {
                1
            } else {
                scale
            };
        } else if el.id == ids::DURATION {
            units = read_real(buf, el);
        }
        i = i + 1;
    }
    units
}

fn parse_segment(buf: &[u8], h: &Header, out: &mut WebmDemux)
    requires
        h.start <= h.end <= buf@.len(),
    ensures
        final(out)@ == with_segment(buf@, old(out)@, h@),
{
    let inner: Vec<Header> = children(buf, h.start, h.end);
    let ghost kids = children_of(buf@, h@.start, h@.end);
    let ghost start = out@;
    let mut units: RealBits = RealBits::Absent;
    let mut i: usize = 0;
    while i < inner.len()
        invariant
            i <= inner@.len(),
            kids == header_views(inner@),
            forall|k: int|
                0 <= k < inner@.len() ==> (#[trigger] inner@[k]).start <= inner@[k].end
                    && inner@[k].end <= buf@.len(),
            (SegmentState { found: out@, units }) == segment_after(buf@, start, kids, i as int),
        decreases inner@.len() - i,
    {
        let el: &Header = &inner[i];
        assert(kids[i as int] == el@);
        if el.id == ids::INFO {
            units = parse_info(buf, el, out, units);
        } else if el.id == ids::TRACKS {
            parse_tracks(buf, el, &mut out.tracks);
        } else if el.id == ids::CLUSTER {
            let scale_ns: u64 = out.timestamp_scale_ns;
            parse_cluster(buf, el, scale_ns, &mut out.frames);
        }
        i = i + 1;
    }
    if units.is_positive() {
        out.duration = Some(SegmentDuration { units, scale_ns: out.timestamp_scale_ns });
    }
}

/// Demuxes a complete stream.
pub fn demux(buf: &[u8]) -> (r: WebmDemux)
    ensures
        r@ == demux_of(buf@),
{
    let mut out: WebmDemux = WebmDemux {
        timestamp_scale_ns: 1_000_000,
        duration: None,
        tracks: Vec::new(),
        frames: Vec::new(),
    };
    let tops: Vec<Header> = children(buf, 0, buf.len());
    let ghost kids = children_of(buf@, 0, buf@.len() as int);
    let mut i: usize = 0;
    assert(out@.tracks =~= Seq::<TrackView>::empty());
    assert(out@.frames =~= Seq::<FrameView>::empty());
    while i < tops.len()
        invariant
            i <= tops@.len(),
            kids == header_views(tops@),
            forall|k: int|
                0 <= k < tops@.len() ==> (#[trigger] tops@[k]).start <= tops@[k].end && tops@[k].end
                    <= buf@.len(),
            out@ == demux_after(buf@, kids, i as int),
        decreases tops@.len() - i,
    {
        let top: &Header = &tops[i];
        assert(kids[i as int] == top@);
        if top.id == ids::SEGMENT {
            parse_segment(buf, top, &mut out);
        }
        i = i + 1;
    }
    out
}

/// Pieces put together again give the part of the payload that was cut up.
pub proof fn pieces_make_up_the_payload(payload: Seq<u8>, pos: int, sizes: Seq<int>, k: int)
    requires
        0 <= pos <= payload.len(),
        0 <= k <= sizes.len(),
        pieces(payload, pos, sizes, k) is Some,
    ensures
        pieces(payload, pos, sizes, k)->0.flatten() == payload.skip(pos),
        pieces(payload, pos, sizes, k)->0.len() == sizes.len() - k + 1,
    decreases sizes.len() - k,
{
    let cut = pieces(payload, pos, sizes, k)->0;
    if k >= sizes.len() {
        assert(cut.drop_first() =~= Seq::<Seq<u8>>::empty());
        assert(cut.flatten() =~= payload.skip(pos)) by {
            reveal_with_fuel(Seq::flatten, 2);
        }
    } else {
        let next = pos + sizes[k];
        let rest = pieces(payload, next, sizes, k + 1)->0;
        pieces_make_up_the_payload(payload, next, sizes, k + 1);
        assert(cut.drop_first() =~= rest);
        assert(payload.subrange(pos, next) + payload.skip(next) =~= payload.skip(pos));
        assert(cut.flatten() =~= cut[0] + rest.flatten()) by {
            reveal_with_fuel(Seq::flatten, 2);
        }
    }
}

/// A block yields at least one frame, except one with fixed-size lacing that
/// ends before its number of frames.
pub proof fn blocks_hold_frames(payload: Seq<u8>, lacing: int)
    requires
        lacing != 2 || payload.len() > 0,
    ensures
        laced_frames(payload, lacing).len() >= 1,
{
    if lacing == 1 && payload.len() > 0 {
        let sizes = xiph_sizes(payload, 1, payload[0] as nat, Seq::empty());
        if sizes is Some {
            pieces_are_not_empty(payload, (sizes->0).1, (sizes->0).0, 0);
        }
    } else if lacing == 3 && payload.len() > 0 && payload[0] > 0 {
        let v = payload.skip(1);
        let sizes = ebml_sizes(
            payload,
            1 + crate::ebml::vint_len(v[0]),
            (payload[0] - 1) as nat,
            seq![crate::ebml::vint_value(v, false)],
        );
        if sizes is Some {
            pieces_are_not_empty(payload, (sizes->0).1, (sizes->0).0, 0);
        }
    }
}

proof fn pieces_are_not_empty(payload: Seq<u8>, pos: int, sizes: Seq<int>, k: int)
    ensures
        pieces(payload, pos, sizes, k) matches Some(p) ==> p.len() >= 1,
    decreases sizes.len() - k,
{
    if k < sizes.len() {
        pieces_are_not_empty(payload, pos + sizes[k], sizes, k + 1);
    }
}

/// Elements follow one another: each ends where the next one starts at the
/// earliest, and all lie in the buffer.
pub proof fn elements_follow_one_another(buf: Seq<u8>, pos: int, end: int, i: int)
    requires
        0 <= pos <= buf.len(),
        0 <= i < children_of(buf, pos, end).len(),
    ensures
        pos < children_of(buf, pos, end)[i].start <= children_of(buf, pos, end)[i].end
            <= buf.len(),
        i + 1 < children_of(buf, pos, end).len() ==> children_of(buf, pos, end)[i].end
            < children_of(buf, pos, end)[i + 1].start,
    decreases buf.len() - pos,
{
    header_bounds(buf, pos);
    let first = header_at(buf, pos);
    let rest = children_of(buf, first.end, end);
    if i > 0 {
        elements_follow_one_another(buf, first.end, end, i - 1);
    } else if rest.len() > 0 {
        elements_follow_one_another(buf, first.end, end, 0);
    }
}

/// An element that was written with a size of `n` bytes between other bytes is
/// found there, with the payload that was written, and those behind it follow.
pub proof fn written_elements_are_walked(
    before: Seq<u8>,
    id: Seq<u8>,
    n: int,
    payload: Seq<u8>,
    behind: Seq<u8>,
    end: int,
)
    requires
        crate::ebml::has_vint(id),
        id.len() == crate::ebml::vint_len(id[0]),
        1 <= n <= 8,
        payload.len() + 1 < bytes::power_128(n as nat),
        end >= before.len() + id.len() + n + payload.len(),
    ensures
        ({
            let size = crate::ebml::written_size(payload.len() as int, n);
            let buf = before + (id + size + payload + behind);
            let start = before.len() + id.len() + n;
            let h = HeaderView {
                id: crate::ebml::vint_value(id, true),
                start,
                end: start + payload.len(),
            };
            &&& children_of(buf, before.len() as int, end) == seq![h] + children_of(
                buf,
                h.end,
                end,
            )
            &&& buf.subrange(h.start, h.end) == payload
        }),
{
    let size = crate::ebml::written_size(payload.len() as int, n);
    let pos = before.len() as int;
    let tail = id + size + payload + behind;
    let buf = before + tail;
    let start = pos + id.len() + n;
    crate::ebml::written_header_is_read(id, n, payload, behind);
    assert(buf.skip(pos) =~= tail);
    assert(buf.subrange(start, start + payload.len()) =~= payload) by {
        assert(size.len() == n);
    }
}

} // verus!
