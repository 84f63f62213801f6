//! HLS playlists (RFC 8216).
//!
//! A master playlist lists variant streams with their attributes, a media
//! playlist lists segments in order. Durations are kept as the text of a real
//! number.
use vstd::prelude::*;

use crate::text;

pub mod master;
pub mod written;

verus! {

/// A master playlist.
#[derive(Debug, Clone)]
pub struct MasterPlaylist {
    pub variants: Vec<Variant>,
}

impl Default for MasterPlaylist {
    fn default() -> (r: Self)
        ensures
            r.variants@.len() == 0,
    {
        MasterPlaylist { variants: Vec::new() }
    }
}

/// A variant stream.
#[derive(Debug, Clone)]
pub struct Variant {
    pub bandwidth: u32,
    pub codecs: String,
    pub resolution: Option<(u32, u32)>,
    pub uri: String,
}

/// A media playlist.
#[derive(Debug, Clone)]
pub struct MediaPlaylist {
    /// Target duration in seconds; absent if it is missing or no number.
    pub target_duration: Option<String>,
    pub media_sequence: u64,
    pub end_list: bool,
    pub segments: Vec<Segment>,
}

impl Default for MediaPlaylist {
    fn default() -> (r: Self)
        ensures
            r.target_duration is None,
            r.media_sequence == 0,
            !r.end_list,
            r.segments@.len() == 0,
    {
        MediaPlaylist {
            target_duration: None,
            media_sequence: 0,
            end_list: false,
            segments: Vec::new(),
        }
    }
}

/// A segment of a media playlist.
#[derive(Debug, Clone)]
pub struct Segment {
    /// Duration in seconds.
    pub duration: String,
    pub uri: String,
    /// Length and offset.
    pub byte_range: Option<(u64, u64)>,
    pub discontinuity: bool,
}

/// One of two things.
#[derive(Debug, Clone)]
pub enum Either<A, B> {
    Left(A),
    Right(B),
}

#[verifier::ext_equal]
pub struct VariantView {
    pub bandwidth: int,
    pub codecs: Seq<char>,
    pub resolution: Option<(int, int)>,
    pub uri: Seq<char>,
}

#[verifier::ext_equal]
pub struct SegmentView {
    pub duration: Seq<char>,
    pub uri: Seq<char>,
    pub byte_range: Option<(int, int)>,
    pub discontinuity: bool,
}

#[verifier::ext_equal]
pub struct MediaView {
    pub target_duration: Option<Seq<char>>,
    pub media_sequence: int,
    pub end_list: bool,
    pub segments: Seq<SegmentView>,
}

pub open spec fn pair32(p: Option<(u32, u32)>) -> Option<(int, int)> {
    match p {
        None => None,
        Some((a, b)) => Some((a as int, b as int)),
    }
}

pub open spec fn pair64(p: Option<(u64, u64)>) -> Option<(int, int)> {
    match p {
        None => None,
        Some((a, b)) => Some((a as int, b as int)),
    }
}

pub open spec fn optional_text(s: Option<String>) -> Option<Seq<char>> {
    match s {
        None => None,
        Some(t) => Some(t@),
    }
}

impl View for Variant {
    type V = VariantView;

    open spec fn view(&self) -> VariantView {
        VariantView {
            bandwidth: self.bandwidth as int,
            codecs: self.codecs@,
            resolution: pair32(self.resolution),
            uri: self.uri@,
        }
    }
}

impl View for Segment {
    type V = SegmentView;

    open spec fn view(&self) -> SegmentView {
        SegmentView {
            duration: self.duration@,
            uri: self.uri@,
            byte_range: pair64(self.byte_range),
            discontinuity: self.discontinuity,
        }
    }
}

pub open spec fn variant_views(v: Seq<Variant>) -> Seq<VariantView> {
    v.map_values(|x: Variant| x@)
}

pub open spec fn segment_views(v: Seq<Segment>) -> Seq<SegmentView> {
    v.map_values(|x: Segment| x@)
}

impl View for MasterPlaylist {
    type V = Seq<VariantView>;

    open spec fn view(&self) -> Seq<VariantView> {
        variant_views(self.variants@)
    }
}

impl View for MediaPlaylist {
    type V = MediaView;

    open spec fn view(&self) -> MediaView {
        MediaView {
            target_duration: optional_text(self.target_duration),
            media_sequence: self.media_sequence as int,
            end_list: self.end_list,
            segments: segment_views(self.segments@),
        }
    }
}

/// The first `n` parts, trimmed, without those that are blank.
pub open spec fn kept(parts: Seq<Seq<char>>, n: int) -> Seq<Seq<char>>
    decreases n,
{
    if n <= 0 {
        Seq::empty()
    } else if text::trim(parts[n - 1]).len() > 0 {
        kept(parts, n - 1).push(text::trim(parts[n - 1]))
    } else {
        kept(parts, n - 1)
    }
}

/// The lines of a playlist that are not blank, trimmed.
pub open spec fn lines_of(s: Seq<char>) -> Seq<Seq<char>> {
    let parts = text::split(s, '\n');
    kept(parts, parts.len() as int)
}

/// The end of the attribute value at the start of `s`: behind its closing
/// quote, or at a comma.
pub open spec fn value_end(s: Seq<char>) -> int {
    if s[0] == '"' {
        let q = text::find_from(s, '"', 1);
        if q < s.len() {
            q + 1
        } else {
            s.len() as int
        }
    } else {
        text::find(s, ',')
    }
}

/// What follows an attribute value and the comma behind it.
pub open spec fn behind_value(s: Seq<char>) -> Seq<char> {
    let e = value_end(s);
    if e < s.len() && s[e] == ',' {
        s.skip(e + 1)
    } else {
        s.skip(e)
    }
}

/// The names and values of an attribute list.
pub open spec fn attributes(s: Seq<char>) -> Seq<(Seq<char>, Seq<char>)>
    decreases s.len(),
    via attributes_decreases
{
    let e = text::find(s, '=');
    let rest = s.skip(e + 1);
    if e + 1 >= s.len() {
        Seq::empty()
    } else {
        seq![(text::trim(s.take(e)), text::trim(rest.take(value_end(rest))))] + attributes(
            behind_value(rest),
        )
    }
}

#[via_fn]
proof fn attributes_decreases(s: Seq<char>) {
    value_lies_behind_name(s);
}

proof fn value_lies_behind_name(s: Seq<char>)
    ensures
        0 <= text::find(s, '=') <= s.len(),
        text::find(s, '=') + 1 < s.len() ==> behind_value(s.skip(text::find(s, '=') + 1)).len()
            < s.len(),
{
    let e = text::find(s, '=');
    text::find_bound(s, '=', 0);
    if e + 1 < s.len() {
        value_end_bound(s.skip(e + 1));
    }
}

proof fn value_end_bound(s: Seq<char>)
    requires
        s.len() > 0,
    ensures
        0 <= value_end(s) <= s.len(),
        behind_value(s).len() <= s.len(),
{
    if s[0] == '"' {
        text::find_bound(s, '"', 1);
    } else {
        text::find_bound(s, ',', 0);
    }
}

/// No attribute list ends in an equals sign, that is without a value.
pub open spec fn has_values(s: Seq<char>) -> bool
    decreases s.len(),
    via has_values_decreases
{
    let e = text::find(s, '=');
    if e >= s.len() {
        true
    } else if e + 1 == s.len() {
        false
    } else {
        has_values(behind_value(s.skip(e + 1)))
    }
}

#[via_fn]
proof fn has_values_decreases(s: Seq<char>) {
    value_lies_behind_name(s);
}

/// The attributes of a variant stream that are of interest.
#[verifier::ext_equal]
pub struct StreamInfo {
    pub bandwidth: int,
    pub codecs: Seq<char>,
    pub resolution: Option<(int, int)>,
}

/// A resolution `WIDTHxHEIGHT`.
pub open spec fn resolution_of(v: Seq<char>) -> Option<(int, int)> {
    let x = text::find(v, 'x');
    let w = text::parsed(v.take(x), u32::MAX as int);
    let h = text::parsed(v.skip(x + 1), u32::MAX as int);
    if x < v.len() && w is Some && h is Some {
        Some((w->0, h->0))
    } else {
        None
    }
}

/// What an attribute adds to a variant's description. A bandwidth that is no
/// number counts as 0; a malformed resolution is ignored.
pub open spec fn with_attribute(info: StreamInfo, k: Seq<char>, v: Seq<char>) -> StreamInfo {
    if k == "BANDWIDTH"@ {
        let n = text::parsed(v, u32::MAX as int);
        StreamInfo {
            bandwidth: if n is Some {
                n->0
            } else {
                0
            },
            ..info
        }
    } else if k == "CODECS"@ {
        StreamInfo { codecs: text::trim_char(v, '"'), ..info }
    } else if k == "RESOLUTION"@ && resolution_of(v) is Some {
        StreamInfo { resolution: resolution_of(v), ..info }
    } else {
        info
    }
}

/// What the first `n` attributes say of a variant.
pub open spec fn stream_info(attrs: Seq<(Seq<char>, Seq<char>)>, n: int) -> StreamInfo
    decreases n,
{
    if n <= 0 {
        StreamInfo { bandwidth: 0, codecs: Seq::empty(), resolution: None }
    } else {
        with_attribute(stream_info(attrs, n - 1), attrs[n - 1].0, attrs[n - 1].1)
    }
}

/// What an attribute list says of a variant.
pub open spec fn stream_info_of(list: Seq<char>) -> StreamInfo {
    stream_info(attributes(list), attributes(list).len() as int)
}

/// The variants found so far, and the description of the one whose address is
/// still to come.
pub struct MasterState {
    pub variants: Seq<VariantView>,
    pub pending: Option<StreamInfo>,
}

/// What a line does to a master playlist.
pub open spec fn master_step(st: MasterState, line: Seq<char>) -> MasterState {
    if text::has_prefix(line, "#EXT-X-STREAM-INF:"@) {
        MasterState { pending: Some(stream_info_of(line.skip(18))), ..st }
    } else if line[0] == '#' || st.pending is None {
        st
    } else {
        let info = st.pending->0;
        MasterState {
            variants: st.variants.push(
                VariantView {
                    bandwidth: info.bandwidth,
                    codecs: info.codecs,
                    resolution: info.resolution,
                    uri: line,
                },
            ),
            pending: None,
        }
    }
}

/// A master playlist after its first `n` lines.
pub open spec fn master_after(body: Seq<Seq<char>>, n: int) -> MasterState
    decreases n,
{
    if n <= 0 {
        MasterState { variants: Seq::empty(), pending: None }
    } else {
        master_step(master_after(body, n - 1), body[n - 1])
    }
}

/// A media playlist as far as it has been read, and the duration, byte range
/// and discontinuity of the segment whose address is still to come.
pub struct MediaState {
    pub list: MediaView,
    pub duration: Option<Seq<char>>,
    pub byte_range: Option<(int, int)>,
    pub discontinuity: bool,
}

/// `s` if it is a real number.
pub open spec fn real_text(s: Seq<char>) -> Option<Seq<char>> {
    if text::is_real(s) {
        Some(s)
    } else {
        None
    }
}

/// A byte range `LENGTH@OFFSET`.
pub open spec fn byte_range_of(s: Seq<char>) -> Option<(int, int)> {
    let at = text::find(s, '@');
    let len = text::parsed(text::trim(s.take(at)), u64::MAX as int);
    let off = text::parsed(text::trim(s.skip(at + 1)), u64::MAX as int);
    if at < s.len() && len is Some && off is Some {
        Some((len->0, off->0))
    } else {
        None
    }
}

/// What a line does to a media playlist. A line that is no tag is the address
/// of a segment, and counts if a duration came before it.
pub open spec fn media_step(st: MediaState, line: Seq<char>) -> MediaState {
    if text::has_prefix(line, "#EXT-X-TARGETDURATION:"@) {
        MediaState {
            list: MediaView { target_duration: real_text(text::trim(line.skip(22))), ..st.list },
            ..st
        }
    } else if text::has_prefix(line, "#EXT-X-MEDIA-SEQUENCE:"@) {
        let n = text::parsed(text::trim(line.skip(22)), u64::MAX as int);
        MediaState {
            list: MediaView {
                media_sequence: if n is Some {
                    n->0
                } else {
                    0
                },
                ..st.list
            },
            ..st
        }
    } else if text::lowered(line) == "#ext-x-endlist"@ {
        MediaState { list: MediaView { end_list: true, ..st.list }, ..st }
    } else if text::lowered(line) == "#ext-x-discontinuity"@ {
        MediaState { discontinuity: true, ..st }
    } else if text::has_prefix(line, "#EXTINF:"@) {
        let rest = line.skip(8);
        MediaState { duration: real_text(text::trim(rest.take(text::find(rest, ',')))), ..st }
    } else if text::has_prefix(line, "#EXT-X-BYTERANGE:"@) {
        let range = byte_range_of(line.skip(17));
        MediaState {
            byte_range: if range is Some {
                range
            } else {
                st.byte_range
            },
            ..st
        }
    } else if line[0] == '#' || st.duration is None {
        st
    } else {
        MediaState {
            list: MediaView {
                segments: st.list.segments.push(
                    SegmentView {
                        duration: st.duration->0,
                        uri: line,
                        byte_range: st.byte_range,
                        discontinuity: st.discontinuity,
                    },
                ),
                ..st.list
            },
            duration: None,
            byte_range: None,
            discontinuity: false,
        }
    }
}

/// A media playlist after its first `n` lines.
pub open spec fn media_after(body: Seq<Seq<char>>, n: int) -> MediaState
    decreases n,
{
    if n <= 0 {
        MediaState {
            list: MediaView {
                target_duration: None,
                media_sequence: 0,
                end_list: false,
                segments: Seq::empty(),
            },
            duration: None,
            byte_range: None,
            discontinuity: false,
        }
    } else {
        media_step(media_after(body, n - 1), body[n - 1])
    }
}

/// A playlist is a master playlist if it describes a variant stream.
pub open spec fn is_master(body: Seq<Seq<char>>) -> bool {
    exists|k: int|
        0 <= k < body.len() && text::has_prefix(#[trigger] body[k], "#EXT-X-STREAM-INF"@)
}

/// The variants of a master playlist.
pub open spec fn master_of(body: Seq<Seq<char>>) -> Seq<VariantView> {
    master_after(body, body.len() as int).variants
}

/// The contents of a media playlist.
pub open spec fn media_of(body: Seq<Seq<char>>) -> MediaView {
    media_after(body, body.len() as int).list
}

/// Whether a text starts as playlists do.
pub open spec fn has_playlist_header(s: Seq<char>) -> bool {
    lines_of(s).len() > 0 && text::has_prefix(lines_of(s)[0], "#EXTM3U"@)
}

/// Every attribute of the variants of a playlist has a value. Texts that are no
/// playlists are not read that far.
pub open spec fn well_formed(s: Seq<char>) -> bool {
    has_playlist_header(s) ==> forall|k: int|
        0 <= k < lines_of(s).len() && text::has_prefix(
            #[trigger] lines_of(s)[k],
            "#EXT-X-STREAM-INF:"@,
        ) ==> has_values(lines_of(s)[k].skip(18))
}

fn read_lines<'a>(chars: &'a [char]) -> (r: Vec<&'a [char]>)
    ensures
        text::views(r@) == lines_of(chars@),
        forall|k: int| 0 <= k < r@.len() ==> (#[trigger] r@[k])@.len() > 0,
{
    let raw: Vec<&'a [char]> = text::split_at(chars, '\n');
    let ghost parts = text::split(chars@, '\n');
    let mut out: Vec<&'a [char]> = Vec::new();
    let mut i: usize = 0;
    assert(text::views(out@) =~= kept(parts, 0));
    while i < raw.len()
        invariant
            i <= raw@.len(),
            parts == text::views(raw@),
            text::views(out@) == kept(parts, i as int),
            forall|k: int| 0 <= k < out@.len() ==> (#[trigger] out@[k])@.len() > 0,
        decreases raw@.len() - i,
    {
        let ghost before = out@;
        let line: &'a [char] = text::trimmed(raw[i]);
        assert(parts[i as int] == raw@[i as int]@);
        if line.len() > 0 {
            out.push(line);
            assert(text::views(out@) =~= text::views(before).push(line@));
        }
        i = i + 1;
    }
    out
}

/// The end of the attribute value at the start of a text.
fn find_value_end(s: &[char]) -> (r: usize)
    requires
        s@.len() > 0,
    ensures
        r == value_end(s@),
        r <= s@.len(),
{
    if s[0] == '"' {
        let q: usize = text::position_from(s, '"', 1);
        if q < s.len() {
            q + 1
        } else {
            s.len()
        }
    } else {
        text::position_from(s, ',', 0)
    }
}

fn all_have_values(list: &[char]) -> (r: bool)
    ensures
        r == has_values(list@),
{
    let mut rest: &[char] = list;
    loop
        invariant
            has_values(list@) == has_values(rest@),
        decreases rest@.len(),
    {
        let e: usize = match text::position(rest, '=') {
            None => {
                return true;
            },
            Some(e) => e,
        };
        if e + 1 == rest.len() {
            return false;
        }
        let value: &[char] = text::tail(rest, e + 1);
        let end: usize = find_value_end(value);
        if end < value.len() && value[end] == ',' {
            rest = text::tail(value, end + 1);
        } else {
            rest = text::tail(value, end);
        }
    }
}

fn apply_attribute(info: (u32, Vec<char>, Option<(u32, u32)>), k: &[char], v: &[char]) -> (r: (
    u32,
    Vec<char>,
    Option<(u32, u32)>,
))
    ensures
        info_view(r) == with_attribute(info_view(info), k@, v@),
{
    let (bandwidth, codecs, resolution): (u32, Vec<char>, Option<(u32, u32)>) = info;
    if text::is_text(k, "BANDWIDTH") {
        let n: u32 = match text::parse_number(v, u32::MAX as u64) {
            Some(n) => n as u32,
            None => 0,
        };
        return (n, codecs, resolution);
    }
    if text::is_text(k, "CODECS") {
        let inner: &[char] = text::trimmed_char(v, '"');
        return (bandwidth, vstd::slice::slice_to_vec(inner), resolution);
    }
    if text::is_text(k, "RESOLUTION") {
        if let Some(x) = text::position(v, 'x') {
            let w: Option<u64> = text::parse_number(text::head(v, x), u32::MAX as u64);
            let h: Option<u64> = text::parse_number(text::tail(v, x + 1), u32::MAX as u64);
            if let (Some(w), Some(h)) = (w, h) {
                return (bandwidth, codecs, Some((w as u32, h as u32)));
            }
        }
    }
    (bandwidth, codecs, resolution)
}

spec fn info_view(info: (u32, Vec<char>, Option<(u32, u32)>)) -> StreamInfo {
    StreamInfo { bandwidth: info.0 as int, codecs: info.1@, resolution: pair32(info.2) }
}

/// The description that an attribute list gives of a variant.
fn read_stream_info(list: &[char]) -> (r: (u32, Vec<char>, Option<(u32, u32)>))
    requires
        has_values(list@),
    ensures
        info_view(r) == stream_info_of(list@),
{
    let mut info: (u32, Vec<char>, Option<(u32, u32)>) = (0, Vec::new(), None);
    let mut rest: &[char] = list;
    let ghost all = attributes(list@);
    let ghost mut n: int = 0;
    proof {
        assert(info_view(info) =~= stream_info(all, 0));
        assert(all.skip(0) =~= all);
    }
    loop
        invariant
            all == attributes(list@),
            has_values(rest@),
            0 <= n <= all.len(),
            attributes(rest@) == all.skip(n),
            info_view(info) == stream_info(all, n),
        decreases rest@.len(),
    {
        let e: usize = match text::position(rest, '=') {
            None => {
                assert(attributes(rest@).len() == 0);
                return info;
            },
            Some(e) => e,
        };
        let key: &[char] = text::trimmed(text::head(rest, e));
        let value: &[char] = text::tail(rest, e + 1);
        let end: usize = find_value_end(value);
        let val: &[char] = text::trimmed(text::head(value, end));
        let ghost now = attributes(rest@);
        let next: &[char] = if end < value.len() && value[end] == ',' {
            text::tail(value, end + 1)
        } else {
            text::tail(value, end)
        };
        proof {
            assert(now[0] == (key@, val@));
            assert(all.skip(n).len() == all.len() - n);
            assert(all.skip(n)[0] == all[n]);
            assert(now.skip(1) =~= attributes(next@));
            assert(all.skip(n).skip(1) =~= all.skip(n + 1));
        }
        info = apply_attribute(info, key, val);
        rest = next;
        proof {
            n = n + 1;
        }
    }
}

fn parse_master(body: &Vec<&[char]>) -> (r: MasterPlaylist)
    requires
        forall|k: int| 0 <= k < body@.len() ==> (#[trigger] body@[k])@.len() > 0,
        forall|k: int|
            0 <= k < body@.len() && text::has_prefix(
                (#[trigger] body@[k])@,
                "#EXT-X-STREAM-INF:"@,
            ) ==> has_values(body@[k]@.skip(18)),
    ensures
        r@ == master_of(text::views(body@)),
{
    let ghost lines = text::views(body@);
    let mut variants: Vec<Variant> = Vec::new();
    let mut pending: Option<(u32, Vec<char>, Option<(u32, u32)>)> = None;
    let mut i: usize = 0;
    proof {
        reveal_strlit("#EXT-X-STREAM-INF:");
        assert(variant_views(variants@) =~= Seq::<VariantView>::empty());
    }
    while i < body.len()
        invariant
            i <= body@.len(),
            lines == text::views(body@),
            "#EXT-X-STREAM-INF:"@.len() == 18,
            forall|k: int| 0 <= k < body@.len() ==> (#[trigger] body@[k])@.len() > 0,
            forall|k: int|
                0 <= k < body@.len() && text::has_prefix(
                    (#[trigger] body@[k])@,
                    "#EXT-X-STREAM-INF:"@,
                ) ==> has_values(body@[k]@.skip(18)),
            variant_views(variants@) == master_after(lines, i as int).variants,
            match pending {
                None => master_after(lines, i as int).pending is None,
                Some(info) => master_after(lines, i as int).pending == Some(info_view(info)),
            },
        decreases body@.len() - i,
    {
        let line: &[char] = body[i];
        assert(lines[i as int] == line@);
        i = i + 1;
        if let Some(rest) = text::strip_prefix(line, "#EXT-X-STREAM-INF:") {
            pending = Some(read_stream_info(rest));
            continue ;
        }
        if line[0] == '#' {
            continue ;
        }
        if let Some((bandwidth, codecs, resolution)) = pending {
            let ghost before = variants@;
            let variant: Variant = Variant {
                bandwidth,
                codecs: text::string_of(codecs.as_slice()),
                resolution,
                uri: text::string_of(line),
            };
            variants.push(variant);
            assert(variant_views(variants@) =~= variant_views(before).push(variant@));
            pending = None;
        }
    }
    MasterPlaylist { variants }
}

fn number_or_zero(s: &[char]) -> (r: u64)
    ensures
        r == (match text::parsed(s@, u64::MAX as int) {
            Some(n) => n,
            None => 0int,
        }),
{
    match text::parse_number(s, u64::MAX) {
        Some(n) => n,
        None => 0,
    }
}

fn real_or_none(s: &[char]) -> (r: Option<String>)
    ensures
        optional_text(r) == real_text(s@),
{
    if text::is_real_text(s) {
        Some(text::string_of(s))
    } else {
        None
    }
}

fn read_byte_range(s: &[char]) -> (r: Option<(u64, u64)>)
    ensures
        pair64(r) == byte_range_of(s@),
{
    let at: usize = text::position(s, '@')?;
    let len: u64 = text::parse_number(text::trimmed(text::head(s, at)), u64::MAX)?;
    let off: u64 = text::parse_number(text::trimmed(text::tail(s, at + 1)), u64::MAX)?;
    Some((len, off))
}

fn lowercase_is(line: &[char], literal: &str) -> (r: bool)
    ensures
        r == (text::lowered(line@) == literal@),
{
    let lower: Vec<char> = text::lowercase(line);
    text::is_text(lower.as_slice(), literal)
}

fn parse_media(body: &Vec<&[char]>) -> (r: MediaPlaylist)
    requires
        forall|k: int| 0 <= k < body@.len() ==> (#[trigger] body@[k])@.len() > 0,
    ensures
        r@ == media_of(text::views(body@)),
{
    let ghost lines = text::views(body@);
    let mut out: MediaPlaylist = MediaPlaylist::default();
    let mut duration: Option<String> = None;
    let mut byte_range: Option<(u64, u64)> = None;
    let mut discontinuity: bool = false;
    let mut i: usize = 0;
    proof {
        reveal_strlit("#EXT-X-TARGETDURATION:");
        reveal_strlit("#EXT-X-MEDIA-SEQUENCE:");
        reveal_strlit("#EXTINF:");
        reveal_strlit("#EXT-X-BYTERANGE:");
        assert(segment_views(out.segments@) =~= Seq::<SegmentView>::empty());
    }
    while i < body.len()
        invariant
            i <= body@.len(),
            lines == text::views(body@),
            "#EXT-X-TARGETDURATION:"@.len() == 22,
            "#EXT-X-MEDIA-SEQUENCE:"@.len() == 22,
            "#EXTINF:"@.len() == 8,
            "#EXT-X-BYTERANGE:"@.len() == 17,
            forall|k: int| 0 <= k < body@.len() ==> (#[trigger] body@[k])@.len() > 0,
            ({
                let st = media_after(lines, i as int);
                &&& out@ == st.list
                &&& optional_text(duration) == st.duration
                &&& pair64(byte_range) == st.byte_range
                &&& discontinuity == st.discontinuity
            }),
        decreases body@.len() - i,
    {
        let line: &[char] = body[i];
        assert(lines[i as int] == line@);
        i = i + 1;
        if let Some(rest) = text::strip_prefix(line, "#EXT-X-TARGETDURATION:") {
            out.target_duration = real_or_none(text::trimmed(rest));
            continue ;
        }
        if let Some(rest) = text::strip_prefix(line, "#EXT-X-MEDIA-SEQUENCE:") {
            out.media_sequence = number_or_zero(text::trimmed(rest));
            continue ;
        }
        if lowercase_is(line, "#ext-x-endlist") {
            out.end_list = true;
            continue ;
        }
        if lowercase_is(line, "#ext-x-discontinuity") {
            discontinuity = true;
            continue ;
        }
        if let Some(rest) = text::strip_prefix(line, "#EXTINF:") {
            let comma: usize = text::position_from(rest, ',', 0);
            duration = real_or_none(text::trimmed(text::head(rest, comma)));
            continue ;
        }
        if let Some(rest) = text::strip_prefix(line, "#EXT-X-BYTERANGE:") {
            let range: Option<(u64, u64)> = read_byte_range(rest);
            if range.is_some() {
                byte_range = range;
            }
            continue ;
        }
        if line[0] == '#' {
            continue ;
        }
        if let Some(d) = duration {
            let ghost before = out.segments@;
            let segment: Segment = Segment {
                duration: d,
                uri: text::string_of(line),
                byte_range,
                discontinuity,
            };
            out.segments.push(segment);
            assert(segment_views(out.segments@) =~= segment_views(before).push(segment@));
            duration = None;
            byte_range = None;
            discontinuity = false;
        }
    }
    out
}

/// Whether every attribute of the variants of a playlist has a value, if the text
/// is a playlist.
pub fn check_attributes(text: &str) -> (r: bool)
    ensures
        r == well_formed(text@),
{
    let chars: Vec<char> = text::chars_of(text);
    let lines: Vec<&[char]> = read_lines(chars.as_slice());
    let ghost all = lines_of(text@);
    if lines.len() == 0 {
        return true;
    }
    let header: &[char] = lines[0];
    assert(all[0] == header@);
    if !text::starts_with(header, "#EXTM3U") {
        return true;
    }
    proof {
        reveal_strlit("#EXT-X-STREAM-INF:");
    }
    let mut i: usize = 0;
    while i < lines.len()
        invariant
            i <= lines@.len(),
            all == lines_of(text@),
            all == text::views(lines@),
            has_playlist_header(text@),
            "#EXT-X-STREAM-INF:"@.len() == 18,
            forall|k: int|
                0 <= k < i && text::has_prefix(#[trigger] all[k], "#EXT-X-STREAM-INF:"@)
                    ==> has_values(all[k].skip(18)),
        decreases lines@.len() - i,
    {
        let line: &[char] = lines[i];
        assert(all[i as int] == line@);
        if let Some(rest) = text::strip_prefix(line, "#EXT-X-STREAM-INF:") {
            if !all_have_values(rest) {
                return false;
            }
        }
        i = i + 1;
    }
    true
}

/// Parses a playlist. It is refused if it is blank or does not start with
/// `#EXTM3U`.
pub fn parse(text: &str) -> (r: Result<Either<MasterPlaylist, MediaPlaylist>, String>)
    requires
        well_formed(text@),
    ensures
        ({
            let lines = lines_of(text@);
            let body = lines.skip(1);
            if lines.len() == 0 {
                r matches Err(e) && e@ == "empty playlist"@
            } else if !text::has_prefix(lines[0], "#EXTM3U"@) {
                r matches Err(e) && e@ == "missing #EXTM3U"@
            } else if is_master(body) {
                r matches Ok(Either::Left(m)) && m@ == master_of(body)
            } else {
                r matches Ok(Either::Right(m)) && m@ == media_of(body)
            }
        }),
{
    let chars: Vec<char> = text::chars_of(text);
    let mut lines: Vec<&[char]> = read_lines(chars.as_slice());
    let ghost all = lines_of(text@);
    if lines.len() == 0 {
        return Err("empty playlist".to_owned());
    }
    let header: &[char] = lines[0];
    assert(all[0] == header@);
    if !text::starts_with(header, "#EXTM3U") {
        return Err("missing #EXTM3U".to_owned());
    }
    let ghost before = lines@;
    let _header: &[char] = lines.remove(0);
    let ghost body = all.skip(1);
    assert(text::views(lines@) =~= body);
    assert forall|k: int| 0 <= k < lines@.len() implies (#[trigger] lines@[k])@.len() > 0 by {
        assert(lines@[k] == before[k + 1]);
    }
    assert forall|k: int|
        0 <= k < lines@.len() && text::has_prefix(
            (#[trigger] lines@[k])@,
            "#EXT-X-STREAM-INF:"@,
        ) implies has_values(lines@[k]@.skip(18)) by {
        assert(all[k + 1] == lines@[k]@);
    }
    let mut i: usize = 0;
    while i < lines.len()
        invariant
            i <= lines@.len(),
            body == text::views(lines@),
            body == lines_of(text@).skip(1),
            lines_of(text@).len() > 0,
            text::has_prefix(lines_of(text@)[0], "#EXTM3U"@),
            forall|k: int| 0 <= k < lines@.len() ==> (#[trigger] lines@[k])@.len() > 0,
            forall|k: int|
                0 <= k < lines@.len() && text::has_prefix(
                    (#[trigger] lines@[k])@,
                    "#EXT-X-STREAM-INF:"@,
                ) ==> has_values(lines@[k]@.skip(18)),
            forall|k: int|
                0 <= k < i ==> !text::has_prefix(#[trigger] body[k], "#EXT-X-STREAM-INF"@),
        decreases lines@.len() - i,
    {
        assert(body[i as int] == lines@[i as int]@);
        if text::starts_with(lines[i], "#EXT-X-STREAM-INF") {
            return Ok(Either::Left(parse_master(&lines)));
        }
        i = i + 1;
    }
    Ok(Either::Right(parse_media(&lines)))
}

/// Every segment has a duration that is a number, and the address of one is a
/// line of the playlist that is no tag.
pub proof fn segments_have_durations(body: Seq<Seq<char>>, n: int, k: int)
    requires
        0 <= n <= body.len(),
        0 <= k < media_after(body, n).list.segments.len(),
    ensures
        text::is_real(media_after(body, n).list.segments[k].duration),
        exists|j: int|
            0 <= j < n && #[trigger] body[j] == media_after(body, n).list.segments[k].uri && body[j][0]
                != '#',
    decreases n,
{
    reveal_with_fuel(media_after, 2);
    pending_duration_is_real(body, n - 1);
    let before = media_after(body, n - 1);
    if k < before.list.segments.len() {
        segments_have_durations(body, n - 1, k);
    } else {
        assert(body[n - 1] == media_after(body, n).list.segments[k].uri);
    }
}

proof fn pending_duration_is_real(body: Seq<Seq<char>>, n: int)
    ensures
        media_after(body, n).duration matches Some(d) ==> text::is_real(d),
    decreases n,
{
    if n > 0 {
        pending_duration_is_real(body, n - 1);
    }
}

/// Comments change nothing, and neither do addresses that nothing was said of before.
pub proof fn comments_and_stray_addresses_are_skipped(
    master: MasterState,
    media: MediaState,
    line: Seq<char>,
)
    requires
        line.len() > 0,
    ensures
        line.len() > 1 && line[0] == '#' && line[1] != 'E' && line[1] != 'e' ==> master_step(
            master,
            line,
        ) == master && media_step(media, line) == media,
        line[0] != '#' && master.pending is None ==> master_step(master, line) == master,
        line[0] != '#' && media.duration is None ==> media_step(media, line).list == media.list,
{
    reveal_strlit("#EXT-X-STREAM-INF:");
    reveal_strlit("#EXT-X-TARGETDURATION:");
    reveal_strlit("#EXT-X-MEDIA-SEQUENCE:");
    reveal_strlit("#EXTINF:");
    reveal_strlit("#EXT-X-BYTERANGE:");
    reveal_strlit("#ext-x-endlist");
    reveal_strlit("#ext-x-discontinuity");
    let low = text::lowered(line);
    assert(low[0] == text::ascii_lower(line[0]));
    if line.len() > 1 {
        assert(low[1] == text::ascii_lower(line[1]));
    }
    assert forall|p: Seq<char>| #[trigger] text::has_prefix(line, p) && p.len() > 1 implies line[0]
        == p[0] && line[1] == p[1] by {
        assert(line.take(p.len() as int)[0] == line[0]);
        assert(line.take(p.len() as int)[1] == line[1]);
    }
}

/// A resolution is a width and a height with an `x` between them; one without is ignored,
/// and a bandwidth that is no number counts as none.
pub proof fn malformed_attributes_are_ignored(info: StreamInfo, v: Seq<char>)
    ensures
        (forall|i: int| 0 <= i < v.len() ==> #[trigger] v[i] != 'x') ==> with_attribute(
            info,
            "RESOLUTION"@,
            v,
        ) == info,
        v.len() > 0 && !text::all_digits(v) && v[0] != '+' ==> with_attribute(
            info,
            "BANDWIDTH"@,
            v,
        ) == (StreamInfo { bandwidth: 0, ..info }),
{
    reveal_strlit("RESOLUTION");
    reveal_strlit("BANDWIDTH");
    reveal_strlit("CODECS");
    assert("RESOLUTION"@.len() != "BANDWIDTH"@.len());
    assert("RESOLUTION"@.len() != "CODECS"@.len());
    if forall|i: int| 0 <= i < v.len() ==> #[trigger] v[i] != 'x' {
        text::written::not_found(v, 'x', 0);
    }
}

} // verus!
