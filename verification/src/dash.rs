//! DASH manifests (ISO/IEC 23009-1): periods, adaptation sets and
//! representations, found by a thin walk over the tags of the document.
//!
//! Missing and malformed tags leave defaults. Durations are kept as the text of
//! a real number of seconds.
use vstd::prelude::*;

use crate::text;

pub mod written;

verus! {

/// A manifest.
#[derive(Debug, Clone)]
pub struct Mpd {
    pub periods: Vec<Period>,
    /// Seconds; absent if missing or no number.
    pub min_buffer_time: Option<String>,
    /// Seconds; absent if missing or no number.
    pub media_presentation_duration: Option<String>,
}

/// A period of a manifest.
#[derive(Debug, Clone)]
pub struct Period {
    pub id: String,
    /// Seconds; absent if missing or no number.
    pub start: Option<String>,
    pub adaptation_sets: Vec<AdaptationSet>,
}

/// A set of interchangeable representations.
#[derive(Debug, Clone)]
pub struct AdaptationSet {
    pub mime_type: String,
    pub representations: Vec<Representation>,
}

/// One encoding of a period's content.
#[derive(Debug, Clone)]
pub struct Representation {
    pub id: String,
    pub bandwidth: u32,
    pub width: Option<u32>,
    pub height: Option<u32>,
    pub codecs: String,
    pub base_url: String,
}

#[verifier::ext_equal]
pub struct RepresentationView {
    pub id: Seq<char>,
    pub bandwidth: int,
    pub width: Option<int>,
    pub height: Option<int>,
    pub codecs: Seq<char>,
    pub base_url: Seq<char>,
}

#[verifier::ext_equal]
pub struct AdaptationSetView {
    pub mime_type: Seq<char>,
    pub representations: Seq<RepresentationView>,
}

#[verifier::ext_equal]
pub struct PeriodView {
    pub id: Seq<char>,
    pub start: Option<Seq<char>>,
    pub adaptation_sets: Seq<AdaptationSetView>,
}

#[verifier::ext_equal]
pub struct MpdView {
    pub periods: Seq<PeriodView>,
    pub min_buffer_time: Option<Seq<char>>,
    pub media_presentation_duration: Option<Seq<char>>,
}

pub open spec fn optional_text(s: Option<String>) -> Option<Seq<char>> {
    match s {
        None => None,
        Some(t) => Some(t@),
    }
}

pub open spec fn optional_int(n: Option<u32>) -> Option<int> {
    match n {
        None => None,
        Some(v) => Some(v as int),
    }
}

impl View for Representation {
    type V = RepresentationView;

    open spec fn view(&self) -> RepresentationView {
        RepresentationView {
            id: self.id@,
            bandwidth: self.bandwidth as int,
            width: optional_int(self.width),
            height: optional_int(self.height),
            codecs: self.codecs@,
            base_url: self.base_url@,
        }
    }
}

pub open spec fn representation_views(v: Seq<Representation>) -> Seq<RepresentationView> {
    v.map_values(|x: Representation| x@)
}

impl View for AdaptationSet {
    type V = AdaptationSetView;

    open spec fn view(&self) -> AdaptationSetView {
        AdaptationSetView {
            mime_type: self.mime_type@,
            representations: representation_views(self.representations@),
        }
    }
}

pub open spec fn adaptation_set_views(v: Seq<AdaptationSet>) -> Seq<AdaptationSetView> {
    v.map_values(|x: AdaptationSet| x@)
}

impl View for Period {
    type V = PeriodView;

    open spec fn view(&self) -> PeriodView {
        PeriodView {
            id: self.id@,
            start: optional_text(self.start),
            adaptation_sets: adaptation_set_views(self.adaptation_sets@),
        }
    }
}

pub open spec fn period_views(v: Seq<Period>) -> Seq<PeriodView> {
    v.map_values(|x: Period| x@)
}

impl View for Mpd {
    type V = MpdView;

    open spec fn view(&self) -> MpdView {
        MpdView {
            periods: period_views(self.periods@),
            min_buffer_time: optional_text(self.min_buffer_time),
            media_presentation_duration: optional_text(self.media_presentation_duration),
        }
    }
}

/// A manifest without anything in it.
pub open spec fn empty_mpd() -> MpdView {
    MpdView {
        periods: Seq::empty(),
        min_buffer_time: None,
        media_presentation_duration: None,
    }
}

impl Default for Mpd {
    fn default() -> (r: Self)
        ensures
            r@ == empty_mpd(),
    {
        let r: Mpd = Mpd {
            periods: Vec::new(),
            min_buffer_time: None,
            media_presentation_duration: None,
        };
        assert(r@.periods =~= Seq::<PeriodView>::empty());
        r
    }
}

impl Default for Period {
    fn default() -> (r: Self)
        ensures
            r.id@.len() == 0,
            r.start is None,
            r.adaptation_sets@.len() == 0,
    {
        Period { id: String::new(), start: None, adaptation_sets: Vec::new() }
    }
}

impl Default for AdaptationSet {
    fn default() -> (r: Self)
        ensures
            r.mime_type@.len() == 0,
            r.representations@.len() == 0,
    {
        AdaptationSet { mime_type: String::new(), representations: Vec::new() }
    }
}

impl Default for Representation {
    fn default() -> (r: Self)
        ensures
            r.id@.len() == 0,
            r.bandwidth == 0,
            r.width is None,
            r.height is None,
            r.codecs@.len() == 0,
            r.base_url@.len() == 0,
    {
        Representation {
            id: String::new(),
            bandwidth: 0,
            width: None,
            height: None,
            codecs: String::new(),
            base_url: String::new(),
        }
    }
}

/// The ASCII white space characters.
pub open spec fn is_ascii_white(c: char) -> bool {
    c == ' ' || c == '\t' || c == '\n' || c == '\r' || c as int == 0xC
}

/// Position of the first ASCII white space in `s` at or behind `i`, or the
/// length.
pub open spec fn find_ascii_white(s: Seq<char>, i: int) -> int
    decreases s.len() - i,
{
    if i < s.len() && !is_ascii_white(s[i]) {
        find_ascii_white(s, i + 1)
    } else {
        i
    }
}

/// `s` without the ASCII white space at its start.
pub open spec fn skip_ascii_white(s: Seq<char>) -> Seq<char>
    decreases s.len(),
{
    if s.len() > 0 && is_ascii_white(s[0]) {
        skip_ascii_white(s.skip(1))
    } else {
        s
    }
}

/// A tag: its name, its attributes in order, and whether a slash stands at its
/// start or at its end.
#[verifier::ext_equal]
pub struct TagView {
    pub name: Seq<char>,
    pub attrs: Seq<(Seq<char>, Seq<char>)>,
    pub is_close: bool,
    pub is_self_close: bool,
}

/// The attributes `name="value"` at the start of `s`, up to the first that is
/// malformed. Attributes without a name are dropped.
pub open spec fn attributes(s: Seq<char>) -> Seq<(Seq<char>, Seq<char>)>
    decreases s.len(),
    via attributes_decreases
{
    let e = text::find(s, '=');
    let key = text::trim(s.take(e));
    let v = s.skip(e + 1);
    let q = text::find_from(v, '"', 1);
    if e + 1 >= s.len() || v[0] != '"' {
        Seq::empty()
    } else {
        let rest = attributes(skip_ascii_white(v.skip(if q < v.len() {
            q + 1
        } else {
            q
        })));
        if key.len() > 0 {
            seq![(key, v.subrange(1, q))] + rest
        } else {
            rest
        }
    }
}

#[via_fn]
proof fn attributes_decreases(s: Seq<char>) {
    let e = text::find(s, '=');
    let v = s.skip(e + 1);
    text::find_bound(s, '=', 0);
    if e + 1 < s.len() {
        let q = text::find_from(v, '"', 1);
        text::find_bound(v, '"', 1);
        skip_ascii_white_shrinks(
            v.skip(
                if q < v.len() {
                    q + 1
                } else {
                    q
                },
            ),
        );
    }
}

proof fn skip_ascii_white_shrinks(s: Seq<char>)
    ensures
        skip_ascii_white(s).len() <= s.len(),
    decreases s.len(),
{
    if s.len() > 0 && is_ascii_white(s[0]) {
        skip_ascii_white_shrinks(s.skip(1));
    }
}

/// The tag between two angle brackets.
pub open spec fn tag_of(inner: Seq<char>) -> TagView {
    let body = text::trim(text::trim_end_char(text::trim_start_char(inner, '/'), '/'));
    let n = find_ascii_white(body, 0);
    TagView {
        name: body.take(n),
        attrs: attributes(text::trim(body.skip(n))),
        is_close: inner.len() > 0 && inner[0] == '/',
        is_self_close: inner.len() > 0 && inner.last() == '/',
    }
}

/// The tags of a document from `i` on, up to one that is not closed.
pub open spec fn tags_from(s: Seq<char>, i: int) -> Seq<TagView>
    decreases s.len() - i,
    when 0 <= i <= s.len()
    via tags_from_decreases
{
    let open = text::find_from(s, '<', i);
    let close = text::find_from(s, '>', open + 1);
    if open >= s.len() || close >= s.len() {
        Seq::empty()
    } else {
        seq![tag_of(s.subrange(open + 1, close))] + tags_from(s, close + 1)
    }
}

#[via_fn]
proof fn tags_from_decreases(s: Seq<char>, i: int) {
    text::find_bound(s, '<', i);
    let open = text::find_from(s, '<', i);
    if open < s.len() {
        text::find_bound(s, '>', open + 1);
    }
}

/// The value of the first attribute whose name is `name`, given in lower case.
pub open spec fn attribute(
    attrs: Seq<(Seq<char>, Seq<char>)>,
    name: Seq<char>,
    i: int,
) -> Option<Seq<char>>
    decreases attrs.len() - i,
{
    if i >= attrs.len() {
        None
    } else if text::lowered(attrs[i].0) == name {
        Some(attrs[i].1)
    } else {
        attribute(attrs, name, i + 1)
    }
}

/// The number of seconds in a duration `PT...S`, as text.
pub open spec fn seconds_of(s: Seq<char>) -> Option<Seq<char>> {
    if text::has_prefix(s, "PT"@) && s.len() > 2 && s.last() == 'S' && text::is_real(
        s.subrange(2, s.len() - 1),
    ) {
        Some(s.subrange(2, s.len() - 1))
    } else {
        None
    }
}

/// The seconds in a duration attribute.
pub open spec fn duration_attribute(
    attrs: Seq<(Seq<char>, Seq<char>)>,
    name: Seq<char>,
) -> Option<Seq<char>> {
    match attribute(attrs, name, 0) {
        None => None,
        Some(v) => seconds_of(v),
    }
}

/// An attribute, or the empty text.
pub open spec fn text_attribute(attrs: Seq<(Seq<char>, Seq<char>)>, name: Seq<char>) -> Seq<char> {
    match attribute(attrs, name, 0) {
        None => Seq::empty(),
        Some(v) => v,
    }
}

/// A numeric attribute.
pub open spec fn number_attribute(
    attrs: Seq<(Seq<char>, Seq<char>)>,
    name: Seq<char>,
) -> Option<int> {
    match attribute(attrs, name, 0) {
        None => None,
        Some(v) => text::parsed(v, u32::MAX as int),
    }
}

/// The representation that a tag describes. The manifest does not tell its
/// address.
pub open spec fn representation_of(attrs: Seq<(Seq<char>, Seq<char>)>) -> RepresentationView {
    RepresentationView {
        id: text_attribute(attrs, "id"@),
        bandwidth: match number_attribute(attrs, "bandwidth"@) {
            None => 0,
            Some(n) => n,
        },
        width: number_attribute(attrs, "width"@),
        height: number_attribute(attrs, "height"@),
        codecs: text_attribute(attrs, "codecs"@),
        base_url: Seq::empty(),
    }
}

/// A manifest as far as it has been read, with the period and the adaptation
/// set that are open.
#[verifier::ext_equal]
pub struct ParseState {
    pub mpd: MpdView,
    pub period: Option<PeriodView>,
    pub set: Option<AdaptationSetView>,
}

/// What a tag does to a manifest.
pub open spec fn step(st: ParseState, tag: TagView) -> ParseState {
    let name = text::lowered(tag.name);
    if name == "mpd"@ && !tag.is_close {
        let buffer = duration_attribute(tag.attrs, "minbuffertime"@);
        let total = duration_attribute(tag.attrs, "mediapresentationduration"@);
        ParseState {
            mpd: MpdView {
                periods: st.mpd.periods,
                min_buffer_time: if buffer is Some {
                    buffer
                } else {
                    st.mpd.min_buffer_time
                },
                media_presentation_duration: if total is Some {
                    total
                } else {
                    st.mpd.media_presentation_duration
                },
            },
            ..st
        }
    } else if name == "period"@ && !tag.is_close {
        ParseState {
            period: Some(
                PeriodView {
                    id: text_attribute(tag.attrs, "id"@),
                    start: duration_attribute(tag.attrs, "start"@),
                    adaptation_sets: Seq::empty(),
                },
            ),
            ..st
        }
    } else if name == "period"@ && st.period is Some {
        ParseState {
            mpd: MpdView { periods: st.mpd.periods.push(st.period->0), ..st.mpd },
            period: None,
            set: st.set,
        }
    } else if name == "adaptationset"@ && !tag.is_close {
        ParseState {
            set: Some(
                AdaptationSetView {
                    mime_type: text_attribute(tag.attrs, "mimetype"@),
                    representations: Seq::empty(),
                },
            ),
            ..st
        }
    } else if name == "adaptationset"@ {
        ParseState {
            period: if st.period is Some && st.set is Some {
                Some(
                    PeriodView {
                        adaptation_sets: (st.period->0).adaptation_sets.push(st.set->0),
                        ..st.period->0
                    },
                )
            } else {
                st.period
            },
            set: None,
            mpd: st.mpd,
        }
    } else if name == "representation"@ && !tag.is_close && st.set is Some {
        ParseState {
            set: Some(
                AdaptationSetView {
                    representations: (st.set->0).representations.push(
                        representation_of(tag.attrs),
                    ),
                    ..st.set->0
                },
            ),
            ..st
        }
    } else {
        st
    }
}

/// A manifest after the first `n` tags.
pub open spec fn after_tags(tags: Seq<TagView>, n: int) -> ParseState
    decreases n,
{
    if n <= 0 {
        ParseState { mpd: empty_mpd(), period: None, set: None }
    } else {
        step(after_tags(tags, n - 1), tags[n - 1])
    }
}

/// The manifest that a document holds.
pub open spec fn mpd_of(xml: Seq<char>) -> MpdView {
    let tags = tags_from(xml, 0);
    after_tags(tags, tags.len() as int).mpd
}

struct Tag<'a> {
    name: &'a [char],
    attrs: Vec<(&'a [char], &'a [char])>,
    is_close: bool,
    is_self_close: bool,
}

spec fn attr_views(v: Seq<(&[char], &[char])>) -> Seq<(Seq<char>, Seq<char>)> {
    v.map_values(|p: (&[char], &[char])| (p.0@, p.1@))
}

impl<'a> View for Tag<'a> {
    type V = TagView;

    closed spec fn view(&self) -> TagView {
        TagView {
            name: self.name@,
            attrs: attr_views(self.attrs@),
            is_close: self.is_close,
            is_self_close: self.is_self_close,
        }
    }
}

spec fn tag_views(v: Seq<Tag<'_>>) -> Seq<TagView> {
    v.map_values(|t: Tag<'_>| t@)
}

fn ascii_white(c: char) -> (r: bool)
    ensures
        r == is_ascii_white(c),
{
    c == ' ' || c == '\t' || c == '\n' || c == '\r' || c as u32 == 0xC
}

fn skipped_ascii_white<'a>(s: &'a [char]) -> (r: &'a [char])
    ensures
        r@ == skip_ascii_white(s@),
{
    let mut i: usize = 0;
    assert(s@.skip(0) =~= s@);
    while i < s.len() && ascii_white(s[i])
        invariant
            i <= s@.len(),
            skip_ascii_white(s@) == skip_ascii_white(s@.skip(i as int)),
        decreases s@.len() - i,
    {
        assert(s@.skip(i as int).skip(1) =~= s@.skip(i + 1));
        i = i + 1;
    }
    text::tail(s, i)
}

fn read_attributes<'a>(s: &'a [char]) -> (r: Vec<(&'a [char], &'a [char])>)
    ensures
        attr_views(r@) == attributes(s@),
{
    let mut out: Vec<(&'a [char], &'a [char])> = Vec::new();
    let mut rest: &'a [char] = s;
    proof {
        assert(attr_views(out@) + attributes(s@) =~= attributes(s@));
    }
    loop
        invariant
            attr_views(out@) + attributes(rest@) == attributes(s@),
        decreases rest@.len(),
    {
        let ghost before = attr_views(out@);
        assert(before + Seq::<(Seq<char>, Seq<char>)>::empty() =~= before);
        let e: usize = match text::position(rest, '=') {
            None => {
                return out;
            },
            Some(e) => e,
        };
        let key: &'a [char] = text::trimmed(text::head(rest, e));
        let v: &'a [char] = text::tail(rest, e + 1);
        if v.len() == 0 || v[0] != '"' {
            return out;
        }
        let q: usize = text::position_from(v, '"', 1);
        let val: &'a [char] = vstd::slice::slice_subrange(v, 1, q);
        let behind: &'a [char] = text::tail(
            v,
            if q < v.len() {
                q + 1
            } else {
                q
            },
        );
        let next: &'a [char] = skipped_ascii_white(behind);
        proof {
            skip_ascii_white_shrinks(behind@);
        }
        if key.len() > 0 {
            out.push((key, val));
            assert(attr_views(out@) =~= before.push((key@, val@)));
            assert(before.push((key@, val@)) + attributes(next@) =~= before + (seq![(key@, val@)]
                + attributes(next@)));
        }
        rest = next;
    }
}

fn read_tag<'a>(inner: &'a [char]) -> (r: Tag<'a>)
    ensures
        r@ == tag_of(inner@),
{
    let is_close: bool = inner.len() > 0 && inner[0] == '/';
    let is_self_close: bool = inner.len() > 0 && inner[inner.len() - 1] == '/';
    let body: &'a [char] = text::trimmed(
        text::trimmed_end_char(text::trimmed_start_char(inner, '/'), '/'),
    );
    let mut n: usize = 0;
    while n < body.len() && !ascii_white(body[n])
        invariant
            n <= body@.len(),
            find_ascii_white(body@, 0) == find_ascii_white(body@, n as int),
        decreases body@.len() - n,
    {
        n = n + 1;
    }
    let name: &'a [char] = text::head(body, n);
    let attrs: Vec<(&'a [char], &'a [char])> = read_attributes(
        text::trimmed(text::tail(body, n)),
    );
    Tag { name, attrs, is_close, is_self_close }
}

fn iter_tags<'a>(xml: &'a [char]) -> (r: Vec<Tag<'a>>)
    ensures
        tag_views(r@) == tags_from(xml@, 0),
{
    let mut out: Vec<Tag<'a>> = Vec::new();
    let mut i: usize = 0;
    proof {
        assert(tag_views(out@) + tags_from(xml@, 0) =~= tags_from(xml@, 0));
    }
    loop
        invariant
            i <= xml@.len(),
            tag_views(out@) + tags_from(xml@, i as int) == tags_from(xml@, 0),
        decreases xml@.len() - i,
    {
        let ghost before = tag_views(out@);
        assert(before + Seq::<TagView>::empty() =~= before);
        let open: usize = text::position_from(xml, '<', i);
        if open >= xml.len() {
            return out;
        }
        let close: usize = text::position_from(xml, '>', open + 1);
        if close >= xml.len() {
            return out;
        }
        let tag: Tag<'a> = read_tag(vstd::slice::slice_subrange(xml, open + 1, close));
        let ghost view = tag@;
        out.push(tag);
        assert(tag_views(out@) =~= before.push(view));
        assert(before.push(view) + tags_from(xml@, close + 1) =~= before + (seq![view] + tags_from(
            xml@,
            close + 1,
        )));
        i = close + 1;
    }
}

fn find_attribute<'a>(attrs: &Vec<(&'a [char], &'a [char])>, name: &str) -> (r: Option<&'a [char]>)
    ensures
        match r {
            None => attribute(attr_views(attrs@), name@, 0) is None,
            Some(v) => attribute(attr_views(attrs@), name@, 0) == Some(v@),
        },
{
    let ghost all = attr_views(attrs@);
    let mut i: usize = 0;
    while i < attrs.len()
        invariant
            i <= attrs@.len(),
            all == attr_views(attrs@),
            attribute(all, name@, 0) == attribute(all, name@, i as int),
        decreases attrs@.len() - i,
    {
        let pair: (&'a [char], &'a [char]) = attrs[i];
        assert(all[i as int] == (pair.0@, pair.1@));
        let key: Vec<char> = text::lowercase(pair.0);
        if text::is_text(key.as_slice(), name) {
            return Some(pair.1);
        }
        i = i + 1;
    }
    None
}

fn find_text(attrs: &Vec<(&[char], &[char])>, name: &str) -> (r: String)
    ensures
        r@ == text_attribute(attr_views(attrs@), name@),
{
    match find_attribute(attrs, name) {
        None => String::new(),
        Some(v) => text::string_of(v),
    }
}

fn find_number(attrs: &Vec<(&[char], &[char])>, name: &str) -> (r: Option<u32>)
    ensures
        optional_int(r) == number_attribute(attr_views(attrs@), name@),
{
    let v: &[char] = find_attribute(attrs, name)?;
    let n: u64 = text::parse_number(v, u32::MAX as u64)?;
    Some(n as u32)
}

fn parse_iso_duration(s: &[char]) -> (r: Option<String>)
    ensures
        optional_text(r) == seconds_of(s@),
{
    proof {
        reveal_strlit("PT");
    }
    if !text::starts_with(s, "PT") || s.len() <= 2 || s[s.len() - 1] != 'S' {
        return None;
    }
    let digits: &[char] = vstd::slice::slice_subrange(s, 2, s.len() - 1);
    if text::is_real_text(digits) {
        Some(text::string_of(digits))
    } else {
        None
    }
}

fn find_duration(attrs: &Vec<(&[char], &[char])>, name: &str) -> (r: Option<String>)
    ensures
        optional_text(r) == duration_attribute(attr_views(attrs@), name@),
{
    let v: &[char] = find_attribute(attrs, name)?;
    parse_iso_duration(v)
}

fn read_representation(attrs: &Vec<(&[char], &[char])>) -> (r: Representation)
    ensures
        r@ == representation_of(attr_views(attrs@)),
{
    Representation {
        id: find_text(attrs, "id"),
        bandwidth: match find_number(attrs, "bandwidth") {
            Some(n) => n,
            None => 0,
        },
        width: find_number(attrs, "width"),
        height: find_number(attrs, "height"),
        codecs: find_text(attrs, "codecs"),
        base_url: String::new(),
    }
}

/// The parser's state: what has been read, and what is open.
struct Parser {
    mpd: Mpd,
    period: Option<Period>,
    set: Option<AdaptationSet>,
}

impl View for Parser {
    type V = ParseState;

    closed spec fn view(&self) -> ParseState {
        ParseState {
            mpd: self.mpd@,
            period: match self.period {
                None => None,
                Some(p) => Some(p@),
            },
            set: match self.set {
                None => None,
                Some(s) => Some(s@),
            },
        }
    }
}

impl Parser {
    fn take_tag(self, tag: &Tag<'_>) -> (r: Parser)
        ensures
            r@ == step(self@, tag@),
    {
        let Parser { mut mpd, mut period, mut set } = self;
        let lower: Vec<char> = text::lowercase(tag.name);
        let name: &[char] = lower.as_slice();
        proof {
            reveal_strlit("mpd");
            reveal_strlit("period");
            reveal_strlit("adaptationset");
            reveal_strlit("representation");
        }
        if text::is_text(name, "mpd") && !tag.is_close {
            let buffer: Option<String> = find_duration(&tag.attrs, "minbuffertime");
            if buffer.is_some() {
                mpd.min_buffer_time = buffer;
            }
            let total: Option<String> = find_duration(&tag.attrs, "mediapresentationduration");
            if total.is_some() {
                mpd.media_presentation_duration = total;
            }
        } else if text::is_text(name, "period") {
            if !tag.is_close {
                let opened: Period = Period {
                    id: find_text(&tag.attrs, "id"),
                    start: find_duration(&tag.attrs, "start"),
                    adaptation_sets: Vec::new(),
                };
                assert(opened@.adaptation_sets =~= Seq::<AdaptationSetView>::empty());
                period = Some(opened);
            } else if let Some(p) = period {
                let ghost before = period_views(mpd.periods@);
                let ghost view = p@;
                mpd.periods.push(p);
                assert(period_views(mpd.periods@) =~= before.push(view));
                period = None;
            }
        } else if text::is_text(name, "adaptationset") {
            if !tag.is_close {
                let opened: AdaptationSet = AdaptationSet {
                    mime_type: find_text(&tag.attrs, "mimetype"),
                    representations: Vec::new(),
                };
                assert(opened@.representations =~= Seq::<RepresentationView>::empty());
                set = Some(opened);
            } else {
                if let Some(s) = set {
                    if let Some(mut p) = period {
                        let ghost before = p@;
                        let ghost view = s@;
                        p.adaptation_sets.push(s);
                        assert(p@.adaptation_sets =~= before.adaptation_sets.push(view));
                        period = Some(p);
                    }
                }
                set = None;
            }
        } else if text::is_text(name, "representation") && !tag.is_close {
            if let Some(mut s) = set {
                let ghost before = s@;
                let rep: Representation = read_representation(&tag.attrs);
                let ghost view = rep@;
                s.representations.push(rep);
                assert(s@.representations =~= before.representations.push(view));
                set = Some(s);
            }
        }
        let r: Parser = Parser { mpd, period, set };
        proof {
            let want = step(self@, tag@);
            assert("mpd"@.len() == 3 && "period"@.len() == 6);
            assert("adaptationset"@.len() == 13 && "representation"@.len() == 14);
            assert(r@.set =~= want.set);
            assert(r@.period =~= want.period);
            assert(r@.mpd.periods =~= want.mpd.periods);
            assert(r@.mpd.min_buffer_time =~= want.mpd.min_buffer_time);
            assert(r@.mpd.media_presentation_duration =~= want.mpd.media_presentation_duration);
        }
        r
    }
}

/// Parses a manifest.
pub fn parse(xml: &str) -> (r: Mpd)
    ensures
        r@ == mpd_of(xml@),
{
    let chars: Vec<char> = text::chars_of(xml);
    let tags: Vec<Tag<'_>> = iter_tags(chars.as_slice());
    let ghost all = tags_from(xml@, 0);
    let mut parser: Parser = Parser { mpd: Mpd::default(), period: None, set: None };
    let mut i: usize = 0;
    while i < tags.len()
        invariant
            i <= tags@.len(),
            all == tag_views(tags@),
            parser@ == after_tags(all, i as int),
        decreases tags@.len() - i,
    {
        assert(all[i as int] == tags@[i as int]@);
        parser = parser.take_tag(&tags[i]);
        i = i + 1;
    }
    parser.mpd
}

/// Text without tags is an empty manifest.
pub proof fn text_without_tags_is_empty(xml: Seq<char>)
    requires
        forall|k: int| 0 <= k < xml.len() ==> #[trigger] xml[k] != '<',
    ensures
        mpd_of(xml) == empty_mpd(),
{
    text::find_bound(xml, '<', 0);
    assert(tags_from(xml, 0).len() == 0);
}

/// Periods that have been closed are never changed or dropped.
pub proof fn closed_periods_are_kept(tags: Seq<TagView>, n: int, k: int)
    requires
        0 <= n < tags.len(),
        0 <= k < after_tags(tags, n).mpd.periods.len(),
    ensures
        k < after_tags(tags, n + 1).mpd.periods.len(),
        after_tags(tags, n + 1).mpd.periods[k] == after_tags(tags, n).mpd.periods[k],
{
}

/// A tag of this name, in upper or lower case, that opens an element.
pub open spec fn opens(tag: TagView, name: Seq<char>) -> bool {
    text::lowered(tag.name) == name && !tag.is_close
}

/// Representations that have been read are kept at their places until their
/// adaptation set ends; a tag of a representation adds exactly one behind them, and
/// no other tag adds any.
pub proof fn read_representations_are_kept(st: ParseState, tag: TagView, k: int)
    requires
        st.set is Some,
        text::lowered(tag.name) != "adaptationset"@,
        0 <= k < st.set->0.representations.len(),
    ensures
        step(st, tag).set is Some,
        step(st, tag).set->0.mime_type == st.set->0.mime_type,
        k < step(st, tag).set->0.representations.len(),
        step(st, tag).set->0.representations[k] == st.set->0.representations[k],
{
}

/// How many of the tags from `i` to `n` are tags of representations.
pub open spec fn representation_tags(tags: Seq<TagView>, i: int, n: int) -> int
    decreases n - i,
{
    if n <= i {
        0
    } else {
        representation_tags(tags, i, n - 1) + if opens(tags[n - 1], "representation"@) {
            1int
        } else {
            0
        }
    }
}

/// An adaptation set has as many representations as there were tags of them since it
/// was opened.
pub proof fn representations_are_counted(tags: Seq<TagView>, i: int, n: int)
    requires
        0 <= i < n <= tags.len(),
        opens(tags[i], "adaptationset"@),
        forall|k: int|
            i < k < n ==> text::lowered((#[trigger] tags[k]).name) != "adaptationset"@,
    ensures
        after_tags(tags, n).set is Some,
        after_tags(tags, n).set->0.representations.len() == representation_tags(tags, i + 1, n),
    decreases n,
{
    reveal_strlit("mpd");
    reveal_strlit("period");
    reveal_strlit("adaptationset");
    reveal_strlit("representation");
    assert("mpd"@.len() == 3 && "period"@.len() == 6);
    assert("adaptationset"@.len() == 13 && "representation"@.len() == 14);
    if n == i + 1 {
        assert(after_tags(tags, n) == step(after_tags(tags, n - 1), tags[i]));
    } else {
        representations_are_counted(tags, i, n - 1);
        assert(text::lowered(tags[n - 1].name) != "adaptationset"@);
    }
}

/// The `k`-th representation of a set is the one that the `k`-th tag of a
/// representation describes.
pub proof fn representations_come_in_order(tags: Seq<TagView>, i: int, m: int, n: int)
    requires
        0 <= i < m < n <= tags.len(),
        opens(tags[i], "adaptationset"@),
        opens(tags[m], "representation"@),
        forall|k: int|
            i < k < n ==> text::lowered((#[trigger] tags[k]).name) != "adaptationset"@,
    ensures
        after_tags(tags, n).set is Some,
        representation_tags(tags, i + 1, m) < after_tags(tags, n).set->0.representations.len(),
        after_tags(tags, n).set->0.representations[representation_tags(tags, i + 1, m)]
            == representation_of(tags[m].attrs),
    decreases n,
{
    reveal_strlit("mpd");
    reveal_strlit("period");
    reveal_strlit("adaptationset");
    reveal_strlit("representation");
    assert("mpd"@.len() == 3 && "period"@.len() == 6);
    assert("adaptationset"@.len() == 13 && "representation"@.len() == 14);
    representations_are_counted(tags, i, m);
    let k = representation_tags(tags, i + 1, m);
    if n == m + 1 {
        assert(after_tags(tags, n) == step(after_tags(tags, m), tags[m]));
    } else {
        representations_come_in_order(tags, i, m, n - 1);
        assert(text::lowered(tags[n - 1].name) != "adaptationset"@);
        read_representations_are_kept(after_tags(tags, n - 1), tags[n - 1], k);
    }
}

/// Closing an adaptation set puts it behind the others of its period; closing a period
/// puts it behind the others of the manifest. Until its period ends, no set is
/// changed or dropped.
pub proof fn closed_sets_are_kept(st: ParseState, tag: TagView)
    requires
        st.period is Some,
        text::lowered(tag.name) != "period"@,
    ensures
        step(st, tag).period is Some,
        step(st, tag).period->0.id == st.period->0.id,
        step(st, tag).period->0.start == st.period->0.start,
        step(st, tag).mpd.periods == st.mpd.periods,
        text::lowered(tag.name) == "adaptationset"@ && tag.is_close && st.set is Some ==> step(
            st,
            tag,
        ).period->0.adaptation_sets == st.period->0.adaptation_sets.push(st.set->0),
        !(text::lowered(tag.name) == "adaptationset"@ && tag.is_close && st.set is Some) ==> step(
            st,
            tag,
        ).period->0.adaptation_sets == st.period->0.adaptation_sets,
{
    reveal_strlit("mpd");
    reveal_strlit("period");
    reveal_strlit("adaptationset");
    reveal_strlit("representation");
    assert("mpd"@.len() == 3 && "period"@.len() == 6);
    assert("adaptationset"@.len() == 13 && "representation"@.len() == 14);
}

} // verus!
