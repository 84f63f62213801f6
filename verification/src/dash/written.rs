//! Manifests that were written are read back.
use vstd::prelude::*;

use crate::dash::{
    self, AdaptationSetView, MpdView, ParseState, PeriodView, RepresentationView, TagView,
};
use crate::text;

verus! {

/// Attributes from the `k`-th on, each with a blank before it.
pub open spec fn written_attributes(list: Seq<(Seq<char>, Seq<char>)>, k: int) -> Seq<char>
    decreases list.len() - k,
{
    if k >= list.len() {
        Seq::empty()
    } else {
        seq![' '] + one_and_rest(list, k)
    }
}

/// The `k`-th attribute and those behind it.
pub open spec fn one_and_rest(list: Seq<(Seq<char>, Seq<char>)>, k: int) -> Seq<char>
    decreases list.len() - k, 0int,
    when 0 <= k < list.len()
{
    list[k].0 + (seq!['=', '"'] + (list[k].1 + (seq!['"'] + written_attributes(list, k + 1))))
}

/// What stands between the brackets of a tag.
pub open spec fn inner_of(tag: TagView) -> Seq<char> {
    if tag.is_close {
        seq!['/'] + tag.name
    } else if tag.is_self_close {
        tag.name + written_attributes(tag.attrs, 0) + seq!['/']
    } else {
        tag.name + written_attributes(tag.attrs, 0)
    }
}

/// Tags from the `k`-th on, one behind the other.
pub open spec fn written_tags(tags: Seq<TagView>, k: int) -> Seq<char>
    decreases tags.len() - k,
{
    if k >= tags.len() {
        Seq::empty()
    } else {
        seq!['<'] + (inner_of(tags[k]) + (seq!['>'] + written_tags(tags, k + 1)))
    }
}

/// A character of a name.
pub open spec fn is_name_char(c: char) -> bool {
    !text::is_white(c) && !dash::is_ascii_white(c) && c != '/' && c != '<' && c != '>' && c != '='
        && c != '"'
}

/// The name of a tag or of an attribute.
pub open spec fn can_be_name(s: Seq<char>) -> bool {
    s.len() > 0 && forall|i: int| 0 <= i < s.len() ==> is_name_char(#[trigger] s[i])
}

/// The value of an attribute.
pub open spec fn can_be_value(s: Seq<char>) -> bool {
    forall|i: int| 0 <= i < s.len() ==> #[trigger] s[i] != '"' && s[i] != '>'
}

pub open spec fn can_be_attributes(list: Seq<(Seq<char>, Seq<char>)>) -> bool {
    forall|k: int|
        0 <= k < list.len() ==> can_be_name((#[trigger] list[k]).0) && can_be_value(list[k].1)
}

/// A tag that can be written.
pub open spec fn can_be_tag(tag: TagView) -> bool {
    &&& can_be_name(tag.name)
    &&& can_be_attributes(tag.attrs)
    &&& tag.is_close ==> tag.attrs.len() == 0 && !tag.is_self_close
}

proof fn no_bracket_in_attributes(list: Seq<(Seq<char>, Seq<char>)>, k: int)
    requires
        can_be_attributes(list),
        0 <= k <= list.len(),
    ensures
        forall|i: int|
            0 <= i < written_attributes(list, k).len() ==> #[trigger] written_attributes(list, k)[i]
                != '>',
        written_attributes(list, k).len() > 0 ==> written_attributes(list, k).last() == '"',
        k < list.len() ==> written_attributes(list, k).len() > 1 && written_attributes(list, k)[0]
            == ' ' && is_name_char(written_attributes(list, k)[1]),
        k == list.len() ==> written_attributes(list, k).len() == 0,
    decreases list.len() - k,
{
    if k < list.len() {
        let (key, value) = list[k];
        let rest = written_attributes(list, k + 1);
        let all = written_attributes(list, k);
        no_bracket_in_attributes(list, k + 1);
        assert(can_be_name(list[k].0) && can_be_value(list[k].1));
        let (a, b) = (key.len() as int, value.len() as int);
        assert(all.len() == 1 + a + 2 + b + 1 + rest.len());
        assert(all[1] == key[0]);
        assert(is_name_char(key[0]));
        assert(rest.len() == 0 ==> all.last() == '"');
        assert(rest.len() > 0 ==> all.last() == rest.last());
        assert forall|i: int| 0 <= i < all.len() implies #[trigger] all[i] != '>' by {
            if i == 0 {
            } else if i < 1 + a {
                assert(all[i] == key[i - 1]);
                assert(is_name_char(key[i - 1]));
            } else if i < 3 + a {
                assert(all[i] == seq!['=', '"'][i - 1 - a]);
            } else if i < 3 + a + b {
                assert(all[i] == value[i - 3 - a]);
            } else if i == 3 + a + b {
                assert(all[i] == '"');
            } else {
                assert(all[i] == rest[i - 4 - a - b]);
            }
        }
    }
}

proof fn name_is_trimmed(s: Seq<char>)
    requires
        can_be_name(s),
    ensures
        text::trim(s) == s,
{
    assert(is_name_char(s[0]) && is_name_char(s.last()));
}

proof fn attributes_are_read(list: Seq<(Seq<char>, Seq<char>)>, k: int)
    requires
        can_be_attributes(list),
        0 <= k < list.len(),
    ensures
        dash::attributes(one_and_rest(list, k)) == list.skip(k),
    decreases list.len() - k,
{
    let s = one_and_rest(list, k);
    let (key, value) = list[k];
    let rest = written_attributes(list, k + 1);
    let (a, b) = (key.len() as int, value.len() as int);
    assert(can_be_name(list[k].0) && can_be_value(list[k].1));
    assert forall|j: int| 0 <= j < a implies #[trigger] s[j] != '=' by {
        assert(s[j] == key[j]);
        assert(is_name_char(key[j]));
    }
    text::written::found_at(s, '=', 0, a);
    assert(s.take(a) =~= key);
    name_is_trimmed(key);
    let v = s.skip(a + 1);
    assert(v =~= seq!['"'] + (value + (seq!['"'] + rest)));
    assert forall|j: int| 1 <= j < 1 + b implies #[trigger] v[j] != '"' by {
        assert(v[j] == value[j - 1]);
    }
    text::written::found_at(v, '"', 1, 1 + b);
    assert(v.subrange(1, 1 + b) =~= value);
    assert(v.skip(b + 2) =~= rest);
    no_bracket_in_attributes(list, k + 1);
    if k + 1 == list.len() {
        assert(rest =~= Seq::<char>::empty());
        assert(dash::skip_ascii_white(rest) == rest);
        text::written::not_found(rest, '=', 0);
        assert(dash::attributes(rest) =~= Seq::<(Seq<char>, Seq<char>)>::empty());
        assert(list.skip(k) =~= seq![(key, value)]);
    } else {
        let next = one_and_rest(list, k + 1);
        assert(rest.skip(1) =~= next);
        assert(next[0] == rest[1]);
        assert(dash::skip_ascii_white(next) == next);
        assert(dash::skip_ascii_white(rest) == dash::skip_ascii_white(rest.skip(1)));
        attributes_are_read(list, k + 1);
        assert(list.skip(k) =~= seq![(key, value)] + list.skip(k + 1));
    }
}

proof fn name_ends(body: Seq<char>, i: int, n: int)
    requires
        0 <= i <= n <= body.len(),
        forall|j: int| i <= j < n ==> !dash::is_ascii_white(#[trigger] body[j]),
        n == body.len() || dash::is_ascii_white(body[n]),
    ensures
        dash::find_ascii_white(body, i) == n,
    decreases n - i,
{
    if i < n {
        name_ends(body, i + 1, n);
    }
}

/// A tag that was written is read back.
pub proof fn written_tags_are_tags(tag: TagView)
    requires
        can_be_tag(tag),
    ensures
        dash::tag_of(inner_of(tag)) == tag,
        forall|i: int| 0 <= i < inner_of(tag).len() ==> #[trigger] inner_of(tag)[i] != '>',
{
    let inner = inner_of(tag);
    let n = tag.name.len() as int;
    let list = tag.attrs;
    let more = written_attributes(list, 0);
    let body = tag.name + more;
    no_bracket_in_attributes(list, 0);
    assert(is_name_char(tag.name[0]) && is_name_char(tag.name.last()));
    assert forall|i: int| 0 <= i < inner.len() implies #[trigger] inner[i] != '>' by {
        if tag.is_close {
            if i > 0 {
                assert(inner[i] == tag.name[i - 1]);
                assert(is_name_char(tag.name[i - 1]));
            }
        } else if i < n {
            assert(inner[i] == tag.name[i]);
            assert(is_name_char(tag.name[i]));
        } else if i < n + more.len() {
            assert(inner[i] == more[i - n]);
        }
    }
    assert(body[0] == tag.name[0]);
    assert(more.len() == 0 ==> body =~= tag.name);
    assert(body.last() == if more.len() == 0 {
        tag.name.last()
    } else {
        more.last()
    });
    assert(text::trim_start_char(body, '/') == body);
    assert(text::trim_end_char(body, '/') == body);
    assert(text::trim(body) == body);
    if tag.is_close {
        assert(inner.skip(1) =~= tag.name);
        assert(body =~= tag.name);
        assert(text::trim_start_char(inner, '/') == text::trim_start_char(inner.skip(1), '/'));
        assert(inner.last() == tag.name.last());
    } else if tag.is_self_close {
        assert(inner[0] == body[0]);
        assert(text::trim_start_char(inner, '/') == inner);
        assert(inner.drop_last() =~= body);
        assert(inner.last() == '/');
        assert(text::trim_end_char(inner, '/') == text::trim_end_char(inner.drop_last(), '/'));
    } else {
        assert(inner =~= body);
    }
    assert forall|j: int| 0 <= j < n implies !dash::is_ascii_white(#[trigger] body[j]) by {
        assert(body[j] == tag.name[j]);
        assert(is_name_char(tag.name[j]));
    }
    if more.len() > 0 {
        assert(body[n] == more[0]);
    }
    name_ends(body, 0, n);
    assert(body.take(n) =~= tag.name);
    assert(body.skip(n) =~= more);
    if list.len() == 0 {
        assert(text::trim(more) =~= Seq::<char>::empty());
        text::written::not_found(Seq::empty(), '=', 0);
        assert(dash::attributes(Seq::empty()) =~= list);
    } else {
        let first = one_and_rest(list, 0);
        assert(more.skip(1) =~= first);
        assert(first[0] == more[1]);
        assert(first.last() == more.last());
        assert(text::trim_start(first) == first);
        assert(text::trim_start(more) == text::trim_start(more.skip(1)));
        assert(text::trim(more) == first);
        attributes_are_read(list, 0);
        assert(list.skip(0) =~= list);
    }
}

proof fn tags_are_read_from(s: Seq<char>, i: int, tags: Seq<TagView>, k: int)
    requires
        0 <= i <= s.len(),
        0 <= k <= tags.len(),
        s.skip(i) == written_tags(tags, k),
        forall|j: int| 0 <= j < tags.len() ==> can_be_tag(#[trigger] tags[j]),
    ensures
        dash::tags_from(s, i) == tags.skip(k),
    decreases tags.len() - k,
{
    if k == tags.len() {
        assert(s.skip(i).len() == 0);
        text::find_bound(s, '<', i);
        assert(tags.skip(k) =~= Seq::<TagView>::empty());
    } else {
        let inner = inner_of(tags[k]);
        let rest = written_tags(tags, k + 1);
        let here = s.skip(i);
        let n = inner.len() as int;
        assert(can_be_tag(tags[k]));
        written_tags_are_tags(tags[k]);
        assert(here.len() == n + 2 + rest.len());
        assert(here[0] == '<' && here[n + 1] == '>');
        assert(s[i] == here[0]);
        assert(s[i + n + 1] == here[n + 1]);
        text::written::found_at(s, '<', i, i);
        assert forall|j: int| i + 1 <= j < i + n + 1 implies #[trigger] s[j] != '>' by {
            assert(s[j] == here[j - i]);
            assert(here[j - i] == inner[j - i - 1]);
        }
        text::written::found_at(s, '>', i + 1, i + n + 1);
        assert(s.subrange(i + 1, i + n + 1) =~= here.subrange(1, n + 1));
        assert(here.subrange(1, n + 1) =~= inner);
        assert(s.skip(i + n + 2) =~= here.skip(n + 2));
        assert(here.skip(n + 2) =~= rest);
        tags_are_read_from(s, i + n + 2, tags, k + 1);
        assert(tags.skip(k) =~= seq![tags[k]] + tags.skip(k + 1));
    }
}

/// Tags that were written one behind the other are read back in order.
pub proof fn written_tags_are_read(tags: Seq<TagView>)
    requires
        forall|j: int| 0 <= j < tags.len() ==> can_be_tag(#[trigger] tags[j]),
    ensures
        dash::tags_from(written_tags(tags, 0), 0) == tags,
{
    let s = written_tags(tags, 0);
    assert(s.skip(0) =~= s);
    tags_are_read_from(s, 0, tags, 0);
    assert(tags.skip(0) =~= tags);
}

pub open spec fn opening(name: Seq<char>, attrs: Seq<(Seq<char>, Seq<char>)>) -> TagView {
    TagView { name, attrs, is_close: false, is_self_close: false }
}

pub open spec fn closing(name: Seq<char>) -> TagView {
    TagView { name, attrs: Seq::empty(), is_close: true, is_self_close: false }
}

/// A duration as it is written.
pub open spec fn written_duration(seconds: Seq<char>) -> Seq<char> {
    seq!['P', 'T'] + (seconds + seq!['S'])
}

/// An attribute with a duration, if there is one.
pub open spec fn duration_of(name: Seq<char>, seconds: Option<Seq<char>>) -> Seq<
    (Seq<char>, Seq<char>),
> {
    match seconds {
        Some(s) => seq![(name, written_duration(s))],
        None => Seq::empty(),
    }
}

/// An attribute with a number, if there is one.
pub open spec fn number_of(name: Seq<char>, n: Option<int>) -> Seq<(Seq<char>, Seq<char>)> {
    match n {
        Some(v) => seq![(name, text::written::digits(v))],
        None => Seq::empty(),
    }
}

/// The tag of a representation.
pub open spec fn representation_tag(r: RepresentationView) -> TagView {
    TagView {
        name: "Representation"@,
        attrs: seq![("id"@, r.id), ("bandwidth"@, text::written::digits(r.bandwidth))] + number_of(
            "width"@,
            r.width,
        ) + number_of("height"@, r.height) + seq![("codecs"@, r.codecs)],
        is_close: false,
        is_self_close: true,
    }
}

/// The tags of an adaptation set.
pub open spec fn set_tags(set: AdaptationSetView) -> Seq<TagView> {
    seq![opening("AdaptationSet"@, seq![("mimeType"@, set.mime_type)])]
        + set.representations.map_values(|r: RepresentationView| representation_tag(r)) + seq![
        closing("AdaptationSet"@),
    ]
}

/// The tags of the first `n` adaptation sets.
pub open spec fn sets_tags(sets: Seq<AdaptationSetView>, n: int) -> Seq<TagView>
    decreases n,
{
    if n <= 0 {
        Seq::empty()
    } else {
        sets_tags(sets, n - 1) + set_tags(sets[n - 1])
    }
}

/// The tags of a period.
pub open spec fn period_tags(p: PeriodView) -> Seq<TagView> {
    seq![opening("Period"@, seq![("id"@, p.id)] + duration_of("start"@, p.start))] + sets_tags(
        p.adaptation_sets,
        p.adaptation_sets.len() as int,
    ) + seq![closing("Period"@)]
}

/// The tags of the first `n` periods.
pub open spec fn periods_tags(periods: Seq<PeriodView>, n: int) -> Seq<TagView>
    decreases n,
{
    if n <= 0 {
        Seq::empty()
    } else {
        periods_tags(periods, n - 1) + period_tags(periods[n - 1])
    }
}

/// The tags of a manifest.
pub open spec fn manifest_tags(m: MpdView) -> Seq<TagView> {
    seq![
        opening(
            "MPD"@,
            duration_of("minBufferTime"@, m.min_buffer_time) + duration_of(
                "mediaPresentationDuration"@,
                m.media_presentation_duration,
            ),
        ),
    ] + periods_tags(m.periods, m.periods.len() as int) + seq![closing("MPD"@)]
}

/// A manifest as it is written.
pub open spec fn written_manifest(m: MpdView) -> Seq<char> {
    written_tags(manifest_tags(m), 0)
}

pub open spec fn can_be_duration(s: Option<Seq<char>>) -> bool {
    s matches Some(t) ==> text::is_real(t) && can_be_value(t)
}

pub open spec fn can_be_number(n: Option<int>) -> bool {
    n matches Some(v) ==> 0 <= v <= u32::MAX
}

pub open spec fn can_be_representation(r: RepresentationView) -> bool {
    &&& can_be_value(r.id)
    &&& can_be_value(r.codecs)
    &&& 0 <= r.bandwidth <= u32::MAX
    &&& can_be_number(r.width)
    &&& can_be_number(r.height)
    &&& r.base_url.len() == 0
}

pub open spec fn can_be_set(set: AdaptationSetView) -> bool {
    &&& can_be_value(set.mime_type)
    &&& forall|k: int|
        0 <= k < set.representations.len() ==> can_be_representation(
            #[trigger] set.representations[k],
        )
}

pub open spec fn can_be_period(p: PeriodView) -> bool {
    &&& can_be_value(p.id)
    &&& can_be_duration(p.start)
    &&& forall|k: int|
        0 <= k < p.adaptation_sets.len() ==> can_be_set(#[trigger] p.adaptation_sets[k])
}

/// A manifest that can be written.
pub open spec fn can_be_manifest(m: MpdView) -> bool {
    &&& can_be_duration(m.min_buffer_time)
    &&& can_be_duration(m.media_presentation_duration)
    &&& forall|k: int| 0 <= k < m.periods.len() ==> can_be_period(#[trigger] m.periods[k])
}

/// The names of tags and attributes, and what they are in lower case.
proof fn names_are_known()
    ensures
        can_be_name("MPD"@),
        can_be_name("Period"@),
        can_be_name("AdaptationSet"@),
        can_be_name("Representation"@),
        can_be_name("minBufferTime"@),
        can_be_name("mediaPresentationDuration"@),
        can_be_name("mimeType"@),
        can_be_name("start"@),
        can_be_name("id"@),
        can_be_name("bandwidth"@),
        can_be_name("width"@),
        can_be_name("height"@),
        can_be_name("codecs"@),
        text::lowered("MPD"@) == "mpd"@,
        text::lowered("Period"@) == "period"@,
        text::lowered("AdaptationSet"@) == "adaptationset"@,
        text::lowered("Representation"@) == "representation"@,
        text::lowered("minBufferTime"@) == "minbuffertime"@,
        text::lowered("mediaPresentationDuration"@) == "mediapresentationduration"@,
        text::lowered("mimeType"@) == "mimetype"@,
        text::lowered("start"@) == "start"@,
        text::lowered("id"@) == "id"@,
        text::lowered("bandwidth"@) == "bandwidth"@,
        text::lowered("width"@) == "width"@,
        text::lowered("height"@) == "height"@,
        text::lowered("codecs"@) == "codecs"@,
        "mpd"@.len() == 3,
        "period"@.len() == 6,
        "adaptationset"@.len() == 13,
        "representation"@.len() == 14,
        "minbuffertime"@.len() == 13,
        "mediapresentationduration"@.len() == 25,
        "start"@.len() == 5,
        "id"@.len() == 2,
        "bandwidth"@.len() == 9,
        "width"@.len() == 5,
        "height"@.len() == 6,
        "codecs"@.len() == 6,
        "height"@[0] == 'h',
        "codecs"@[0] == 'c',
{
    reveal_strlit("MPD");
    reveal_strlit("Period");
    reveal_strlit("AdaptationSet");
    reveal_strlit("Representation");
    reveal_strlit("minBufferTime");
    reveal_strlit("mediaPresentationDuration");
    reveal_strlit("mimeType");
    reveal_strlit("start");
    reveal_strlit("id");
    reveal_strlit("bandwidth");
    reveal_strlit("width");
    reveal_strlit("height");
    reveal_strlit("codecs");
    reveal_strlit("mpd");
    reveal_strlit("period");
    reveal_strlit("adaptationset");
    reveal_strlit("representation");
    reveal_strlit("minbuffertime");
    reveal_strlit("mediapresentationduration");
    reveal_strlit("mimetype");
    assert(text::lowered("MPD"@) =~= "mpd"@);
    assert(text::lowered("Period"@) =~= "period"@);
    assert(text::lowered("AdaptationSet"@) =~= "adaptationset"@);
    assert(text::lowered("Representation"@) =~= "representation"@);
    assert(text::lowered("minBufferTime"@) =~= "minbuffertime"@);
    assert(text::lowered("mediaPresentationDuration"@) =~= "mediapresentationduration"@);
    assert(text::lowered("mimeType"@) =~= "mimetype"@);
    assert(text::lowered("start"@) =~= "start"@);
    assert(text::lowered("id"@) =~= "id"@);
    assert(text::lowered("bandwidth"@) =~= "bandwidth"@);
    assert(text::lowered("width"@) =~= "width"@);
    assert(text::lowered("height"@) =~= "height"@);
    assert(text::lowered("codecs"@) =~= "codecs"@);
}

proof fn durations_are_read(s: Seq<char>)
    requires
        text::is_real(s),
    ensures
        dash::seconds_of(written_duration(s)) == Some(s),
{
    let w = written_duration(s);
    reveal_strlit("PT");
    assert(w.take(2) =~= "PT"@);
    assert(w.last() == 'S');
    assert(w.subrange(2, w.len() - 1) =~= s);
}

proof fn duration_values(s: Seq<char>)
    requires
        can_be_value(s),
    ensures
        can_be_value(written_duration(s)),
{
    let w = written_duration(s);
    assert forall|i: int| 0 <= i < w.len() implies #[trigger] w[i] != '"' && w[i] != '>' by {
        if 2 <= i < 2 + s.len() {
            assert(w[i] == s[i - 2]);
        }
    }
}

proof fn numbers_fit(n: int)
    requires
        0 <= n <= u32::MAX,
    ensures
        text::parsed(text::written::digits(n), u32::MAX as int) == Some(n),
        can_be_value(text::written::digits(n)),
{
    text::written::digits_are_read(n);
    text::written::numbers_are_parsed(n);
}

/// The tag of a representation describes it.
pub proof fn representation_tags_are_read(r: RepresentationView)
    requires
        can_be_representation(r),
    ensures
        can_be_tag(representation_tag(r)),
        dash::representation_of(representation_tag(r).attrs) == r,
{
    let list = representation_tag(r).attrs;
    names_are_known();
    numbers_fit(r.bandwidth);
    if let Some(w) = r.width {
        numbers_fit(w);
    }
    if let Some(h) = r.height {
        numbers_fit(h);
    }
    reveal_with_fuel(dash::attribute, 7);
    assert(dash::representation_of(list).base_url =~= r.base_url);
    assert(dash::attribute(list, "id"@, 0) == Some(r.id));
    assert(dash::attribute(list, "codecs"@, 0) == Some(r.codecs));
    assert(dash::number_attribute(list, "bandwidth"@) == Some(r.bandwidth));
    assert(dash::number_attribute(list, "width"@) == r.width);
    assert(dash::number_attribute(list, "height"@) == r.height);
}

/// What tags do to a manifest one after the other.
pub open spec fn steps(st: ParseState, tags: Seq<TagView>, n: int) -> ParseState
    decreases n,
{
    if n <= 0 {
        st
    } else {
        dash::step(steps(st, tags, n - 1), tags[n - 1])
    }
}

proof fn steps_follow(st: ParseState, a: Seq<TagView>, b: Seq<TagView>, n: int)
    requires
        0 <= n <= b.len(),
    ensures
        steps(st, a + b, a.len() + n) == steps(steps(st, a, a.len() as int), b, n),
    decreases n,
{
    if n == 0 {
        steps_of_the_first(st, a, b, a.len() as int);
    } else {
        steps_follow(st, a, b, n - 1);
        assert((a + b)[a.len() + n - 1] == b[n - 1]);
    }
}

proof fn steps_of_the_first(st: ParseState, a: Seq<TagView>, b: Seq<TagView>, n: int)
    requires
        0 <= n <= a.len(),
    ensures
        steps(st, a + b, n) == steps(st, a, n),
    decreases n,
{
    if n > 0 {
        steps_of_the_first(st, a, b, n - 1);
        assert((a + b)[n - 1] == a[n - 1]);
    }
}

proof fn joined_steps(st: ParseState, a: Seq<TagView>, b: Seq<TagView>)
    ensures
        steps(st, a + b, (a + b).len() as int) == steps(
            steps(st, a, a.len() as int),
            b,
            b.len() as int,
        ),
{
    steps_follow(st, a, b, b.len() as int);
}

proof fn one_step(st: ParseState, tag: TagView)
    ensures
        steps(st, seq![tag], 1) == dash::step(st, tag),
{
    reveal_with_fuel(steps, 2);
}

proof fn tags_after(tags: Seq<TagView>, n: int)
    requires
        0 <= n <= tags.len(),
    ensures
        dash::after_tags(tags, n) == steps(dash::after_tags(tags, 0), tags, n),
    decreases n,
{
    if n > 0 {
        tags_after(tags, n - 1);
    }
}

proof fn representations_are_taken(st: ParseState, set: AdaptationSetView, n: int)
    requires
        st.set == Some(
            AdaptationSetView { mime_type: set.mime_type, representations: Seq::empty() },
        ),
        can_be_set(set),
        0 <= n <= set.representations.len(),
    ensures
        steps(
            st,
            set.representations.map_values(|r: RepresentationView| representation_tag(r)),
            n,
        ) == (ParseState {
            set: Some(
                AdaptationSetView {
                    mime_type: set.mime_type,
                    representations: set.representations.take(n),
                },
            ),
            ..st
        }),
    decreases n,
{
    let tags = set.representations.map_values(|r: RepresentationView| representation_tag(r));
    if n == 0 {
        assert(set.representations.take(0) =~= Seq::<RepresentationView>::empty());
    } else {
        let r = set.representations[n - 1];
        representations_are_taken(st, set, n - 1);
        assert(can_be_representation(r));
        assert(tags[n - 1] == representation_tag(r));
        representation_tags_are_read(r);
        names_are_known();
        assert(set.representations.take(n) =~= set.representations.take(n - 1).push(r));
    }
}

proof fn set_is_taken(st: ParseState, set: AdaptationSetView)
    requires
        st.period is Some,
        can_be_set(set),
    ensures
        steps(st, set_tags(set), set_tags(set).len() as int) == (ParseState {
            period: Some(
                PeriodView {
                    adaptation_sets: (st.period->0).adaptation_sets.push(set),
                    ..st.period->0
                },
            ),
            set: None,
            mpd: st.mpd,
        }),
        forall|k: int| 0 <= k < set_tags(set).len() ==> can_be_tag(#[trigger] set_tags(set)[k]),
{
    let open = opening("AdaptationSet"@, seq![("mimeType"@, set.mime_type)]);
    let close = closing("AdaptationSet"@);
    let inside = set.representations.map_values(|r: RepresentationView| representation_tag(r));
    let n = set.representations.len() as int;
    names_are_known();
    one_step(st, open);
    reveal_with_fuel(dash::attribute, 2);
    let opened = dash::step(st, open);
    assert(opened.set == Some(
        AdaptationSetView { mime_type: set.mime_type, representations: Seq::empty() },
    ));
    joined_steps(st, seq![open], inside);
    representations_are_taken(opened, set, n);
    assert(set.representations.take(n) =~= set.representations);
    joined_steps(st, seq![open] + inside, seq![close]);
    one_step(steps(opened, inside, n), close);
    assert forall|k: int| 0 <= k < set_tags(set).len() implies can_be_tag(
        #[trigger] set_tags(set)[k],
    ) by {
        if k == 0 {
        } else if k <= n {
            assert(can_be_representation(set.representations[k - 1]));
            representation_tags_are_read(set.representations[k - 1]);
            assert(set_tags(set)[k] == inside[k - 1]);
        }
    }
}

proof fn sets_are_taken(st: ParseState, sets: Seq<AdaptationSetView>, n: int)
    requires
        st.period is Some,
        st.set is None,
        (st.period->0).adaptation_sets.len() == 0,
        0 <= n <= sets.len(),
        forall|k: int| 0 <= k < sets.len() ==> can_be_set(#[trigger] sets[k]),
    ensures
        steps(st, sets_tags(sets, n), sets_tags(sets, n).len() as int) == (ParseState {
            period: Some(PeriodView { adaptation_sets: sets.take(n), ..st.period->0 }),
            set: None,
            mpd: st.mpd,
        }),
        forall|k: int|
            0 <= k < sets_tags(sets, n).len() ==> can_be_tag(#[trigger] sets_tags(sets, n)[k]),
    decreases n,
{
    if n == 0 {
        assert(sets.take(0) =~= (st.period->0).adaptation_sets);
    } else {
        let before = sets_tags(sets, n - 1);
        let last = set_tags(sets[n - 1]);
        sets_are_taken(st, sets, n - 1);
        joined_steps(st, before, last);
        assert(can_be_set(sets[n - 1]));
        set_is_taken(steps(st, before, before.len() as int), sets[n - 1]);
        assert(sets.take(n) =~= sets.take(n - 1).push(sets[n - 1]));
        assert forall|k: int| 0 <= k < sets_tags(sets, n).len() implies can_be_tag(
            #[trigger] sets_tags(sets, n)[k],
        ) by {
            if k < before.len() {
                assert(sets_tags(sets, n)[k] == before[k]);
            } else {
                assert(sets_tags(sets, n)[k] == last[k - before.len()]);
            }
        }
    }
}

proof fn period_is_taken(st: ParseState, p: PeriodView)
    requires
        st.set is None,
        can_be_period(p),
    ensures
        steps(st, period_tags(p), period_tags(p).len() as int) == (ParseState {
            mpd: MpdView { periods: st.mpd.periods.push(p), ..st.mpd },
            period: None,
            set: None,
        }),
        forall|k: int| 0 <= k < period_tags(p).len() ==> can_be_tag(#[trigger] period_tags(p)[k]),
{
    let list = seq![("id"@, p.id)] + duration_of("start"@, p.start);
    let open = opening("Period"@, list);
    let close = closing("Period"@);
    let n = p.adaptation_sets.len() as int;
    let inside = sets_tags(p.adaptation_sets, n);
    names_are_known();
    if let Some(s) = p.start {
        durations_are_read(s);
        duration_values(s);
    }
    one_step(st, open);
    reveal_with_fuel(dash::attribute, 3);
    let opened = dash::step(st, open);
    assert(dash::attribute(list, "id"@, 0) == Some(p.id));
    assert(dash::duration_attribute(list, "start"@) == p.start);
    joined_steps(st, seq![open], inside);
    sets_are_taken(opened, p.adaptation_sets, n);
    assert(p.adaptation_sets.take(n) =~= p.adaptation_sets);
    joined_steps(st, seq![open] + inside, seq![close]);
    one_step(steps(opened, inside, inside.len() as int), close);
    assert forall|k: int| 0 <= k < period_tags(p).len() implies can_be_tag(
        #[trigger] period_tags(p)[k],
    ) by {
        if k == 0 {
        } else if k <= inside.len() {
            assert(period_tags(p)[k] == inside[k - 1]);
        }
    }
}

proof fn periods_are_taken(st: ParseState, periods: Seq<PeriodView>, n: int)
    requires
        st.set is None,
        st.period is None,
        st.mpd.periods.len() == 0,
        0 <= n <= periods.len(),
        forall|k: int| 0 <= k < periods.len() ==> can_be_period(#[trigger] periods[k]),
    ensures
        steps(st, periods_tags(periods, n), periods_tags(periods, n).len() as int) == (ParseState {
            mpd: MpdView { periods: periods.take(n), ..st.mpd },
            period: None,
            set: None,
        }),
        forall|k: int|
            0 <= k < periods_tags(periods, n).len() ==> can_be_tag(
                #[trigger] periods_tags(periods, n)[k],
            ),
    decreases n,
{
    if n == 0 {
        assert(periods.take(0) =~= st.mpd.periods);
    } else {
        let before = periods_tags(periods, n - 1);
        let last = period_tags(periods[n - 1]);
        periods_are_taken(st, periods, n - 1);
        joined_steps(st, before, last);
        assert(can_be_period(periods[n - 1]));
        period_is_taken(steps(st, before, before.len() as int), periods[n - 1]);
        assert(periods.take(n) =~= periods.take(n - 1).push(periods[n - 1]));
        assert forall|k: int| 0 <= k < periods_tags(periods, n).len() implies can_be_tag(
            #[trigger] periods_tags(periods, n)[k],
        ) by {
            if k < before.len() {
                assert(periods_tags(periods, n)[k] == before[k]);
            } else {
                assert(periods_tags(periods, n)[k] == last[k - before.len()]);
            }
        }
    }
}

/// A manifest that was written is read back.
pub proof fn written_manifests_are_read(m: MpdView)
    requires
        can_be_manifest(m),
    ensures
        dash::mpd_of(written_manifest(m)) == m,
{
    let list = duration_of("minBufferTime"@, m.min_buffer_time) + duration_of(
        "mediaPresentationDuration"@,
        m.media_presentation_duration,
    );
    let open = opening("MPD"@, list);
    let close = closing("MPD"@);
    let n = m.periods.len() as int;
    let inside = periods_tags(m.periods, n);
    let tags = manifest_tags(m);
    let st = dash::after_tags(tags, 0);
    names_are_known();
    if let Some(s) = m.min_buffer_time {
        durations_are_read(s);
        duration_values(s);
    }
    if let Some(s) = m.media_presentation_duration {
        durations_are_read(s);
        duration_values(s);
    }
    one_step(st, open);
    reveal_with_fuel(dash::attribute, 3);
    let opened = dash::step(st, open);
    assert(dash::duration_attribute(list, "minbuffertime"@) == m.min_buffer_time);
    assert(dash::duration_attribute(list, "mediapresentationduration"@)
        == m.media_presentation_duration);
    joined_steps(st, seq![open], inside);
    periods_are_taken(opened, m.periods, n);
    assert(m.periods.take(n) =~= m.periods);
    joined_steps(st, seq![open] + inside, seq![close]);
    one_step(steps(opened, inside, inside.len() as int), close);
    assert forall|k: int| 0 <= k < tags.len() implies can_be_tag(#[trigger] tags[k]) by {
        if k == 0 {
        } else if k <= inside.len() {
            assert(tags[k] == inside[k - 1]);
        }
    }
    written_tags_are_read(tags);
    tags_after(tags, tags.len() as int);
    assert(dash::after_tags(tags, tags.len() as int).mpd =~= m);
}

} // verus!
