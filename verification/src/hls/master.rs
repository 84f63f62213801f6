//! Master playlists that were written are read back.
use vstd::prelude::*;

use crate::hls::{self, written, MasterState, StreamInfo, VariantView};
use crate::text;

verus! {

/// The resolution of a variant as it is written.
pub open spec fn resolution_text(size: (int, int)) -> Seq<char> {
    text::written::digits(size.0) + (seq!['x'] + text::written::digits(size.1))
}

/// The attributes of a variant as they are written.
pub open spec fn attribute_text(v: VariantView) -> Seq<char> {
    "BANDWIDTH"@ + (seq!['='] + (text::written::digits(v.bandwidth) + (seq![','] + rest_text(v))))
}

/// The attributes behind the bandwidth.
pub open spec fn rest_text(v: VariantView) -> Seq<char> {
    match v.resolution {
        Some(size) => "RESOLUTION"@ + (seq!['='] + (resolution_text(size) + (seq![','] + codecs_text(
            v,
        )))),
        None => codecs_text(v),
    }
}

/// The list of codecs as it is written.
pub open spec fn codecs_text(v: VariantView) -> Seq<char> {
    "CODECS"@ + (seq!['=', '"'] + (v.codecs + seq!['"']))
}

/// The line that describes a variant.
pub open spec fn variant_line(v: VariantView) -> Seq<char> {
    "#EXT-X-STREAM-INF:"@ + attribute_text(v)
}

/// The lines of the first `n` variants.
pub open spec fn variant_lines(variants: Seq<VariantView>, n: int) -> Seq<Seq<char>>
    decreases n,
{
    if n <= 0 {
        Seq::empty()
    } else {
        variant_lines(variants, n - 1).push(variant_line(variants[n - 1])).push(
            variants[n - 1].uri,
        )
    }
}

/// A master playlist as it is written.
pub open spec fn written_master(variants: Seq<VariantView>) -> Seq<char> {
    text::written::written_lines(
        seq!["#EXTM3U"@] + variant_lines(variants, variants.len() as int),
    )
}

/// A variant that can be written.
pub open spec fn can_be_variant(v: VariantView) -> bool {
    &&& 0 <= v.bandwidth <= u32::MAX
    &&& v.resolution matches Some(size) ==> 0 <= size.0 <= u32::MAX && 0 <= size.1 <= u32::MAX
    &&& forall|i: int| 0 <= i < v.codecs.len() ==> #[trigger] v.codecs[i] != '"' && v.codecs[i]
        != '\n'
    &&& text::written::is_line(v.uri)
    &&& v.uri[0] != '#'
}

proof fn names()
    ensures
        "BANDWIDTH"@.len() == 9 && "BANDWIDTH"@[0] == 'B',
        "RESOLUTION"@.len() == 10 && "RESOLUTION"@[0] == 'R',
        "CODECS"@.len() == 6 && "CODECS"@[0] == 'C',
        is_name("BANDWIDTH"@),
        is_name("RESOLUTION"@),
        is_name("CODECS"@),
        "#EXT-X-STREAM-INF:"@.len() == 18 && "#EXT-X-STREAM-INF:"@[0] == '#',
        "#EXT-X-STREAM-INF"@ == "#EXT-X-STREAM-INF:"@.take(17),
        forall|i: int| 0 <= i < 18 ==> #[trigger] "#EXT-X-STREAM-INF:"@[i] != '\n',
        forall|i: int| 0 <= i < 7 ==> #[trigger] "#EXTM3U"@[i] != '\n',
        "#EXTM3U"@.len() == 7 && "#EXTM3U"@[0] == '#' && "#EXTM3U"@[6] == 'U',
{
    reveal_strlit("BANDWIDTH");
    reveal_strlit("RESOLUTION");
    reveal_strlit("CODECS");
    reveal_strlit("#EXT-X-STREAM-INF:");
    reveal_strlit("#EXT-X-STREAM-INF");
    reveal_strlit("#EXTM3U");
    assert("#EXT-X-STREAM-INF"@ =~= "#EXT-X-STREAM-INF:"@.take(17));
}

/// A name of an attribute: one word without the signs around it.
pub open spec fn is_name(s: Seq<char>) -> bool {
    s.len() > 0 && forall|i: int|
        0 <= i < s.len() ==> #[trigger] s[i] != '=' && !text::is_white(s[i]) && s[i] != '\n'
}

proof fn name_is_read(s: Seq<char>, name: Seq<char>, rest: Seq<char>)
    requires
        is_name(name),
        s == name + (seq!['='] + rest),
    ensures
        text::find(s, '=') == name.len(),
        text::trim(s.take(name.len() as int)) == name,
        s.skip(name.len() as int + 1) == rest,
{
    let n = name.len() as int;
    assert forall|j: int| 0 <= j < n implies #[trigger] s[j] != '=' by {
        assert(s[j] == name[j]);
    }
    text::written::found_at(s, '=', 0, n);
    assert(s.take(n) =~= name);
    assert(!text::is_white(name[0]) && !text::is_white(name.last()));
    assert(s.skip(n + 1) =~= rest);
}

/// An attribute without quotes, and others behind it.
proof fn plain_attribute(name: Seq<char>, value: Seq<char>, rest: Seq<char>)
    requires
        is_name(name),
        text::written::is_line(value),
        forall|i: int| 0 <= i < value.len() ==> #[trigger] value[i] != ',',
        value[0] != '"',
    ensures
        ({
            let s = name + (seq!['='] + (value + (seq![','] + rest)));
            &&& hls::attributes(s) == seq![(name, value)] + hls::attributes(rest)
            &&& hls::has_values(s) == hls::has_values(rest)
        }),
{
    let behind = value + (seq![','] + rest);
    let s = name + (seq!['='] + behind);
    let n = name.len() as int;
    let k = value.len() as int;
    name_is_read(s, name, behind);
    assert(behind[0] == value[0]);
    assert forall|j: int| 0 <= j < k implies #[trigger] behind[j] != ',' by {
        assert(behind[j] == value[j]);
    }
    text::written::found_at(behind, ',', 0, k);
    assert(hls::value_end(behind) == k);
    assert(behind.take(k) =~= value);
    text::written::lines_are_trimmed(value);
    assert(behind.skip(k + 1) =~= rest);
    assert(behind[k] == ',');
    assert(hls::behind_value(behind) == rest);
}

/// The list of codecs, at the end.
proof fn quoted_attribute(name: Seq<char>, value: Seq<char>)
    requires
        is_name(name),
        forall|i: int| 0 <= i < value.len() ==> #[trigger] value[i] != '"',
    ensures
        ({
            let s = name + (seq!['=', '"'] + (value + seq!['"']));
            &&& hls::attributes(s) == seq![(name, seq!['"'] + (value + seq!['"']))]
            &&& hls::has_values(s)
            &&& text::trim_char(seq!['"'] + (value + seq!['"']), '"') == value
        }),
{
    let quoted = seq!['"'] + (value + seq!['"']);
    let s = name + (seq!['=', '"'] + (value + seq!['"']));
    let k = value.len() as int;
    assert(s =~= name + (seq!['='] + quoted));
    name_is_read(s, name, quoted);
    assert(quoted[0] == '"' && quoted[k + 1] == '"');
    assert forall|j: int| 1 <= j < k + 1 implies #[trigger] quoted[j] != '"' by {
        assert(quoted[j] == value[j - 1]);
    }
    text::written::found_at(quoted, '"', 1, k + 1);
    assert(hls::value_end(quoted) == k + 2);
    assert(quoted.take(k + 2) =~= quoted);
    assert(!text::is_white('"'));
    assert(quoted.last() == '"');
    assert(text::trim(quoted) == quoted);
    let none = quoted.skip(k + 2);
    assert(none.len() == 0);
    assert(hls::behind_value(quoted) == none);
    text::written::not_found(none, '=', 0);
    assert(hls::attributes(none) =~= Seq::empty());
    assert(hls::has_values(none));
    assert(s.skip(text::find(s, '=') + 1) == quoted);
    assert(hls::has_values(s) == hls::has_values(none));
    assert(hls::attributes(s) =~= seq![(name, quoted)]);
    quotes_come_off(value);
}

proof fn quotes_come_off(value: Seq<char>)
    requires
        forall|i: int| 0 <= i < value.len() ==> #[trigger] value[i] != '"',
    ensures
        text::trim_char(seq!['"'] + (value + seq!['"']), '"') == value,
{
    let quoted = seq!['"'] + (value + seq!['"']);
    let tail = quoted.skip(1);
    assert(tail =~= value + seq!['"']);
    assert(text::trim_start_char(quoted, '"') == text::trim_start_char(tail, '"'));
    if value.len() == 0 {
        assert(tail[0] == '"');
        let none = tail.skip(1);
        assert(none.len() == 0);
        assert(text::trim_start_char(tail, '"') == text::trim_start_char(none, '"'));
        assert(text::trim_start_char(none, '"') =~= value);
        assert(text::trim_end_char(value, '"') =~= value);
    } else {
        assert(tail[0] == value[0]);
        assert(text::trim_start_char(tail, '"') == tail);
        assert(tail.last() == '"');
        assert(tail.drop_last() =~= value);
        assert(text::trim_end_char(tail, '"') == text::trim_end_char(value, '"'));
        assert(value.last() != '"');
        assert(text::trim_end_char(value, '"') == value);
    }
}

proof fn number_fits(n: int)
    requires
        0 <= n <= u32::MAX,
    ensures
        text::parsed(text::written::digits(n), u32::MAX as int) == Some(n),
        text::written::is_line(text::written::digits(n)),
        forall|i: int|
            0 <= i < text::written::digits(n).len() ==> '0' <= #[trigger] text::written::digits(
                n,
            )[i] && text::written::digits(n)[i] <= '9',
{
    text::written::digits_are_read(n);
    text::written::numbers_are_parsed(n);
}

proof fn resolutions_are_read(size: (int, int))
    requires
        0 <= size.0 <= u32::MAX,
        0 <= size.1 <= u32::MAX,
    ensures
        hls::resolution_of(resolution_text(size)) == Some(size),
        text::written::is_line(resolution_text(size)),
        forall|i: int|
            0 <= i < resolution_text(size).len() ==> #[trigger] resolution_text(size)[i] != ','
                && resolution_text(size)[i] != '\n',
        resolution_text(size)[0] != '"',
{
    let s = resolution_text(size);
    let (w, h) = (text::written::digits(size.0), text::written::digits(size.1));
    number_fits(size.0);
    number_fits(size.1);
    assert forall|j: int| 0 <= j < w.len() implies #[trigger] s[j] != 'x' by {
        assert(s[j] == w[j]);
    }
    text::written::found_at(s, 'x', 0, w.len() as int);
    assert(s.take(w.len() as int) =~= w);
    assert(s.skip(w.len() as int + 1) =~= h);
    assert forall|i: int| 0 <= i < s.len() implies #[trigger] s[i] != ',' && s[i] != '\n' by {
        if i < w.len() {
            assert(s[i] == w[i]);
        } else if i > w.len() {
            assert(s[i] == h[i - w.len() - 1]);
        }
    }
    assert(s[0] == w[0] && s.last() == h.last());
}

/// The attributes of a variant are read back.
pub proof fn written_attributes_are_read(v: VariantView)
    requires
        can_be_variant(v),
    ensures
        hls::stream_info_of(attribute_text(v)) == (StreamInfo {
            bandwidth: v.bandwidth,
            codecs: v.codecs,
            resolution: v.resolution,
        }),
        hls::has_values(attribute_text(v)),
{
    names();
    number_fits(v.bandwidth);
    let quoted = seq!['"'] + (v.codecs + seq!['"']);
    quoted_attribute("CODECS"@, v.codecs);
    plain_attribute("BANDWIDTH"@, text::written::digits(v.bandwidth), rest_text(v));
    let first = ("BANDWIDTH"@, text::written::digits(v.bandwidth));
    let last = ("CODECS"@, quoted);
    let attrs = hls::attributes(attribute_text(v));
    reveal_with_fuel(hls::stream_info, 4);
    match v.resolution {
        Some(size) => {
            resolutions_are_read(size);
            plain_attribute("RESOLUTION"@, resolution_text(size), codecs_text(v));
            let middle = ("RESOLUTION"@, resolution_text(size));
            assert(attrs =~= seq![first, middle, last]);
        },
        None => {
            assert(attrs =~= seq![first, last]);
        },
    }
}

proof fn variant_lines_are_lines(v: VariantView)
    requires
        can_be_variant(v),
    ensures
        text::written::is_line(variant_line(v)),
        text::has_prefix(variant_line(v), "#EXT-X-STREAM-INF:"@),
        text::has_prefix(variant_line(v), "#EXT-X-STREAM-INF"@),
        variant_line(v).skip(18) == attribute_text(v),
        !text::has_prefix(v.uri, "#EXT-X-STREAM-INF:"@),
{
    names();
    number_fits(v.bandwidth);
    let head = "#EXT-X-STREAM-INF:"@;
    let line = variant_line(v);
    let a = attribute_text(v);
    assert(line.take(18) =~= head);
    assert(line.take(17) =~= head.take(17));
    assert(line.skip(18) =~= a);
    let codecs = codecs_text(v);
    assert forall|i: int| 0 <= i < codecs.len() implies #[trigger] codecs[i] != '\n' by {
        if i < 6 {
            assert(codecs[i] == "CODECS"@[i]);
        } else if 8 <= i < 8 + v.codecs.len() {
            assert(codecs[i] == v.codecs[i - 8]);
        }
    }
    assert(codecs.last() == '"');
    let rest = rest_text(v);
    assert forall|i: int| 0 <= i < rest.len() implies #[trigger] rest[i] != '\n' by {
        if let Some(size) = v.resolution {
            resolutions_are_read(size);
            let r = resolution_text(size);
            if i < 10 {
                assert(rest[i] == "RESOLUTION"@[i]);
            } else if 11 <= i < 11 + r.len() {
                assert(rest[i] == r[i - 11]);
            } else if i > 11 + r.len() {
                assert(rest[i] == codecs[i - 12 - r.len()]);
            }
        } else {
            assert(rest[i] == codecs[i]);
        }
    }
    assert(rest.last() == '"');
    let d = text::written::digits(v.bandwidth);
    assert forall|i: int| 0 <= i < a.len() implies #[trigger] a[i] != '\n' by {
        if i < 9 {
            assert(a[i] == "BANDWIDTH"@[i]);
        } else if 10 <= i < 10 + d.len() {
            assert(a[i] == d[i - 10]);
        } else if i > 10 + d.len() {
            assert(a[i] == rest[i - 11 - d.len()]);
        }
    }
    assert(a.last() == '"');
    assert forall|i: int| 0 <= i < line.len() implies #[trigger] line[i] != '\n' by {
        if i < 18 {
            assert(line[i] == head[i]);
        } else {
            assert(line[i] == a[i - 18]);
        }
    }
    assert(line[0] == '#' && line.last() == '"');
    if text::has_prefix(v.uri, head) {
        assert(v.uri.take(18)[0] == v.uri[0]);
    }
}

proof fn variants_are_taken(variants: Seq<VariantView>, body: Seq<Seq<char>>, n: int)
    requires
        0 <= n <= variants.len(),
        forall|k: int| 0 <= k < variants.len() ==> can_be_variant(#[trigger] variants[k]),
        variant_lines(variants, n).len() == 2 * n,
        body.len() >= 2 * n,
        body.take(2 * n) == variant_lines(variants, n),
    ensures
        hls::master_after(body, 2 * n) == (MasterState {
            variants: variants.take(n),
            pending: None,
        }),
    decreases n,
{
    if n == 0 {
        assert(variants.take(0) =~= Seq::<VariantView>::empty());
    } else {
        let v = variants[n - 1];
        let lines = variant_lines(variants, n);
        let before = variant_lines(variants, n - 1);
        assert(can_be_variant(v));
        assert(before.len() == 2 * (n - 1));
        assert(body.take(2 * (n - 1)) =~= lines.take(2 * (n - 1)));
        assert(lines.take(2 * (n - 1)) =~= before);
        variants_are_taken(variants, body, n - 1);
        assert(body.take(2 * n)[2 * n - 2] == body[2 * n - 2]);
        assert(body.take(2 * n)[2 * n - 1] == body[2 * n - 1]);
        assert(body[2 * n - 2] == variant_line(v) && body[2 * n - 1] == v.uri);
        variant_lines_are_lines(v);
        written_attributes_are_read(v);
        let st = hls::master_after(body, 2 * n - 2);
        let st1 = hls::master_after(body, 2 * n - 1);
        assert(st1 == hls::master_step(st, variant_line(v)));
        assert(hls::master_after(body, 2 * n) == hls::master_step(st1, v.uri));
        assert(variants.take(n) =~= variants.take(n - 1).push(v));
    }
}

proof fn variant_lines_in_place(variants: Seq<VariantView>, n: int)
    requires
        0 <= n <= variants.len(),
        forall|k: int| 0 <= k < variants.len() ==> can_be_variant(#[trigger] variants[k]),
    ensures
        variant_lines(variants, n).len() == 2 * n,
        forall|k: int|
            0 <= k < 2 * n ==> text::written::is_line(#[trigger] variant_lines(variants, n)[k])
                && (text::has_prefix(variant_lines(variants, n)[k], "#EXT-X-STREAM-INF:"@)
                ==> hls::has_values(variant_lines(variants, n)[k].skip(18))),
        n > 0 ==> text::has_prefix(variant_lines(variants, n)[0], "#EXT-X-STREAM-INF"@),
    decreases n,
{
    if n > 0 {
        let v = variants[n - 1];
        let before = variant_lines(variants, n - 1);
        variant_lines_in_place(variants, n - 1);
        assert(can_be_variant(v));
        variant_lines_are_lines(v);
        written_attributes_are_read(v);
        let lines = variant_lines(variants, n);
        assert forall|k: int| 0 <= k < 2 * n implies text::written::is_line(#[trigger] lines[k]) && (
        text::has_prefix(lines[k], "#EXT-X-STREAM-INF:"@) ==> hls::has_values(
            lines[k].skip(18),
        )) by {
            if k < 2 * n - 2 {
                assert(lines[k] == before[k]);
            }
        }
    }
}

/// A master playlist that was written is read back: its variants, in their order, each
/// with its bandwidth, codecs, resolution and address.
pub proof fn written_masters_are_read(variants: Seq<VariantView>)
    requires
        variants.len() > 0,
        forall|k: int| 0 <= k < variants.len() ==> can_be_variant(#[trigger] variants[k]),
    ensures
        ({
            let text = written_master(variants);
            let body = hls::lines_of(text).skip(1);
            &&& hls::well_formed(text)
            &&& hls::has_playlist_header(text)
            &&& hls::is_master(body)
            &&& hls::master_of(body) == variants
        }),
{
    let n = variants.len() as int;
    let body = variant_lines(variants, n);
    let lines = seq!["#EXTM3U"@] + body;
    names();
    variant_lines_in_place(variants, n);
    assert forall|k: int| 0 <= k < lines.len() implies text::written::is_line(#[trigger] lines[k]) by {
        if k > 0 {
            assert(lines[k] == body[k - 1]);
        }
    }
    written::written_lines_are_read(lines);
    assert(lines.skip(1) =~= body);
    assert("#EXTM3U"@.take(7) =~= "#EXTM3U"@);
    assert forall|k: int|
        0 <= k < lines.len() && text::has_prefix(
            #[trigger] lines[k],
            "#EXT-X-STREAM-INF:"@,
        ) implies hls::has_values(lines[k].skip(18)) by {
        if k > 0 {
            assert(lines[k] == body[k - 1]);
        }
    }
    assert(hls::is_master(body)) by {
        assert(text::has_prefix(body[0], "#EXT-X-STREAM-INF"@));
    }
    assert(body.take(2 * n) =~= body);
    variants_are_taken(variants, body, n);
    assert(variants.take(n) =~= variants);
}

} // verus!
