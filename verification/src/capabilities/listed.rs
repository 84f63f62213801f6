//! Lists of codecs are answered codec by codec.
use vstd::prelude::*;

use crate::capabilities::{self, Support};
use crate::text;

verus! {

/// A codec that can be listed: its name has no quotes, no white space and none of
/// the characters that separate codecs and parameters.
pub open spec fn can_be_codec(s: Seq<char>) -> bool {
    &&& s.len() > 0
    &&& forall|i: int| 0 <= i < s.len() ==> is_name_char(#[trigger] s[i])
}

/// A character of such a name.
pub open spec fn is_name_char(c: char) -> bool {
    c != ',' && c != ';' && c != '"' && c != '\'' && !text::is_white(c)
}

/// The `k`-th codec as it is listed: with a blank before it, but for the first.
pub open spec fn item(codecs: Seq<Seq<char>>, k: int) -> Seq<char> {
    if k == 0 {
        codecs[k]
    } else {
        seq![' '] + codecs[k]
    }
}

/// The codecs from the `k`-th on, with commas between them.
pub open spec fn list_from(codecs: Seq<Seq<char>>, k: int) -> Seq<char>
    decreases codecs.len() - k,
{
    if k + 1 >= codecs.len() {
        item(codecs, k)
    } else {
        item(codecs, k) + (seq![','] + list_from(codecs, k + 1))
    }
}

/// A content type that lists codecs.
pub open spec fn listed(mime: Seq<char>, codecs: Seq<Seq<char>>) -> Seq<char> {
    mime + (seq![';'] + (" codecs="@ + (seq!['"'] + (list_from(codecs, 0) + seq!['"']))))
}

/// A character of the names of containers.
pub open spec fn is_mime_char(c: char) -> bool {
    'a' <= c && c <= 'z' || '0' <= c && c <= '9' || c == '/' || c == '-'
}

proof fn containers_are_plain(mime: Seq<char>)
    requires
        capabilities::known_container(mime),
    ensures
        mime.len() > 0,
        forall|i: int| 0 <= i < mime.len() ==> is_mime_char(#[trigger] mime[i]),
{
    reveal_strlit("video/webm");
    reveal_strlit("audio/webm");
    reveal_strlit("video/mp4");
    reveal_strlit("audio/mp4");
    reveal_strlit("audio/flac");
    reveal_strlit("audio/x-flac");
    reveal_strlit("audio/ogg");
    reveal_strlit("video/ogg");
    reveal_strlit("application/ogg");
    reveal_strlit("audio/mpeg");
    reveal_strlit("audio/mp3");
    reveal_strlit("audio/aac");
    reveal_strlit("audio/wav");
    reveal_strlit("audio/x-wav");
}

/// A text without white space at its ends is not changed by trimming.
proof fn trims_to_itself(s: Seq<char>)
    requires
        s.len() > 0,
        !text::is_white(s[0]),
        !text::is_white(s.last()),
    ensures
        text::trim(s) == s,
{
}

proof fn item_is_trimmed(codecs: Seq<Seq<char>>, k: int)
    requires
        0 <= k < codecs.len(),
        can_be_codec(codecs[k]),
    ensures
        text::trim(item(codecs, k)) == codecs[k],
        text::trim(codecs[k]) == codecs[k],
        forall|i: int|
            0 <= i < item(codecs, k).len() ==> #[trigger] item(codecs, k)[i] == ' ' || is_name_char(
                item(codecs, k)[i],
            ),
{
    let c = codecs[k];
    assert(is_name_char(c[0]) && is_name_char(c.last()));
    trims_to_itself(c);
    if k != 0 {
        let s = item(codecs, k);
        assert(s.skip(1) =~= c);
        assert(text::trim_start(c) == c);
        assert(text::trim_start(s) == text::trim_start(s.skip(1)));
        assert forall|i: int| 0 <= i < s.len() implies #[trigger] s[i] == ' ' || is_name_char(
            s[i],
        ) by {
            if i > 0 {
                assert(s[i] == c[i - 1]);
            }
        }
    } else {
        assert forall|i: int| 0 <= i < c.len() implies is_name_char(#[trigger] c[i]) by {}
    }
}

/// A list is split into its items.
proof fn list_is_split(codecs: Seq<Seq<char>>, k: int)
    requires
        0 <= k < codecs.len(),
        forall|j: int| 0 <= j < codecs.len() ==> can_be_codec(#[trigger] codecs[j]),
    ensures
        text::split(list_from(codecs, k), ',') == Seq::new(
            (codecs.len() - k) as nat,
            |j: int| item(codecs, k + j),
        ),
        forall|i: int|
            0 <= i < list_from(codecs, k).len() ==> #[trigger] list_from(codecs, k)[i] == ' '
                || list_from(codecs, k)[i] == ',' || is_name_char(list_from(codecs, k)[i]),
        list_from(codecs, k).len() > 0,
        is_name_char(list_from(codecs, k).last()),
        list_from(codecs, k)[0] == item(codecs, k)[0],
    decreases codecs.len() - k,
{
    let first = item(codecs, k);
    let list = list_from(codecs, k);
    let parts = Seq::new((codecs.len() - k) as nat, |j: int| item(codecs, k + j));
    assert(can_be_codec(codecs[k]));
    item_is_trimmed(codecs, k);
    assert(is_name_char(codecs[k].last()));
    if k + 1 >= codecs.len() {
        text::written::not_found(list, ',', 0);
        assert(parts =~= seq![list]);
    } else {
        let rest = list_from(codecs, k + 1);
        let others = Seq::new(
            (codecs.len() - (k + 1)) as nat,
            |j: int| item(codecs, k + 1 + j),
        );
        list_is_split(codecs, k + 1);
        text::written::split_once(list, ',', first, rest);
        assert(parts =~= seq![first] + others);
        assert(list.last() == rest.last());
        assert forall|i: int| 0 <= i < list.len() implies #[trigger] list[i] == ' ' || list[i]
            == ',' || is_name_char(list[i]) by {
            if i < first.len() {
                assert(list[i] == first[i]);
            } else if i > first.len() {
                assert(list[i] == rest[i - first.len() - 1]);
            }
        }
    }
}

/// What a list says of its codecs.
proof fn list_says(codecs: Seq<Seq<char>>)
    requires
        codecs.len() > 0,
        forall|j: int| 0 <= j < codecs.len() ==> can_be_codec(#[trigger] codecs[j]),
    ensures
        capabilities::lists_some(list_from(codecs, 0)),
        capabilities::lists_only_known(list_from(codecs, 0)) <==> forall|k: int|
            0 <= k < codecs.len() ==> capabilities::known_codec(#[trigger] codecs[k]),
{
    let list = list_from(codecs, 0);
    let parts = text::split(list, ',');
    list_is_split(codecs, 0);
    assert forall|k: int| 0 <= k < codecs.len() implies parts[k] == item(codecs, k) && text::trim(
        #[trigger] parts[k],
    ).len() > 0 && capabilities::known_codec(parts[k]) == capabilities::known_codec(
        codecs[k],
    ) by {
        assert(can_be_codec(codecs[k]));
        item_is_trimmed(codecs, k);
    }
    assert(text::trim(parts[0]).len() > 0);
    if capabilities::lists_only_known(list) {
        assert forall|k: int| 0 <= k < codecs.len() implies capabilities::known_codec(
            #[trigger] codecs[k],
        ) by {
            assert(capabilities::known_codec(parts[k]));
        }
    }
}

/// A parameter that lists codecs holds the list, without its quotes.
proof fn parameter_is_read(list: Seq<char>)
    requires
        list.len() > 0,
        is_name_char(list[0]),
        is_name_char(list.last()),
    ensures
        capabilities::codecs_value(" codecs="@ + (seq!['"'] + (list + seq!['"']))) == Some(list),
{
    let quoted = seq!['"'] + (list + seq!['"']);
    let parameter = " codecs="@ + quoted;
    reveal_strlit(" codecs=");
    reveal_strlit("codecs");
    let p = parameter.skip(1);
    assert(p.last() == '"');
    assert(p[0] == 'c');
    trims_to_itself(p);
    assert(text::trim_start(p) == p);
    assert(text::trim_start(parameter) == text::trim_start(parameter.skip(1)));
    assert(text::trim(parameter) == p);
    assert(p.take(6) =~= "codecs"@);
    let rest = p.skip(6);
    assert(rest[0] == '=');
    assert(text::trim_start(rest) == rest);
    assert(rest.skip(1) =~= quoted);
    assert(quoted.last() == '"');
    trims_to_itself(quoted);
    let open = quoted.skip(1);
    assert(open =~= list + seq!['"']);
    assert(open[0] == list[0]);
    assert(text::trim_start_char(open, '"') == open);
    assert(text::trim_start_char(quoted, '"') == text::trim_start_char(quoted.skip(1), '"'));
    assert(open.drop_last() =~= list);
    assert(text::trim_end_char(list, '"') == list);
    assert(text::trim_end_char(open, '"') == text::trim_end_char(open.drop_last(), '"'));
    assert(text::trim_char(list, '\'') == list);
}

/// The answer for a known container that lists codecs.
proof fn listed_codecs_answer(mime: Seq<char>, codecs: Seq<Seq<char>>)
    requires
        capabilities::known_container(text::lowered(mime)),
        codecs.len() > 0,
        forall|j: int| 0 <= j < codecs.len() ==> can_be_codec(#[trigger] codecs[j]),
    ensures
        capabilities::support_for(listed(mime, codecs)) == if forall|k: int|
            0 <= k < codecs.len() ==> capabilities::known_codec(#[trigger] codecs[k]) {
            Support::Probably
        } else {
            Support::No
        },
        capabilities::mse_support_for(listed(mime, codecs)) <==> {
            &&& capabilities::known_mse_container(text::lowered(mime))
            &&& forall|k: int|
                0 <= k < codecs.len() ==> capabilities::known_codec(#[trigger] codecs[k])
        },
{
    let list = list_from(codecs, 0);
    let parameter = " codecs="@ + (seq!['"'] + (list + seq!['"']));
    let t = listed(mime, codecs);
    assert(t == mime + (seq![';'] + parameter));
    container_is_plain(mime);
    assert(can_be_codec(codecs[0]));
    assert(is_name_char(codecs[0][0]));
    list_is_split(codecs, 0);
    list_says(codecs);
    parameter_is_read(list);
    reveal_strlit(" codecs=");
    assert(t.last() == '"');
    assert(t[0] == mime[0]);
    trims_to_itself(t);
    text::written::split_once(t, ';', mime, parameter);
    assert forall|j: int| 0 <= j < parameter.len() implies #[trigger] parameter[j] != ';' by {
        if 9 <= j < 9 + list.len() {
            assert(parameter[j] == list[j - 9]);
        }
    }
    text::written::not_found(parameter, ';', 0);
    assert(text::split(parameter, ';') == seq![parameter]);
    let parts = text::split(t, ';');
    assert(parts =~= seq![mime, parameter]);
    assert(capabilities::codecs_among(parts, 2) == Some(list));
}

/// The name of a container has neither white space nor semicolons.
proof fn container_is_plain(mime: Seq<char>)
    requires
        capabilities::known_container(text::lowered(mime)),
    ensures
        mime.len() > 0,
        forall|i: int| 0 <= i < mime.len() ==> #[trigger] mime[i] != ';' && !text::is_white(mime[i]),
        text::trim(mime) == mime,
{
    let lower = text::lowered(mime);
    containers_are_plain(lower);
    assert forall|i: int| 0 <= i < mime.len() implies #[trigger] mime[i] != ';' && !text::is_white(
        mime[i],
    ) by {
        assert(is_mime_char(lower[i]));
    }
    trims_to_itself(mime);
}

/// A known container alone gets "maybe". With a list of codecs it gets "probably"
/// if it would with each of them alone, and else "".
pub proof fn lists_are_answered_codec_by_codec(mime: Seq<char>, codecs: Seq<Seq<char>>)
    requires
        capabilities::known_container(text::lowered(mime)),
        codecs.len() > 0,
        forall|j: int| 0 <= j < codecs.len() ==> can_be_codec(#[trigger] codecs[j]),
    ensures
        capabilities::support_for(mime) == Support::Maybe,
        capabilities::support_for(listed(mime, codecs)) == if forall|k: int|
            0 <= k < codecs.len() ==> capabilities::support_for(
                listed(mime, seq![#[trigger] codecs[k]]),
            ) == Support::Probably {
            Support::Probably
        } else {
            Support::No
        },
{
    container_is_plain(mime);
    text::written::not_found(mime, ';', 0);
    assert(text::split(mime, ';') == seq![mime]);
    listed_codecs_answer(mime, codecs);
    assert forall|k: int| 0 <= k < codecs.len() implies (capabilities::support_for(
        listed(mime, seq![#[trigger] codecs[k]]),
    ) == Support::Probably <==> capabilities::known_codec(codecs[k])) by {
        let one = seq![codecs[k]];
        assert(can_be_codec(codecs[k]));
        listed_codecs_answer(mime, one);
        if capabilities::known_codec(codecs[k]) {
            assert forall|j: int| 0 <= j < one.len() implies capabilities::known_codec(
                #[trigger] one[j],
            ) by {}
        } else {
            assert(!capabilities::known_codec(one[0]));
        }
    }
}

/// A media source takes MP4 and WebM, and lists of codecs in them that an element would
/// "probably" play.
pub proof fn media_sources_answer_like_elements(mime: Seq<char>, codecs: Seq<Seq<char>>)
    requires
        seq!["video/mp4"@, "audio/mp4"@, "video/webm"@, "audio/webm"@].contains(
            text::lowered(mime),
        ),
        codecs.len() > 0,
        forall|j: int| 0 <= j < codecs.len() ==> can_be_codec(#[trigger] codecs[j]),
    ensures
        capabilities::mse_support_for(mime),
        capabilities::mse_support_for(listed(mime, codecs)) <==> capabilities::support_for(
            listed(mime, codecs),
        ) == Support::Probably,
{
    let taken = seq!["video/mp4"@, "audio/mp4"@, "video/webm"@, "audio/webm"@];
    assert(taken[0] == "video/mp4"@ && taken[1] == "audio/mp4"@);
    assert(taken[2] == "video/webm"@ && taken[3] == "audio/webm"@);
    container_is_plain(mime);
    text::written::not_found(mime, ';', 0);
    assert(text::split(mime, ';') == seq![mime]);
    listed_codecs_answer(mime, codecs);
}

/// A container that is not known is refused, whatever parameters follow.
pub proof fn unknown_containers_are_refused(mime: Seq<char>, parameters: Seq<char>)
    requires
        can_be_codec(mime),
        !capabilities::known_container(text::lowered(mime)),
    ensures
        capabilities::support_for(mime) == Support::No,
        capabilities::support_for(mime + (seq![';'] + (parameters + seq![';']))) == Support::No,
{
    assert(is_name_char(mime[0]) && is_name_char(mime.last()));
    trims_to_itself(mime);
    text::written::not_found(mime, ';', 0);
    assert(text::split(mime, ';') == seq![mime]);
    let rest = parameters + seq![';'];
    let t = mime + (seq![';'] + rest);
    assert(t[0] == mime[0] && t.last() == ';');
    trims_to_itself(t);
    text::written::split_once(t, ';', mime, rest);
}

} // verus!
