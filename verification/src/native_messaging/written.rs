//! Manifests that were written are read back.
use vstd::prelude::*;

use crate::native_messaging::{self, ManifestView};

verus! {

/// A character of a string as it is written.
pub open spec fn escaped_char(c: char) -> Seq<char> {
    if c == '"' || c == '\\' {
        seq!['\\', c]
    } else if c == '\n' {
        seq!['\\', 'n']
    } else if c == '\r' {
        seq!['\\', 'r']
    } else if c == '\t' {
        seq!['\\', 't']
    } else {
        seq![c]
    }
}

/// The characters of a string as they are written.
pub open spec fn escaped(s: Seq<char>) -> Seq<char>
    decreases s.len(),
{
    if s.len() == 0 {
        Seq::empty()
    } else {
        escaped_char(s[0]) + escaped(s.skip(1))
    }
}

/// A string as it is written.
pub open spec fn quoted(s: Seq<char>) -> Seq<char> {
    seq!['"'] + (escaped(s) + seq!['"'])
}

/// The strings from the `k`-th on and the bracket that closes their array.
pub open spec fn quoted_from(v: Seq<Seq<char>>, k: int) -> Seq<char>
    decreases v.len() - k,
{
    if k >= v.len() {
        seq![']']
    } else if k + 1 == v.len() {
        quoted(v[k]) + quoted_from(v, k + 1)
    } else {
        quoted(v[k]) + (seq![','] + quoted_from(v, k + 1))
    }
}

/// An array of strings as it is written.
pub open spec fn written_array(v: Seq<Seq<char>>) -> Seq<char> {
    seq!['['] + quoted_from(v, 0)
}

/// A field and what is written behind it.
pub open spec fn field(key: Seq<char>, value: Seq<char>, rest: Seq<char>) -> Seq<char> {
    quoted(key) + (seq![':'] + (value + rest))
}

/// The fields of a manifest and the brace that closes it, as they are written.
pub open spec fn written_fields(m: ManifestView) -> Seq<char> {
    let comma = seq![','];
    let origins = field("allowed_origins"@, written_array(m.allowed_origins), seq!['}']);
    let kind = field("type"@, quoted(m.message_type), comma + origins);
    let path = field("path"@, quoted(m.path), comma + kind);
    let description = field("description"@, quoted(m.description), comma + path);
    field("name"@, quoted(m.name), comma + description)
}

/// A manifest as it is written.
pub open spec fn written_manifest(m: ManifestView) -> Seq<char> {
    seq!['{'] + written_fields(m)
}

/// What stands in a text behind its first part.
pub proof fn behind<T>(text: Seq<T>, i: int, first: Seq<T>, rest: Seq<T>)
    requires
        0 <= i <= text.len(),
        text.skip(i) == first + rest,
    ensures
        i + first.len() + rest.len() == text.len(),
        text.skip(i + first.len()) == rest,
        first.len() > 0 ==> text[i] == first[0],
        first.len() > 1 ==> text[i + 1] == first[1],
{
    let here = text.skip(i);
    assert(here.len() == first.len() + rest.len());
    assert(text.skip(i + first.len()) =~= here.skip(first.len() as int));
    assert(here.skip(first.len() as int) =~= rest);
    if first.len() > 0 {
        assert(here[0] == text[i]);
    }
    if first.len() > 1 {
        assert(here[1] == text[i + 1]);
    }
}

proof fn rest_of_string_reads(text: Seq<char>, i: int, s: Seq<char>, rest: Seq<char>, read: Seq<char>)
    requires
        0 <= i <= text.len(),
        text.skip(i) == escaped(s) + (seq!['"'] + rest),
    ensures
        native_messaging::string_rest(text, i, read) == Ok::<(Seq<char>, int), Seq<char>>(
            (read + s, text.len() - rest.len()),
        ),
    decreases s.len(),
{
    let close = seq!['"'] + rest;
    if s.len() == 0 {
        assert(text.skip(i) =~= close);
        behind(text, i, seq!['"'], rest);
        assert(read + s =~= read);
    } else {
        let first = escaped_char(s[0]);
        let more = escaped(s.skip(1)) + close;
        assert(text.skip(i) =~= first + more);
        behind(text, i, first, more);
        rest_of_string_reads(text, i + first.len(), s.skip(1), rest, read.push(s[0]));
        assert(read.push(s[0]) + s.skip(1) =~= read + s);
    }
}

proof fn string_reads(text: Seq<char>, i: int, s: Seq<char>, rest: Seq<char>)
    requires
        0 <= i <= text.len(),
        text.skip(i) == quoted(s) + rest,
    ensures
        native_messaging::char_at(text, i, '"'),
        native_messaging::skip_white(text, i) == i,
        native_messaging::string_at(text, i) == Ok::<(Seq<char>, int), Seq<char>>(
            (s, text.len() - rest.len()),
        ),
        text.skip(text.len() - rest.len()) == rest,
        rest.len() <= text.len(),
{
    let more = escaped(s) + (seq!['"'] + rest);
    assert(text.skip(i) =~= seq!['"'] + more);
    behind(text, i, seq!['"'], more);
    rest_of_string_reads(text, i + 1, s, rest, Seq::empty());
    assert(Seq::<char>::empty() + s =~= s);
    behind(text, i, quoted(s), rest);
}

/// A string that was written, followed by anything, is read back, and reading goes
/// on behind it.
pub proof fn written_strings_are_read(s: Seq<char>, rest: Seq<char>)
    ensures
        native_messaging::string_at(quoted(s) + rest, 0) == Ok::<(Seq<char>, int), Seq<char>>(
            (s, quoted(s).len() as int),
        ),
{
    let text = quoted(s) + rest;
    assert(text.skip(0) =~= text);
    string_reads(text, 0, s, rest);
}

proof fn rest_of_array_reads(text: Seq<char>, i: int, v: Seq<Seq<char>>, k: int, rest: Seq<char>)
    requires
        0 <= i <= text.len(),
        0 <= k <= v.len(),
        text.skip(i) == quoted_from(v, k) + rest,
    ensures
        native_messaging::array_rest(text, i, v.take(k)) == Ok::<
            (Seq<Seq<char>>, int),
            Seq<char>,
        >((v, text.len() - rest.len())),
    decreases v.len() - k,
{
    if k == v.len() {
        behind(text, i, seq![']'], rest);
        assert(v.take(k) =~= v);
    } else {
        let last = k + 1 == v.len();
        let next = quoted_from(v, k + 1) + rest;
        let more = if last {
            next
        } else {
            seq![','] + next
        };
        assert(text.skip(i) =~= quoted(v[k]) + more);
        string_reads(text, i, v[k], more);
        let j = text.len() - more.len();
        assert(v.take(k).push(v[k]) =~= v.take(k + 1));
        if last {
            assert(text.skip(j) =~= seq![']'] + rest);
            behind(text, j, seq![']'], rest);
            rest_of_array_reads(text, j, v, k + 1, rest);
        } else {
            behind(text, j, seq![','], next);
            rest_of_array_reads(text, j + 1, v, k + 1, rest);
        }
    }
}

proof fn array_reads(text: Seq<char>, i: int, v: Seq<Seq<char>>, rest: Seq<char>)
    requires
        0 <= i <= text.len(),
        text.skip(i) == written_array(v) + rest,
    ensures
        native_messaging::array_at(text, i) == Ok::<(Seq<Seq<char>>, int), Seq<char>>(
            (v, text.len() - rest.len()),
        ),
        text.skip(text.len() - rest.len()) == rest,
        rest.len() <= text.len(),
{
    let more = quoted_from(v, 0) + rest;
    assert(text.skip(i) =~= seq!['['] + more);
    behind(text, i, seq!['['], more);
    assert(v.take(0) =~= Seq::<Seq<char>>::empty());
    rest_of_array_reads(text, i + 1, v, 0, rest);
    behind(text, i, written_array(v), rest);
}

/// The key of a field and the colon behind it are read.
pub proof fn key_reads(text: Seq<char>, i: int, key: Seq<char>, value: Seq<char>, rest: Seq<char>)
    requires
        0 <= i <= text.len(),
        text.skip(i) == field(key, value, rest),
    ensures
        ({
            let k = text.len() - rest.len() - value.len() - 1;
            &&& native_messaging::skip_white(text, i) == i
            &&& !native_messaging::char_at(text, i, '}')
            &&& native_messaging::string_at(text, i) == Ok::<(Seq<char>, int), Seq<char>>((key, k))
            &&& native_messaging::skip_white(text, k) == k
            &&& native_messaging::char_at(text, k, ':')
            &&& 0 <= k + 1 <= text.len()
            &&& text.skip(k + 1) == value + rest
        }),
{
    let more = seq![':'] + (value + rest);
    string_reads(text, i, key, more);
    behind(text, text.len() - more.len(), seq![':'], value + rest);
}

/// A field with a string is read, and the comma behind it.
proof fn string_field_reads(
    text: Seq<char>,
    w: Seq<bool>,
    i: int,
    key: Seq<char>,
    value: Seq<char>,
    rest: Seq<char>,
    m: ManifestView,
    n: ManifestView,
)
    requires
        0 <= i <= text.len(),
        text.skip(i) == field(key, quoted(value), seq![','] + rest),
        key != "allowed_origins"@,
        ({
            ||| key == "name"@ && n == ManifestView { name: value, ..m }
            ||| key == "description"@ && key != "name"@ && n == ManifestView {
                description: value,
                ..m
            }
            ||| key == "path"@ && key != "name"@ && key != "description"@ && n == ManifestView {
                path: value,
                ..m
            }
            ||| key == "type"@ && key != "name"@ && key != "description"@ && key != "path"@ && n
                == ManifestView { message_type: value, ..m }
        }),
    ensures
        native_messaging::fields_rest(text, w, i, m) == native_messaging::fields_rest(
            text,
            w,
            text.len() - rest.len(),
            n,
        ),
        text.skip(text.len() - rest.len()) == rest,
        0 <= text.len() - rest.len(),
{
    let tail = seq![','] + rest;
    key_reads(text, i, key, quoted(value), tail);
    let k = text.len() - tail.len() - quoted(value).len() - 1;
    string_reads(text, k + 1, value, tail);
    let l = text.len() - tail.len();
    behind(text, l, seq![','], rest);
}

/// The field with the origins is read, and the end of the manifest behind it.
proof fn last_field_reads(
    text: Seq<char>,
    w: Seq<bool>,
    i: int,
    value: Seq<Seq<char>>,
    m: ManifestView,
)
    requires
        0 <= i <= text.len(),
        text.skip(i) == field("allowed_origins"@, written_array(value), seq!['}']),
    ensures
        native_messaging::fields_rest(text, w, i, m) == Ok::<ManifestView, Seq<char>>(
            ManifestView { allowed_origins: value, ..m },
        ),
{
    let end = seq!['}'];
    let array = written_array(value);
    key_reads(text, i, "allowed_origins"@, array, end);
    let k = text.len() - end.len() - array.len() - 1;
    array_reads(text, k + 1, value, end);
    let l = text.len() - end.len();
    assert(end + Seq::<char>::empty() =~= end);
    behind(text, l, end, Seq::empty());
    assert(native_messaging::skip_white(text, l) == l);
    assert(native_messaging::past_comma(text, l) == l);
    let n = ManifestView { allowed_origins: value, ..m };
    assert(native_messaging::fields_rest(text, w, l, n) == Ok::<ManifestView, Seq<char>>(n));
}

proof fn keys_differ()
    ensures
        "name"@ != "allowed_origins"@,
        "description"@ != "allowed_origins"@,
        "path"@ != "allowed_origins"@,
        "type"@ != "allowed_origins"@,
        "description"@ != "name"@,
        "path"@ != "name"@,
        "path"@ != "description"@,
        "type"@ != "name"@,
        "type"@ != "description"@,
        "type"@ != "path"@,
{
    reveal_strlit("name");
    reveal_strlit("description");
    reveal_strlit("path");
    reveal_strlit("type");
    reveal_strlit("allowed_origins");
    assert("name"@.len() == 4 && "path"@.len() == 4 && "type"@.len() == 4);
    assert("description"@.len() == 11 && "allowed_origins"@.len() == 15);
    assert("path"@[0] == 'p');
    assert("type"@[0] == 't');
    assert("name"@[0] == 'n');
}

/// The fields of a manifest are read, where none was before.
pub proof fn written_fields_are_read(text: Seq<char>, w: Seq<bool>, i: int, m: ManifestView)
    requires
        0 <= i <= text.len(),
        text.skip(i) == written_fields(m),
    ensures
        native_messaging::fields_rest(text, w, i, native_messaging::empty_manifest()) == Ok::<
            ManifestView,
            Seq<char>,
        >(m),
{
    let comma = seq![','];
    let end = seq!['}'];
    let origins = field("allowed_origins"@, written_array(m.allowed_origins), end);
    let kind = field("type"@, quoted(m.message_type), comma + origins);
    let path = field("path"@, quoted(m.path), comma + kind);
    let description = field("description"@, quoted(m.description), comma + path);
    let m0 = native_messaging::empty_manifest();
    let m1 = ManifestView { name: m.name, ..m0 };
    let m2 = ManifestView { description: m.description, ..m1 };
    let m3 = ManifestView { path: m.path, ..m2 };
    let m4 = ManifestView { message_type: m.message_type, ..m3 };
    keys_differ();
    string_field_reads(text, w, i, "name"@, m.name, description, m0, m1);
    let i2 = text.len() - description.len();
    string_field_reads(text, w, i2, "description"@, m.description, path, m1, m2);
    let i3 = text.len() - path.len();
    string_field_reads(text, w, i3, "path"@, m.path, kind, m2, m3);
    let i4 = text.len() - kind.len();
    string_field_reads(text, w, i4, "type"@, m.message_type, origins, m3, m4);
    let i5 = text.len() - origins.len();
    last_field_reads(text, w, i5, m.allowed_origins, m4);
}

/// A manifest that was written is read back.
pub proof fn written_manifests_are_read(m: ManifestView)
    ensures
        native_messaging::manifest_of(written_manifest(m)) == Ok::<ManifestView, Seq<char>>(m),
{
    let text = written_manifest(m);
    assert(text.skip(0) =~= text);
    behind(text, 0, seq!['{'], written_fields(m));
    written_fields_are_read(text, native_messaging::alphanumerics(text), 1, m);
}

} // verus!
