//! Fields that a manifest does not have are stepped over, whatever they hold.
use vstd::prelude::*;

use crate::native_messaging::{self, ManifestView};

verus! {

/// A value: a string, a list of values, or an object, with a key for each value.
pub enum Value {
    Text(Seq<char>),
    List(Seq<Value>),
    Object(Seq<Seq<char>>, Seq<Value>),
}

/// A value as it is written.
pub open spec fn written_value(v: Value) -> Seq<char>
    decreases v, 0nat,
{
    match v {
        Value::Text(s) => native_messaging::written::quoted(s),
        Value::List(items) => seq!['['] + (members(items, 0) + seq![']']),
        Value::Object(keys, items) => seq!['{'] + (entries(keys, items, 0) + seq!['}']),
    }
}

/// The items of a list from the `k`-th on, with a comma behind each.
pub open spec fn members(items: Seq<Value>, k: int) -> Seq<char>
    decreases items, (items.len() - k) as nat,
{
    if 0 <= k < items.len() {
        written_value(items[k]) + (seq![','] + members(items, k + 1))
    } else {
        Seq::empty()
    }
}

/// The entries of an object from the `k`-th on, with a comma behind each.
pub open spec fn entries(keys: Seq<Seq<char>>, items: Seq<Value>, k: int) -> Seq<char>
    decreases items, (items.len() - k) as nat,
{
    if 0 <= k < items.len() {
        native_messaging::written::quoted(keys[k]) + (seq![':'] + (written_value(items[k]) + (seq![
            ',',
        ] + entries(keys, items, k + 1))))
    } else {
        Seq::empty()
    }
}

/// Two brackets that belong together.
pub open spec fn is_pair(open: char, close: char) -> bool {
    ||| open == '{' && close == '}'
    ||| open == '[' && close == ']'
}

proof fn rest_of_text_is_skipped(text: Seq<char>, i: int, s: Seq<char>, rest: Seq<char>)
    requires
        0 <= i <= text.len(),
        text.skip(i) == native_messaging::written::escaped(s) + (seq!['"'] + rest),
    ensures
        native_messaging::past_text(text, i) == Ok::<int, Seq<char>>(text.len() - rest.len()),
    decreases s.len(),
{
    let close = seq!['"'] + rest;
    if s.len() == 0 {
        assert(text.skip(i) =~= close);
        native_messaging::written::behind(text, i, seq!['"'], rest);
    } else {
        let first = native_messaging::written::escaped_char(s[0]);
        let more = native_messaging::written::escaped(s.skip(1)) + close;
        assert(text.skip(i) =~= first + more);
        native_messaging::written::behind(text, i, first, more);
        rest_of_text_is_skipped(text, i + first.len(), s.skip(1), rest);
    }
}

proof fn text_is_skipped(text: Seq<char>, i: int, s: Seq<char>, rest: Seq<char>)
    requires
        0 <= i <= text.len(),
        text.skip(i) == native_messaging::written::quoted(s) + rest,
    ensures
        native_messaging::char_at(text, i, '"'),
        native_messaging::past_text(text, i + 1) == Ok::<int, Seq<char>>(text.len() - rest.len()),
        text.skip(text.len() - rest.len()) == rest,
        0 <= text.len() - rest.len(),
{
    let more = native_messaging::written::escaped(s) + (seq!['"'] + rest);
    assert(text.skip(i) =~= seq!['"'] + more);
    native_messaging::written::behind(text, i, seq!['"'], more);
    rest_of_text_is_skipped(text, i + 1, s, rest);
    native_messaging::written::behind(text, i, native_messaging::written::quoted(s), rest);
}

/// Between brackets, a value is stepped over.
proof fn value_is_stepped_over(
    text: Seq<char>,
    i: int,
    v: Value,
    rest: Seq<char>,
    open: char,
    close: char,
    depth: int,
)
    requires
        0 <= i <= text.len(),
        text.skip(i) == written_value(v) + rest,
        is_pair(open, close),
        depth >= 1,
    ensures
        native_messaging::past_bracket(text, i, open, close, depth)
            == native_messaging::past_bracket(text, text.len() - rest.len(), open, close, depth),
        text.skip(text.len() - rest.len()) == rest,
        0 <= text.len() - rest.len(),
    decreases v, 0nat,
{
    native_messaging::written::behind(text, i, written_value(v), rest);
    match v {
        Value::Text(s) => {
            text_is_skipped(text, i, s, rest);
        },
        Value::List(items) => {
            let end = seq![']'] + rest;
            let more = members(items, 0) + end;
            assert(text.skip(i) =~= seq!['['] + more);
            native_messaging::written::behind(text, i, seq!['['], more);
            let inner = if open == '[' {
                depth + 1
            } else {
                depth
            };
            members_are_stepped_over(text, i + 1, items, 0, end, open, close, inner);
            native_messaging::written::behind(text, text.len() - end.len(), seq![']'], rest);
        },
        Value::Object(keys, items) => {
            let end = seq!['}'] + rest;
            let more = entries(keys, items, 0) + end;
            assert(text.skip(i) =~= seq!['{'] + more);
            native_messaging::written::behind(text, i, seq!['{'], more);
            let inner = if open == '{' {
                depth + 1
            } else {
                depth
            };
            entries_are_stepped_over(text, i + 1, keys, items, 0, end, open, close, inner);
            native_messaging::written::behind(text, text.len() - end.len(), seq!['}'], rest);
        },
    }
}

proof fn members_are_stepped_over(
    text: Seq<char>,
    i: int,
    items: Seq<Value>,
    k: int,
    rest: Seq<char>,
    open: char,
    close: char,
    depth: int,
)
    requires
        0 <= i <= text.len(),
        0 <= k <= items.len(),
        text.skip(i) == members(items, k) + rest,
        is_pair(open, close),
        depth >= 1,
    ensures
        native_messaging::past_bracket(text, i, open, close, depth)
            == native_messaging::past_bracket(text, text.len() - rest.len(), open, close, depth),
        text.skip(text.len() - rest.len()) == rest,
        0 <= text.len() - rest.len(),
    decreases items, (items.len() - k) as nat,
{
    native_messaging::written::behind(text, i, members(items, k), rest);
    if k < items.len() {
        let next = members(items, k + 1) + rest;
        let more = seq![','] + next;
        assert(text.skip(i) =~= written_value(items[k]) + more);
        value_is_stepped_over(text, i, items[k], more, open, close, depth);
        let j = text.len() - more.len();
        native_messaging::written::behind(text, j, seq![','], next);
        members_are_stepped_over(text, j + 1, items, k + 1, rest, open, close, depth);
    }
}

proof fn entries_are_stepped_over(
    text: Seq<char>,
    i: int,
    keys: Seq<Seq<char>>,
    items: Seq<Value>,
    k: int,
    rest: Seq<char>,
    open: char,
    close: char,
    depth: int,
)
    requires
        0 <= i <= text.len(),
        0 <= k <= items.len(),
        text.skip(i) == entries(keys, items, k) + rest,
        is_pair(open, close),
        depth >= 1,
    ensures
        native_messaging::past_bracket(text, i, open, close, depth)
            == native_messaging::past_bracket(text, text.len() - rest.len(), open, close, depth),
        text.skip(text.len() - rest.len()) == rest,
        0 <= text.len() - rest.len(),
    decreases items, (items.len() - k) as nat,
{
    native_messaging::written::behind(text, i, entries(keys, items, k), rest);
    if k < items.len() {
        let next = entries(keys, items, k + 1) + rest;
        let comma = seq![','] + next;
        let value = written_value(items[k]) + comma;
        let colon = seq![':'] + value;
        assert(text.skip(i) =~= native_messaging::written::quoted(keys[k]) + colon);
        text_is_skipped(text, i, keys[k], colon);
        let c = text.len() - colon.len();
        native_messaging::written::behind(text, c, seq![':'], value);
        assert(native_messaging::past_bracket(text, i, open, close, depth)
            == native_messaging::past_bracket(text, c, open, close, depth));
        assert(native_messaging::past_bracket(text, c, open, close, depth)
            == native_messaging::past_bracket(text, c + 1, open, close, depth));
        value_is_stepped_over(text, c + 1, items[k], comma, open, close, depth);
        let j = text.len() - comma.len();
        native_messaging::written::behind(text, j, seq![','], next);
        assert(native_messaging::past_bracket(text, j, open, close, depth)
            == native_messaging::past_bracket(text, j + 1, open, close, depth));
        entries_are_stepped_over(text, j + 1, keys, items, k + 1, rest, open, close, depth);
    }
}

/// A value that was written, followed by anything, is stepped over as a whole.
pub proof fn written_values_are_skipped(
    text: Seq<char>,
    w: Seq<bool>,
    i: int,
    v: Value,
    rest: Seq<char>,
)
    requires
        0 <= i <= text.len(),
        text.skip(i) == written_value(v) + rest,
    ensures
        native_messaging::past_value(text, w, i) == Ok::<int, Seq<char>>(text.len() - rest.len()),
        text.skip(text.len() - rest.len()) == rest,
        0 <= text.len() - rest.len(),
{
    native_messaging::written::behind(text, i, written_value(v), rest);
    match v {
        Value::Text(s) => {
            text_is_skipped(text, i, s, rest);
        },
        Value::List(items) => {
            let end = seq![']'] + rest;
            let more = members(items, 0) + end;
            assert(text.skip(i) =~= seq!['['] + more);
            native_messaging::written::behind(text, i, seq!['['], more);
            members_are_stepped_over(text, i + 1, items, 0, end, '[', ']', 1);
            native_messaging::written::behind(text, text.len() - end.len(), seq![']'], rest);
        },
        Value::Object(keys, items) => {
            let end = seq!['}'] + rest;
            let more = entries(keys, items, 0) + end;
            assert(text.skip(i) =~= seq!['{'] + more);
            native_messaging::written::behind(text, i, seq!['{'], more);
            entries_are_stepped_over(text, i + 1, keys, items, 0, end, '{', '}', 1);
            native_messaging::written::behind(text, text.len() - end.len(), seq!['}'], rest);
        },
    }
}

/// Whether a manifest has a field of this name.
pub open spec fn is_known(key: Seq<char>) -> bool {
    ||| key == "name"@
    ||| key == "description"@
    ||| key == "path"@
    ||| key == "type"@
    ||| key == "allowed_origins"@
}

/// A field of another name is stepped over, and the comma behind it.
proof fn other_field_is_skipped(
    text: Seq<char>,
    w: Seq<bool>,
    i: int,
    key: Seq<char>,
    v: Value,
    rest: Seq<char>,
    m: ManifestView,
)
    requires
        !is_known(key),
        0 <= i <= text.len(),
        text.skip(i) == native_messaging::written::field(key, written_value(v), seq![','] + rest),
    ensures
        native_messaging::fields_rest(text, w, i, m) == native_messaging::fields_rest(
            text,
            w,
            text.len() - rest.len(),
            m,
        ),
        text.skip(text.len() - rest.len()) == rest,
        0 <= text.len() - rest.len(),
{
    let tail = seq![','] + rest;
    let value = written_value(v);
    native_messaging::written::key_reads(text, i, key, value, tail);
    let k = text.len() - tail.len() - value.len() - 1;
    written_values_are_skipped(text, w, k + 1, v, tail);
    let l = text.len() - tail.len();
    native_messaging::written::behind(text, l, seq![','], rest);
    assert(native_messaging::skip_white(text, l) == l);
    assert(native_messaging::with_field(text, w, k + 1, key, m) == Ok::<
        (ManifestView, int),
        Seq<char>,
    >((m, l)));
}

/// A field of another name does not change what is read, whatever it holds.
pub proof fn other_fields_are_ignored(key: Seq<char>, v: Value, m: ManifestView)
    requires
        !is_known(key),
    ensures
        native_messaging::manifest_of(
            seq!['{'] + native_messaging::written::field(
                key,
                written_value(v),
                seq![','] + native_messaging::written::written_fields(m),
            ),
        ) == Ok::<ManifestView, Seq<char>>(m),
{
    let fields = native_messaging::written::written_fields(m);
    let first = native_messaging::written::field(key, written_value(v), seq![','] + fields);
    let text = seq!['{'] + first;
    let w = native_messaging::alphanumerics(text);
    assert(text.skip(0) =~= text);
    native_messaging::written::behind(text, 0, seq!['{'], first);
    other_field_is_skipped(text, w, 1, key, v, fields, native_messaging::empty_manifest());
    native_messaging::written::written_fields_are_read(text, w, text.len() - fields.len(), m);
}

} // verus!
