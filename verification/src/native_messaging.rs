//! Native messaging: how extensions talk to desktop applications.
//!
//! A host is described by a JSON manifest. Messages are frames: four bytes of
//! length, least significant first, and the payload.
use vstd::prelude::*;

use crate::text;

pub mod skipped;
pub mod written;

verus! {

/// The fields of a host's manifest.
#[derive(Debug, Clone)]
pub struct HostManifest {
    pub name: String,
    pub description: String,
    pub path: String,
    pub message_type: String,
    pub allowed_origins: Vec<String>,
}

#[verifier::ext_equal]
pub struct ManifestView {
    pub name: Seq<char>,
    pub description: Seq<char>,
    pub path: Seq<char>,
    pub message_type: Seq<char>,
    pub allowed_origins: Seq<Seq<char>>,
}

impl View for HostManifest {
    type V = ManifestView;

    open spec fn view(&self) -> ManifestView {
        ManifestView {
            name: self.name@,
            description: self.description@,
            path: self.path@,
            message_type: self.message_type@,
            allowed_origins: text::string_views(self.allowed_origins@),
        }
    }
}

/// A manifest whose fields are all empty.
pub open spec fn empty_manifest() -> ManifestView {
    ManifestView {
        name: Seq::empty(),
        description: Seq::empty(),
        path: Seq::empty(),
        message_type: Seq::empty(),
        allowed_origins: Seq::empty(),
    }
}

impl Default for HostManifest {
    fn default() -> (r: Self)
        ensures
            r@ == empty_manifest(),
    {
        let r: HostManifest = HostManifest {
            name: String::new(),
            description: String::new(),
            path: String::new(),
            message_type: String::new(),
            allowed_origins: Vec::new(),
        };
        assert(r@.allowed_origins =~= Seq::<Seq<char>>::empty());
        r
    }
}

/// Position of the first character at or behind `i` that is no white space.
pub open spec fn skip_white(s: Seq<char>, i: int) -> int
    decreases s.len() - i,
{
    if i < s.len() && text::is_white(s[i]) {
        skip_white(s, i + 1)
    } else {
        i
    }
}

/// Whether `c` stands at position `i`.
pub open spec fn char_at(s: Seq<char>, i: int, c: char) -> bool {
    i < s.len() && s[i] == c
}

/// What an escaped character stands for.
pub open spec fn unescape(c: char) -> Option<char> {
    if c == '"' || c == '\\' || c == '/' {
        Some(c)
    } else if c == 'n' {
        Some('\n')
    } else if c == 'r' {
        Some('\r')
    } else if c == 't' {
        Some('\t')
    } else {
        None
    }
}

/// The rest of a string from `i` on, behind `read`, and the position behind its
/// closing quote; or what is wrong with it.
pub open spec fn string_rest(s: Seq<char>, i: int, read: Seq<char>) -> Result<
    (Seq<char>, int),
    Seq<char>,
>
    decreases s.len() - i,
{
    if i >= s.len() {
        Err("unterminated string"@)
    } else if s[i] == '"' {
        Ok((read, i + 1))
    } else if s[i] != '\\' {
        string_rest(s, i + 1, read.push(s[i]))
    } else if i + 1 >= s.len() {
        Err("bad escape"@)
    } else {
        match unescape(s[i + 1]) {
            Some(c) => string_rest(s, i + 2, read.push(c)),
            None => Err("unsupported escape: \\"@.push(s[i + 1])),
        }
    }
}

/// The string at `i`, behind white space.
pub open spec fn string_at(s: Seq<char>, i: int) -> Result<(Seq<char>, int), Seq<char>> {
    let j = skip_white(s, i);
    if char_at(s, j, '"') {
        string_rest(s, j + 1, Seq::empty())
    } else {
        Err("expected string"@)
    }
}

/// The position behind white space and an optional comma.
pub open spec fn past_comma(s: Seq<char>, i: int) -> int {
    let j = skip_white(s, i);
    if char_at(s, j, ',') {
        j + 1
    } else {
        j
    }
}

pub proof fn skip_white_bound(s: Seq<char>, i: int)
    ensures
        i <= skip_white(s, i),
        i <= s.len() ==> skip_white(s, i) <= s.len(),
    decreases s.len() - i,
{
    if i < s.len() && text::is_white(s[i]) {
        skip_white_bound(s, i + 1);
    }
}

proof fn string_rest_bound(s: Seq<char>, i: int, read: Seq<char>)
    ensures
        string_rest(s, i, read) matches Ok((v, j)) ==> i < j <= s.len(),
    decreases s.len() - i,
{
    if i < s.len() && s[i] != '"' {
        if s[i] != '\\' {
            string_rest_bound(s, i + 1, read.push(s[i]));
        } else if i + 1 < s.len() && unescape(s[i + 1]) is Some {
            string_rest_bound(s, i + 2, read.push(unescape(s[i + 1])->0));
        }
    }
}

proof fn string_at_bound(s: Seq<char>, i: int)
    ensures
        string_at(s, i) matches Ok((v, j)) ==> i + 1 < j <= s.len(),
{
    skip_white_bound(s, i);
    string_rest_bound(s, skip_white(s, i) + 1, Seq::empty());
}

/// The rest of an array of strings from `i` on, behind `read`, and the position
/// behind its closing bracket. Commas are optional.
pub open spec fn array_rest(s: Seq<char>, i: int, read: Seq<Seq<char>>) -> Result<
    (Seq<Seq<char>>, int),
    Seq<char>,
>
    decreases s.len() - i,
    via array_rest_decreases
{
    let j = skip_white(s, i);
    if char_at(s, j, ']') {
        Ok((read, j + 1))
    } else {
        match string_at(s, j) {
            Err(e) => Err(e),
            Ok((v, k)) => array_rest(s, past_comma(s, k), read.push(v)),
        }
    }
}

#[via_fn]
proof fn array_rest_decreases(s: Seq<char>, i: int, read: Seq<Seq<char>>) {
    let j = skip_white(s, i);
    skip_white_bound(s, i);
    string_at_bound(s, j);
    if let Ok((v, k)) = string_at(s, j) {
        skip_white_bound(s, k);
    }
}

/// The array of strings at `i`, behind white space.
pub open spec fn array_at(s: Seq<char>, i: int) -> Result<(Seq<Seq<char>>, int), Seq<char>> {
    let j = skip_white(s, i);
    if char_at(s, j, '[') {
        array_rest(s, j + 1, Seq::empty())
    } else {
        Err("expected array"@)
    }
}

/// The position behind the quote that closes the string open at `i`, or what is
/// wrong with it. A backslash keeps the character behind it from closing the
/// string, whatever it is.
pub open spec fn past_text(s: Seq<char>, i: int) -> Result<int, Seq<char>>
    decreases s.len() - i,
{
    if i >= s.len() {
        Err("unterminated string"@)
    } else if s[i] == '"' {
        Ok(i + 1)
    } else if s[i] != '\\' {
        past_text(s, i + 1)
    } else if i + 1 >= s.len() {
        Err("bad escape"@)
    } else {
        past_text(s, i + 2)
    }
}

proof fn past_text_bound(s: Seq<char>, i: int)
    ensures
        past_text(s, i) matches Ok(j) ==> i < j <= s.len(),
    decreases s.len() - i,
{
    if i < s.len() && s[i] != '"' {
        past_text_bound(s, i + 1);
        if i + 1 < s.len() {
            past_text_bound(s, i + 2);
        }
    }
}

/// The position behind the bracket that closes the `depth` brackets open at
/// `i`, if there is one. Brackets within strings do not count.
pub open spec fn past_bracket(s: Seq<char>, i: int, open: char, close: char, depth: int) -> Option<
    int,
>
    decreases s.len() - i,
    via past_bracket_decreases
{
    if i >= s.len() {
        None
    } else if s[i] == '"' {
        match past_text(s, i + 1) {
            Err(e) => None,
            Ok(j) => past_bracket(s, j, open, close, depth),
        }
    } else if s[i] == open {
        past_bracket(s, i + 1, open, close, depth + 1)
    } else if s[i] == close && depth == 1 {
        Some(i + 1)
    } else if s[i] == close {
        past_bracket(s, i + 1, open, close, depth - 1)
    } else {
        past_bracket(s, i + 1, open, close, depth)
    }
}

#[via_fn]
proof fn past_bracket_decreases(s: Seq<char>, i: int, open: char, close: char, depth: int) {
    past_text_bound(s, i + 1);
}

/// What `char::is_alphanumeric` says of a character.
pub uninterp spec fn is_alphanumeric(c: char) -> bool;

/// `char::is_alphanumeric`: whether a character is a letter or a number, by its
/// Unicode properties.
#[verifier::external_body]
fn alphanumeric(c: char) -> (r: bool)
    ensures
        r == is_alphanumeric(c),
{
    c.is_alphanumeric()
}

/// Which characters of a text are letters or numbers.
pub open spec fn alphanumerics(s: Seq<char>) -> Seq<bool> {
    s.map_values(|c: char| is_alphanumeric(c))
}

/// The position behind a number or a word, where `w` tells which characters are
/// letters or numbers.
pub open spec fn past_word(s: Seq<char>, w: Seq<bool>, i: int) -> int
    decreases s.len() - i,
{
    if i < s.len() && (w[i] || s[i] == '.' || s[i] == '-' || s[i] == '+') {
        past_word(s, w, i + 1)
    } else {
        i
    }
}

/// The position behind the value at `i`, of whatever kind. Strings may hold any
/// escape, and objects and arrays end at their matching bracket, whatever stands
/// between.
pub open spec fn past_value(s: Seq<char>, w: Seq<bool>, i: int) -> Result<int, Seq<char>> {
    let j = skip_white(s, i);
    if j >= s.len() {
        Err("eof"@)
    } else if s[j] == '"' {
        past_text(s, j + 1)
    } else if s[j] == '{' {
        match past_bracket(s, j, '{', '}', 0) {
            None => Err("unterminated object"@),
            Some(k) => Ok(k),
        }
    } else if s[j] == '[' {
        match past_bracket(s, j, '[', ']', 0) {
            None => Err("unterminated array"@),
            Some(k) => Ok(k),
        }
    } else {
        Ok(past_word(s, w, j))
    }
}

/// A manifest with the field `key` read from `i`, and the position behind the
/// value. Unknown fields are skipped.
pub open spec fn with_field(
    s: Seq<char>,
    w: Seq<bool>,
    i: int,
    key: Seq<char>,
    m: ManifestView,
) -> Result<(ManifestView, int), Seq<char>> {
    if key == "allowed_origins"@ {
        match array_at(s, i) {
            Err(e) => Err(e),
            Ok((v, j)) => Ok((ManifestView { allowed_origins: v, ..m }, j)),
        }
    } else if key == "name"@ || key == "description"@ || key == "path"@ || key == "type"@ {
        match string_at(s, i) {
            Err(e) => Err(e),
            Ok((v, j)) => Ok(
                (
                    if key == "name"@ {
                        ManifestView { name: v, ..m }
                    } else if key == "description"@ {
                        ManifestView { description: v, ..m }
                    } else if key == "path"@ {
                        ManifestView { path: v, ..m }
                    } else {
                        ManifestView { message_type: v, ..m }
                    },
                    j,
                ),
            ),
        }
    } else {
        match past_value(s, w, i) {
            Err(e) => Err(e),
            Ok(j) => Ok((m, j)),
        }
    }
}

proof fn past_bracket_bound(s: Seq<char>, i: int, open: char, close: char, depth: int)
    ensures
        past_bracket(s, i, open, close, depth) matches Some(j) ==> i < j <= s.len(),
    decreases s.len() - i,
{
    past_text_bound(s, i + 1);
    if i < s.len() && s[i] == '"' {
        if let Ok(j) = past_text(s, i + 1) {
            past_bracket_bound(s, j, open, close, depth);
        }
    } else if i < s.len() {
        past_bracket_bound(s, i + 1, open, close, depth + 1);
        past_bracket_bound(s, i + 1, open, close, depth - 1);
        past_bracket_bound(s, i + 1, open, close, depth);
    }
}

proof fn past_word_bound(s: Seq<char>, w: Seq<bool>, i: int)
    ensures
        i <= past_word(s, w, i),
        i <= s.len() ==> past_word(s, w, i) <= s.len(),
    decreases s.len() - i,
{
    if i < s.len() && (w[i] || s[i] == '.' || s[i] == '-' || s[i] == '+') {
        past_word_bound(s, w, i + 1);
    }
}

proof fn array_rest_bound(s: Seq<char>, i: int, read: Seq<Seq<char>>)
    ensures
        array_rest(s, i, read) matches Ok((v, j)) ==> i < j <= s.len(),
    decreases s.len() - i,
{
    let j = skip_white(s, i);
    skip_white_bound(s, i);
    string_at_bound(s, j);
    if !char_at(s, j, ']') {
        if let Ok((v, k)) = string_at(s, j) {
            skip_white_bound(s, k);
            array_rest_bound(s, past_comma(s, k), read.push(v));
        }
    }
}

proof fn with_field_bound(s: Seq<char>, w: Seq<bool>, i: int, key: Seq<char>, m: ManifestView)
    ensures
        with_field(s, w, i, key, m) matches Ok((n, j)) ==> i <= j && (i <= s.len() ==> j <= s.len()),
{
    let j = skip_white(s, i);
    skip_white_bound(s, i);
    string_at_bound(s, i);
    string_at_bound(s, j);
    array_rest_bound(s, j + 1, Seq::empty());
    past_text_bound(s, j + 1);
    past_bracket_bound(s, j, '{', '}', 0);
    past_bracket_bound(s, j, '[', ']', 0);
    past_word_bound(s, w, j);
}

/// The rest of a manifest from `i` on, where `m` has been read.
pub open spec fn fields_rest(s: Seq<char>, w: Seq<bool>, i: int, m: ManifestView) -> Result<
    ManifestView,
    Seq<char>,
>
    decreases s.len() - i,
    via fields_rest_decreases
{
    let j = skip_white(s, i);
    if char_at(s, j, '}') {
        Ok(m)
    } else {
        match string_at(s, j) {
            Err(e) => Err(e),
            Ok((key, k)) => if !char_at(s, skip_white(s, k), ':') {
                Err("expected ':' after key"@)
            } else {
                match with_field(s, w, skip_white(s, k) + 1, key, m) {
                    Err(e) => Err(e),
                    Ok((n, l)) => fields_rest(s, w, past_comma(s, l), n),
                }
            },
        }
    }
}

#[via_fn]
proof fn fields_rest_decreases(s: Seq<char>, w: Seq<bool>, i: int, m: ManifestView) {
    fields_advance(s, w, i, m);
}

proof fn fields_advance(s: Seq<char>, w: Seq<bool>, i: int, m: ManifestView)
    ensures
        i <= skip_white(s, i),
        string_at(s, skip_white(s, i)) matches Ok((key, k)) ==> {
            &&& i < k <= skip_white(s, k)
            &&& i < s.len()
            &&& k <= s.len()
            &&& char_at(s, skip_white(s, k), ':') ==> (with_field(
                s,
                w,
                skip_white(s, k) + 1,
                key,
                m,
            ) matches Ok((n, l)) ==> i < l <= past_comma(s, l) && l <= s.len() && past_comma(s, l)
                <= s.len())
        },
{
    let j = skip_white(s, i);
    skip_white_bound(s, i);
    string_at_bound(s, j);
    if let Ok((key, k)) = string_at(s, j) {
        skip_white_bound(s, k);
        let c = skip_white(s, k);
        if char_at(s, c, ':') {
            with_field_bound(s, w, c + 1, key, m);
            if let Ok((n, l)) = with_field(s, w, c + 1, key, m) {
                skip_white_bound(s, l);
            }
        }
    }
}

/// The manifest that a text holds, or what is wrong with it.
pub open spec fn manifest_of(s: Seq<char>) -> Result<ManifestView, Seq<char>> {
    marked_manifest(s, alphanumerics(s))
}

/// The manifest that a text holds, where `w` tells which characters are letters
/// or numbers.
pub open spec fn marked_manifest(s: Seq<char>, w: Seq<bool>) -> Result<ManifestView, Seq<char>> {
    let j = skip_white(s, 0);
    if char_at(s, j, '{') {
        fields_rest(s, w, j + 1, empty_manifest())
    } else {
        Err("manifest must be an object"@)
    }
}

fn skip_ws(s: &[char], i: usize) -> (r: usize)
    requires
        i <= s@.len(),
    ensures
        r == skip_white(s@, i as int),
        i <= r <= s@.len(),
{
    let mut k: usize = i;
    while k < s.len() && text::white(s[k])
        invariant
            i <= k <= s@.len(),
            skip_white(s@, i as int) == skip_white(s@, k as int),
        decreases s@.len() - k,
    {
        k = k + 1;
    }
    k
}

fn at(s: &[char], i: usize, c: char) -> (r: bool)
    ensures
        r == char_at(s@, i as int, c),
        r ==> i < usize::MAX,
{
    i < s.len() && s[i] == c
}

fn skip_comma(s: &[char], i: usize) -> (r: usize)
    requires
        i <= s@.len(),
    ensures
        r == past_comma(s@, i as int),
        i <= r <= s@.len(),
{
    let j: usize = skip_ws(s, i);
    if at(s, j, ',') {
        j + 1
    } else {
        j
    }
}

fn read_json_string(s: &[char], i: usize) -> (r: Result<(String, usize), String>)
    requires
        i <= s@.len(),
    ensures
        match r {
            Ok((v, j)) => string_at(s@, i as int) == Ok::<(Seq<char>, int), Seq<char>>((v@, j as int))
                && i < j <= s@.len(),
            Err(e) => string_at(s@, i as int) == Err::<(Seq<char>, int), Seq<char>>(e@),
        },
{
    let j: usize = skip_ws(s, i);
    if !at(s, j, '"') {
        return Err("expected string".to_owned());
    }
    let mut out: String = String::new();
    let mut k: usize = j + 1;
    while k < s.len()
        invariant
            i < k,
            k <= s@.len(),
            string_at(s@, i as int) == string_rest(s@, k as int, out@),
        decreases s@.len() - k,
    {
        let c: char = s[k];
        if c == '"' {
            return Ok((out, k + 1));
        }
        if c != '\\' {
            out.push(c);
            k = k + 1;
        } else {
            if k + 1 >= s.len() {
                return Err("bad escape".to_owned());
            }
            let esc: char = s[k + 1];
            if esc == '"' || esc == '\\' || esc == '/' {
                out.push(esc);
            } else if esc == 'n' {
                out.push('\n');
            } else if esc == 'r' {
                out.push('\r');
            } else if esc == 't' {
                out.push('\t');
            } else {
                let mut message: String = "unsupported escape: \\".to_owned();
                message.push(esc);
                return Err(message);
            }
            k = k + 2;
        }
    }
    Err("unterminated string".to_owned())
}

fn read_json_string_array(s: &[char], i: usize) -> (r: Result<(Vec<String>, usize), String>)
    requires
        i <= s@.len(),
    ensures
        match r {
            Ok((v, j)) => array_at(s@, i as int) == Ok::<(Seq<Seq<char>>, int), Seq<char>>(
                (text::string_views(v@), j as int),
            ) && i < j <= s@.len(),
            Err(e) => array_at(s@, i as int) == Err::<(Seq<Seq<char>>, int), Seq<char>>(e@),
        },
{
    let j: usize = skip_ws(s, i);
    if !at(s, j, '[') {
        return Err("expected array".to_owned());
    }
    let mut out: Vec<String> = Vec::new();
    let mut k: usize = j + 1;
    assert(text::string_views(out@) =~= Seq::<Seq<char>>::empty());
    loop
        invariant
            i < k <= s@.len(),
            array_at(s@, i as int) == array_rest(s@, k as int, text::string_views(out@)),
        decreases s@.len() - k,
    {
        let m: usize = skip_ws(s, k);
        if at(s, m, ']') {
            return Ok((out, m + 1));
        }
        match read_json_string(s, m) {
            Err(e) => {
                return Err(e);
            },
            Ok((v, n)) => {
                let ghost before = text::string_views(out@);
                let ghost view = v@;
                out.push(v);
                assert(text::string_views(out@) =~= before.push(view));
                k = skip_comma(s, n);
            },
        }
    }
}

/// Steps over the rest of a string, without reading it.
fn skip_text(s: &[char], i: usize) -> (r: Result<usize, String>)
    requires
        i <= s@.len(),
    ensures
        match r {
            Ok(j) => past_text(s@, i as int) == Ok::<int, Seq<char>>(j as int) && i < j <= s@.len(),
            Err(e) => past_text(s@, i as int) == Err::<int, Seq<char>>(e@),
        },
{
    let mut k: usize = i;
    while k < s.len()
        invariant
            i <= k <= s@.len(),
            past_text(s@, i as int) == past_text(s@, k as int),
        decreases s@.len() - k,
    {
        if s[k] == '"' {
            return Ok(k + 1);
        }
        if s[k] == '\\' {
            if k + 1 >= s.len() {
                return Err("bad escape".to_owned());
            }
            k = k + 1;
        }
        k = k + 1;
    }
    Err("unterminated string".to_owned())
}

fn skip_bracket(s: &[char], i: usize, open: char, close: char) -> (r: Option<usize>)
    requires
        open != close,
        open != '"' && close != '"',
        char_at(s@, i as int, open),
    ensures
        match r {
            Some(j) => past_bracket(s@, i as int, open, close, 0) == Some(j as int) && j
                <= s@.len(),
            None => past_bracket(s@, i as int, open, close, 0) is None,
        },
{
    let mut depth: usize = 0;
    let mut k: usize = i;
    while k < s.len()
        invariant
            open != close,
            open != '"' && close != '"',
            char_at(s@, i as int, open),
            i <= k <= s@.len(),
            depth <= k,
            k == i || depth > 0,
            past_bracket(s@, i as int, open, close, 0) == past_bracket(
                s@,
                k as int,
                open,
                close,
                depth as int,
            ),
        decreases s@.len() - k,
    {
        let c: char = s[k];
        k = k + 1;
        if c == '"' {
            match skip_text(s, k) {
                Err(_) => {
                    return None;
                },
                Ok(j) => {
                    k = j;
                },
            }
        } else if c == open {
            depth = depth + 1;
        } else if c == close {
            if depth == 1 {
                return Some(k);
            }
            depth = depth - 1;
        }
    }
    None
}

fn skip_json_value(s: &[char], w: &[bool], i: usize) -> (r: Result<usize, String>)
    requires
        i <= s@.len(),
        w@.len() == s@.len(),
    ensures
        match r {
            Ok(j) => past_value(s@, w@, i as int) == Ok::<int, Seq<char>>(j as int) && j
                <= s@.len(),
            Err(e) => past_value(s@, w@, i as int) == Err::<int, Seq<char>>(e@),
        },
{
    let j: usize = skip_ws(s, i);
    if j >= s.len() {
        return Err("eof".to_owned());
    }
    let c: char = s[j];
    if c == '"' {
        return skip_text(s, j + 1);
    }
    if c == '{' {
        return match skip_bracket(s, j, '{', '}') {
            Some(k) => Ok(k),
            None => Err("unterminated object".to_owned()),
        };
    }
    if c == '[' {
        return match skip_bracket(s, j, '[', ']') {
            Some(k) => Ok(k),
            None => Err("unterminated array".to_owned()),
        };
    }
    let mut k: usize = j;
    while k < s.len() && (w[k] || s[k] == '.' || s[k] == '-' || s[k] == '+')
        invariant
            j <= k <= s@.len(),
            w@.len() == s@.len(),
            past_word(s@, w@, j as int) == past_word(s@, w@, k as int),
        decreases s@.len() - k,
    {
        k = k + 1;
    }
    Ok(k)
}

impl HostManifest {
    /// Reads the field `key` from position `i`; returns the position behind it.
    fn read_field(&mut self, s: &[char], w: &[bool], i: usize, key: &str) -> (r: Result<
        usize,
        String,
    >)
        requires
            i <= s@.len(),
            w@.len() == s@.len(),
        ensures
            match r {
                Ok(j) => with_field(s@, w@, i as int, key@, old(self)@) == Ok::<
                    (ManifestView, int),
                    Seq<char>,
                >((final(self)@, j as int)) && j <= s@.len(),
                Err(e) => with_field(s@, w@, i as int, key@, old(self)@) == Err::<
                    (ManifestView, int),
                    Seq<char>,
                >(e@),
            },
    {
        let chars: Vec<char> = text::chars_of(key);
        let k: &[char] = chars.as_slice();
        if text::is_text(k, "allowed_origins") {
            let (v, j): (Vec<String>, usize) = match read_json_string_array(s, i) {
                Err(e) => {
                    return Err(e);
                },
                Ok(x) => x,
            };
            self.allowed_origins = v;
            return Ok(j);
        }
        let name: bool = text::is_text(k, "name");
        let description: bool = text::is_text(k, "description");
        let path: bool = text::is_text(k, "path");
        let kind: bool = text::is_text(k, "type");
        if name || description || path || kind {
            let (v, j): (String, usize) = match read_json_string(s, i) {
                Err(e) => {
                    return Err(e);
                },
                Ok(x) => x,
            };
            if name {
                self.name = v;
            } else if description {
                self.description = v;
            } else if path {
                self.path = v;
            } else {
                self.message_type = v;
            }
            return Ok(j);
        }
        skip_json_value(s, w, i)
    }

    /// Parses a manifest. Unknown fields are ignored.
    pub fn parse(text: &str) -> (r: Result<Self, String>)
        ensures
            match r {
                Ok(m) => manifest_of(text@) == Ok::<ManifestView, Seq<char>>(m@),
                Err(e) => manifest_of(text@) == Err::<ManifestView, Seq<char>>(e@),
            },
    {
        let chars: Vec<char> = text::chars_of(text);
        let mut words: Vec<bool> = Vec::new();
        let mut i: usize = 0;
        while i < chars.len()
            invariant
                chars@ == text@,
                i <= chars@.len(),
                words@ =~= alphanumerics(text@).take(i as int),
            decreases chars@.len() - i,
        {
            words.push(alphanumeric(chars[i]));
            i = i + 1;
        }
        assert(words@ =~= alphanumerics(text@));
        HostManifest::parse_marked(chars.as_slice(), words.as_slice())
    }

    /// Parses a manifest, where it is known which characters are letters or
    /// numbers.
    pub fn parse_marked(s: &[char], w: &[bool]) -> (r: Result<Self, String>)
        requires
            w@.len() == s@.len(),
        ensures
            match r {
                Ok(m) => marked_manifest(s@, w@) == Ok::<ManifestView, Seq<char>>(m@),
                Err(e) => marked_manifest(s@, w@) == Err::<ManifestView, Seq<char>>(e@),
            },
    {
        let mut m: HostManifest = HostManifest::default();
        let j: usize = skip_ws(s, 0);
        if !at(s, j, '{') {
            return Err("manifest must be an object".to_owned());
        }
        let mut i: usize = j + 1;
        loop
            invariant
                i <= s@.len(),
                w@.len() == s@.len(),
                marked_manifest(s@, w@) == fields_rest(s@, w@, i as int, m@),
            decreases s@.len() - i,
        {
            let ghost before = m@;
            let k: usize = skip_ws(s, i);
            if at(s, k, '}') {
                return Ok(m);
            }
            let (key, l): (String, usize) = match read_json_string(s, k) {
                Err(e) => {
                    return Err(e);
                },
                Ok(x) => x,
            };
            proof {
                fields_advance(s@, w@, i as int, before);
            }
            let c: usize = skip_ws(s, l);
            if !at(s, c, ':') {
                return Err("expected ':' after key".to_owned());
            }
            let n: usize = match m.read_field(s, w, c + 1, key.as_str()) {
                Err(e) => {
                    return Err(e);
                },
                Ok(n) => n,
            };
            i = skip_comma(s, n);
        }
    }

    /// Whether an extension may talk to the host: its address starts with one
    /// of the allowed origins.
    pub fn origin_allowed(&self, origin: &str) -> (r: bool)
        ensures
            r == exists|k: int|
                0 <= k < self.allowed_origins@.len() && text::has_prefix(
                    origin@,
                    (#[trigger] self.allowed_origins@[k])@,
                ),
    {
        let chars: Vec<char> = text::chars_of(origin);
        let mut i: usize = 0;
        while i < self.allowed_origins.len()
            invariant
                i <= self.allowed_origins@.len(),
                chars@ == origin@,
                forall|k: int|
                    0 <= k < i ==> !text::has_prefix(
                        origin@,
                        (#[trigger] self.allowed_origins@[k])@,
                    ),
            decreases self.allowed_origins@.len() - i,
        {
            if text::starts_with(chars.as_slice(), self.allowed_origins[i].as_str()) {
                return true;
            }
            i = i + 1;
        }
        false
    }
}

/// Why a frame was refused: the stream ends in the middle of it, or it is
/// larger than a frame may be.
#[derive(Debug, Clone, Copy, PartialEq, Eq, Structural)]
pub enum FrameError {
    UnexpectedEof,
    InvalidData,
}

/// The largest payload that is read: 64 MiB.
pub const MAX_PAYLOAD: u32 = 0x400_0000;

/// The number in four bytes, least significant first.
pub open spec fn le_number(s: Seq<u8>) -> int {
    s[0] + 0x100 * s[1] + 0x1_0000 * s[2] + 0x100_0000 * s[3]
}

/// The four bytes of a number, least significant first.
pub open spec fn le_bytes(n: int) -> Seq<u8> {
    seq![
        (n % 0x100) as u8,
        (n / 0x100 % 0x100) as u8,
        (n / 0x1_0000 % 0x100) as u8,
        (n / 0x100_0000 % 0x100) as u8,
    ]
}

/// The frame of a payload.
pub open spec fn frame_of(payload: Seq<u8>) -> Seq<u8> {
    le_bytes(payload.len() as int) + payload
}

/// The payload of the frame at the start of a stream.
pub open spec fn payload_of(stream: Seq<u8>) -> Result<Seq<u8>, FrameError> {
    if stream.len() < 4 {
        Err(FrameError::UnexpectedEof)
    } else if le_number(stream) > MAX_PAYLOAD {
        Err(FrameError::InvalidData)
    } else if stream.len() < 4 + le_number(stream) {
        Err(FrameError::UnexpectedEof)
    } else {
        Ok(stream.subrange(4, 4 + le_number(stream)))
    }
}

/// Reads and writes frames.
#[derive(Debug)]
pub struct Framer;

impl Framer {
    /// The length of the payload behind a length prefix, unless it is too large.
    pub fn payload_len(prefix: &[u8; 4]) -> (r: Result<u32, FrameError>)
        ensures
            match r {
                Ok(n) => n == le_number(prefix@) && n <= MAX_PAYLOAD,
                Err(e) => e == FrameError::InvalidData && le_number(prefix@) > MAX_PAYLOAD,
            },
    {
        let n: u32 = prefix[0] as u32 + 0x100 * prefix[1] as u32 + 0x1_0000 * prefix[2] as u32
            + 0x100_0000 * prefix[3] as u32;
        if n > MAX_PAYLOAD {
            Err(FrameError::InvalidData)
        } else {
            Ok(n)
        }
    }

    /// The length prefix of a payload, unless it is too large for one.
    pub fn prefix_of(payload: &[u8]) -> (r: Result<[u8; 4], FrameError>)
        ensures
            match r {
                Ok(prefix) => prefix@ == le_bytes(payload@.len() as int) && payload@.len()
                    <= u32::MAX,
                Err(e) => e == FrameError::InvalidData && payload@.len() > u32::MAX,
            },
    {
        let len: u64 = payload.len() as u64;
        if len > u32::MAX as u64 {
            return Err(FrameError::InvalidData);
        }
        let prefix: [u8; 4] = [
            (len % 0x100) as u8,
            (len / 0x100 % 0x100) as u8,
            (len / 0x1_0000 % 0x100) as u8,
            (len / 0x100_0000 % 0x100) as u8,
        ];
        assert(prefix@ =~= le_bytes(payload@.len() as int));
        Ok(prefix)
    }

    /// Reads the frame at the start of a stream and returns its payload.
    pub fn read_frame(stream: &[u8]) -> (r: Result<Vec<u8>, FrameError>)
        ensures
            match r {
                Ok(p) => payload_of(stream@) == Ok::<Seq<u8>, FrameError>(p@),
                Err(e) => payload_of(stream@) == Err::<Seq<u8>, FrameError>(e),
            },
    {
        if stream.len() < 4 {
            return Err(FrameError::UnexpectedEof);
        }
        let prefix: [u8; 4] = [stream[0], stream[1], stream[2], stream[3]];
        let len: u32 = match Framer::payload_len(&prefix) {
            Err(e) => {
                return Err(e);
            },
            Ok(n) => n,
        };
        if stream.len() - 4 < len as usize {
            return Err(FrameError::UnexpectedEof);
        }
        let payload: &[u8] = vstd::slice::slice_subrange(stream, 4, 4 + len as usize);
        Ok(vstd::slice::slice_to_vec(payload))
    }

    /// Appends a frame to a stream. A payload too large for its length prefix
    /// is refused, and nothing written.
    pub fn write_frame(stream: &mut Vec<u8>, payload: &[u8]) -> (r: Result<(), FrameError>)
        ensures
            r is Ok <==> payload@.len() <= u32::MAX,
            r is Ok ==> final(stream)@ == old(stream)@ + frame_of(payload@),
            r is Err ==> r->Err_0 == FrameError::InvalidData && final(stream)@ == old(stream)@,
    {
        let prefix: [u8; 4] = match Framer::prefix_of(payload) {
            Err(e) => {
                return Err(e);
            },
            Ok(prefix) => prefix,
        };
        stream.extend_from_slice(prefix.as_slice());
        stream.extend_from_slice(payload);
        assert(stream@ =~= old(stream)@ + frame_of(payload@));
        Ok(())
    }
}

/// A frame that has been written reads back as its payload, whatever follows
/// it, if the payload is not larger than what is read.
pub proof fn frames_read_back(payload: Seq<u8>, rest: Seq<u8>)
    requires
        payload.len() <= MAX_PAYLOAD,
    ensures
        payload_of(frame_of(payload) + rest) == Ok::<Seq<u8>, FrameError>(payload),
        (frame_of(payload) + rest).skip(4 + payload.len() as int) == rest,
{
    let stream = frame_of(payload) + rest;
    let n = payload.len() as int;
    assert(le_number(stream) == n);
    assert(stream.subrange(4, 4 + n) =~= payload);
    assert(stream.skip(4 + n) =~= rest);
}

/// A payload that is larger is written, but its frame is refused when it is
/// read.
pub proof fn large_frames_are_refused(payload: Seq<u8>, rest: Seq<u8>)
    requires
        MAX_PAYLOAD < payload.len() <= u32::MAX,
    ensures
        payload_of(frame_of(payload) + rest) == Err::<Seq<u8>, FrameError>(FrameError::InvalidData),
{
    let stream = frame_of(payload) + rest;
    assert(le_number(stream) == payload.len());
}

/// The length before a payload has its lowest byte first.
pub proof fn lengths_have_their_lowest_byte_first(payload: Seq<u8>)
    requires
        payload.len() <= 0x400_0000,
    ensures
        frame_of(payload).len() == payload.len() + 4,
        payload.len() < 0x100 ==> frame_of(payload)[0] == payload.len() && frame_of(payload)[1] == 0
            && frame_of(payload)[2] == 0 && frame_of(payload)[3] == 0,
        frame_of(payload)[0] == payload.len() % 0x100,
        frame_of(payload)[3] == payload.len() / 0x100_0000,
        frame_of(payload).skip(4) == payload,
{
    assert(frame_of(payload).skip(4) =~= payload);
}

/// A payload may have up to 64 times 1024 times 1024 bytes; a stream that ends before
/// that of its frame does is cut off.
pub proof fn frames_are_read_whole_or_not_at_all(payload: Seq<u8>, n: int)
    requires
        0 <= n < payload.len() + 4,
        payload.len() < 0x1_0000_0000,
    ensures
        payload.len() <= 67_108_864 ==> payload_of(frame_of(payload)) == Ok::<Seq<u8>, FrameError>(
            payload,
        ),
        payload.len() > 67_108_864 ==> payload_of(frame_of(payload)) == Err::<Seq<u8>, FrameError>(
            FrameError::InvalidData,
        ),
        payload.len() <= 67_108_864 ==> payload_of(frame_of(payload).take(n)) == Err::<
            Seq<u8>,
            FrameError,
        >(FrameError::UnexpectedEof),
{
    let frame = frame_of(payload);
    let cut = frame.take(n);
    assert(frame.subrange(4, 4 + payload.len() as int) =~= payload);
    assert(le_number(frame) == payload.len());
    if n >= 4 {
        assert(cut[0] == frame[0] && cut[1] == frame[1] && cut[2] == frame[2] && cut[3]
            == frame[3]);
    }
}

} // verus!
