//! Text as sequences of characters: searching, splitting, trimming and reading
//! numbers.
use vstd::prelude::*;

pub mod written;

verus! {

/// `String::push`: appends a character.
pub assume_specification[ String::push ](s: &mut String, c: char)
    ensures
        final(s)@ == old(s)@.push(c),
;

/// The characters with the Unicode property `White_Space`.
pub open spec fn is_white(c: char) -> bool {
    ||| 0x9 <= c as int <= 0xD
    ||| c as int == 0x20
    ||| c as int == 0x85
    ||| c as int == 0xA0
    ||| c as int == 0x1680
    ||| 0x2000 <= c as int <= 0x200A
    ||| c as int == 0x2028
    ||| c as int == 0x2029
    ||| c as int == 0x202F
    ||| c as int == 0x205F
    ||| c as int == 0x3000
}

/// `s` without the white space at its start.
pub open spec fn trim_start(s: Seq<char>) -> Seq<char>
    decreases s.len(),
{
    if s.len() > 0 && is_white(s[0]) {
        trim_start(s.skip(1))
    } else {
        s
    }
}

/// `s` without the white space at its end.
pub open spec fn trim_end(s: Seq<char>) -> Seq<char>
    decreases s.len(),
{
    if s.len() > 0 && is_white(s.last()) {
        trim_end(s.drop_last())
    } else {
        s
    }
}

/// `s` without the white space at both ends.
pub open spec fn trim(s: Seq<char>) -> Seq<char> {
    trim_end(trim_start(s))
}

/// `s` without the characters `c` at its start.
pub open spec fn trim_start_char(s: Seq<char>, c: char) -> Seq<char>
    decreases s.len(),
{
    if s.len() > 0 && s[0] == c {
        trim_start_char(s.skip(1), c)
    } else {
        s
    }
}

/// `s` without the characters `c` at its end.
pub open spec fn trim_end_char(s: Seq<char>, c: char) -> Seq<char>
    decreases s.len(),
{
    if s.len() > 0 && s.last() == c {
        trim_end_char(s.drop_last(), c)
    } else {
        s
    }
}

/// `s` without the characters `c` at both ends.
pub open spec fn trim_char(s: Seq<char>, c: char) -> Seq<char> {
    trim_end_char(trim_start_char(s, c), c)
}

/// Position of the first `c` in `s` at or behind `i`, or the length of `s`.
pub open spec fn find_from(s: Seq<char>, c: char, i: int) -> int
    decreases s.len() - i,
{
    if i >= s.len() {
        s.len() as int
    } else if s[i] == c {
        i
    } else {
        find_from(s, c, i + 1)
    }
}

/// Position of the first `c` in `s`, or the length of `s`.
pub open spec fn find(s: Seq<char>, c: char) -> int {
    find_from(s, c, 0)
}

/// The parts of `s` between the characters `sep`.
pub open spec fn split(s: Seq<char>, sep: char) -> Seq<Seq<char>>
    decreases s.len(),
    via split_decreases
{
    let i = find(s, sep);
    if i >= s.len() {
        seq![s]
    } else {
        seq![s.take(i)] + split(s.skip(i + 1), sep)
    }
}

#[via_fn]
proof fn split_decreases(s: Seq<char>, sep: char) {
    find_bound(s, sep, 0);
}

pub proof fn find_bound(s: Seq<char>, c: char, i: int)
    requires
        0 <= i <= s.len(),
    ensures
        i <= find_from(s, c, i) <= s.len(),
        find_from(s, c, i) < s.len() ==> s[find_from(s, c, i)] == c,
        forall|j: int| i <= j < find_from(s, c, i) ==> #[trigger] s[j] != c,
    decreases s.len() - i,
{
    if i < s.len() && s[i] != c {
        find_bound(s, c, i + 1);
    }
}

/// Whether `s` starts with `p`.
pub open spec fn has_prefix(s: Seq<char>, p: Seq<char>) -> bool {
    p.len() <= s.len() && s.take(p.len() as int) == p
}

/// `c` in lower case, if it is an ASCII letter.
pub open spec fn ascii_lower(c: char) -> char {
    if 'A' <= c && c <= 'Z' {
        (c as int + 32) as char
    } else {
        c
    }
}

/// `s` with its ASCII letters in lower case.
pub open spec fn lowered(s: Seq<char>) -> Seq<char> {
    s.map_values(|c: char| ascii_lower(c))
}

/// `c` in upper case, if it is an ASCII letter.
pub open spec fn ascii_upper(c: char) -> char {
    if 'a' <= c && c <= 'z' {
        (c as int - 32) as char
    } else {
        c
    }
}

/// `s` with its ASCII letters in upper case.
pub open spec fn uppered(s: Seq<char>) -> Seq<char> {
    s.map_values(|c: char| ascii_upper(c))
}

pub open spec fn is_digit(c: char) -> bool {
    '0' <= c && c <= '9'
}

/// Whether every character of `s` is a digit.
pub open spec fn all_digits(s: Seq<char>) -> bool {
    forall|i: int| 0 <= i < s.len() ==> is_digit(#[trigger] s[i])
}

/// The number that a string of digits stands for.
pub open spec fn decimal(s: Seq<char>) -> int
    decreases s.len(),
{
    if s.len() == 0 {
        0
    } else {
        10 * decimal(s.drop_last()) + (s.last() as int - '0' as int)
    }
}

/// `s` without one plus sign at its start.
pub open spec fn unsigned(s: Seq<char>) -> Seq<char> {
    if s.len() > 0 && s[0] == '+' {
        s.skip(1)
    } else {
        s
    }
}

/// The number of at most `max` that `s` stands for: digits, at least one,
/// behind an optional plus sign.
pub open spec fn parsed(s: Seq<char>, max: int) -> Option<int> {
    let digits = unsigned(s);
    if digits.len() > 0 && all_digits(digits) && decimal(digits) <= max {
        Some(decimal(digits))
    } else {
        None
    }
}

/// Position of the first character at or behind `i` that is no digit.
pub open spec fn digits_end(s: Seq<char>, i: int) -> int
    decreases s.len() - i,
{
    if i < s.len() && is_digit(s[i]) {
        digits_end(s, i + 1)
    } else {
        i
    }
}

/// `s` from `i` on is empty or an exponent: the letter `e`, an optional sign
/// and digits.
pub open spec fn is_exponent(s: Seq<char>, i: int) -> bool {
    let j = if i + 1 < s.len() && (s[i + 1] == '+' || s[i + 1] == '-') {
        i + 2
    } else {
        i + 1
    };
    i >= s.len() || s[i] == 'e' && j < s.len() && digits_end(s, j) == s.len()
}

/// `s` is digits with at most one point among them, followed by an optional
/// exponent.
pub open spec fn is_unsigned_real(s: Seq<char>) -> bool {
    let whole = digits_end(s, 0);
    let pointed = whole < s.len() && s[whole] == '.';
    let end = if pointed {
        digits_end(s, whole + 1)
    } else {
        whole
    };
    (whole > 0 || pointed && end > whole + 1) && is_exponent(s, end)
}

/// `s` is the text of a real number, in upper or lower case: an optional sign,
/// and a decimal number or one of the names of infinity and not-a-number.
pub open spec fn is_real(s: Seq<char>) -> bool {
    let t = lowered(s);
    let u = if t.len() > 0 && (t[0] == '+' || t[0] == '-') {
        t.skip(1)
    } else {
        t
    };
    u == "inf"@ || u == "infinity"@ || u == "nan"@ || is_unsigned_real(u)
}

/// Views of a list of slices.
pub open spec fn views(v: Seq<&[char]>) -> Seq<Seq<char>> {
    v.map_values(|s: &[char]| s@)
}

/// The contents of a list of strings.
pub open spec fn string_views(v: Seq<String>) -> Seq<Seq<char>> {
    v.map_values(|s: String| s@)
}

/// The characters of a string.
pub fn chars_of(s: &str) -> (r: Vec<char>)
    ensures
        r@ == s@,
{
    let mut out: Vec<char> = Vec::new();
    for c in it: s.chars()
        invariant
            out@ == it.seq().take(it.index() as int),
            it.seq() == s@,
    {
        out.push(c);
        assert(it.seq().take(it.index() + 1) =~= it.seq().take(it.index() as int).push(c));
    }
    assert(s@.take(s@.len() as int) =~= s@);
    out
}

/// The string made of the given characters.
pub fn string_of(s: &[char]) -> (r: String)
    ensures
        r@ == s@,
{
    let mut out: String = String::new();
    let mut i: usize = 0;
    while i < s.len()
        invariant
            i <= s@.len(),
            out@ == s@.take(i as int),
        decreases s@.len() - i,
    {
        out.push(s[i]);
        i = i + 1;
        assert(s@.take(i as int) =~= s@.take(i - 1).push(s@[i - 1]));
    }
    assert(s@.take(s@.len() as int) =~= s@);
    out
}

/// Whether `c` has the Unicode property `White_Space`.
pub fn white(c: char) -> (r: bool)
    ensures
        r == is_white(c),
{
    let v: u32 = c as u32;
    (9 <= v && v <= 13) || v == 0x20 || v == 0x85 || v == 0xA0 || v == 0x1680 || (0x2000 <= v && v
        <= 0x200A) || v == 0x2028 || v == 0x2029 || v == 0x202F || v == 0x205F || v == 0x3000
}

/// Whether two texts are the same.
pub fn same(a: &[char], b: &[char]) -> (r: bool)
    ensures
        r == (a@ == b@),
{
    if a.len() != b.len() {
        return false;
    }
    let mut i: usize = 0;
    while i < a.len()
        invariant
            i <= a@.len(),
            a@.len() == b@.len(),
            forall|j: int| 0 <= j < i ==> #[trigger] a@[j] == b@[j],
        decreases a@.len() - i,
    {
        if a[i] != b[i] {
            assert(a@[i as int] != b@[i as int]);
            return false;
        }
        i = i + 1;
    }
    assert(a@ =~= b@);
    true
}

/// Whether a text is the given literal.
pub fn is_text(s: &[char], literal: &str) -> (r: bool)
    ensures
        r == (s@ == literal@),
{
    let other: Vec<char> = chars_of(literal);
    same(s, other.as_slice())
}

/// Whether a text starts with the given literal.
pub fn starts_with(s: &[char], literal: &str) -> (r: bool)
    ensures
        r == has_prefix(s@, literal@),
        r ==> literal@.len() <= s@.len(),
{
    let other: Vec<char> = chars_of(literal);
    if other.len() > s.len() {
        return false;
    }
    let head: &[char] = vstd::slice::slice_subrange(s, 0, other.len());
    assert(head@ =~= s@.take(literal@.len() as int));
    same(head, other.as_slice())
}

/// What follows a literal at the start of a text.
pub fn strip_prefix<'a>(s: &'a [char], literal: &str) -> (r: Option<&'a [char]>)
    ensures
        match r {
            None => !has_prefix(s@, literal@),
            Some(rest) => has_prefix(s@, literal@) && rest@ == s@.skip(literal@.len() as int),
        },
{
    let other: Vec<char> = chars_of(literal);
    if !starts_with(s, literal) {
        return None;
    }
    let rest: &'a [char] = vstd::slice::slice_subrange(s, other.len(), s.len());
    assert(rest@ =~= s@.skip(literal@.len() as int));
    Some(rest)
}

/// The part of a text from position `i` on.
pub fn tail<'a>(s: &'a [char], i: usize) -> (r: &'a [char])
    requires
        i <= s@.len(),
    ensures
        r@ == s@.skip(i as int),
{
    let r: &'a [char] = vstd::slice::slice_subrange(s, i, s.len());
    assert(r@ =~= s@.skip(i as int));
    r
}

/// The part of a text before position `i`.
pub fn head<'a>(s: &'a [char], i: usize) -> (r: &'a [char])
    requires
        i <= s@.len(),
    ensures
        r@ == s@.take(i as int),
{
    let r: &'a [char] = vstd::slice::slice_subrange(s, 0, i);
    assert(r@ =~= s@.take(i as int));
    r
}

/// A text without the white space at its start.
pub fn trimmed_start<'a>(s: &'a [char]) -> (r: &'a [char])
    ensures
        r@ == trim_start(s@),
{
    let mut i: usize = 0;
    assert(s@.skip(0) =~= s@);
    while i < s.len() && white(s[i])
        invariant
            i <= s@.len(),
            trim_start(s@) == trim_start(s@.skip(i as int)),
        decreases s@.len() - i,
    {
        assert(s@.skip(i as int).skip(1) =~= s@.skip(i + 1));
        i = i + 1;
    }
    tail(s, i)
}

/// A text without the white space at its end.
pub fn trimmed_end<'a>(s: &'a [char]) -> (r: &'a [char])
    ensures
        r@ == trim_end(s@),
{
    let mut i: usize = s.len();
    assert(s@.take(s@.len() as int) =~= s@);
    while i > 0 && white(s[i - 1])
        invariant
            i <= s@.len(),
            trim_end(s@) == trim_end(s@.take(i as int)),
        decreases i,
    {
        assert(s@.take(i as int).drop_last() =~= s@.take(i - 1));
        i = i - 1;
    }
    head(s, i)
}

/// A text without the white space at both ends.
pub fn trimmed<'a>(s: &'a [char]) -> (r: &'a [char])
    ensures
        r@ == trim(s@),
{
    trimmed_end(trimmed_start(s))
}

/// A text without the characters `c` at its start.
pub fn trimmed_start_char<'a>(s: &'a [char], c: char) -> (r: &'a [char])
    ensures
        r@ == trim_start_char(s@, c),
{
    let mut i: usize = 0;
    assert(s@.skip(0) =~= s@);
    while i < s.len() && s[i] == c
        invariant
            i <= s@.len(),
            trim_start_char(s@, c) == trim_start_char(s@.skip(i as int), c),
        decreases s@.len() - i,
    {
        assert(s@.skip(i as int).skip(1) =~= s@.skip(i + 1));
        i = i + 1;
    }
    tail(s, i)
}

/// A text without the characters `c` at its end.
pub fn trimmed_end_char<'a>(s: &'a [char], c: char) -> (r: &'a [char])
    ensures
        r@ == trim_end_char(s@, c),
{
    let mut i: usize = s.len();
    assert(s@.take(s@.len() as int) =~= s@);
    while i > 0 && s[i - 1] == c
        invariant
            i <= s@.len(),
            trim_end_char(s@, c) == trim_end_char(s@.take(i as int), c),
        decreases i,
    {
        assert(s@.take(i as int).drop_last() =~= s@.take(i - 1));
        i = i - 1;
    }
    head(s, i)
}

/// A text without the characters `c` at both ends.
pub fn trimmed_char<'a>(s: &'a [char], c: char) -> (r: &'a [char])
    ensures
        r@ == trim_char(s@, c),
{
    trimmed_end_char(trimmed_start_char(s, c), c)
}

/// Position of the first `c` at or behind `i`, or the length.
pub fn position_from(s: &[char], c: char, i: usize) -> (r: usize)
    requires
        i <= s@.len(),
    ensures
        r == find_from(s@, c, i as int),
        i <= r <= s@.len(),
{
    let mut k: usize = i;
    while k < s.len() && s[k] != c
        invariant
            i <= k <= s@.len(),
            find_from(s@, c, i as int) == find_from(s@, c, k as int),
        decreases s@.len() - k,
    {
        k = k + 1;
    }
    k
}

/// Position of the first `c`, if there is one.
pub fn position(s: &[char], c: char) -> (r: Option<usize>)
    ensures
        match r {
            None => find(s@, c) == s@.len(),
            Some(i) => i == find(s@, c) && i < s.len(),
        },
{
    let i: usize = position_from(s, c, 0);
    if i < s.len() {
        Some(i)
    } else {
        None
    }
}

/// The parts of a text between the characters `sep`.
pub fn split_at<'a>(s: &'a [char], sep: char) -> (r: Vec<&'a [char]>)
    ensures
        views(r@) == split(s@, sep),
        r@.len() > 0,
{
    let mut out: Vec<&'a [char]> = Vec::new();
    let mut rest: &'a [char] = s;
    proof {
        assert(views(out@) + split(s@, sep) =~= split(s@, sep));
    }
    loop
        invariant
            views(out@) + split(rest@, sep) == split(s@, sep),
        decreases rest@.len(),
    {
        let ghost before = views(out@);
        match position(rest, sep) {
            None => {
                out.push(rest);
                assert(views(out@) =~= before + seq![rest@]);
                return out;
            },
            Some(i) => {
                let part: &'a [char] = head(rest, i);
                let next: &'a [char] = tail(rest, i + 1);
                out.push(part);
                assert(views(out@) =~= before.push(part@));
                assert(before.push(part@) + split(next@, sep) =~= before + (seq![part@] + split(
                    next@,
                    sep,
                )));
                rest = next;
            },
        }
    }
}

/// A character in lower case, if it is an ASCII letter.
pub fn lower(c: char) -> (r: char)
    ensures
        r == ascii_lower(c),
{
    if 'A' <= c && c <= 'Z' {
        (c as u8 + 32) as char
    } else {
        c
    }
}

/// A text with its ASCII letters in lower case.
pub fn lowercase(s: &[char]) -> (r: Vec<char>)
    ensures
        r@ == lowered(s@),
{
    let mut out: Vec<char> = Vec::new();
    let mut i: usize = 0;
    while i < s.len()
        invariant
            i <= s@.len(),
            out@.len() == i,
            forall|j: int| 0 <= j < i ==> #[trigger] out@[j] == ascii_lower(s@[j]),
        decreases s@.len() - i,
    {
        out.push(lower(s[i]));
        i = i + 1;
    }
    assert(out@ =~= lowered(s@));
    out
}

/// A character in upper case, if it is an ASCII letter.
pub fn upper(c: char) -> (r: char)
    ensures
        r == ascii_upper(c),
{
    if 'a' <= c && c <= 'z' {
        (c as u8 - 32) as char
    } else {
        c
    }
}

/// A text with its ASCII letters in upper case.
pub fn uppercase(s: &[char]) -> (r: Vec<char>)
    ensures
        r@ == uppered(s@),
{
    let mut out: Vec<char> = Vec::new();
    let mut i: usize = 0;
    while i < s.len()
        invariant
            i <= s@.len(),
            out@.len() == i,
            forall|j: int| 0 <= j < i ==> #[trigger] out@[j] == ascii_upper(s@[j]),
        decreases s@.len() - i,
    {
        out.push(upper(s[i]));
        i = i + 1;
    }
    assert(out@ =~= uppered(s@));
    out
}

/// Reads a number of at most `max`.
pub fn parse_number(s: &[char], max: u64) -> (r: Option<u64>)
    ensures
        match r {
            None => parsed(s@, max as int) is None,
            Some(v) => parsed(s@, max as int) == Some(v as int),
        },
{
    let digits: &[char] = if s.len() > 0 && s[0] == '+' {
        tail(s, 1)
    } else {
        s
    };
    if digits.len() == 0 {
        return None;
    }
    let mut v: u64 = 0;
    let mut fits: bool = true;
    let mut i: usize = 0;
    while i < digits.len()
        invariant
            digits@ == unsigned(s@),
            i <= digits@.len(),
            forall|j: int| 0 <= j < i ==> is_digit(#[trigger] digits@[j]),
            fits ==> v == decimal(digits@.take(i as int)) && v <= max,
            !fits ==> decimal(digits@.take(i as int)) > max,
        decreases digits@.len() - i,
    {
        let c: char = digits[i];
        if c < '0' || '9' < c {
            assert(!is_digit(digits@[i as int]));
            return None;
        }
        let d: u64 = (c as u32 - '0' as u32) as u64;
        assert(digits@.take(i + 1).drop_last() =~= digits@.take(i as int));
        let ghost before = decimal(digits@.take(i as int));
        assert(decimal(digits@.take(i + 1)) == 10 * before + d);
        if fits {
            if v > max / 10 || 10 * (v as u128) + (d as u128) > max as u128 {
                fits = false;
            } else {
                v = 10 * v + d;
            }
        }
        i = i + 1;
    }
    assert(digits@.take(digits@.len() as int) =~= digits@);
    if fits {
        Some(v)
    } else {
        None
    }
}

fn skip_digits(s: &[char], i: usize) -> (r: usize)
    requires
        i <= s@.len(),
    ensures
        r == digits_end(s@, i as int),
        i <= r <= s@.len(),
{
    let mut k: usize = i;
    while k < s.len() && '0' <= s[k] && s[k] <= '9'
        invariant
            i <= k <= s@.len(),
            digits_end(s@, i as int) == digits_end(s@, k as int),
        decreases s@.len() - k,
    {
        k = k + 1;
    }
    k
}

fn unsigned_real(s: &[char]) -> (r: bool)
    ensures
        r == is_unsigned_real(s@),
{
    let whole: usize = skip_digits(s, 0);
    let pointed: bool = whole < s.len() && s[whole] == '.';
    let end: usize = if pointed {
        skip_digits(s, whole + 1)
    } else {
        whole
    };
    if whole == 0 && (!pointed || end == 1) {
        return false;
    }
    if end >= s.len() {
        return true;
    }
    if s[end] != 'e' {
        return false;
    }
    let mut j: usize = end + 1;
    if j < s.len() && (s[j] == '+' || s[j] == '-') {
        j = j + 1;
    }
    j < s.len() && skip_digits(s, j) == s.len()
}

/// Whether a text is that of a real number.
pub fn is_real_text(s: &[char]) -> (r: bool)
    ensures
        r == is_real(s@),
{
    let t: Vec<char> = lowercase(s);
    let u: &[char] = if t.len() > 0 && (t[0] == '+' || t[0] == '-') {
        tail(t.as_slice(), 1)
    } else {
        t.as_slice()
    };
    is_text(u, "inf") || is_text(u, "infinity") || is_text(u, "nan") || unsigned_real(u)
}

/// White space and nothing else.
pub open spec fn all_white(s: Seq<char>) -> bool {
    forall|i: int| 0 <= i < s.len() ==> is_white(#[trigger] s[i])
}

proof fn leading_white_goes(a: Seq<char>, b: Seq<char>)
    requires
        all_white(a),
        b.len() == 0 || !is_white(b[0]),
    ensures
        trim_start(a + b) == b,
    decreases a.len(),
{
    if a.len() == 0 {
        assert(a + b =~= b);
    } else {
        assert((a + b)[0] == a[0]);
        assert((a + b).skip(1) =~= a.skip(1) + b);
        assert forall|i: int| 0 <= i < a.skip(1).len() implies is_white(#[trigger] a.skip(1)[i]) by {
            assert(a.skip(1)[i] == a[i + 1]);
        }
        leading_white_goes(a.skip(1), b);
    }
}

proof fn trailing_white_goes(b: Seq<char>, c: Seq<char>)
    requires
        all_white(c),
        b.len() == 0 || !is_white(b.last()),
    ensures
        trim_end(b + c) == b,
    decreases c.len(),
{
    if c.len() == 0 {
        assert(b + c =~= b);
    } else {
        assert((b + c).last() == c.last());
        assert((b + c).drop_last() =~= b + c.drop_last());
        trailing_white_goes(b, c.drop_last());
    }
}

/// Trimming takes off the white space at both ends and nothing else.
pub proof fn white_space_is_trimmed(a: Seq<char>, b: Seq<char>, c: Seq<char>)
    requires
        all_white(a),
        all_white(c),
        b.len() > 0 ==> !is_white(b[0]) && !is_white(b.last()),
    ensures
        trim(a + b + c) == b,
{
    if b.len() == 0 {
        let all = a + b + c;
        assert(all =~= (a + c) + Seq::empty());
        assert forall|i: int| 0 <= i < (a + c).len() implies is_white(#[trigger] (a + c)[i]) by {
            if i < a.len() {
                assert((a + c)[i] == a[i]);
            } else {
                assert((a + c)[i] == c[i - a.len()]);
            }
        }
        leading_white_goes(a + c, Seq::empty());
        assert(b =~= Seq::<char>::empty());
    } else {
        assert(a + b + c =~= a + (b + c));
        assert((b + c)[0] == b[0]);
        leading_white_goes(a, b + c);
        trailing_white_goes(b, c);
    }
}

/// Of the characters below 128, the blank and those from the tabulator to the carriage
/// return are white space.
pub proof fn blanks_are_white(c: char)
    requires
        (c as int) < 128,
    ensures
        is_white(c) == (c == ' ' || c == '\t' || c == '\n' || c as int == 11 || c as int == 12 || c
            == '\r'),
{
}

/// Letters that differ in case alone are the same in lower case, and so in upper case;
/// nothing but letters has a case.
pub proof fn case_is_ignored(s: Seq<char>, i: int)
    requires
        0 <= i < s.len(),
    ensures
        lowered(s).len() == s.len(),
        uppered(s).len() == s.len(),
        lowered(uppered(s)) == lowered(s),
        uppered(lowered(s)) == uppered(s),
        lowered(lowered(s)) == lowered(s),
        !('a' <= s[i] && s[i] <= 'z') && !('A' <= s[i] && s[i] <= 'Z') ==> lowered(s)[i] == s[i]
            && uppered(s)[i] == s[i],
        'a' <= s[i] && s[i] <= 'z' ==> lowered(s)[i] == s[i] && uppered(s)[i] as int + 32
            == s[i] as int,
        'A' <= s[i] && s[i] <= 'Z' ==> uppered(s)[i] == s[i] && lowered(s)[i] as int
            == s[i] as int + 32,
{
    assert(lowered(uppered(s)) =~= lowered(s));
    assert(uppered(lowered(s)) =~= uppered(s));
    assert(lowered(lowered(s)) =~= lowered(s));
}

/// The parts with a separator between each two.
pub open spec fn put_together(parts: Seq<Seq<char>>, sep: char) -> Seq<char>
    decreases parts.len(),
{
    if parts.len() == 0 {
        Seq::empty()
    } else if parts.len() == 1 {
        parts[0]
    } else {
        parts[0] + (seq![sep] + put_together(parts.skip(1), sep))
    }
}

/// The parts of a text have no separator in them, and put together they are the text.
pub proof fn parts_make_up_the_text(s: Seq<char>, sep: char)
    ensures
        split(s, sep).len() > 0,
        put_together(split(s, sep), sep) == s,
        forall|k: int, j: int|
            0 <= k < split(s, sep).len() && 0 <= j < split(s, sep)[k].len()
                ==> #[trigger] split(s, sep)[k][j] != sep,
    decreases s.len(),
{
    find_bound(s, sep, 0);
    let i = find(s, sep);
    if i >= s.len() {
        assert(split(s, sep) == seq![s]);
    } else {
        let rest = s.skip(i + 1);
        parts_make_up_the_text(rest, sep);
        let parts = split(s, sep);
        assert(parts.skip(1) =~= split(rest, sep));
        assert(parts[0] =~= s.take(i));
        assert(s =~= s.take(i) + (seq![sep] + rest));
        assert forall|k: int, j: int|
            0 <= k < parts.len() && 0 <= j < parts[k].len() implies #[trigger] parts[k][j]
            != sep by {
            if k > 0 {
                assert(parts[k] == split(rest, sep)[k - 1]);
            }
        }
    }
}

/// A number may have a plus sign before it, and counts only up to the largest.
pub proof fn numbers_are_limited(digits: Seq<char>, max: int)
    requires
        digits.len() > 0,
        all_digits(digits),
    ensures
        parsed(digits, max) == if decimal(digits) <= max {
            Some(decimal(digits))
        } else {
            None
        },
        parsed(seq!['+'] + digits, max) == parsed(digits, max),
        parsed(Seq::empty(), max) is None,
        parsed(seq!['+'], max) is None,
        parsed(seq!['-'] + digits, max) is None,
{
    let plus = seq!['+'] + digits;
    assert(is_digit(digits[0]));
    assert(plus.skip(1) =~= digits);
    assert(seq!['+'].skip(1).len() == 0);
    let minus = seq!['-'] + digits;
    assert(minus[0] == '-');
    assert(!is_digit(minus[0]));
}

proof fn digits_end_at(s: Seq<char>, i: int, n: int)
    requires
        0 <= i <= n <= s.len(),
        forall|j: int| i <= j < n ==> is_digit(#[trigger] s[j]),
        n < s.len() ==> !is_digit(s[n]),
    ensures
        digits_end(s, i) == n,
    decreases n - i,
{
    if i < n {
        digits_end_at(s, i + 1, n);
    }
}

/// Digits with a point among them, before them or behind them are a real number, and so
/// are digits without one; a point alone is not.
pub proof fn decimals_are_real(a: Seq<char>, b: Seq<char>)
    requires
        all_digits(a),
        all_digits(b),
    ensures
        is_unsigned_real(a + (seq!['.'] + b)) == (a.len() + b.len() > 0),
        is_unsigned_real(a) == (a.len() > 0),
{
    let s = a + (seq!['.'] + b);
    let n = a.len() as int;
    assert forall|j: int| 0 <= j < n implies is_digit(#[trigger] s[j]) by {
        assert(s[j] == a[j]);
    }
    assert(s[n] == '.');
    digits_end_at(s, 0, n);
    assert forall|j: int| n + 1 <= j < s.len() implies is_digit(#[trigger] s[j]) by {
        assert(s[j] == b[j - n - 1]);
    }
    digits_end_at(s, n + 1, s.len() as int);
    digits_end_at(a, 0, n);
}

} // verus!
