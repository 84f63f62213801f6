//! Text as it is laid out: white space, letter case and lines of words.
use vstd::prelude::*;

use crate::layout::TextTransform;
use crate::text;

verus! {

/// White space that collapses. No-break spaces do not.
pub open spec fn collapses(c: char) -> bool {
    c == ' ' || c == '\t' || c == '\n' || c == '\r' || c == '\x0C'
}

/// Whether a character is white space that collapses.
pub fn is_css_collapsible_ws(ch: char) -> (r: bool)
    ensures
        r == collapses(ch),
{
    ch == ' ' || ch == '\t' || ch == '\n' || ch == '\r' || ch == '\x0C'
}

/// Position of the first white space at or behind `i`, or the end.
pub open spec fn word_end(s: Seq<char>, i: int) -> int
    decreases s.len() - i,
{
    if i >= s.len() || collapses(s[i]) {
        i
    } else {
        word_end(s, i + 1)
    }
}

/// The words of a text: what stands between white space that collapses.
pub open spec fn words_of(s: Seq<char>) -> Seq<Seq<char>>
    decreases s.len(),
    via words_of_decreases
{
    if s.len() == 0 {
        Seq::empty()
    } else if collapses(s[0]) {
        words_of(s.skip(1))
    } else {
        seq![s.take(word_end(s, 0))] + words_of(s.skip(word_end(s, 0)))
    }
}

#[via_fn]
proof fn words_of_decreases(s: Seq<char>) {
    word_end_bound(s, 0);
}

proof fn word_end_bound(s: Seq<char>, i: int)
    requires
        0 <= i,
    ensures
        i <= word_end(s, i),
        i <= s.len() ==> word_end(s, i) <= s.len(),
        i < s.len() && !collapses(s[i]) ==> word_end(s, i) > i,
        word_end(s, i) < s.len() ==> collapses(s[word_end(s, i)]),
        forall|k: int| i <= k < word_end(s, i) && k < s.len() ==> !collapses(#[trigger] s[k]),
    decreases s.len() - i,
{
    if i < s.len() && !collapses(s[i]) {
        word_end_bound(s, i + 1);
    }
}

/// Words with a space between each two.
pub open spec fn spaced(words: Seq<Seq<char>>) -> Seq<char>
    decreases words.len(),
{
    if words.len() == 0 {
        Seq::empty()
    } else if words.len() == 1 {
        words[0]
    } else {
        spaced(words.drop_last()) + seq![' '] + words.last()
    }
}

/// What a text is laid out as: its words with a space between each two.
pub open spec fn normalized(s: Seq<char>) -> Seq<char> {
    spaced(words_of(s))
}

spec fn rest_of(s: Seq<char>, i: int) -> Seq<Seq<char>> {
    words_of(s.skip(i))
}

/// Splits a text at white space that collapses.
pub fn css_split_whitespace(s: &str) -> (r: Vec<String>)
    ensures
        text::string_views(r@) == words_of(s@),
{
    let chars: Vec<char> = text::chars_of(s);
    let mut out: Vec<String> = Vec::new();
    let mut i: usize = 0;
    proof {
        assert(s@.skip(0) =~= s@);
        assert(text::string_views(out@) + words_of(s@) =~= words_of(s@));
    }
    while i < chars.len()
        invariant
            chars@ == s@,
            i <= s@.len(),
            text::string_views(out@) + rest_of(s@, i as int) == words_of(s@),
        decreases s@.len() - i,
    {
        if is_css_collapsible_ws(chars[i]) {
            assert(s@.skip(i as int).skip(1) =~= s@.skip(i + 1));
            i = i + 1;
        } else {
            let start: usize = i;
            let ghost tail = s@.skip(start as int);
            while i < chars.len() && !is_css_collapsible_ws(chars[i])
                invariant
                    chars@ == s@,
                    start <= i <= s@.len(),
                    tail == s@.skip(start as int),
                    word_end(tail, 0) == word_end(tail, i - start),
                decreases s@.len() - i,
            {
                i = i + 1;
            }
            let ghost before = text::string_views(out@);
            let word: String = text::string_of(
                vstd::slice::slice_subrange(chars.as_slice(), start, i),
            );
            proof {
                word_end_bound(tail, 0);
                assert(word_end(tail, 0) == i - start);
                assert(word@ =~= tail.take(i - start));
                assert(tail.skip(i - start) =~= s@.skip(i as int));
            }
            out.push(word);
            proof {
                assert(text::string_views(out@) =~= before.push(word@));
                assert(before.push(word@) + rest_of(s@, i as int) =~= before + (seq![word@]
                    + rest_of(s@, i as int)));
            }
        }
    }
    proof {
        assert(rest_of(s@, i as int) =~= Seq::<Seq<char>>::empty());
        assert(text::string_views(out@) + rest_of(s@, i as int) =~= text::string_views(out@));
    }
    out
}

fn append(out: &mut String, s: &str)
    ensures
        final(out)@ == old(out)@ + s@,
{
    let chars: Vec<char> = text::chars_of(s);
    let mut i: usize = 0;
    while i < chars.len()
        invariant
            chars@ == s@,
            i <= s@.len(),
            out@ == old(out)@ + s@.take(i as int),
        decreases s@.len() - i,
    {
        out.push(chars[i]);
        assert(s@.take(i + 1) =~= s@.take(i as int).push(s@[i as int]));
        assert(out@ =~= old(out)@ + s@.take(i + 1));
        i = i + 1;
    }
    assert(s@.take(i as int) =~= s@);
}

/// Collapses white space: runs of it become a space, and at both ends there is
/// none.
pub fn css_normalize_whitespace(s: &str) -> (r: String)
    ensures
        r@ == normalized(s@),
{
    let words: Vec<String> = css_split_whitespace(s);
    let ghost all = words_of(s@);
    let mut out: String = String::new();
    let mut i: usize = 0;
    proof {
        assert(all.take(0) =~= Seq::<Seq<char>>::empty());
        assert(out@ =~= spaced(all.take(0)));
    }
    while i < words.len()
        invariant
            text::string_views(words@) == all,
            i <= words@.len(),
            out@ == spaced(all.take(i as int)),
        decreases words@.len() - i,
    {
        let ghost before = out@;
        if i > 0 {
            out.push(' ');
        }
        append(&mut out, words[i].as_str());
        proof {
            let more = all.take(i + 1);
            assert(all[i as int] == words@[i as int]@);
            assert(more.drop_last() =~= all.take(i as int));
            assert(more.last() == all[i as int]);
            if i == 0 {
                assert(out@ =~= all[0]);
            } else {
                assert(out@ =~= before + seq![' '] + all[i as int]);
            }
        }
        i = i + 1;
    }
    assert(all.take(i as int) =~= all);
    out
}

/// Something without white space that collapses.
pub open spec fn is_word(w: Seq<char>) -> bool {
    w.len() > 0 && forall|k: int| 0 <= k < w.len() ==> !collapses(#[trigger] w[k])
}

/// The words of a text hold no white space that collapses, and none is empty.
pub proof fn words_are_words(s: Seq<char>)
    ensures
        forall|k: int| 0 <= k < words_of(s).len() ==> is_word(#[trigger] words_of(s)[k]),
    decreases s.len(),
{
    if s.len() == 0 {
        assert(words_of(s).len() == 0);
    } else if collapses(s[0]) {
        words_are_words(s.skip(1));
        assert(words_of(s) == words_of(s.skip(1)));
    } else {
        let e = word_end(s, 0);
        word_end_bound(s, 0);
        words_are_words(s.skip(e));
        let rest = words_of(s.skip(e));
        assert forall|k: int| 0 <= k < words_of(s).len() implies is_word(
            #[trigger] words_of(s)[k],
        ) by {
            if k > 0 {
                assert(words_of(s)[k] == rest[k - 1]);
            } else {
                assert(words_of(s)[0] == s.take(e));
            }
        }
    }
}

proof fn word_end_in_front(a: Seq<char>, w: Seq<char>, i: int)
    requires
        0 <= i <= a.len(),
    ensures
        word_end(a + seq![' '] + w, i) == word_end(a, i),
    decreases a.len() - i,
{
    let s = a + seq![' '] + w;
    if i < a.len() {
        assert(s[i] == a[i]);
        if !collapses(a[i]) {
            word_end_in_front(a, w, i + 1);
        }
    } else {
        assert(s[i] == ' ');
    }
}

proof fn word_of_itself(w: Seq<char>, i: int)
    requires
        is_word(w),
        0 <= i <= w.len(),
    ensures
        word_end(w, i) == w.len(),
    decreases w.len() - i,
{
    if i < w.len() {
        word_of_itself(w, i + 1);
    }
}

proof fn words_of_word(w: Seq<char>)
    requires
        is_word(w),
    ensures
        words_of(w) == seq![w],
{
    word_of_itself(w, 0);
    assert(w.take(w.len() as int) =~= w);
    assert(words_of(w.skip(w.len() as int)) =~= Seq::<Seq<char>>::empty());
    assert(words_of(w) =~= seq![w]);
}

proof fn words_of_appended(a: Seq<char>, w: Seq<char>)
    requires
        is_word(w),
    ensures
        words_of(a + seq![' '] + w) == words_of(a).push(w),
    decreases a.len(),
{
    let s = a + seq![' '] + w;
    if a.len() == 0 {
        assert(s.skip(1) =~= w);
        words_of_word(w);
        assert(words_of(s) =~= words_of(a).push(w));
    } else {
        assert(s[0] == a[0]);
        if collapses(a[0]) {
            assert(s.skip(1) =~= a.skip(1) + seq![' '] + w);
            words_of_appended(a.skip(1), w);
        } else {
            let e = word_end(a, 0);
            word_end_bound(a, 0);
            word_end_in_front(a, w, 0);
            assert(s.take(e) =~= a.take(e));
            assert(s.skip(e) =~= a.skip(e) + seq![' '] + w);
            words_of_appended(a.skip(e), w);
            assert(words_of(s) =~= words_of(a).push(w));
        }
    }
}

/// Words with a space between each two have those words.
pub proof fn spaced_words_split_back(words: Seq<Seq<char>>)
    requires
        forall|k: int| 0 <= k < words.len() ==> is_word(#[trigger] words[k]),
    ensures
        words_of(spaced(words)) == words,
    decreases words.len(),
{
    if words.len() == 0 {
        assert(words_of(spaced(words)) =~= words);
    } else if words.len() == 1 {
        words_of_word(words[0]);
        assert(words =~= seq![words[0]]);
    } else {
        spaced_words_split_back(words.drop_last());
        words_of_appended(spaced(words.drop_last()), words.last());
        assert(words.drop_last().push(words.last()) =~= words);
    }
}

/// A normalized text stays as it is when it is normalized again.
pub proof fn normalizing_twice_changes_nothing(s: Seq<char>)
    ensures
        words_of(normalized(s)) == words_of(s),
        normalized(normalized(s)) == normalized(s),
{
    words_are_words(s);
    spaced_words_split_back(words_of(s));
}

/// The characters of a text other than white space that collapses.
pub open spec fn visible(s: Seq<char>) -> Seq<char>
    decreases s.len(),
{
    if s.len() == 0 {
        Seq::empty()
    } else if collapses(s[0]) {
        visible(s.skip(1))
    } else {
        seq![s[0]] + visible(s.skip(1))
    }
}

spec fn run_together(words: Seq<Seq<char>>) -> Seq<char>
    decreases words.len(),
{
    if words.len() == 0 {
        Seq::empty()
    } else {
        words[0] + run_together(words.skip(1))
    }
}

proof fn visible_in_words(s: Seq<char>)
    ensures
        visible(s) == run_together(words_of(s)),
    decreases s.len(),
{
    if s.len() == 0 {
    } else if collapses(s[0]) {
        visible_in_words(s.skip(1));
    } else {
        let e = word_end(s, 0);
        word_end_bound(s, 0);
        visible_prefix(s, e);
        visible_in_words(s.skip(e));
        assert(words_of(s).skip(1) =~= words_of(s.skip(e)));
    }
}

proof fn visible_prefix(s: Seq<char>, n: int)
    requires
        0 <= n <= s.len(),
        forall|k: int| 0 <= k < n ==> !collapses(#[trigger] s[k]),
    ensures
        visible(s) == s.take(n) + visible(s.skip(n)),
    decreases n,
{
    if n == 0 {
        assert(s.take(0) + visible(s.skip(0)) =~= visible(s.skip(0)));
        assert(s.skip(0) =~= s);
    } else {
        let t = s.skip(1);
        assert forall|k: int| 0 <= k < n - 1 implies !collapses(#[trigger] t[k]) by {
            assert(t[k] == s[k + 1]);
        }
        visible_prefix(t, n - 1);
        assert(t.skip(n - 1) =~= s.skip(n));
        assert(seq![s[0]] + (t.take(n - 1) + visible(s.skip(n))) =~= s.take(n) + visible(
            s.skip(n),
        ));
    }
}

/// Normalizing a text keeps all its characters but the white space that
/// collapses; no-break spaces are among those that stay.
pub proof fn normalizing_keeps_visible_characters(s: Seq<char>)
    ensures
        visible(normalized(s)) == visible(s),
{
    normalizing_twice_changes_nothing(s);
    visible_in_words(s);
    visible_in_words(normalized(s));
}

/// What `str::to_uppercase` makes of a text.
pub uninterp spec fn upper_text(s: Seq<char>) -> Seq<char>;

/// `str::to_uppercase`: the text in upper case, by Unicode.
#[verifier::external_body]
fn to_upper(s: &str) -> (r: String)
    ensures
        r@ == upper_text(s@),
{
    s.to_uppercase()
}

/// What `str::to_lowercase` makes of a text.
pub uninterp spec fn lower_text(s: Seq<char>) -> Seq<char>;

/// `str::to_lowercase`: the text in lower case, by Unicode.
#[verifier::external_body]
fn to_lower(s: &str) -> (r: String)
    ensures
        r@ == lower_text(s@),
{
    s.to_lowercase()
}

/// What `char::is_alphabetic` says of a character.
pub uninterp spec fn is_alphabetic(c: char) -> bool;

/// `char::is_alphabetic`: whether a character is a letter, by Unicode.
#[verifier::external_body]
fn alphabetic(c: char) -> (r: bool)
    ensures
        r == is_alphabetic(c),
{
    c.is_alphabetic()
}

/// What `char::to_uppercase` makes of a character.
pub uninterp spec fn upper_char(c: char) -> Seq<char>;

/// `char::to_uppercase`: the character in upper case, which may be several
/// characters.
#[verifier::external_body]
fn to_upper_char(c: char) -> (r: Vec<char>)
    ensures
        r@ == upper_char(c),
{
    c.to_uppercase().collect()
}

/// Views of the characters that characters become.
pub open spec fn char_views(v: Seq<Vec<char>>) -> Seq<Seq<char>> {
    v.map_values(|c: Vec<char>| c@)
}

/// Which characters of a text are letters.
pub open spec fn letters_in(s: Seq<char>) -> Seq<bool> {
    s.map_values(|c: char| is_alphabetic(c))
}

/// The characters of a text in upper case.
pub open spec fn uppers_of(s: Seq<char>) -> Seq<Seq<char>> {
    s.map_values(|c: char| upper_char(c))
}

/// The first `n` characters with the first letter of each word in upper case. A
/// word starts behind anything that is no letter.
pub open spec fn capitalized(
    s: Seq<char>,
    letters: Seq<bool>,
    uppers: Seq<Seq<char>>,
    n: int,
) -> Seq<char>
    decreases n,
{
    if n <= 0 {
        Seq::empty()
    } else if letters[n - 1] && starts_word(letters, n - 1) {
        capitalized(s, letters, uppers, n - 1) + uppers[n - 1]
    } else {
        capitalized(s, letters, uppers, n - 1).push(s[n - 1])
    }
}

/// Nothing stands before `i`, or something that is no letter.
pub open spec fn starts_word(letters: Seq<bool>, i: int) -> bool {
    i == 0 || !letters[i - 1]
}

/// Puts the first letter of each word in upper case, where it is known which
/// characters are letters and what each is in upper case.
pub fn capitalize(chars: &[char], letters: &[bool], uppers: &[Vec<char>]) -> (r: String)
    requires
        letters@.len() == chars@.len(),
        uppers@.len() == chars@.len(),
    ensures
        r@ == capitalized(chars@, letters@, char_views(uppers@), chars@.len() as int),
{
    let ghost views = char_views(uppers@);
    let mut out: String = String::new();
    let mut at_word_start: bool = true;
    let mut i: usize = 0;
    assert(out@ =~= Seq::<char>::empty());
    while i < chars.len()
        invariant
            views == char_views(uppers@),
            letters@.len() == chars@.len(),
            uppers@.len() == chars@.len(),
            i <= chars@.len(),
            out@ == capitalized(chars@, letters@, views, i as int),
            at_word_start == starts_word(letters@, i as int),
        decreases chars@.len() - i,
    {
        if at_word_start && letters[i] {
            let ghost before = out@;
            let upper: &Vec<char> = &uppers[i];
            let mut k: usize = 0;
            while k < upper.len()
                invariant
                    k <= upper@.len(),
                    out@ == before + upper@.take(k as int),
                decreases upper@.len() - k,
            {
                out.push(upper[k]);
                assert(upper@.take(k + 1) =~= upper@.take(k as int).push(upper@[k as int]));
                assert(out@ =~= before + upper@.take(k + 1));
                k = k + 1;
            }
            assert(upper@.take(k as int) =~= upper@);
            assert(views[i as int] == upper@);
        } else {
            out.push(chars[i]);
        }
        at_word_start = !letters[i];
        i = i + 1;
    }
    out
}

/// A text as its letter case asks for.
pub open spec fn transformed(s: Seq<char>, tt: Option<TextTransform>) -> Seq<char> {
    match tt {
        Some(TextTransform::Uppercase) => upper_text(s),
        Some(TextTransform::Lowercase) => lower_text(s),
        Some(TextTransform::Capitalize) => capitalized(
            s,
            letters_in(s),
            uppers_of(s),
            s.len() as int,
        ),
        _ => s,
    }
}

/// Puts a text in the letter case that is asked for.
pub fn apply_text_transform(text: &str, tt: Option<TextTransform>) -> (r: String)
    ensures
        r@ == transformed(text@, tt),
{
    match tt {
        Some(TextTransform::Uppercase) => to_upper(text),
        Some(TextTransform::Lowercase) => to_lower(text),
        Some(TextTransform::Capitalize) => {
            let chars: Vec<char> = text::chars_of(text);
            let mut letters: Vec<bool> = Vec::new();
            let mut uppers: Vec<Vec<char>> = Vec::new();
            let mut i: usize = 0;
            while i < chars.len()
                invariant
                    chars@ == text@,
                    i <= chars@.len(),
                    letters@ =~= letters_in(text@).take(i as int),
                    char_views(uppers@) =~= uppers_of(text@).take(i as int),
                decreases chars@.len() - i,
            {
                let ghost before = char_views(uppers@);
                letters.push(alphabetic(chars[i]));
                uppers.push(to_upper_char(chars[i]));
                proof {
                    let all = uppers_of(text@);
                    assert(all[i as int] == upper_char(text@[i as int]));
                    assert(char_views(uppers@) =~= before.push(all[i as int]));
                    assert(all.take(i + 1) =~= all.take(i as int).push(all[i as int]));
                }
                i = i + 1;
            }
            assert(letters@ =~= letters_in(text@));
            assert(char_views(uppers@) =~= uppers_of(text@));
            capitalize(chars.as_slice(), letters.as_slice(), uppers.as_slice())
        },
        _ => text.to_owned(),
    }
}

/// A line with one more word.
pub open spec fn extended(line: Seq<char>, word: Seq<char>) -> Seq<char> {
    if line.len() == 0 {
        word
    } else {
        line + seq![' '] + word
    }
}

/// Words that have been broken into lines, and the line that is being filled.
#[derive(Debug)]
pub struct WordWrap {
    pub lines: Vec<String>,
    pub current: String,
}

impl WordWrap {
    /// Only a line without words is empty, and that only at the start.
    pub open spec fn wf(&self) -> bool {
        self.current@.len() == 0 ==> self.lines@.len() == 0
    }

    /// The lines so far with a space between each two.
    pub open spec fn content(&self) -> Seq<char> {
        if self.current@.len() == 0 {
            Seq::empty()
        } else {
            spaced(text::string_views(self.lines@).push(self.current@))
        }
    }

    /// No words yet.
    pub fn new() -> (r: Self)
        ensures
            r.wf(),
            r.lines@.len() == 0,
            r.current@.len() == 0,
            r.content() == Seq::<char>::empty(),
    {
        WordWrap { lines: Vec::new(), current: String::new() }
    }

    /// The line that there would be with one more word.
    pub fn trial(&self, word: &str) -> (r: String)
        ensures
            r@ == extended(self.current@, word@),
    {
        let mut line: String = self.current.clone();
        if line.as_str().unicode_len() > 0 {
            line.push(' ');
        }
        append(&mut line, word);
        assert(line@ =~= extended(self.current@, word@));
        line
    }

    /// Adds a word: to the current line or, where that would be too wide and is
    /// not empty, to a new one. No word is lost.
    pub fn advance(&mut self, word: &str, too_wide: bool)
        requires
            old(self).wf(),
            word@.len() > 0,
        ensures
            final(self).wf(),
            too_wide && old(self).current@.len() > 0 ==> {
                &&& text::string_views(final(self).lines@) == text::string_views(
                    old(self).lines@,
                ).push(old(self).current@)
                &&& final(self).current@ == word@
            },
            !(too_wide && old(self).current@.len() > 0) ==> {
                &&& final(self).lines@ == old(self).lines@
                &&& final(self).current@ == extended(old(self).current@, word@)
            },
            final(self).content() == extended(old(self).content(), word@),
    {
        let ghost views = text::string_views(self.lines@);
        let ghost line = self.current@;
        let empty: bool = self.current.as_str().unicode_len() == 0;
        if too_wide && !empty {
            let full: String = self.current.clone();
            self.lines.push(full);
            self.current = word.to_owned();
            proof {
                assert(text::string_views(self.lines@) =~= views.push(line));
                let now = views.push(line).push(word@);
                assert(now.drop_last() =~= views.push(line));
                spaced_not_empty(views, line);
            }
        } else {
            let more: String = self.trial(word);
            self.current = more;
            proof {
                if line.len() > 0 {
                    let before = views.push(line);
                    let now = views.push(self.current@);
                    assert(before.drop_last() =~= views);
                    assert(now.drop_last() =~= views);
                    spaced_not_empty(views, line);
                    if views.len() > 0 {
                        assert(spaced(now) =~= spaced(before) + seq![' '] + word@);
                    }
                } else {
                    assert(views.push(word@)[0] == word@);
                }
            }
        }
    }

    /// The lines, when there are no more words.
    pub fn finish(self) -> (r: Vec<String>)
        requires
            self.wf(),
        ensures
            self.current@.len() == 0 ==> r@.len() == 0,
            self.current@.len() > 0 ==> text::string_views(r@) == text::string_views(
                self.lines@,
            ).push(self.current@),
            spaced(text::string_views(r@)) == self.content(),
    {
        let ghost views = text::string_views(self.lines@);
        let empty: bool = self.current.as_str().unicode_len() == 0;
        let WordWrap { lines, current } = self;
        let mut lines: Vec<String> = lines;
        if !empty {
            lines.push(current);
            assert(text::string_views(lines@) =~= views.push(self.current@));
        }
        lines
    }
}

proof fn spaced_not_empty(views: Seq<Seq<char>>, line: Seq<char>)
    requires
        line.len() > 0,
    ensures
        spaced(views.push(line)).len() > 0,
{
    assert(views.push(line).last() == line);
}

/// Where each letter is one character in upper case too, a capitalized text has the same
/// characters at the same places, but for the first letter of each word.
pub proof fn only_first_letters_are_capitalized(
    s: Seq<char>,
    letters: Seq<bool>,
    uppers: Seq<Seq<char>>,
    n: int,
    i: int,
)
    requires
        0 <= i < n <= s.len(),
        letters.len() == s.len(),
        uppers.len() == s.len(),
        forall|k: int| 0 <= k < s.len() ==> (#[trigger] uppers[k]).len() == 1,
    ensures
        capitalized(s, letters, uppers, n).len() == n,
        capitalized(s, letters, uppers, n)[i] == if letters[i] && (i == 0 || !letters[i - 1]) {
            uppers[i][0]
        } else {
            s[i]
        },
    decreases n,
{
    assert(uppers[n - 1].len() == 1);
    if n > 1 {
        only_first_letters_are_capitalized(
            s,
            letters,
            uppers,
            n - 1,
            if i < n - 1 {
                i
            } else {
                0
            },
        );
    } else {
        reveal_with_fuel(capitalized, 2);
    }
}

/// Without a letter case to ask for, a text stays as it is.
pub proof fn plain_texts_stay(s: Seq<char>)
    ensures
        transformed(s, None) == s,
        (forall|i: int| 0 <= i < s.len() ==> !is_alphabetic(#[trigger] s[i])) ==> transformed(
            s,
            Some(TextTransform::Capitalize),
        ) == s,
{
    if forall|i: int| 0 <= i < s.len() ==> !is_alphabetic(#[trigger] s[i]) {
        nothing_to_capitalize(s, s.len() as int);
        assert(s.take(s.len() as int) =~= s);
    }
}

proof fn nothing_to_capitalize(s: Seq<char>, n: int)
    requires
        0 <= n <= s.len(),
        forall|i: int| 0 <= i < s.len() ==> !is_alphabetic(#[trigger] s[i]),
    ensures
        capitalized(s, letters_in(s), uppers_of(s), n) == s.take(n),
    decreases n,
{
    if n > 0 {
        nothing_to_capitalize(s, n - 1);
        assert(!is_alphabetic(s[n - 1]));
        assert(!letters_in(s)[n - 1]);
        assert(s.take(n) =~= s.take(n - 1).push(s[n - 1]));
    } else {
        assert(s.take(0) =~= Seq::<char>::empty());
    }
}

} // verus!
