//! Numbers and lines that were written are read back.
use vstd::prelude::*;

use crate::text;

verus! {

/// A number as it is written.
pub open spec fn digits(n: int) -> Seq<char>
    decreases n,
{
    if n < 10 {
        seq![(n + '0' as int) as char]
    } else {
        digits(n / 10).push((n % 10 + '0' as int) as char)
    }
}

/// Whether a text has no line feed in it.
pub open spec fn on_one_line(s: Seq<char>) -> bool {
    forall|i: int| 0 <= i < s.len() ==> #[trigger] s[i] != '\n'
}

/// A text that can stand on a line: not empty, without white space at its ends and
/// without line feeds.
pub open spec fn is_line(s: Seq<char>) -> bool {
    &&& s.len() > 0
    &&& !text::is_white(s[0])
    &&& !text::is_white(s.last())
    &&& on_one_line(s)
}

/// Lines as they are written, each with a line feed behind it.
pub open spec fn written_lines(lines: Seq<Seq<char>>) -> Seq<char>
    decreases lines.len(),
{
    if lines.len() == 0 {
        Seq::empty()
    } else {
        lines[0] + (seq!['\n'] + written_lines(lines.skip(1)))
    }
}

/// Such a text is not changed by trimming.
pub proof fn lines_are_trimmed(s: Seq<char>)
    requires
        is_line(s),
    ensures
        text::trim(s) == s,
{
}

/// A number that was written is made of digits and stands for itself.
pub proof fn digits_are_read(n: int)
    requires
        0 <= n,
    ensures
        text::all_digits(digits(n)),
        text::decimal(digits(n)) == n,
        is_line(digits(n)),
        forall|i: int|
            0 <= i < digits(n).len() ==> '0' <= #[trigger] digits(n)[i] && digits(n)[i] <= '9',
    decreases n,
{
    if n >= 10 {
        digits_are_read(n / 10);
        let d = digits(n);
        assert(d.drop_last() =~= digits(n / 10));
        assert(text::decimal(d) == 10 * text::decimal(d.drop_last()) + n % 10);
        assert(d[0] == digits(n / 10)[0]);
    } else {
        let d = digits(n);
        assert(d.drop_last() =~= Seq::<char>::empty());
        assert(text::decimal(d.drop_last()) == 0);
    }
}

/// A number of 64 bits that was written is read back.
pub proof fn numbers_are_parsed(n: int)
    requires
        0 <= n <= u64::MAX,
    ensures
        text::parsed(digits(n), u64::MAX as int) == Some(n),
        text::trim(digits(n)) == digits(n),
{
    digits_are_read(n);
    lines_are_trimmed(digits(n));
    assert(digits(n)[0] != '+');
}

/// The first place where a character stands is where it is found.
pub proof fn found_at(s: Seq<char>, c: char, i: int, k: int)
    requires
        0 <= i <= k < s.len(),
        s[k] == c,
        forall|j: int| i <= j < k ==> #[trigger] s[j] != c,
    ensures
        text::find_from(s, c, i) == k,
    decreases k - i,
{
    if i < k {
        found_at(s, c, i + 1, k);
    }
}

/// A character that does not occur is not found.
pub proof fn not_found(s: Seq<char>, c: char, i: int)
    requires
        0 <= i <= s.len(),
        forall|j: int| i <= j < s.len() ==> #[trigger] s[j] != c,
    ensures
        text::find_from(s, c, i) == s.len(),
    decreases s.len() - i,
{
    if i < s.len() {
        not_found(s, c, i + 1);
    }
}

/// A text is split at the first separator.
pub proof fn split_once(s: Seq<char>, sep: char, first: Seq<char>, rest: Seq<char>)
    requires
        s == first + (seq![sep] + rest),
        forall|j: int| 0 <= j < first.len() ==> #[trigger] first[j] != sep,
    ensures
        text::find(s, sep) == first.len(),
        s.take(first.len() as int) == first,
        s.skip(1 + first.len() as int) == rest,
        text::split(s, sep) == seq![first] + text::split(rest, sep),
{
    assert forall|j: int| 0 <= j < first.len() implies #[trigger] s[j] != sep by {
        assert(s[j] == first[j]);
    }
    found_at(s, sep, 0, first.len() as int);
    assert(s.take(first.len() as int) =~= first);
    assert(s.skip(1 + first.len() as int) =~= rest);
}

/// Lines come apart where they were put together.
pub proof fn lines_split_back(lines: Seq<Seq<char>>)
    requires
        forall|k: int| 0 <= k < lines.len() ==> on_one_line(#[trigger] lines[k]),
    ensures
        text::split(written_lines(lines), '\n') == lines.push(Seq::empty()),
    decreases lines.len(),
{
    let s = written_lines(lines);
    if lines.len() == 0 {
        not_found(s, '\n', 0);
        assert(lines.push(Seq::empty()) =~= seq![s]);
    } else {
        let tail = lines.skip(1);
        let first = lines[0];
        let rest = written_lines(tail);
        assert(on_one_line(first));
        assert(s[first.len() as int] == '\n');
        assert forall|j: int| 0 <= j < first.len() implies #[trigger] s[j] != '\n' by {
            assert(s[j] == first[j]);
        }
        found_at(s, '\n', 0, first.len() as int);
        assert(s.take(first.len() as int) =~= first);
        assert(s.skip(1 + first.len() as int) =~= rest);
        assert forall|k: int| 0 <= k < tail.len() implies on_one_line(#[trigger] tail[k]) by {
            assert(on_one_line(lines[k + 1]));
        }
        lines_split_back(tail);
        assert(seq![first] + tail.push(Seq::empty()) =~= lines.push(Seq::empty()));
    }
}

} // verus!
