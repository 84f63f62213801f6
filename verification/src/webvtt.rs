//! WebVTT cues.
//!
//! A file starts with a line `WEBVTT`; cues are blocks of lines that are
//! separated by blank lines. A block is made of an optional identifier, a
//! timing line and lines of text. Settings on the timing line are skipped.
use vstd::prelude::*;

use crate::text;

pub mod written;

verus! {

/// A cue, with its times in milliseconds.
#[derive(Debug, Clone)]
pub struct VttCue {
    pub start_ms: u64,
    pub end_ms: u64,
    pub text: String,
    pub id: Option<String>,
}

/// What a cue holds.
#[verifier::ext_equal]
pub struct CueView {
    pub start_ms: int,
    pub end_ms: int,
    pub text: Seq<char>,
    pub id: Option<Seq<char>>,
}

impl View for VttCue {
    type V = CueView;

    open spec fn view(&self) -> CueView {
        CueView {
            start_ms: self.start_ms as int,
            end_ms: self.end_ms as int,
            text: self.text@,
            id: match self.id {
                Some(id) => Some(id@),
                None => None,
            },
        }
    }
}

pub open spec fn cue_views(v: Seq<VttCue>) -> Seq<CueView> {
    v.map_values(|c: VttCue| c@)
}

/// The lines of a text, without carriage returns at their ends.
pub open spec fn lines_of(s: Seq<char>) -> Seq<Seq<char>> {
    text::split(s, '\n').map_values(|l: Seq<char>| text::trim_end_char(l, '\r'))
}

/// Position of the first line at or behind `i` that is not blank.
pub open spec fn skip_blank(lines: Seq<Seq<char>>, i: int) -> int
    decreases lines.len() - i,
{
    if i < lines.len() && lines[i].len() == 0 {
        skip_blank(lines, i + 1)
    } else {
        i
    }
}

/// Position of the first `-->` at or behind `i`, or the length.
pub open spec fn find_arrow(s: Seq<char>, i: int) -> int
    decreases s.len() - i,
{
    if i + 2 >= s.len() {
        s.len() as int
    } else if s[i] == '-' && s[i + 1] == '-' && s[i + 2] == '>' {
        i
    } else {
        find_arrow(s, i + 1)
    }
}

/// Position of the first white space at or behind `i`, or the length.
pub open spec fn find_white(s: Seq<char>, i: int) -> int
    decreases s.len() - i,
{
    if i >= s.len() {
        s.len() as int
    } else if text::is_white(s[i]) {
        i
    } else {
        find_white(s, i + 1)
    }
}

/// The first word of `s`, empty if there is none.
pub open spec fn first_word(s: Seq<char>) -> Seq<char> {
    let t = text::trim_start(s);
    t.take(find_white(t, 0))
}

/// A 64-bit number.
pub open spec fn number(s: Seq<char>) -> Option<int> {
    text::parsed(s, u64::MAX as int)
}

/// Hours, minutes, seconds and milliseconds in milliseconds, in 64 bits.
pub open spec fn total_ms(h: int, m: int, s: int, ms: int) -> int {
    (h * 3_600_000 + m * 60_000 + s * 1000 + ms) % 0x1_0000_0000_0000_0000
}

/// A time `h:mm:ss.mmm` or `mm:ss.mmm`, whose milliseconds are optional.
pub open spec fn time_of(s: Seq<char>) -> Option<int> {
    let parts = text::split(s, ':');
    let n = parts.len();
    let hours = if n == 2 {
        Some(0int)
    } else {
        number(parts[0])
    };
    let minutes = number(parts[n - 2]);
    let last = parts[n - 1];
    let dot = text::find(last, '.');
    let (seconds, ms) = if dot < last.len() {
        (number(last.take(dot)), number(last.skip(dot + 1)))
    } else {
        (number(last), Some(0int))
    };
    if (n == 2 || n == 3) && hours is Some && minutes is Some && seconds is Some && ms is Some {
        Some(total_ms(hours->0, minutes->0, seconds->0, ms->0))
    } else {
        None
    }
}

/// The times on a timing line: what stands before the arrow, and the first
/// word behind it.
pub open spec fn timing_of(line: Seq<char>) -> Option<(int, int)> {
    let arrow = find_arrow(line, 0);
    let start = time_of(text::trim(line.take(arrow)));
    let word = first_word(line.skip(arrow + 3));
    let end = time_of(text::trim(word));
    if arrow < line.len() && word.len() > 0 && start is Some && end is Some {
        Some((start->0, end->0))
    } else {
        None
    }
}

/// The lines from `i` on, joined by line feeds.
pub open spec fn joined(lines: Seq<Seq<char>>, i: int) -> Seq<char>
    decreases lines.len() - i,
{
    if i >= lines.len() {
        Seq::empty()
    } else if i == lines.len() - 1 {
        lines[i]
    } else {
        lines[i] + seq!['\n'] + joined(lines, i + 1)
    }
}

/// The cue that a block stands for. A first line without an arrow is the
/// identifier.
pub open spec fn cue_of(block: Seq<Seq<char>>) -> Option<CueView> {
    let named = find_arrow(block[0], 0) >= block[0].len();
    let at: int = if named {
        1
    } else {
        0
    };
    let timing = timing_of(block[at]);
    if at >= block.len() || timing is None {
        None
    } else {
        Some(
            CueView {
                start_ms: (timing->0).0,
                end_ms: (timing->0).1,
                text: joined(block, at + 1),
                id: if named {
                    Some(block[0])
                } else {
                    None
                },
            },
        )
    }
}

/// The cue of a block that has ended, if it is one.
pub open spec fn finished(block: Seq<Seq<char>>) -> Seq<CueView> {
    if block.len() > 0 && cue_of(block) is Some {
        seq![cue_of(block)->0]
    } else {
        Seq::empty()
    }
}

/// The cues from line `i` on, where `block` holds the lines of the block that
/// has begun before it.
pub open spec fn cues_from(lines: Seq<Seq<char>>, i: int, block: Seq<Seq<char>>) -> Seq<CueView>
    decreases lines.len() - i,
{
    if i >= lines.len() {
        finished(block)
    } else if lines[i].len() == 0 {
        finished(block) + cues_from(lines, i + 1, Seq::empty())
    } else {
        cues_from(lines, i + 1, block.push(lines[i]))
    }
}

/// The cues of a file. Without the header there are none.
pub open spec fn cues_of(s: Seq<char>) -> Seq<CueView> {
    let lines = lines_of(s);
    let header = skip_blank(lines, 0);
    if header < lines.len() && text::has_prefix(lines[header], "WEBVTT"@) {
        cues_from(lines, header + 1, Seq::empty())
    } else {
        Seq::empty()
    }
}

fn arrow_position(s: &[char]) -> (r: usize)
    ensures
        r == find_arrow(s@, 0),
        r <= s@.len(),
        r < s@.len() ==> r + 3 <= s@.len(),
{
    let mut i: usize = 0;
    while i < s.len() && s.len() - i > 2
        invariant
            i <= s@.len(),
            find_arrow(s@, 0) == find_arrow(s@, i as int),
        decreases s@.len() - i,
    {
        if s[i] == '-' && s[i + 1] == '-' && s[i + 2] == '>' {
            return i;
        }
        i = i + 1;
    }
    s.len()
}

fn word<'a>(s: &'a [char]) -> (r: &'a [char])
    ensures
        r@ == first_word(s@),
{
    let t: &'a [char] = text::trimmed_start(s);
    let mut i: usize = 0;
    while i < t.len() && !text::white(t[i])
        invariant
            i <= t@.len(),
            find_white(t@, 0) == find_white(t@, i as int),
        decreases t@.len() - i,
    {
        i = i + 1;
    }
    text::head(t, i)
}

fn parse_time(s: &[char]) -> (r: Option<u64>)
    ensures
        match r {
            None => time_of(s@) is None,
            Some(t) => time_of(s@) == Some(t as int),
        },
{
    let pieces: Vec<&[char]> = text::split_at(s, ':');
    let ghost parts = text::split(s@, ':');
    let n: usize = pieces.len();
    if n != 2 && n != 3 {
        return None;
    }
    assert(forall|k: int| 0 <= k < n ==> #[trigger] parts[k] == pieces@[k]@);
    let h: u64 = if n == 2 {
        0
    } else {
        assert(parts[0] == pieces@[0]@);
        text::parse_number(pieces[0], u64::MAX)?
    };
    assert(parts[n - 2] == pieces@[n - 2]@);
    let m: u64 = text::parse_number(pieces[n - 2], u64::MAX)?;
    assert(parts[n - 1] == pieces@[n - 1]@);
    let last: &[char] = pieces[n - 1];
    let (secs, ms): (u64, u64) = match text::position(last, '.') {
        Some(dot) => {
            let secs: u64 = text::parse_number(text::head(last, dot), u64::MAX)?;
            let ms: u64 = text::parse_number(text::tail(last, dot + 1), u64::MAX)?;
            (secs, ms)
        },
        None => (text::parse_number(last, u64::MAX)?, 0),
    };
    let sum: u128 = h as u128 * 3_600_000 + m as u128 * 60_000 + secs as u128 * 1000 + ms as u128;
    Some((sum % 0x1_0000_0000_0000_0000) as u64)
}

fn parse_timing(line: &[char]) -> (r: Option<(u64, u64)>)
    ensures
        match r {
            None => timing_of(line@) is None,
            Some((start, end)) => timing_of(line@) == Some((start as int, end as int)),
        },
{
    let arrow: usize = arrow_position(line);
    if arrow >= line.len() {
        return None;
    }
    let right: &[char] = word(text::tail(line, arrow + 3));
    if right.len() == 0 {
        return None;
    }
    let start: u64 = parse_time(text::trimmed(text::head(line, arrow)))?;
    let end: u64 = parse_time(text::trimmed(right))?;
    Some((start, end))
}

fn append(out: &mut String, s: &[char])
    ensures
        final(out)@ == old(out)@ + s@,
{
    let mut i: usize = 0;
    assert(out@ + s@.take(0) =~= out@);
    while i < s.len()
        invariant
            i <= s@.len(),
            out@ == old(out)@ + s@.take(i as int),
        decreases s@.len() - i,
    {
        out.push(s[i]);
        i = i + 1;
        assert(s@.take(i as int) =~= s@.take(i - 1).push(s@[i - 1]));
        assert(old(out)@ + s@.take(i - 1).push(s@[i - 1]) =~= (old(out)@ + s@.take(i - 1)).push(
            s@[i - 1],
        ));
    }
    assert(s@.take(s@.len() as int) =~= s@);
}

fn join(block: &Vec<&[char]>, from: usize) -> (r: String)
    requires
        from <= block@.len(),
    ensures
        r@ == joined(text::views(block@), from as int),
{
    let mut out: String = String::new();
    let ghost lines = text::views(block@);
    let mut i: usize = from;
    assert(out@ + joined(lines, from as int) =~= joined(lines, from as int));
    while i < block.len()
        invariant
            from <= i <= block@.len(),
            lines == text::views(block@),
            i < block@.len() ==> out@ + joined(lines, i as int) == joined(lines, from as int),
            i == block@.len() ==> out@ == joined(lines, from as int),
        decreases block@.len() - i,
    {
        let ghost before = out@;
        let line: &[char] = block[i];
        assert(lines[i as int] == line@);
        append(&mut out, line);
        if i + 1 < block.len() {
            out.push('\n');
            assert(out@ + joined(lines, i + 1) =~= before + (line@ + seq!['\n'] + joined(
                lines,
                i + 1,
            )));
        }
        i = i + 1;
    }
    out
}

fn parse_block(block: &Vec<&[char]>) -> (r: Option<VttCue>)
    requires
        block@.len() > 0,
    ensures
        match r {
            None => cue_of(text::views(block@)) is None,
            Some(c) => cue_of(text::views(block@)) == Some(c@),
        },
{
    let ghost lines = text::views(block@);
    assert(lines[0] == block@[0]@);
    let mut idx: usize = 0;
    let mut id: Option<String> = None;
    if arrow_position(block[0]) >= block[0].len() {
        id = Some(text::string_of(block[0]));
        idx = 1;
    }
    if idx >= block.len() {
        return None;
    }
    assert(lines[idx as int] == block@[idx as int]@);
    let (start_ms, end_ms): (u64, u64) = parse_timing(block[idx])?;
    let text: String = join(block, idx + 1);
    Some(VttCue { start_ms, end_ms, text, id })
}

/// Adds the cue of a block that has ended, if it is one.
fn finish(out: &mut Vec<VttCue>, block: &Vec<&[char]>)
    ensures
        cue_views(final(out)@) == cue_views(old(out)@) + finished(text::views(block@)),
{
    if block.len() > 0 {
        if let Some(cue) = parse_block(block) {
            out.push(cue);
            assert(cue_views(out@) =~= cue_views(old(out)@) + seq![cue@]);
            return ;
        }
    }
    assert(cue_views(out@) =~= cue_views(old(out)@) + Seq::<CueView>::empty());
}

/// Parses a WebVTT file.
pub fn parse(text: &str) -> (r: Vec<VttCue>)
    ensures
        cue_views(r@) == cues_of(text@),
{
    let chars: Vec<char> = text::chars_of(text);
    let raw: Vec<&[char]> = text::split_at(chars.as_slice(), '\n');
    let ghost lines = lines_of(text@);
    let mut out: Vec<VttCue> = Vec::new();
    let mut i: usize = 0;
    assert(cue_views(out@) =~= Seq::<CueView>::empty());
    assert forall|k: int| 0 <= k < raw@.len() implies #[trigger] lines[k] == text::trim_end_char(
        raw@[k]@,
        '\r',
    ) by {
        assert(text::views(raw@)[k] == raw@[k]@);
    }
    assert(lines.len() == raw@.len());
    while i < raw.len() && text::trimmed_end_char(raw[i], '\r').len() == 0
        invariant
            i <= raw@.len(),
            lines.len() == raw@.len(),
            forall|k: int|
                0 <= k < raw@.len() ==> #[trigger] lines[k] == text::trim_end_char(raw@[k]@, '\r'),
            skip_blank(lines, 0) == skip_blank(lines, i as int),
        decreases raw@.len() - i,
    {
        assert(lines[i as int].len() == 0);
        i = i + 1;
    }
    if i >= raw.len() {
        return out;
    }
    assert(lines[i as int] == text::trim_end_char(raw@[i as int]@, '\r'));
    if !text::starts_with(text::trimmed_end_char(raw[i], '\r'), "WEBVTT") {
        return out;
    }
    i = i + 1;
    let mut block: Vec<&[char]> = Vec::new();
    proof {
        assert(text::views(block@) =~= Seq::<Seq<char>>::empty());
        assert(cue_views(out@) + cues_of(text@) =~= cues_of(text@));
    }
    while i < raw.len()
        invariant
            i <= raw@.len(),
            lines.len() == raw@.len(),
            forall|k: int|
                0 <= k < raw@.len() ==> #[trigger] lines[k] == text::trim_end_char(raw@[k]@, '\r'),
            cue_views(out@) + cues_from(lines, i as int, text::views(block@)) == cues_of(text@),
        decreases raw@.len() - i,
    {
        let line: &[char] = text::trimmed_end_char(raw[i], '\r');
        assert(lines[i as int] == line@);
        let ghost before = cue_views(out@);
        let ghost held = text::views(block@);
        if line.len() == 0 {
            finish(&mut out, &block);
            block = Vec::new();
            proof {
                assert(text::views(block@) =~= Seq::<Seq<char>>::empty());
                assert(before + (finished(held) + cues_from(lines, i + 1, Seq::empty())) =~= before
                    + finished(held) + cues_from(lines, i + 1, Seq::empty()));
            }
        } else {
            block.push(line);
            assert(text::views(block@) =~= held.push(line@));
        }
        i = i + 1;
    }
    finish(&mut out, &block);
    out
}

/// A file that does not start with the header has no cues.
pub proof fn files_without_header_have_no_cues(s: Seq<char>)
    requires
        !exists|k: int|
            0 <= k < lines_of(s).len() && text::has_prefix(#[trigger] lines_of(s)[k], "WEBVTT"@),
    ensures
        cues_of(s).len() == 0,
{
    let lines = lines_of(s);
    let header = skip_blank(lines, 0);
    skip_blank_bound(lines, 0);
    if header < lines.len() {
        assert(!text::has_prefix(lines[header], "WEBVTT"@));
    }
}

proof fn skip_blank_bound(lines: Seq<Seq<char>>, i: int)
    ensures
        i <= skip_blank(lines, i),
    decreases lines.len() - i,
{
    if i < lines.len() && lines[i].len() == 0 {
        skip_blank_bound(lines, i + 1);
    }
}

/// Hours, minutes, seconds and milliseconds add up.
pub proof fn times_add_up(h: int, m: int, s: int, ms: int)
    requires
        0 <= h,
        0 <= m,
        0 <= s,
        0 <= ms,
        ((h * 60 + m) * 60 + s) * 1000 + ms <= u64::MAX,
    ensures
        total_ms(h, m, s, ms) == ((h * 60 + m) * 60 + s) * 1000 + ms,
{
}

/// A time without hours is that of the first hour, and one without milliseconds that of
/// the full second.
pub proof fn short_times_are_read(m: Seq<char>, s: Seq<char>)
    requires
        m.len() > 0,
        s.len() > 0,
        text::all_digits(m),
        text::all_digits(s),
        60 * text::decimal(m) + text::decimal(s) <= 0xFFFF_FFFF,
        0 <= text::decimal(m),
        0 <= text::decimal(s),
    ensures
        time_of(m + (seq![':'] + s)) == Some(1000 * (60 * text::decimal(m) + text::decimal(s))),
{
    let all = m + (seq![':'] + s);
    assert forall|j: int| 0 <= j < m.len() implies #[trigger] m[j] != ':' by {
        assert(text::is_digit(m[j]));
    }
    assert forall|j: int| 0 <= j < s.len() implies #[trigger] s[j] != ':' && s[j] != '.' by {
        assert(text::is_digit(s[j]));
    }
    text::written::split_once(all, ':', m, s);
    text::written::not_found(s, ':', 0);
    text::written::not_found(s, '.', 0);
    assert(text::split(s, ':') == seq![s]);
    let parts = text::split(all, ':');
    assert(parts =~= seq![m, s]);
    text::numbers_are_limited(m, u64::MAX as int);
    text::numbers_are_limited(s, u64::MAX as int);
}

} // verus!
