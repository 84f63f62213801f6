//! Captions that were written are read back.
use vstd::prelude::*;

use crate::text;
use crate::webvtt::{self, CueView};

verus! {

/// A caption: its name, its times and its lines.
pub struct Caption {
    pub id: Option<Seq<char>>,
    pub start_ms: int,
    pub end_ms: int,
    pub lines: Seq<Seq<char>>,
}

/// A time as it is written.
pub open spec fn written_time(ms: int) -> Seq<char> {
    text::written::digits(ms / 3_600_000) + (seq![':'] + (text::written::digits(ms / 60_000 % 60) + (seq![':'] + (
    text::written::digits(ms / 1000 % 60) + (seq!['.'] + text::written::digits(ms % 1000))))))
}

/// The line with the times of a caption.
pub open spec fn timing_line(start_ms: int, end_ms: int) -> Seq<char> {
    written_time(start_ms) + (seq![' ', '-', '-', '>', ' '] + written_time(end_ms))
}

/// The lines of a caption.
pub open spec fn block_of(c: Caption) -> Seq<Seq<char>> {
    let name = match c.id {
        Some(id) => seq![id],
        None => Seq::empty(),
    };
    name + seq![timing_line(c.start_ms, c.end_ms)] + c.lines
}

/// The lines of the captions from the `k`-th on, with a blank line before each.
pub open spec fn blocks_from(captions: Seq<Caption>, k: int) -> Seq<Seq<char>>
    decreases captions.len() - k,
{
    if k >= captions.len() {
        Seq::empty()
    } else {
        seq![Seq::<char>::empty()] + block_of(captions[k]) + blocks_from(captions, k + 1)
    }
}

/// A file with captions as it is written.
pub open spec fn written_file(captions: Seq<Caption>) -> Seq<char> {
    text::written::written_lines(seq!["WEBVTT"@] + blocks_from(captions, 0))
}

/// The cue that a caption is.
pub open spec fn cue_for(c: Caption) -> CueView {
    CueView {
        start_ms: c.start_ms,
        end_ms: c.end_ms,
        text: webvtt::joined(c.lines, 0),
        id: c.id,
    }
}

/// A line of a caption: not empty, without line feeds, and with no carriage return
/// at its end.
pub open spec fn can_be_line(s: Seq<char>) -> bool {
    s.len() > 0 && s.last() != '\r' && text::written::on_one_line(s)
}

/// A caption that can be written. A name has no arrow in it.
pub open spec fn can_be_caption(c: Caption) -> bool {
    &&& c.id matches Some(id) ==> can_be_line(id) && webvtt::find_arrow(id, 0) >= id.len()
    &&& 0 <= c.start_ms <= u64::MAX
    &&& 0 <= c.end_ms <= u64::MAX
    &&& forall|k: int| 0 <= k < c.lines.len() ==> can_be_line(#[trigger] c.lines[k])
}

/// Whether a character occurs in times.
pub open spec fn is_time_char(c: char) -> bool {
    '0' <= c && c <= '9' || c == ':' || c == '.'
}

/// Four texts made of digits, put together as a time.
spec fn clock(h: Seq<char>, m: Seq<char>, s: Seq<char>, f: Seq<char>) -> Seq<char> {
    h + (seq![':'] + (m + (seq![':'] + (s + (seq!['.'] + f)))))
}

spec fn only_digits(s: Seq<char>) -> bool {
    forall|i: int| 0 <= i < s.len() ==> '0' <= #[trigger] s[i] && s[i] <= '9'
}

proof fn clock_is_split(h: Seq<char>, m: Seq<char>, s: Seq<char>, f: Seq<char>)
    requires
        only_digits(h),
        only_digits(m),
        only_digits(s),
        only_digits(f),
    ensures
        text::split(clock(h, m, s, f), ':') == seq![h, m, s + (seq!['.'] + f)],
        text::find(s + (seq!['.'] + f), '.') == s.len(),
        (s + (seq!['.'] + f)).take(s.len() as int) == s,
        (s + (seq!['.'] + f)).skip(1 + s.len() as int) == f,
{
    let last = s + (seq!['.'] + f);
    let middle = m + (seq![':'] + last);
    text::written::split_once(clock(h, m, s, f), ':', h, middle);
    text::written::split_once(middle, ':', m, last);
    assert forall|j: int| 0 <= j < last.len() implies #[trigger] last[j] != ':' by {
        if j < s.len() {
            assert(last[j] == s[j]);
        } else if j > s.len() {
            assert(last[j] == f[j - s.len() - 1]);
        }
    }
    text::written::not_found(last, ':', 0);
    assert(text::split(last, ':') == seq![last]);
    text::written::split_once(last, '.', s, f);
    assert(seq![h] + (seq![m] + seq![last]) =~= seq![h, m, last]);
}

proof fn clock_chars(h: Seq<char>, m: Seq<char>, s: Seq<char>, f: Seq<char>)
    requires
        only_digits(h),
        only_digits(m),
        only_digits(s),
        only_digits(f),
    ensures
        forall|i: int|
            0 <= i < clock(h, m, s, f).len() ==> is_time_char(#[trigger] clock(h, m, s, f)[i]),
{
    let time = clock(h, m, s, f);
    let last = s + (seq!['.'] + f);
    let middle = m + (seq![':'] + last);
    assert forall|i: int| 0 <= i < time.len() implies is_time_char(#[trigger] time[i]) by {
        if i < h.len() {
            assert(time[i] == h[i]);
        } else if i > h.len() {
            let j = i - h.len() - 1;
            assert(time[i] == middle[j]);
            if j < m.len() {
                assert(middle[j] == m[j]);
            } else if j > m.len() {
                let k = j - m.len() - 1;
                assert(middle[j] == last[k]);
                if k < s.len() {
                    assert(last[k] == s[k]);
                } else if k > s.len() {
                    assert(last[k] == f[k - s.len() - 1]);
                }
            }
        }
    }
}

proof fn numbers_are_read(n: int)
    requires
        0 <= n <= u64::MAX,
    ensures
        webvtt::number(text::written::digits(n)) == Some(n),
        only_digits(text::written::digits(n)),
        text::written::digits(n).len() > 0,
{
    text::written::digits_are_read(n);
    text::written::numbers_are_parsed(n);
}

proof fn clock_is_read(
    h: Seq<char>,
    m: Seq<char>,
    s: Seq<char>,
    f: Seq<char>,
    values: (int, int, int, int),
)
    requires
        only_digits(h),
        only_digits(m),
        only_digits(s),
        only_digits(f),
        webvtt::number(h) == Some(values.0),
        webvtt::number(m) == Some(values.1),
        webvtt::number(s) == Some(values.2),
        webvtt::number(f) == Some(values.3),
    ensures
        webvtt::time_of(clock(h, m, s, f)) == Some(
            webvtt::total_ms(values.0, values.1, values.2, values.3),
        ),
{
    clock_is_split(h, m, s, f);
}

proof fn parts_add_up(ms: int)
    requires
        0 <= ms <= u64::MAX,
    ensures
        webvtt::total_ms(ms / 3_600_000, ms / 60_000 % 60, ms / 1000 % 60, ms % 1000) == ms,
        0 <= ms / 3_600_000 <= u64::MAX,
{
    let seconds = ms / 1000;
    let minutes = seconds / 60;
    vstd::arithmetic::div_mod::lemma_div_denominator(ms, 1000, 60);
    vstd::arithmetic::div_mod::lemma_div_denominator(ms, 60_000, 60);
    assert(ms / 60_000 == minutes);
    assert(ms / 3_600_000 == minutes / 60);
    assert(ms == 1000 * seconds + ms % 1000);
    assert(seconds == 60 * minutes + seconds % 60);
    assert(minutes == 60 * (minutes / 60) + minutes % 60);
}

proof fn times_are_read(ms: int)
    requires
        0 <= ms <= u64::MAX,
    ensures
        webvtt::time_of(written_time(ms)) == Some(ms),
        only_time(written_time(ms)),
{
    let (h, m, s, f) = (ms / 3_600_000, ms / 60_000 % 60, ms / 1000 % 60, ms % 1000);
    parts_add_up(ms);
    numbers_are_read(h);
    numbers_are_read(m);
    numbers_are_read(s);
    numbers_are_read(f);
    let (dh, dm, ds, df) = (
        text::written::digits(h),
        text::written::digits(m),
        text::written::digits(s),
        text::written::digits(f),
    );
    clock_is_read(dh, dm, ds, df, (h, m, s, f));
    clock_chars(dh, dm, ds, df);
}

proof fn arrow_at(s: Seq<char>, i: int, k: int)
    requires
        0 <= i <= k,
        k + 2 < s.len(),
        s[k] == '-' && s[k + 1] == '-' && s[k + 2] == '>',
        forall|j: int| i <= j < k ==> #[trigger] s[j] != '-',
    ensures
        webvtt::find_arrow(s, i) == k,
    decreases k - i,
{
    if i < k {
        arrow_at(s, i + 1, k);
    }
}

proof fn no_white(s: Seq<char>, i: int)
    requires
        0 <= i <= s.len(),
        forall|j: int| i <= j < s.len() ==> !text::is_white(#[trigger] s[j]),
    ensures
        webvtt::find_white(s, i) == s.len(),
    decreases s.len() - i,
{
    if i < s.len() {
        no_white(s, i + 1);
    }
}

spec fn only_time(s: Seq<char>) -> bool {
    &&& s.len() > 0
    &&& forall|i: int| 0 <= i < s.len() ==> is_time_char(#[trigger] s[i])
}

/// Two times with an arrow between them.
spec fn arrowed(a: Seq<char>, b: Seq<char>) -> Seq<char> {
    a + (seq![' ', '-', '-', '>', ' '] + b)
}

proof fn arrow_is_found(a: Seq<char>, b: Seq<char>)
    requires
        only_time(a),
    ensures
        webvtt::find_arrow(arrowed(a, b), 0) == a.len() + 1,
{
    let line = arrowed(a, b);
    let n = a.len() as int;
    assert forall|j: int| 0 <= j < n + 1 implies #[trigger] line[j] != '-' by {
        if j < n {
            assert(line[j] == a[j]);
            assert(is_time_char(a[j]));
        }
    }
    arrow_at(line, 0, n + 1);
}

proof fn start_is_trimmed(a: Seq<char>, b: Seq<char>)
    requires
        only_time(a),
    ensures
        text::trim(arrowed(a, b).take(a.len() as int + 1)) == a,
{
    let n = a.len() as int;
    let before = arrowed(a, b).take(n + 1);
    assert(is_time_char(a[0]) && is_time_char(a.last()));
    assert(before[0] == a[0]);
    assert(text::trim_start(before) == before);
    assert(before.last() == ' ');
    assert(before.drop_last() =~= a);
    assert(text::trim_end(a) == a);
    assert(text::trim_end(before) == text::trim_end(before.drop_last()));
}

proof fn end_is_the_first_word(a: Seq<char>, b: Seq<char>)
    requires
        only_time(b),
    ensures
        webvtt::first_word(arrowed(a, b).skip(a.len() as int + 4)) == b,
        text::trim(b) == b,
{
    let after = arrowed(a, b).skip(a.len() as int + 4);
    assert(after =~= seq![' '] + b);
    assert(after.skip(1) =~= b);
    assert(is_time_char(b[0]) && is_time_char(b.last()));
    assert(text::trim_start(b) == b);
    assert(text::trim_start(after) == text::trim_start(after.skip(1)));
    assert forall|j: int| 0 <= j < b.len() implies !text::is_white(#[trigger] b[j]) by {
        assert(is_time_char(b[j]));
    }
    no_white(b, 0);
    assert(b.take(b.len() as int) =~= b);
}

proof fn arrowed_is_a_line(a: Seq<char>, b: Seq<char>)
    requires
        only_time(a),
        only_time(b),
    ensures
        can_be_line(arrowed(a, b)),
{
    let line = arrowed(a, b);
    let n = a.len() as int;
    assert(line.last() == b.last());
    assert(is_time_char(b.last()));
    assert forall|j: int| 0 <= j < line.len() implies #[trigger] line[j] != '\n' by {
        if j < n {
            assert(line[j] == a[j]);
            assert(is_time_char(a[j]));
        } else if j >= n + 5 {
            assert(line[j] == b[j - n - 5]);
            assert(is_time_char(b[j - n - 5]));
        }
    }
}

proof fn timings_are_read(start_ms: int, end_ms: int)
    requires
        0 <= start_ms <= u64::MAX,
        0 <= end_ms <= u64::MAX,
    ensures
        webvtt::timing_of(timing_line(start_ms, end_ms)) == Some((start_ms, end_ms)),
        webvtt::find_arrow(timing_line(start_ms, end_ms), 0) < timing_line(start_ms, end_ms).len(),
        can_be_line(timing_line(start_ms, end_ms)),
{
    let (a, b) = (written_time(start_ms), written_time(end_ms));
    times_are_read(start_ms);
    times_are_read(end_ms);
    assert(timing_line(start_ms, end_ms) == arrowed(a, b));
    arrow_is_found(a, b);
    start_is_trimmed(a, b);
    end_is_the_first_word(a, b);
    arrowed_is_a_line(a, b);
    assert(arrowed(a, b).len() == a.len() + 5 + b.len());
}

proof fn joined_behind(a: Seq<Seq<char>>, b: Seq<Seq<char>>, i: int)
    requires
        0 <= i <= b.len(),
    ensures
        webvtt::joined(a + b, a.len() + i) == webvtt::joined(b, i),
    decreases b.len() - i,
{
    if i < b.len() {
        assert((a + b)[a.len() + i] == b[i]);
        joined_behind(a, b, i + 1);
    }
}

/// The lines of a caption stand for it.
pub proof fn written_blocks_are_cues(c: Caption)
    requires
        can_be_caption(c),
    ensures
        webvtt::cue_of(block_of(c)) == Some(cue_for(c)),
        forall|k: int| 0 <= k < block_of(c).len() ==> can_be_line(#[trigger] block_of(c)[k]),
        block_of(c).len() > 0,
{
    let block = block_of(c);
    let timing = timing_line(c.start_ms, c.end_ms);
    let head = match c.id {
        Some(id) => seq![id, timing],
        None => seq![timing],
    };
    timings_are_read(c.start_ms, c.end_ms);
    assert(block =~= head + c.lines);
    joined_behind(head, c.lines, 0);
    assert forall|k: int| 0 <= k < block.len() implies can_be_line(#[trigger] block[k]) by {
        if k >= head.len() {
            assert(block[k] == c.lines[k - head.len()]);
        }
    }
}

/// The lines of a block are gathered.
proof fn block_is_gathered(
    lines: Seq<Seq<char>>,
    i: int,
    block: Seq<Seq<char>>,
    k: int,
)
    requires
        0 <= i,
        0 <= k <= block.len(),
        i + block.len() - k <= lines.len(),
        forall|j: int| k <= j < block.len() ==> #[trigger] block[j] == lines[i + j - k],
        forall|j: int| 0 <= j < block.len() ==> (#[trigger] block[j]).len() > 0,
    ensures
        webvtt::cues_from(lines, i, block.take(k)) == webvtt::cues_from(
            lines,
            i + block.len() - k,
            block,
        ),
    decreases block.len() - k,
{
    if k == block.len() {
        assert(block.take(k) =~= block);
    } else {
        assert(block[k] == lines[i]);
        assert(block.take(k).push(block[k]) =~= block.take(k + 1));
        block_is_gathered(lines, i + 1, block, k + 1);
    }
}

/// The cues of captions from the `k`-th on.
pub open spec fn cues_for(captions: Seq<Caption>, k: int) -> Seq<CueView>
    decreases captions.len() - k,
{
    if k >= captions.len() {
        Seq::empty()
    } else {
        seq![cue_for(captions[k])] + cues_for(captions, k + 1)
    }
}

/// The cues of the lines from `i` on, which are those of captions from the `k`-th
/// on and a blank one, behind a block that has begun.
proof fn blocks_are_read(
    lines: Seq<Seq<char>>,
    i: int,
    captions: Seq<Caption>,
    k: int,
    block: Seq<Seq<char>>,
)
    requires
        0 <= i <= lines.len(),
        0 <= k <= captions.len(),
        forall|j: int| 0 <= j < captions.len() ==> can_be_caption(#[trigger] captions[j]),
        lines.skip(i) == blocks_from(captions, k).push(Seq::empty()),
    ensures
        webvtt::cues_from(lines, i, block) == webvtt::finished(block) + cues_for(captions, k),
    decreases captions.len() - k,
{
    let here = lines.skip(i);
    let none = Seq::<Seq<char>>::empty();
    if k == captions.len() {
        assert(here =~= seq![Seq::<char>::empty()]);
        assert(here.len() == 1);
        assert(lines[i] == here[0]);
        assert(webvtt::cues_from(lines, i + 1, none) =~= Seq::<CueView>::empty());
        assert(webvtt::finished(block) + cues_for(captions, k) =~= webvtt::finished(block));
    } else {
        let c = captions[k];
        let own = block_of(c);
        let rest = blocks_from(captions, k + 1).push(Seq::empty());
        assert(can_be_caption(c));
        written_blocks_are_cues(c);
        assert(here =~= seq![Seq::<char>::empty()] + own + rest);
        assert(lines[i] == here[0]);
        assert forall|j: int| 0 <= j < own.len() implies #[trigger] own[j] == lines[i + 1 + j] by {
            assert(here[1 + j] == own[j]);
        }
        assert forall|j: int| 0 <= j < own.len() implies (#[trigger] own[j]).len() > 0 by {
            assert(can_be_line(own[j]));
        }
        block_is_gathered(lines, i + 1, own, 0);
        assert(own.take(0) =~= none);
        let next = i + 1 + own.len();
        assert(lines.skip(next) =~= here.skip(1 + own.len() as int));
        assert(here.skip(1 + own.len() as int) =~= rest);
        blocks_are_read(lines, next, captions, k + 1, own);
        assert(webvtt::finished(own) == seq![cue_for(c)]);
        assert(webvtt::cues_from(lines, i, block) == webvtt::finished(block) + webvtt::cues_from(
            lines,
            i + 1,
            none,
        ));
    }
}

proof fn lines_of_blocks(captions: Seq<Caption>, k: int)
    requires
        0 <= k <= captions.len(),
        forall|j: int| 0 <= j < captions.len() ==> can_be_caption(#[trigger] captions[j]),
    ensures
        forall|j: int|
            0 <= j < blocks_from(captions, k).len() ==> text::written::on_one_line(
                #[trigger] blocks_from(captions, k)[j],
            ) && text::trim_end_char(blocks_from(captions, k)[j], '\r') == blocks_from(
                captions,
                k,
            )[j],
    decreases captions.len() - k,
{
    if k < captions.len() {
        let own = block_of(captions[k]);
        let rest = blocks_from(captions, k + 1);
        let all = blocks_from(captions, k);
        assert(can_be_caption(captions[k]));
        written_blocks_are_cues(captions[k]);
        lines_of_blocks(captions, k + 1);
        assert forall|j: int| 0 <= j < all.len() implies text::written::on_one_line(
            #[trigger] all[j],
        ) && text::trim_end_char(all[j], '\r') == all[j] by {
            if j == 0 {
            } else if j < 1 + own.len() {
                assert(all[j] == own[j - 1]);
                assert(can_be_line(own[j - 1]));
            } else {
                assert(all[j] == rest[j - 1 - own.len()]);
            }
        }
    }
}

/// Captions that were written are read back.
pub proof fn written_captions_are_read(captions: Seq<Caption>)
    requires
        forall|j: int| 0 <= j < captions.len() ==> can_be_caption(#[trigger] captions[j]),
    ensures
        webvtt::cues_of(written_file(captions)) == cues_for(captions, 0),
{
    let header = "WEBVTT"@;
    let blocks = blocks_from(captions, 0);
    let raw = seq![header] + blocks;
    let s = written_file(captions);
    let lines = webvtt::lines_of(s);
    reveal_strlit("WEBVTT");
    lines_of_blocks(captions, 0);
    assert forall|k: int| 0 <= k < raw.len() implies text::written::on_one_line(
        #[trigger] raw[k],
    ) && text::trim_end_char(raw[k], '\r') == raw[k] by {
        if k > 0 {
            assert(raw[k] == blocks[k - 1]);
        }
    }
    text::written::lines_split_back(raw);
    let parts = raw.push(Seq::empty());
    assert(lines =~= parts) by {
        assert forall|k: int| 0 <= k < parts.len() implies #[trigger] text::trim_end_char(
            parts[k],
            '\r',
        ) == parts[k] by {
            if k < raw.len() {
                assert(parts[k] == raw[k]);
            }
        }
    }
    assert(lines[0] == header);
    assert(header.take(6) =~= header);
    assert(lines.skip(1) =~= blocks.push(Seq::empty()));
    blocks_are_read(lines, 1, captions, 0, Seq::empty());
    assert(webvtt::finished(Seq::empty()) =~= Seq::<CueView>::empty());
    assert(Seq::<CueView>::empty() + cues_for(captions, 0) =~= cues_for(captions, 0));
}

proof fn white_at(s: Seq<char>, i: int, k: int)
    requires
        0 <= i <= k < s.len(),
        text::is_white(s[k]),
        forall|j: int| i <= j < k ==> !text::is_white(#[trigger] s[j]),
    ensures
        webvtt::find_white(s, i) == k,
    decreases k - i,
{
    if i < k {
        white_at(s, i + 1, k);
    }
}

/// Settings behind the times of a cue do not matter.
pub proof fn settings_do_not_matter(start_ms: int, end_ms: int, settings: Seq<char>)
    requires
        0 <= start_ms <= u64::MAX,
        0 <= end_ms <= u64::MAX,
    ensures
        webvtt::timing_of(timing_line(start_ms, end_ms) + (seq![' '] + settings)) == Some(
            (start_ms, end_ms),
        ),
{
    let (a, b) = (written_time(start_ms), written_time(end_ms));
    let more = b + (seq![' '] + settings);
    let line = timing_line(start_ms, end_ms) + (seq![' '] + settings);
    times_are_read(start_ms);
    times_are_read(end_ms);
    assert(line =~= arrowed(a, more));
    arrow_is_found(a, more);
    start_is_trimmed(a, more);
    let after = line.skip(a.len() as int + 4);
    assert(after =~= seq![' '] + more);
    assert(after.skip(1) =~= more);
    assert(is_time_char(b[0]) && is_time_char(b.last()));
    assert(more[0] == b[0]);
    assert(text::trim_start(more) == more);
    assert(text::is_white(' '));
    assert(text::trim_start(after) == text::trim_start(after.skip(1)));
    assert forall|j: int| 0 <= j < b.len() implies !text::is_white(#[trigger] more[j]) by {
        assert(more[j] == b[j]);
        assert(is_time_char(b[j]));
    }
    assert(more[b.len() as int] == ' ');
    white_at(more, 0, b.len() as int);
    assert(more.take(b.len() as int) =~= b);
    end_is_the_first_word(a, b);
}

} // verus!
