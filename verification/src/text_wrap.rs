//! Fitting text into a pixel width: greedy word wrapping with forced breaks
//! inside over-long words, and truncation with an ellipsis.
//!
//! Text widths come from the caller's `measure` closure (the renderer
//! measures with the font at the wanted scale). The contracts state the
//! result for every width function that the closure computes.

use vstd::prelude::*;
use vstd::string::StrSliceExecFns;
use crate::strings::{push_all, string_push};

verus! {

/// `c` has Unicode's `White_Space` property (what `char::is_whitespace`
/// and `str::split_whitespace` test).
pub open spec fn is_white_space(c: char) -> bool {
    let u = c as u32;
    (0x9 <= u <= 0xd) || u == 0x20 || u == 0x85 || u == 0xa0 || u == 0x1680 || (0x2000 <= u
        <= 0x200a) || u == 0x2028 || u == 0x2029 || u == 0x202f || u == 0x205f || u == 0x3000
}

/// The whitespace-separated words of `s`, in order (maximal runs of
/// non-whitespace characters).
pub open spec fn words_of(s: Seq<char>) -> Seq<Seq<char>>
    decreases s.len(),
{
    if s.len() == 0 {
        seq![]
    } else {
        let prev = words_of(s.drop_last());
        let c = s.last();
        if is_white_space(c) {
            prev
        } else if s.len() >= 2 && !is_white_space(s[s.len() - 2]) {
            prev.update(prev.len() - 1, prev.last().push(c))
        } else {
            prev.push(seq![c])
        }
    }
}

/// The closure `measure` computes the width function `wf`.
pub open spec fn measures_by<F: Fn(&str) -> u32>(measure: F, wf: spec_fn(Seq<char>) -> int) -> bool {
    forall|s: &str, w: u32| #[trigger] call_ensures(measure, (s,), w) ==> w as int == wf(s@)
}

/// The state of breaking `word` after its first `i` characters: the
/// finished segments and the segment being grown.
pub open spec fn segment_state(word: Seq<char>, wf: spec_fn(Seq<char>) -> int, max: int, i: nat) -> (
    Seq<Seq<char>>,
    Seq<char>,
)
    decreases i,
{
    if i == 0 || i > word.len() {
        (seq![], seq![])
    } else {
        let (done, seg) = segment_state(word, wf, max, (i - 1) as nat);
        let c = word[i - 1];
        let candidate = seg.push(c);
        if wf(candidate) > max && seg.len() > 0 {
            (done.push(seg), seq![c])
        } else {
            (done, candidate)
        }
    }
}

/// A word broken into segments: each segment grows one character at a time
/// until the next character would make it wider than `max`.
pub open spec fn break_segments(word: Seq<char>, wf: spec_fn(Seq<char>) -> int, max: int) -> Seq<Seq<char>> {
    let (done, seg) = segment_state(word, wf, max, word.len());
    if seg.len() > 0 {
        done.push(seg)
    } else {
        done
    }
}

/// `lines` with its last element taken off as the line being grown.
pub open spec fn pop_last(lines: Seq<Seq<char>>) -> (Seq<Seq<char>>, Seq<char>) {
    if lines.len() > 0 {
        (lines.drop_last(), lines.last())
    } else {
        (lines, seq![])
    }
}

/// Greedy wrapping of the first `k` words: the finished lines and the line
/// being grown. A word joins the current line (after a space) while the
/// joined line stays within `max`; a word wider than `max` on its own is
/// broken into segments, the last of which becomes the current line.
pub open spec fn wrap_state(
    words: Seq<Seq<char>>,
    wf: spec_fn(Seq<char>) -> int,
    max: int,
    k: nat,
) -> (Seq<Seq<char>>, Seq<char>)
    decreases k,
{
    if k == 0 || k > words.len() {
        (seq![], seq![])
    } else {
        let (lines, cur) = wrap_state(words, wf, max, (k - 1) as nat);
        let word = words[k - 1];
        if cur.len() == 0 {
            if wf(word) > max {
                pop_last(lines + break_segments(word, wf, max))
            } else {
                (lines, word)
            }
        } else {
            let candidate = cur + seq![' '] + word;
            if wf(candidate) > max {
                let finished = lines.push(cur);
                if wf(word) > max {
                    pop_last(finished + break_segments(word, wf, max))
                } else {
                    (finished, word)
                }
            } else {
                (lines, candidate)
            }
        }
    }
}

/// The wrapped lines of `text`; at least one (empty) line for text without
/// words.
pub open spec fn spec_word_wrap(text: Seq<char>, wf: spec_fn(Seq<char>) -> int, max: int) -> Seq<Seq<char>> {
    let words = words_of(text);
    let (lines, cur) = wrap_state(words, wf, max, words.len());
    let all = if cur.len() > 0 {
        lines.push(cur)
    } else {
        lines
    };
    if all.len() == 0 {
        seq![seq![]]
    } else {
        all
    }
}

/// The characters of a vector of strings.
pub open spec fn views(v: Seq<String>) -> Seq<Seq<char>> {
    v.map_values(|s: String| s@)
}

/// Whether `c` is whitespace in the sense of `char::is_whitespace`.
pub fn is_whitespace_char(c: char) -> (b: bool)
    ensures
        b == is_white_space(c),
{
    let u = c as u32;
    (0x9 <= u && u <= 0xd) || u == 0x20 || u == 0x85 || u == 0xa0 || u == 0x1680 || (0x2000 <= u
        && u <= 0x200a) || u == 0x2028 || u == 0x2029 || u == 0x202f || u == 0x205f || u == 0x3000
}

/// The whitespace-separated words of `text`.
pub fn split_words(text: &str) -> (words: Vec<String>)
    ensures
        views(words@) == words_of(text@),
        forall|k: int| 0 <= k < words@.len() ==> (#[trigger] words@[k])@.len() > 0,
{
    let n = text.unicode_len();
    let mut words: Vec<String> = Vec::new();
    let mut cur = String::new();
    let mut i: usize = 0;
    while i < n
        invariant
            n == text@.len(),
            i <= n,
            (if cur@.len() > 0 {
                views(words@).push(cur@)
            } else {
                views(words@)
            }) == words_of(text@.take(i as int)),
            cur@.len() > 0 ==> i > 0 && !is_white_space(text@[i - 1]),
            cur@.len() == 0 ==> (i > 0 ==> is_white_space(text@[i - 1])),
            forall|k: int| 0 <= k < words@.len() ==> (#[trigger] words@[k])@.len() > 0,
        decreases n - i,
    {
        let c = text.get_char(i);
        let ghost before = text@.take(i as int);
        let ghost prev_words = words@;
        let ghost prev_cur = cur@;
        assert(text@.take(i + 1).drop_last() =~= before);
        assert(text@.take(i + 1).last() == c);
        if is_whitespace_char(c) {
            if cur.as_str().unicode_len() > 0 {
                let done = cur;
                words.push(done);
                cur = String::new();
                assert(views(words@) =~= views(prev_words).push(prev_cur));
            }
        } else {
            let had_word = cur.as_str().unicode_len() > 0;
            string_push(&mut cur, c);
            if had_word {
                assert(before.len() >= 1 && before[before.len() - 1] == text@[i - 1]);
                assert(views(words@).push(cur@) =~= views(prev_words).push(prev_cur).update(
                    views(prev_words).push(prev_cur).len() - 1,
                    prev_cur.push(c),
                ));
            } else {
                assert(cur@ =~= seq![c]);
                assert(views(words@).push(cur@) =~= views(prev_words).push(seq![c]));
            }
        }
        i = i + 1;
    }
    if cur.as_str().unicode_len() > 0 {
        let ghost prev_words = words@;
        let last = cur;
        words.push(last);
        assert(views(words@) =~= views(prev_words).push(last@));
    }
    assert(text@.take(n as int) =~= text@);
    words
}

/// Break a single word into lines that each fit within `max_width`.
/// Completed lines are pushed to `lines`; the last (possibly partial) segment
/// is also pushed so the caller can pop it to continue accumulating.
pub fn force_break_word<F: Fn(&str) -> u32>(word: &str, max_width: u32, measure: &F, lines: &mut Vec<String>)
    requires
        forall|s: &str| call_requires(*measure, (s,)),
    ensures
        forall|wf: spec_fn(Seq<char>) -> int|
            #[trigger] measures_by(*measure, wf) ==> views(final(lines)@) == views(old(lines)@)
                + break_segments(word@, wf, max_width as int),
{
    let ghost start = lines@;
    let n = word.unicode_len();
    let mut segment = String::new();
    let mut i: usize = 0;
    while i < n
        invariant
            forall|s: &str| call_requires(*measure, (s,)),
            n == word@.len(),
            i <= n,
            start == old(lines)@,
            forall|wf: spec_fn(Seq<char>) -> int|
                #[trigger] measures_by(*measure, wf) ==> views(lines@) == views(start) + segment_state(
                    word@,
                    wf,
                    max_width as int,
                    i as nat,
                ).0 && segment@ == segment_state(word@, wf, max_width as int, i as nat).1,
        decreases n - i,
    {
        let ch = word.get_char(i);
        let mut candidate = segment.clone();
        string_push(&mut candidate, ch);
        let w = measure(candidate.as_str());
        let ghost prev_lines = lines@;
        let ghost prev_seg = segment@;
        if w > max_width && segment.as_str().unicode_len() > 0 {
            let done = segment;
            lines.push(done);
            segment = String::new();
            string_push(&mut segment, ch);
        } else {
            segment = candidate;
        }
        proof {
            assert forall|wf: spec_fn(Seq<char>) -> int| #[trigger] measures_by(*measure, wf) implies views(
                lines@,
            ) == views(start) + segment_state(word@, wf, max_width as int, (i + 1) as nat).0
                && segment@ == segment_state(word@, wf, max_width as int, (i + 1) as nat).1 by {
                assert(w as int == wf(candidate@));
                if w > max_width && prev_seg.len() > 0 {
                    assert(views(lines@) =~= views(prev_lines).push(prev_seg));
                    assert(segment@ =~= seq![ch]);
                }
            }
        }
        i = i + 1;
    }
    if segment.as_str().unicode_len() > 0 {
        let ghost prev_lines = lines@;
        let last = segment;
        lines.push(last);
        assert(views(lines@) =~= views(prev_lines).push(last@));
    }
    proof {
        assert forall|wf: spec_fn(Seq<char>) -> int| #[trigger] measures_by(*measure, wf) implies views(
            lines@,
        ) == views(start) + break_segments(word@, wf, max_width as int) by {
            let (done, seg) = segment_state(word@, wf, max_width as int, n as nat);
            if seg.len() > 0 {
                assert(views(start) + done.push(seg) =~= (views(start) + done).push(seg));
            }
        }
    }
}

/// Takes the last line back off `lines` (an empty line when there is none).
fn pop_or_empty(lines: &mut Vec<String>) -> (last: String)
    ensures
        (views(final(lines)@), last@) == pop_last(views(old(lines)@)),
{
    let ghost before = lines@;
    match lines.pop() {
        Some(l) => {
            assert(views(lines@) =~= views(before).drop_last());
            l
        },
        None => {
            assert(views(lines@) =~= views(before));
            String::new()
        },
    }
}

/// Word-wrap text to fit within `max_width` pixels, breaking on word boundaries.
///
/// Returns a vector of lines. Each line fits within `max_width` as measured,
/// except a single character that is wider on its own.
pub fn word_wrap<F: Fn(&str) -> u32>(text: &str, max_width: u32, measure: &F) -> (lines: Vec<String>)
    requires
        forall|s: &str| call_requires(*measure, (s,)),
    ensures
        forall|wf: spec_fn(Seq<char>) -> int|
            #[trigger] measures_by(*measure, wf) ==> views(lines@) == spec_word_wrap(
                text@,
                wf,
                max_width as int,
            ),
{
    let words = split_words(text);
    let ghost ws = words_of(text@);
    let mut lines: Vec<String> = Vec::new();
    let mut current_line = String::new();
    let mut k: usize = 0;
    while k < words.len()
        invariant
            forall|s: &str| call_requires(*measure, (s,)),
            views(words@) == ws,
            ws == words_of(text@),
            k <= words@.len(),
            forall|wf: spec_fn(Seq<char>) -> int|
                #[trigger] measures_by(*measure, wf) ==> (views(lines@), current_line@) == wrap_state(
                    ws,
                    wf,
                    max_width as int,
                    k as nat,
                ),
        decreases words@.len() - k,
    {
        let word: &str = words[k].as_str();
        assert(word@ == ws[k as int]);
        let ghost prev_lines = lines@;
        let ghost prev_cur = current_line@;
        if current_line.as_str().unicode_len() == 0 {
            let w = measure(word);
            if w > max_width {
                force_break_word(word, max_width, measure, &mut lines);
                current_line = pop_or_empty(&mut lines);
            } else {
                current_line = words[k].clone();
            }
            proof {
                assert forall|wf: spec_fn(Seq<char>) -> int| #[trigger] measures_by(*measure, wf) implies (
                views(lines@), current_line@) == wrap_state(ws, wf, max_width as int, (k + 1) as nat) by {
                    assert(w as int == wf(word@));
                }
            }
        } else {
            let mut candidate = current_line.clone();
            string_push(&mut candidate, ' ');
            push_all(&mut candidate, word);
            let w = measure(candidate.as_str());
            if w > max_width {
                let finished = current_line;
                lines.push(finished);
                let ghost mid_lines = lines@;
                assert(views(mid_lines) =~= views(prev_lines).push(prev_cur));
                let ww = measure(word);
                if ww > max_width {
                    force_break_word(word, max_width, measure, &mut lines);
                    current_line = pop_or_empty(&mut lines);
                } else {
                    current_line = words[k].clone();
                }
                proof {
                    assert forall|wf: spec_fn(Seq<char>) -> int| #[trigger] measures_by(*measure, wf) implies (
                    views(lines@), current_line@) == wrap_state(ws, wf, max_width as int, (k + 1) as nat) by {
                        assert(w as int == wf(candidate@));
                        assert(ww as int == wf(word@));
                        assert(candidate@ =~= prev_cur + seq![' '] + ws[k as int]);
                    }
                }
            } else {
                current_line = candidate;
                proof {
                    assert forall|wf: spec_fn(Seq<char>) -> int| #[trigger] measures_by(*measure, wf) implies (
                    views(lines@), current_line@) == wrap_state(ws, wf, max_width as int, (k + 1) as nat) by {
                        assert(w as int == wf(candidate@));
                        assert(candidate@ =~= prev_cur + seq![' '] + ws[k as int]);
                    }
                }
            }
        }
        k = k + 1;
    }
    let ghost before_flush = lines@;
    if current_line.as_str().unicode_len() > 0 {
        let last = current_line;
        lines.push(last);
        assert(views(lines@) =~= views(before_flush).push(last@));
    }
    let ghost after_flush = lines@;
    if lines.len() == 0 {
        lines.push(String::new());
        assert(views(lines@) =~= seq![seq![]]);
    }
    lines
}

/// The number of leading characters of `text`, from position `k` on, that
/// are taken before the first prefix wider than `target`.
pub open spec fn fitting_prefix_from(text: Seq<char>, wf: spec_fn(Seq<char>) -> int, target: int, k: nat) -> nat
    decreases text.len() - k,
{
    if k >= text.len() {
        text.len()
    } else if wf(text.take(k + 1 as int)) > target {
        k
    } else {
        fitting_prefix_from(text, wf, target, k + 1)
    }
}

/// The ellipsis appended to truncated text.
pub open spec fn ellipsis() -> Seq<char> {
    seq!['.', '.']
}

/// A single dot, the fallback when even the ellipsis is too wide.
pub open spec fn single_dot() -> Seq<char> {
    seq!['.']
}

/// `text` when it fits in `max`; otherwise its longest prefix (grown one
/// character at a time, stopping at the first that is too wide) that fits
/// with the ellipsis after it, or the ellipsis alone when it fills the width
/// exactly. When even the ellipsis is too wide, a single dot if that fits,
/// else nothing.
pub open spec fn spec_truncate(text: Seq<char>, wf: spec_fn(Seq<char>) -> int, max: int) -> Seq<char> {
    if wf(text) <= max {
        text
    } else if wf(ellipsis()) > max {
        if wf(single_dot()) <= max {
            single_dot()
        } else {
            Seq::empty()
        }
    } else if wf(ellipsis()) == max {
        ellipsis()
    } else {
        text.take(fitting_prefix_from(text, wf, max - wf(ellipsis()), 0) as int) + ellipsis()
    }
}

/// Truncate `text` with ellipsis so it fits within `max_width` pixels.
/// Returns the text itself if it already fits; when even the ellipsis is
/// too wide, a single dot or nothing.
pub fn truncate_to_fit<F: Fn(&str) -> u32>(text: &str, max_width: u32, measure: &F) -> (s: String)
    requires
        forall|s: &str| call_requires(*measure, (s,)),
    ensures
        forall|wf: spec_fn(Seq<char>) -> int|
            #[trigger] measures_by(*measure, wf) ==> s@ == spec_truncate(text@, wf, max_width as int),
{
    proof {
        reveal_strlit("..");
    }
    let w = measure(text);
    if w <= max_width {
        let mut out = String::new();
        push_all(&mut out, text);
        assert(out@ =~= text@);
        return out;
    }
    let ellipsis_text = "..";
    assert(ellipsis_text@ =~= ellipsis());
    let ew = measure(ellipsis_text);
    if ew > max_width {
        let dot = ".";
        proof {
            reveal_strlit(".");
        }
        assert(dot@ =~= single_dot());
        let dw = measure(dot);
        let mut out = String::new();
        if dw <= max_width {
            push_all(&mut out, dot);
            assert(out@ =~= single_dot());
        } else {
            assert(out@ =~= Seq::<char>::empty());
        }
        return out;
    }
    if ew == max_width {
        let mut out = String::new();
        push_all(&mut out, ellipsis_text);
        assert(out@ =~= ellipsis());
        return out;
    }
    let target: u32 = max_width - ew;
    let n = text.unicode_len();
    let mut truncated = String::new();
    let mut i: usize = 0;
    let mut stopped = false;
    while i < n && !stopped
        invariant
            forall|s: &str| call_requires(*measure, (s,)),
            n == text@.len(),
            i <= n,
            truncated@ == text@.take(i as int),
            forall|wf: spec_fn(Seq<char>) -> int|
                #[trigger] measures_by(*measure, wf) ==> target as int == max_width - wf(ellipsis())
                    && fitting_prefix_from(text@, wf, target as int, 0) == (if stopped {
                    i as nat
                } else {
                    fitting_prefix_from(text@, wf, target as int, i as nat)
                }),
        decreases n - i + (if stopped {
            0int
        } else {
            1int
        }),
    {
        let ch = text.get_char(i);
        let mut candidate = truncated.clone();
        string_push(&mut candidate, ch);
        assert(candidate@ =~= text@.take(i + 1));
        let cw = measure(candidate.as_str());
        if cw > target {
            stopped = true;
        } else {
            truncated = candidate;
            i = i + 1;
        }
        proof {
            assert forall|wf: spec_fn(Seq<char>) -> int| #[trigger] measures_by(*measure, wf) implies target
                as int == max_width - wf(ellipsis()) && fitting_prefix_from(text@, wf, target as int, 0) == (
            if stopped {
                i as nat
            } else {
                fitting_prefix_from(text@, wf, target as int, i as nat)
            }) by {
                assert(cw as int == wf(candidate@));
            }
        }
    }
    push_all(&mut truncated, ellipsis_text);
    proof {
        assert forall|wf: spec_fn(Seq<char>) -> int| #[trigger] measures_by(*measure, wf) implies truncated@
            == spec_truncate(text@, wf, max_width as int) by {
            assert(w as int == wf(text@));
            assert(ew as int == wf(ellipsis()));
        }
    }
    truncated
}

/// A line fits within `max` as measured, or is a single character (which
/// cannot be broken further); the empty line counts as fitting.
pub open spec fn line_fits(line: Seq<char>, wf: spec_fn(Seq<char>) -> int, max: int) -> bool {
    line.len() <= 1 || wf(line) <= max
}

/// All lines fit.
pub open spec fn all_fit(lines: Seq<Seq<char>>, wf: spec_fn(Seq<char>) -> int, max: int) -> bool {
    forall|i: int| 0 <= i < lines.len() ==> #[trigger] line_fits(lines[i], wf, max)
}

proof fn lemma_segments_fit(word: Seq<char>, wf: spec_fn(Seq<char>) -> int, max: int, i: nat)
    ensures
        all_fit(segment_state(word, wf, max, i).0, wf, max),
        line_fits(segment_state(word, wf, max, i).1, wf, max),
    decreases i,
{
    if i > 0 && i <= word.len() {
        lemma_segments_fit(word, wf, max, (i - 1) as nat);
        let (done, seg) = segment_state(word, wf, max, (i - 1) as nat);
        let c = word[i - 1];
        let candidate = seg.push(c);
        if wf(candidate) > max && seg.len() > 0 {
            assert forall|k: int| 0 <= k < done.push(seg).len() implies #[trigger] line_fits(
                done.push(seg)[k],
                wf,
                max,
            ) by {
                if k < done.len() {
                    assert(done.push(seg)[k] == done[k]);
                }
            }
        }
    }
}

proof fn lemma_break_segments_fit(word: Seq<char>, wf: spec_fn(Seq<char>) -> int, max: int)
    ensures
        all_fit(break_segments(word, wf, max), wf, max),
{
    lemma_segments_fit(word, wf, max, word.len());
    let (done, seg) = segment_state(word, wf, max, word.len());
    if seg.len() > 0 {
        assert forall|k: int| 0 <= k < done.push(seg).len() implies #[trigger] line_fits(
            done.push(seg)[k],
            wf,
            max,
        ) by {
            if k < done.len() {
                assert(done.push(seg)[k] == done[k]);
            }
        }
    }
}

proof fn lemma_pop_last_fits(lines: Seq<Seq<char>>, wf: spec_fn(Seq<char>) -> int, max: int)
    requires
        all_fit(lines, wf, max),
    ensures
        all_fit(pop_last(lines).0, wf, max),
        line_fits(pop_last(lines).1, wf, max),
{
    if lines.len() > 0 {
        assert(line_fits(lines[lines.len() - 1], wf, max));
        assert forall|k: int| 0 <= k < lines.drop_last().len() implies #[trigger] line_fits(
            lines.drop_last()[k],
            wf,
            max,
        ) by {
            assert(lines.drop_last()[k] == lines[k]);
        }
    }
}

proof fn lemma_append_fits(a: Seq<Seq<char>>, b: Seq<Seq<char>>, wf: spec_fn(Seq<char>) -> int, max: int)
    requires
        all_fit(a, wf, max),
        all_fit(b, wf, max),
    ensures
        all_fit(a + b, wf, max),
{
    assert forall|k: int| 0 <= k < (a + b).len() implies #[trigger] line_fits((a + b)[k], wf, max) by {
        if k < a.len() {
            assert((a + b)[k] == a[k]);
        } else {
            assert((a + b)[k] == b[k - a.len()]);
        }
    }
}

proof fn lemma_push_fits(a: Seq<Seq<char>>, x: Seq<char>, wf: spec_fn(Seq<char>) -> int, max: int)
    requires
        all_fit(a, wf, max),
        line_fits(x, wf, max),
    ensures
        all_fit(a.push(x), wf, max),
{
    assert forall|k: int| 0 <= k < a.push(x).len() implies #[trigger] line_fits(a.push(x)[k], wf, max) by {
        if k < a.len() {
            assert(a.push(x)[k] == a[k]);
        }
    }
}

proof fn lemma_wrap_state_fits(words: Seq<Seq<char>>, wf: spec_fn(Seq<char>) -> int, max: int, k: nat)
    ensures
        all_fit(wrap_state(words, wf, max, k).0, wf, max),
        line_fits(wrap_state(words, wf, max, k).1, wf, max),
    decreases k,
{
    if k > 0 && k <= words.len() {
        lemma_wrap_state_fits(words, wf, max, (k - 1) as nat);
        let (lines, cur) = wrap_state(words, wf, max, (k - 1) as nat);
        let word = words[k - 1];
        lemma_break_segments_fit(word, wf, max);
        if cur.len() == 0 {
            if wf(word) > max {
                lemma_append_fits(lines, break_segments(word, wf, max), wf, max);
                lemma_pop_last_fits(lines + break_segments(word, wf, max), wf, max);
            }
        } else {
            let candidate = cur + seq![' '] + word;
            if wf(candidate) > max {
                lemma_push_fits(lines, cur, wf, max);
                if wf(word) > max {
                    lemma_append_fits(lines.push(cur), break_segments(word, wf, max), wf, max);
                    lemma_pop_last_fits(lines.push(cur) + break_segments(word, wf, max), wf, max);
                }
            }
        }
    }
}

/// Every wrapped line fits within the width, except a line of one character
/// that is wider on its own.
pub proof fn law_wrapped_lines_fit(text: Seq<char>, wf: spec_fn(Seq<char>) -> int, max: int)
    ensures
        all_fit(spec_word_wrap(text, wf, max), wf, max),
        spec_word_wrap(text, wf, max).len() >= 1,
{
    let words = words_of(text);
    lemma_wrap_state_fits(words, wf, max, words.len());
    let (lines, cur) = wrap_state(words, wf, max, words.len());
    if cur.len() > 0 {
        lemma_push_fits(lines, cur, wf, max);
    }
}

/// The lines written one after another.
pub open spec fn concat_all(lines: Seq<Seq<char>>) -> Seq<char>
    decreases lines.len(),
{
    if lines.len() == 0 {
        seq![]
    } else {
        concat_all(lines.drop_last()) + lines.last()
    }
}

/// `s` without its whitespace characters.
pub open spec fn strip_ws(s: Seq<char>) -> Seq<char>
    decreases s.len(),
{
    if s.len() == 0 {
        s
    } else if is_white_space(s.last()) {
        strip_ws(s.drop_last())
    } else {
        strip_ws(s.drop_last()).push(s.last())
    }
}

proof fn lemma_concat_all_add(a: Seq<Seq<char>>, b: Seq<Seq<char>>)
    ensures
        concat_all(a + b) == concat_all(a) + concat_all(b),
    decreases b.len(),
{
    if b.len() == 0 {
        assert(a + b =~= a);
        assert(concat_all(a) + concat_all(b) =~= concat_all(a));
    } else {
        lemma_concat_all_add(a, b.drop_last());
        assert((a + b).drop_last() =~= a + b.drop_last());
        assert(concat_all(a) + (concat_all(b.drop_last()) + b.last()) =~= (concat_all(a) + concat_all(
            b.drop_last(),
        )) + b.last());
    }
}

proof fn lemma_strip_ws_add(a: Seq<char>, b: Seq<char>)
    ensures
        strip_ws(a + b) == strip_ws(a) + strip_ws(b),
    decreases b.len(),
{
    if b.len() == 0 {
        assert(a + b =~= a);
        assert(strip_ws(a) + strip_ws(b) =~= strip_ws(a));
    } else {
        lemma_strip_ws_add(a, b.drop_last());
        assert((a + b).drop_last() =~= a + b.drop_last());
        assert((a + b).last() == b.last());
        if !is_white_space(b.last()) {
            assert(strip_ws(a) + strip_ws(b.drop_last()).push(b.last()) =~= (strip_ws(a) + strip_ws(
                b.drop_last(),
            )).push(b.last()));
        }
    }
}

/// A sequence without whitespace is its own stripped form.
pub open spec fn no_ws(s: Seq<char>) -> bool {
    forall|i: int| 0 <= i < s.len() ==> !is_white_space(#[trigger] s[i])
}

proof fn lemma_strip_ws_noop(s: Seq<char>)
    requires
        no_ws(s),
    ensures
        strip_ws(s) == s,
    decreases s.len(),
{
    if s.len() > 0 {
        lemma_strip_ws_noop(s.drop_last());
        assert(strip_ws(s.drop_last()).push(s.last()) =~= s);
    }
}

proof fn lemma_words_of(s: Seq<char>)
    ensures
        concat_all(words_of(s)) == strip_ws(s),
        forall|i: int| 0 <= i < words_of(s).len() ==> no_ws(#[trigger] words_of(s)[i]),
        s.len() > 0 && !is_white_space(s.last()) ==> words_of(s).len() > 0,
    decreases s.len(),
{
    if s.len() > 0 {
        let p = s.drop_last();
        lemma_words_of(p);
        let prev = words_of(p);
        let c = s.last();
        if is_white_space(c) {
        } else if s.len() >= 2 && !is_white_space(s[s.len() - 2]) {
            assert(p.last() == s[s.len() - 2]);
            let n = prev.len();
            let w = prev.update(n - 1, prev.last().push(c));
            assert(w.drop_last() =~= prev.drop_last());
            assert(concat_all(prev) == concat_all(prev.drop_last()) + prev.last());
            assert(concat_all(w) =~= concat_all(prev) + seq![c]);
            assert(strip_ws(s) == strip_ws(p).push(c));
            assert(concat_all(prev) + seq![c] =~= strip_ws(p).push(c));
            assert forall|i: int| 0 <= i < w.len() implies no_ws(#[trigger] w[i]) by {
                if i < n - 1 {
                    assert(w[i] == prev[i]);
                } else {
                    assert(no_ws(prev[n - 1]));
                    assert(w[i] == prev[n - 1].push(c));
                    assert forall|j: int| 0 <= j < w[i].len() implies !is_white_space(#[trigger] w[i][j]) by {
                        if j < prev[n - 1].len() {
                            assert(w[i][j] == prev[n - 1][j]);
                        }
                    }
                }
            }
        } else {
            let w = prev.push(seq![c]);
            assert(w.drop_last() =~= prev);
            assert(concat_all(w) =~= concat_all(prev) + seq![c]);
            assert(concat_all(prev) + seq![c] =~= strip_ws(p).push(c));
            assert forall|i: int| 0 <= i < w.len() implies no_ws(#[trigger] w[i]) by {
                if i < prev.len() {
                    assert(w[i] == prev[i]);
                }
            }
        }
    }
}

proof fn lemma_segments_concat(word: Seq<char>, wf: spec_fn(Seq<char>) -> int, max: int, i: nat)
    requires
        i <= word.len(),
    ensures
        concat_all(segment_state(word, wf, max, i).0) + segment_state(word, wf, max, i).1 == word.take(
            i as int,
        ),
    decreases i,
{
    if i == 0 {
        assert(concat_all(seq![]) + seq![] =~= word.take(0));
    } else {
        lemma_segments_concat(word, wf, max, (i - 1) as nat);
        let (done, seg) = segment_state(word, wf, max, (i - 1) as nat);
        let c = word[i - 1];
        assert(word.take(i as int) =~= word.take(i - 1).push(c));
        if wf(seg.push(c)) > max && seg.len() > 0 {
            assert(done.push(seg).drop_last() =~= done);
            assert(concat_all(done.push(seg)) + seq![c] =~= (concat_all(done) + seg).push(c));
        } else {
            assert(concat_all(done) + seg.push(c) =~= (concat_all(done) + seg).push(c));
        }
    }
}

proof fn lemma_break_segments_concat(word: Seq<char>, wf: spec_fn(Seq<char>) -> int, max: int)
    ensures
        concat_all(break_segments(word, wf, max)) == word,
{
    lemma_segments_concat(word, wf, max, word.len());
    let (done, seg) = segment_state(word, wf, max, word.len());
    assert(word.take(word.len() as int) =~= word);
    if seg.len() > 0 {
        assert(done.push(seg).drop_last() =~= done);
    } else {
        assert(concat_all(done) + seg =~= concat_all(done));
    }
}

proof fn lemma_pop_last_concat(lines: Seq<Seq<char>>)
    ensures
        concat_all(pop_last(lines).0) + pop_last(lines).1 == concat_all(lines),
{
    if lines.len() == 0 {
        assert(concat_all(lines) + seq![] =~= concat_all(lines));
    }
}

proof fn lemma_wrap_state_keeps_text(words: Seq<Seq<char>>, wf: spec_fn(Seq<char>) -> int, max: int, k: nat)
    requires
        k <= words.len(),
        forall|i: int| 0 <= i < words.len() ==> no_ws(#[trigger] words[i]),
    ensures
        strip_ws(concat_all(wrap_state(words, wf, max, k).0) + wrap_state(words, wf, max, k).1)
            == concat_all(words.take(k as int)),
    decreases k,
{
    if k == 0 {
        assert(concat_all(seq![]) + seq![] =~= Seq::<char>::empty());
        assert(words.take(0) =~= Seq::<Seq<char>>::empty());
    } else {
        lemma_wrap_state_keeps_text(words, wf, max, (k - 1) as nat);
        let (lines, cur) = wrap_state(words, wf, max, (k - 1) as nat);
        let word = words[k - 1];
        assert(no_ws(word));
        lemma_strip_ws_noop(word);
        assert(words.take(k as int).drop_last() =~= words.take(k - 1));
        assert(concat_all(words.take(k as int)) == concat_all(words.take(k - 1)) + word);
        let before = strip_ws(concat_all(lines) + cur);
        lemma_break_segments_concat(word, wf, max);
        let segs = break_segments(word, wf, max);
        if cur.len() == 0 {
            assert(concat_all(lines) + cur =~= concat_all(lines));
            if wf(word) > max {
                lemma_pop_last_concat(lines + segs);
                lemma_concat_all_add(lines, segs);
                lemma_strip_ws_add(concat_all(lines), word);
            } else {
                lemma_strip_ws_add(concat_all(lines), word);
            }
        } else {
            let candidate = cur + seq![' '] + word;
            let space = seq![' '];
            assert(strip_ws(space) =~= Seq::<char>::empty()) by {
                assert(space.drop_last() =~= Seq::<char>::empty());
                assert(space.last() == ' ');
                assert((' ' as u32) == 0x20);
                assert(is_white_space(space.last()));
                assert(strip_ws(space) == strip_ws(space.drop_last()));
            }
            if wf(candidate) > max {
                let finished = lines.push(cur);
                assert(finished.drop_last() =~= lines);
                assert(concat_all(finished) == concat_all(lines) + cur);
                if wf(word) > max {
                    lemma_pop_last_concat(finished + segs);
                    lemma_concat_all_add(finished, segs);
                    lemma_strip_ws_add(concat_all(finished), word);
                } else {
                    lemma_strip_ws_add(concat_all(finished), word);
                }
            } else {
                assert(concat_all(lines) + candidate =~= ((concat_all(lines) + cur) + space) + word);
                lemma_strip_ws_add((concat_all(lines) + cur) + space, word);
                lemma_strip_ws_add(concat_all(lines) + cur, space);
                assert(before + Seq::<char>::empty() =~= before);
            }
        }
    }
}

/// Wrapping loses, adds and reorders no visible character: the lines, read
/// one after another with whitespace ignored, are the text with whitespace
/// ignored.
pub proof fn law_wrap_keeps_text(text: Seq<char>, wf: spec_fn(Seq<char>) -> int, max: int)
    ensures
        strip_ws(concat_all(spec_word_wrap(text, wf, max))) == strip_ws(text),
{
    let words = words_of(text);
    lemma_words_of(text);
    lemma_wrap_state_keeps_text(words, wf, max, words.len());
    assert(words.take(words.len() as int) =~= words);
    let (lines, cur) = wrap_state(words, wf, max, words.len());
    if cur.len() > 0 {
        assert(lines.push(cur).drop_last() =~= lines);
    } else {
        assert(concat_all(lines) + cur =~= concat_all(lines));
        if lines.len() == 0 {
            let one: Seq<Seq<char>> = seq![seq![]];
            assert(one.drop_last() =~= Seq::<Seq<char>>::empty());
            assert(one.last() =~= Seq::<char>::empty());
            assert(concat_all(one) == concat_all(one.drop_last()) + one.last());
            assert(concat_all(one) =~= Seq::<char>::empty());
        }
    }
}

proof fn lemma_fitting_prefix(text: Seq<char>, wf: spec_fn(Seq<char>) -> int, target: int, k: nat)
    requires
        k <= text.len(),
    ensures
        k <= fitting_prefix_from(text, wf, target, k) <= text.len(),
        fitting_prefix_from(text, wf, target, k) == k || wf(
            text.take(fitting_prefix_from(text, wf, target, k) as int),
        ) <= target,
    decreases text.len() - k,
{
    if k < text.len() && wf(text.take(k + 1 as int)) <= target {
        lemma_fitting_prefix(text, wf, target, k + 1);
    }
}

/// Truncation returns the text itself exactly when it fits; otherwise,
/// when the ellipsis fits, a prefix of the text (measured to fit with room
/// for the ellipsis, unless empty) followed by the ellipsis, and when it does
/// not, a single dot or nothing.
pub proof fn law_truncate_shape(text: Seq<char>, wf: spec_fn(Seq<char>) -> int, max: int)
    ensures
        wf(text) <= max ==> spec_truncate(text, wf, max) == text,
        wf(text) > max && wf(ellipsis()) <= max ==> exists|k: int|
            0 <= k <= text.len() && spec_truncate(text, wf, max) == #[trigger] text.take(k) + ellipsis()
                && (k == 0 || wf(text.take(k)) + wf(ellipsis()) <= max),
        wf(text) > max && wf(ellipsis()) > max ==> spec_truncate(text, wf, max) == single_dot()
            || spec_truncate(text, wf, max) == Seq::<char>::empty(),
{
    if wf(text) > max && wf(ellipsis()) <= max {
        if wf(ellipsis()) == max {
            assert(text.take(0) + ellipsis() =~= ellipsis());
        } else {
            let target = max - wf(ellipsis());
            lemma_fitting_prefix(text, wf, target, 0);
            let k = fitting_prefix_from(text, wf, target, 0) as int;
            assert(spec_truncate(text, wf, max) == text.take(k) + ellipsis());
        }
    }
}

/// `fitting_prefix_from` stops exactly at the first prefix that is too
/// wide: every prefix it took fits, and the next one does not.
proof fn lemma_fitting_prefix_stops(text: Seq<char>, wf: spec_fn(Seq<char>) -> int, target: int, k: nat)
    requires
        k <= text.len(),
    ensures
        k <= fitting_prefix_from(text, wf, target, k) <= text.len(),
        fitting_prefix_from(text, wf, target, k) < text.len() ==> wf(
            text.take(fitting_prefix_from(text, wf, target, k) + 1 as int),
        ) > target,
        forall|j: int|
            k < j <= fitting_prefix_from(text, wf, target, k) ==> wf(#[trigger] text.take(j)) <= target,
    decreases text.len() - k,
{
    if k < text.len() && wf(text.take(k + 1 as int)) <= target {
        lemma_fitting_prefix_stops(text, wf, target, k + 1);
    }
}

/// When the text is too wide and the ellipsis leaves room, truncation keeps
/// the longest prefix that grows one character at a time within the room
/// left by the ellipsis: every shorter prefix fits, and the prefix one
/// character longer (when there is one) does not.
pub proof fn law_truncate_keeps_longest_prefix(text: Seq<char>, wf: spec_fn(Seq<char>) -> int, max: int)
    requires
        wf(text) > max,
        wf(seq!['.', '.']) < max,
    ensures
        exists|k: int|
            0 <= k <= text.len() && spec_truncate(text, wf, max) == #[trigger] text.take(k) + seq!['.', '.']
                && (forall|j: int| 0 < j <= k ==> wf(#[trigger] text.take(j)) + wf(seq!['.', '.']) <= max)
                && (k < text.len() ==> wf(text.take(k + 1)) + wf(seq!['.', '.']) > max),
{
    let target = max - wf(ellipsis());
    lemma_fitting_prefix_stops(text, wf, target, 0);
    let k = fitting_prefix_from(text, wf, target, 0) as int;
    assert(ellipsis() =~= seq!['.', '.']);
    assert(spec_truncate(text, wf, max) == text.take(k) + seq!['.', '.']);
}

/// The truncated text fits within the width whenever the measure gives the
/// empty text no width and never measures a concatenation wider than its
/// parts measured apart (as advance-width text measurement does). Without
/// those two assumptions, it still fits whenever the ellipsis alone does
/// not, and the empty text fits.
pub proof fn law_truncate_fits(text: Seq<char>, wf: spec_fn(Seq<char>) -> int, max: int)
    ensures
        wf(text) > max && wf(ellipsis()) >= max && wf(Seq::<char>::empty()) <= max ==> wf(
            spec_truncate(text, wf, max),
        ) <= max,
        (wf(Seq::<char>::empty()) == 0 && 0 <= max && forall|a: Seq<char>, b: Seq<char>|
            #[trigger] wf(a + b) <= wf(a) + wf(b)) ==> wf(spec_truncate(text, wf, max)) <= max,
{
    if wf(text) > max && wf(ellipsis()) < max {
        let target = max - wf(ellipsis());
        lemma_fitting_prefix(text, wf, target, 0);
        let k = fitting_prefix_from(text, wf, target, 0) as int;
        let prefix = text.take(k);
        if k == 0 {
            assert(prefix =~= Seq::<char>::empty());
        }
        if wf(Seq::<char>::empty()) == 0 && 0 <= max && forall|a: Seq<char>, b: Seq<char>|
            #[trigger] wf(a + b) <= wf(a) + wf(b) {
            assert(wf(prefix + ellipsis()) <= wf(prefix) + wf(ellipsis()));
        }
    }
}


/// Every word of a text has at least one character.
proof fn lemma_words_nonempty(s: Seq<char>)
    ensures
        forall|i: int| 0 <= i < words_of(s).len() ==> (#[trigger] words_of(s)[i]).len() > 0,
    decreases s.len(),
{
    if s.len() > 0 {
        let p = s.drop_last();
        lemma_words_nonempty(p);
        lemma_words_of(p);
        let prev = words_of(p);
        let c = s.last();
        if is_white_space(c) {
        } else if s.len() >= 2 && !is_white_space(s[s.len() - 2]) {
            assert(p.last() == s[s.len() - 2]);
            let n = prev.len();
            let w = prev.update(n - 1, prev.last().push(c));
            assert forall|i: int| 0 <= i < w.len() implies (#[trigger] w[i]).len() > 0 by {
                if i < n - 1 {
                    assert(w[i] == prev[i]);
                }
            }
        } else {
            let w = prev.push(seq![c]);
            assert forall|i: int| 0 <= i < w.len() implies (#[trigger] w[i]).len() > 0 by {
                if i < prev.len() {
                    assert(w[i] == prev[i]);
                }
            }
        }
    }
}

/// Appending a space and a whitespace-free word to a text appends that
/// word to its words.
proof fn lemma_words_append(s: Seq<char>, w: Seq<char>, j: int)
    requires
        1 <= j <= w.len(),
        no_ws(w),
    ensures
        words_of(s + seq![' '] + w.take(j)) == words_of(s).push(w.take(j)),
    decreases j,
{
    let t = s + seq![' '] + w.take(j);
    assert(!is_white_space(w[j - 1]));
    assert(t.last() == w[j - 1]);
    if j == 1 {
        let sp = s + seq![' '];
        assert(sp.drop_last() =~= s);
        assert(is_white_space(sp.last()));
        assert(words_of(sp) == words_of(s));
        assert(t.drop_last() =~= sp);
        assert(t[t.len() - 2] == ' ');
        assert(w.take(1) =~= seq![w[0]]);
    } else {
        lemma_words_append(s, w, j - 1);
        assert(t.drop_last() =~= s + seq![' '] + w.take(j - 1));
        assert(t[t.len() - 2] == w[j - 2]);
        assert(!is_white_space(w[j - 2]));
        let prev = words_of(s).push(w.take(j - 1));
        assert(w.take(j - 1).push(w[j - 1]) =~= w.take(j));
        assert(prev.update(prev.len() - 1, prev.last().push(w[j - 1])) =~= words_of(s).push(w.take(j)));
    }
}

/// The wrapping of the first `k` words does not look at the words after them.
proof fn lemma_wrap_state_prefix(words: Seq<Seq<char>>, w: Seq<char>, wf: spec_fn(Seq<char>) -> int, max: int, k: nat)
    requires
        k <= words.len(),
    ensures
        wrap_state(words.push(w), wf, max, k) == wrap_state(words, wf, max, k),
    decreases k,
{
    if k > 0 {
        lemma_wrap_state_prefix(words, w, wf, max, (k - 1) as nat);
        assert(words.push(w)[k - 1] == words[k - 1]);
    }
}

/// The segment being grown while breaking a word is never empty once a
/// character has been taken.
proof fn lemma_segment_nonempty(word: Seq<char>, wf: spec_fn(Seq<char>) -> int, max: int, i: nat)
    requires
        1 <= i <= word.len(),
    ensures
        segment_state(word, wf, max, i).1.len() > 0,
{
}

/// After at least one (non-empty) word, the line being grown is not empty.
proof fn lemma_current_line_nonempty(words: Seq<Seq<char>>, wf: spec_fn(Seq<char>) -> int, max: int, k: nat)
    requires
        1 <= k <= words.len(),
        forall|i: int| 0 <= i < words.len() ==> (#[trigger] words[i]).len() > 0,
    ensures
        wrap_state(words, wf, max, k).1.len() > 0,
    decreases k,
{
    if k > 1 {
        lemma_current_line_nonempty(words, wf, max, (k - 1) as nat);
    }
    let word = words[k - 1];
    assert(word.len() > 0);
    let (lines, cur) = wrap_state(words, wf, max, (k - 1) as nat);
    lemma_segment_nonempty(word, wf, max, word.len());
    let segs = break_segments(word, wf, max);
    assert(segs.len() > 0 && segs.last().len() > 0);
    assert((lines + segs).last() == segs.last());
    assert((lines.push(cur) + segs).last() == segs.last());
}

/// Greedy wrapping, one word at a time: appending a word that fits a line
/// on its own either extends the last line (after a space) when the
/// extended line still fits, or starts a new line with it. In particular
/// the last piece of a force-broken word stays open for the next word.
pub proof fn law_wrap_appends_word(text: Seq<char>, w: Seq<char>, wf: spec_fn(Seq<char>) -> int, max: int)
    requires
        words_of(text).len() > 0,
        w.len() > 0,
        forall|i: int| 0 <= i < w.len() ==> !is_white_space(#[trigger] w[i]),
        wf(w) <= max,
    ensures
        spec_word_wrap(text, wf, max).len() > 0,
        spec_word_wrap(text + seq![' '] + w, wf, max) == (if wf(
            spec_word_wrap(text, wf, max).last() + seq![' '] + w,
        ) <= max {
            spec_word_wrap(text, wf, max).drop_last().push(spec_word_wrap(text, wf, max).last() + seq![' '] + w)
        } else {
            spec_word_wrap(text, wf, max).push(w)
        }),
{
    let ws = words_of(text);
    let n = ws.len();
    lemma_words_append(text, w, w.len() as int);
    assert(w.take(w.len() as int) =~= w);
    let ws2 = words_of(text + seq![' '] + w);
    assert(ws2 == ws.push(w));
    lemma_words_nonempty(text);
    lemma_wrap_state_prefix(ws, w, wf, max, n);
    lemma_current_line_nonempty(ws, wf, max, n);
    let (lines, cur) = wrap_state(ws, wf, max, n);
    assert(ws2[n as int] == w);
    assert(spec_word_wrap(text, wf, max) == lines.push(cur));
    assert(lines.push(cur).drop_last() =~= lines);
}


/// While a word is being broken, every closed segment is non-empty and
/// could not take the first character of the segment after it.
proof fn lemma_segments_greedy(word: Seq<char>, wf: spec_fn(Seq<char>) -> int, max: int, i: nat)
    requires
        i <= word.len(),
    ensures
        ({
            let (done, seg) = segment_state(word, wf, max, i);
            &&& forall|j: int| 0 <= j < done.len() ==> (#[trigger] done[j]).len() > 0
            &&& forall|j: int|
                0 <= j < done.len() - 1 ==> wf(#[trigger] done[j].push(done[j + 1][0])) > max
            &&& done.len() > 0 ==> seg.len() > 0 && wf(done.last().push(seg[0])) > max
        }),
    decreases i,
{
    if i > 0 {
        lemma_segments_greedy(word, wf, max, (i - 1) as nat);
        let (done, seg) = segment_state(word, wf, max, (i - 1) as nat);
        let c = word[i - 1];
        if wf(seg.push(c)) > max && seg.len() > 0 {
            let d2 = done.push(seg);
            assert forall|j: int| 0 <= j < d2.len() - 1 implies wf(#[trigger] d2[j].push(d2[j + 1][0])) > max by {
                if j < done.len() - 1 {
                    assert(d2[j] == done[j] && d2[j + 1] == done[j + 1]);
                } else {
                    assert(d2[j] == done.last() && d2[j + 1] == seg);
                }
            }
            assert forall|j: int| 0 <= j < d2.len() implies (#[trigger] d2[j]).len() > 0 by {
                if j < done.len() {
                    assert(d2[j] == done[j]);
                }
            }
            assert(seq![c][0] == c);
        } else if seg.len() > 0 {
            assert(seg.push(c)[0] == seg[0]);
        }
    }
}

/// Breaking a word too wide for a line cuts it greedily: the pieces spell
/// the word, none is empty, each fits the width (or is a single character),
/// and no piece could have taken the first character of the next one.
pub proof fn law_force_break_is_greedy(word: Seq<char>, wf: spec_fn(Seq<char>) -> int, max: int)
    ensures
        concat_all(break_segments(word, wf, max)) == word,
        forall|j: int|
            0 <= j < break_segments(word, wf, max).len() ==> (#[trigger] break_segments(word, wf, max)[j]).len() > 0
                && line_fits(break_segments(word, wf, max)[j], wf, max),
        forall|j: int|
            0 <= j < break_segments(word, wf, max).len() - 1 ==> wf(
                #[trigger] break_segments(word, wf, max)[j].push(break_segments(word, wf, max)[j + 1][0]),
            ) > max,
{
    lemma_break_segments_concat(word, wf, max);
    lemma_break_segments_fit(word, wf, max);
    lemma_segments_greedy(word, wf, max, word.len());
    let (done, seg) = segment_state(word, wf, max, word.len());
    let segs = break_segments(word, wf, max);
    if seg.len() > 0 {
        assert forall|j: int| 0 <= j < segs.len() - 1 implies wf(#[trigger] segs[j].push(segs[j + 1][0])) > max by {
            if j < done.len() - 1 {
                assert(segs[j] == done[j] && segs[j + 1] == done[j + 1]);
            } else {
                assert(segs[j] == done.last() && segs[j + 1] == seg);
            }
        }
        assert forall|j: int| 0 <= j < segs.len() implies (#[trigger] segs[j]).len() > 0 by {
            if j < done.len() {
                assert(segs[j] == done[j]);
            }
        }
    }
}


/// Splitting into words cuts at whitespace and nowhere else: the words of
/// two texts joined by a whitespace character are the words of the first
/// followed by the words of the second, and a non-empty run without
/// whitespace is a single word.
pub proof fn law_words_split_at_whitespace(a: Seq<char>, c: char, b: Seq<char>)
    requires
        is_white_space(c),
    ensures
        words_of(a.push(c) + b) == words_of(a) + words_of(b),
        b.len() > 0 && no_ws(b) ==> words_of(b) == seq![b],
    decreases b.len(),
{
    let t = a.push(c) + b;
    if b.len() == 0 {
        assert(t =~= a.push(c));
        assert(a.push(c).drop_last() =~= a);
        assert(words_of(a) + words_of(b) =~= words_of(a));
    } else {
        let bp = b.drop_last();
        let d = b.last();
        law_words_split_at_whitespace(a, c, bp);
        assert(t.drop_last() =~= a.push(c) + bp);
        assert(t.last() == d);
        lemma_words_of(bp);
        let wa = words_of(a);
        let wb = words_of(bp);
        if is_white_space(d) {
        } else if bp.len() >= 1 && !is_white_space(bp.last()) {
            assert(t[t.len() - 2] == bp.last());
            assert(b[b.len() - 2] == bp.last());
            assert((wa + wb).update((wa + wb).len() - 1, (wa + wb).last().push(d)) =~= wa + wb.update(
                wb.len() - 1,
                wb.last().push(d),
            ));
        } else {
            if bp.len() >= 1 {
                assert(t[t.len() - 2] == bp.last());
                assert(b[b.len() - 2] == bp.last());
            } else {
                assert(t[t.len() - 2] == c);
            }
            assert((wa + wb).push(seq![d]) =~= wa + wb.push(seq![d]));
        }
        if no_ws(b) {
            assert(no_ws(bp)) by {
                assert forall|i: int| 0 <= i < bp.len() implies !is_white_space(#[trigger] bp[i]) by {
                    assert(bp[i] == b[i]);
                }
            }
            assert(!is_white_space(b[b.len() - 1]));
            if bp.len() > 0 {
                assert(!is_white_space(bp.last())) by {
                    assert(bp.last() == b[b.len() - 2]);
                }
                assert(wb == seq![bp]);
                assert(bp.push(d) =~= b);
                assert(b.drop_last() =~= bp);
                assert(words_of(b) == wb.update(wb.len() - 1, wb.last().push(d)));
                assert(seq![bp].update(0, bp.push(d)) =~= seq![b]);
            } else {
                assert(b =~= seq![d]);
            }
        }
    }
}


/// Breaking a non-empty word gives at least one piece, the last one
/// non-empty.
proof fn lemma_break_segments_nonempty(word: Seq<char>, wf: spec_fn(Seq<char>) -> int, max: int)
    requires
        word.len() > 0,
    ensures
        break_segments(word, wf, max).len() > 0,
        break_segments(word, wf, max).last().len() > 0,
{
    lemma_segment_nonempty(word, wf, max, word.len());
}

/// A text of one word is one line when the word fits, and otherwise the
/// pieces of the word broken to the width.
pub proof fn law_wrap_single_word(w: Seq<char>, wf: spec_fn(Seq<char>) -> int, max: int)
    requires
        w.len() > 0,
        no_ws(w),
    ensures
        spec_word_wrap(w, wf, max) == (if wf(w) <= max {
            seq![w]
        } else {
            break_segments(w, wf, max)
        }),
{
    law_words_split_at_whitespace(seq![], ' ', w);
    let words = seq![w];
    assert(words_of(w) == words);
    assert(words[0] == w);
    let empty_lines: Seq<Seq<char>> = seq![];
    assert(wrap_state(words, wf, max, 0) == (empty_lines, Seq::<char>::empty()));
    if wf(w) > max {
        lemma_break_segments_nonempty(w, wf, max);
        let segs = break_segments(w, wf, max);
        assert(empty_lines + segs =~= segs);
        assert(wrap_state(words, wf, max, 1) == pop_last(segs));
        assert(segs.drop_last().push(segs.last()) =~= segs);
    } else {
        assert(wrap_state(words, wf, max, 1) == (empty_lines, w));
        assert(empty_lines.push(w) =~= seq![w]);
    }
}

/// Appending a word too wide for a line, when it does not fit after the
/// last line either, closes the last line and adds the word's pieces.
pub proof fn law_wrap_appends_long_word(text: Seq<char>, w: Seq<char>, wf: spec_fn(Seq<char>) -> int, max: int)
    requires
        words_of(text).len() > 0,
        w.len() > 0,
        no_ws(w),
        wf(w) > max,
        wf(spec_word_wrap(text, wf, max).last() + seq![' '] + w) > max,
    ensures
        spec_word_wrap(text + seq![' '] + w, wf, max) == spec_word_wrap(text, wf, max) + break_segments(w, wf, max),
{
    let ws = words_of(text);
    let n = ws.len();
    lemma_words_append(text, w, w.len() as int);
    assert(w.take(w.len() as int) =~= w);
    lemma_words_nonempty(text);
    lemma_wrap_state_prefix(ws, w, wf, max, n);
    lemma_current_line_nonempty(ws, wf, max, n);
    let (lines, cur) = wrap_state(ws, wf, max, n);
    assert(ws.push(w)[n as int] == w);
    assert(spec_word_wrap(text, wf, max) == lines.push(cur));
    lemma_break_segments_nonempty(w, wf, max);
    let all = lines.push(cur) + break_segments(w, wf, max);
    assert(all.last() == break_segments(w, wf, max).last());
    assert(all.drop_last().push(all.last()) =~= all);
}

} // verus!