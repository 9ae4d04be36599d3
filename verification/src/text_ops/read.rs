//! Line-windowed, line-numbered reading.

use vstd::prelude::*;
use crate::guardrails::truncation::{cut_point, truncate_output, truncated_content};
use crate::text::{
    append_chars, chars_of, count_char, count_char_exec, decimal, decimal_chars,
    lemma_count_char_bound, lemma_count_char_concat, lemma_count_char_absent,
    lemma_count_char_prefix, lemma_decimal_has_no_newline, lemma_split_len,
    lemma_split_pieces_lack_sep, last_index_of, lemma_last_index_of, normalize_crlf, normalize_crlf_chars, pieces_view, split_chars,
    split_on, string_of,
};

verus! {

/// How many characters beyond the output limit a window may gather before
/// it stops taking lines: the working buffer stays near the output size
/// however much of the file remains.
pub const READ_WINDOW_MARGIN: usize = 1024;

/// One window of a file: line-numbered content, whether it was truncated,
/// and the line to resume from when it was.
#[derive(Debug)]
pub struct ReadFileResult {
    /// Each included line as `"{line_number}\t{line_content}\n"`.
    pub content: String,
    /// `"success"` or `"truncated"`.
    pub status: String,
    /// When truncated: the 1-indexed line to pass as `start_line` next.
    pub next_start_line: Option<usize>,
}

/// The lines of a text: `\r\n` read as `\n`, then split at every `\n`
/// (a final line feed leaves an empty last line).
pub open spec fn file_lines(raw: Seq<char>) -> Seq<Seq<char>> {
    split_on(normalize_crlf(raw), '\n')
}

/// Line `n` (1-indexed) annotated with its number.
pub open spec fn annotated_line(n: nat, line: Seq<char>) -> Seq<char> {
    decimal(n) + seq!['\t'] + line + seq!['\n']
}

/// The annotated lines at indices `from .. to`.
pub open spec fn annotate(lines: Seq<Seq<char>>, from: int, to: int) -> Seq<char>
    decreases to - from,
{
    if to <= from {
        Seq::<char>::empty()
    } else {
        annotate(lines, from, to - 1) + annotated_line(to as nat, lines[to - 1])
    }
}

/// Where a window that starts at index `from` stops, looking from `k` on:
/// at the end of the lines, or as soon as what it holds exceeds `bound`.
pub open spec fn window_end(lines: Seq<Seq<char>>, from: int, k: int, bound: nat) -> int
    decreases lines.len() - k,
{
    if k >= lines.len() || annotate(lines, from, k).len() > bound {
        k
    } else {
        window_end(lines, from, k + 1, bound)
    }
}

/// The 1-indexed line a read starts at: `start_line`, at least 1.
pub open spec fn first_line(start_line: Option<usize>) -> nat {
    match start_line {
        Some(n) => if n == 0 {
            1
        } else {
            n as nat
        },
        None => 1,
    }
}

/// The annotated window of `raw` from line `start` under `limit`, before
/// truncation.
pub open spec fn window_text(raw: Seq<char>, start: nat, limit: nat) -> Seq<char> {
    let ls = file_lines(raw);
    let from = start - 1;
    annotate(ls, from, window_end(ls, from, from, (limit + READ_WINDOW_MARGIN) as nat))
}

/// The line to resume from: the start plus the number of whole lines kept,
/// at least one.
pub open spec fn next_start_line(window: Seq<char>, start: nat, limit: nat) -> Option<nat> {
    match cut_point(window, limit) {
        None => None,
        Some(_) => {
            let kept = count_char(truncated_content(window, limit), '\n');
            Some(start + if kept == 0 {
                1
            } else {
                kept
            })
        },
    }
}

proof fn lemma_normalize_crlf_len(s: Seq<char>)
    ensures
        normalize_crlf(s).len() <= s.len(),
    decreases s.len(),
{
    if s.len() > 0 {
        lemma_normalize_crlf_len(s.drop_first());
    }
}

/// The annotated lines `from .. to` hold exactly one line feed each.
proof fn lemma_annotate_newlines(lines: Seq<Seq<char>>, from: int, to: int)
    requires
        0 <= from <= to <= lines.len(),
        forall|i: int| 0 <= i < lines.len() ==> !(#[trigger] lines[i]).contains('\n'),
    ensures
        count_char(annotate(lines, from, to), '\n') == to - from,
    decreases to - from,
{
    if to > from {
        lemma_annotate_newlines(lines, from, to - 1);
        let l = lines[to - 1];
        lemma_decimal_has_no_newline(to as nat);
        lemma_count_char_absent(l, '\n');
        assert(seq!['\t'].drop_last() =~= Seq::<char>::empty());
        assert(seq!['\n'].drop_last() =~= Seq::<char>::empty());
        assert(count_char(Seq::<char>::empty(), '\n') == 0);
        assert(seq!['\t'].last() == '\t');
        assert(count_char(seq!['\t'], '\n') == 0);
        assert(count_char(seq!['\n'], '\n') == 1);
        lemma_count_char_concat(decimal(to as nat), seq!['\t'], '\n');
        lemma_count_char_concat(decimal(to as nat) + seq!['\t'], l, '\n');
        lemma_count_char_concat(decimal(to as nat) + seq!['\t'] + l, seq!['\n'], '\n');
        lemma_count_char_concat(annotate(lines, from, to - 1), annotated_line(to as nat, l), '\n');
    }
}

/// Reads one window of the text `raw` starting at 1-indexed line
/// `start_line` (default 1): each line annotated with its number, lines
/// taken until the end or until the window exceeds `limit` plus the margin,
/// then truncated to `limit` characters. When truncated, `next_start_line`
/// is where to continue.
pub fn read_window(raw: &str, start_line: Option<usize>, limit: usize) -> (r: ReadFileResult)
    requires
        first_line(start_line) <= file_lines(raw@).len() ==> limit + READ_WINDOW_MARGIN <= usize::MAX,
        raw@.len() + 2 <= usize::MAX,
    ensures
        ({
            let start = first_line(start_line);
            let w = window_text(raw@, start, limit as nat);
            &&& r.content@ == truncated_content(w, limit as nat)
            &&& r.status@ == (if cut_point(w, limit as nat) is None {
                "success"@
            } else {
                "truncated"@
            })
            &&& match next_start_line(w, start, limit as nat) {
                None => r.next_start_line is None,
                Some(n) => r.next_start_line == Some(n as usize),
            }
        }),
{
    let cs = chars_of(raw);
    let normalized = normalize_crlf_chars(cs.as_slice());
    let lines = split_chars(normalized.as_slice(), '\n');
    let ghost ls = file_lines(raw@);
    proof {
        lemma_normalize_crlf_len(raw@);
        lemma_split_len(normalize_crlf(raw@), '\n');
        lemma_count_char_bound(normalize_crlf(raw@), '\n');
        lemma_split_pieces_lack_sep(normalize_crlf(raw@), '\n');
    }
    let start: usize = match start_line {
        Some(n) => if n == 0 {
            1
        } else {
            n
        },
        None => 1,
    };
    let from = start - 1;
    let bound = if from < lines.len() {
        limit + READ_WINDOW_MARGIN
    } else {
        0
    };
    let mut annotated: Vec<char> = Vec::new();
    let mut k: usize = from;
    while k < lines.len() && annotated.len() <= bound
        invariant
            pieces_view(lines@) == ls,
            ls.len() + 1 <= usize::MAX,
            from <= k,
            from < ls.len() ==> k <= ls.len(),
            annotated@ == annotate(ls, from as int, k as int),
            window_end(ls, from as int, from as int, bound as nat) == window_end(
                ls,
                from as int,
                k as int,
                bound as nat,
            ),
        decreases lines.len() - k,
    {
        let ghost before = annotated@;
        let num = decimal_chars(k + 1);
        append_chars(&mut annotated, num.as_slice());
        annotated.push('\t');
        append_chars(&mut annotated, lines[k].as_slice());
        annotated.push('\n');
        assert(ls[k as int] == lines@[k as int]@);
        assert(annotated@ == before + annotated_line((k + 1) as nat, ls[k as int]));
        k = k + 1;
    }
    let ghost w = annotated@;
    assert(window_end(ls, from as int, k as int, bound as nat) == k);
    if from >= lines.len() {
        assert(window_end(ls, from as int, from as int, (limit + READ_WINDOW_MARGIN) as nat) == from);
    }
    assert(w == window_text(raw@, first_line(start_line), limit as nat));
    let t = truncate_output(string_of(annotated.as_slice()).as_str(), limit);
    let next = match t.next_offset {
        None => None,
        Some(_) => {
            let tc = chars_of(t.content.as_str());
            let kept = count_char_exec(tc.as_slice(), '\n');
            proof {
                assert(k > from);
                lemma_annotate_newlines(ls, from as int, k as int);
                crate::guardrails::truncation::law_truncation_keeps_a_bounded_prefix(
                    w,
                    limit as nat,
                );
                lemma_count_char_prefix(w, tc@.len() as int, '\n');
            }
            Some(
                start + if kept == 0 {
                    1
                } else {
                    kept
                },
            )
        },
    };
    ReadFileResult { content: t.content, status: t.status, next_start_line: next }
}

proof fn lemma_window_end(lines: Seq<Seq<char>>, from: int, k: int, bound: nat)
    requires
        from <= k,
    ensures
        k <= window_end(lines, from, k, bound),
        k <= lines.len() ==> window_end(lines, from, k, bound) <= lines.len(),
        k > lines.len() ==> window_end(lines, from, k, bound) == k,
        window_end(lines, from, k, bound) >= lines.len() || annotate(
            lines,
            from,
            window_end(lines, from, k, bound),
        ).len() > bound,
    decreases lines.len() - k,
{
    if !(k >= lines.len() || annotate(lines, from, k).len() > bound) {
        lemma_window_end(lines, from, k + 1, bound);
    }
}

proof fn lemma_decimal_lacks_newline(n: nat)
    ensures
        forall|i: int| 0 <= i < decimal(n).len() ==> #[trigger] decimal(n)[i] != '\n',
    decreases n,
{
    if n >= 10 {
        lemma_decimal_lacks_newline(n / 10);
        assert forall|i: int| 0 <= i < decimal(n).len() implies #[trigger] decimal(n)[i] != '\n' by {
            if i < decimal(n / 10).len() {
                assert(decimal(n)[i] == decimal(n / 10)[i]);
            }
        }
    }
}

/// An annotated line holds a line feed at its end and nowhere else.
proof fn lemma_annotated_line_newline(n: nat, l: Seq<char>, i: int)
    requires
        !l.contains('\n'),
        0 <= i < annotated_line(n, l).len(),
        annotated_line(n, l)[i] == '\n',
    ensures
        i == annotated_line(n, l).len() - 1,
{
    lemma_decimal_lacks_newline(n);
    let d = decimal(n);
    if i < d.len() {
        assert(annotated_line(n, l)[i] == d[i]);
    } else if i == d.len() {
        assert(annotated_line(n, l)[i] == '\t');
    } else if i < d.len() + 1 + l.len() {
        assert(annotated_line(n, l)[i] == l[i - d.len() - 1]);
    }
}

/// A prefix of annotated lines that ends with a line feed is itself the
/// annotation of the first few of those lines.
proof fn lemma_newline_prefix_is_whole_lines(lines: Seq<Seq<char>>, from: int, e: int, c: int) -> (m: int)
    requires
        0 <= from <= e <= lines.len(),
        forall|i: int| 0 <= i < lines.len() ==> !(#[trigger] lines[i]).contains('\n'),
        0 < c <= annotate(lines, from, e).len(),
        annotate(lines, from, e)[c - 1] == '\n',
    ensures
        from < m <= e,
        annotate(lines, from, e).take(c) == annotate(lines, from, m),
    decreases e - from,
{
    let prev = annotate(lines, from, e - 1);
    let line = annotated_line(e as nat, lines[e - 1]);
    assert(annotate(lines, from, e) == prev + line);
    if c <= prev.len() {
        assert(prev[c - 1] == annotate(lines, from, e)[c - 1]);
        let m = lemma_newline_prefix_is_whole_lines(lines, from, e - 1, c);
        assert(annotate(lines, from, e).take(c) == prev.take(c));
        m
    } else {
        let i = c - 1 - prev.len();
        assert(line[i] == annotate(lines, from, e)[c - 1]);
        lemma_annotated_line_newline(e as nat, lines[e - 1], i);
        assert(annotate(lines, from, e).take(c) == annotate(lines, from, e));
        e
    }
}

/// A window that was not truncated holds every line from the start line
/// to the end of the text.
pub proof fn law_untruncated_window_reads_to_the_end(raw: Seq<char>, start: nat, limit: nat)
    requires
        start >= 1,
        cut_point(window_text(raw, start, limit), limit) is None,
    ensures
        window_text(raw, start, limit) == annotate(
            file_lines(raw),
            start - 1,
            file_lines(raw).len() as int,
        ),
{
    let ls = file_lines(raw);
    let from = start - 1;
    lemma_window_end(ls, from, from, (limit + READ_WINDOW_MARGIN) as nat);
}

/// A truncated window that keeps at least one line feed holds whole
/// annotated lines only, exactly the lines before `next_start_line`: the
/// next window starts with the first line this one left out, so paging
/// neither skips nor repeats a line.
pub proof fn law_truncated_window_holds_whole_lines(raw: Seq<char>, start: nat, limit: nat)
    requires
        start >= 1,
        cut_point(window_text(raw, start, limit), limit) is Some,
        count_char(truncated_content(window_text(raw, start, limit), limit), '\n') > 0,
    ensures
        truncated_content(window_text(raw, start, limit), limit) == annotate(
            file_lines(raw),
            start - 1,
            next_start_line(window_text(raw, start, limit), start, limit)->Some_0 - 1,
        ),
{
    let ls = file_lines(raw);
    let from = start - 1;
    let bound = (limit + READ_WINDOW_MARGIN) as nat;
    let w = window_text(raw, start, limit);
    let e = window_end(ls, from, from, bound);
    lemma_window_end(ls, from, from, bound);
    lemma_split_pieces_lack_sep(normalize_crlf(raw), '\n');
    let t = w.take(limit as int);
    lemma_last_index_of(t, '\n');
    let nl = last_index_of(t, '\n');
    if nl < 0 {
        assert(!t.contains('\n')) by {
            if t.contains('\n') {
                let j = choose|j: int| 0 <= j < t.len() && t[j] == '\n';
                assert(t[j] != '\n');
            }
        }
        lemma_count_char_absent(t, '\n');
        assert(false);
    }
    assert(w[nl] == t[nl]);
    if from > ls.len() {
        assert(w.len() == 0);
        assert(false);
    }
    let m = lemma_newline_prefix_is_whole_lines(ls, from as int, e, nl + 1);
    lemma_annotate_newlines(ls, from as int, m);
}

/// A truncated read always moves on: the line to resume from lies past
/// the line the read started at, even when a single line overflows the
/// limit.
pub proof fn law_truncated_reads_make_progress(raw: Seq<char>, start: nat, limit: nat)
    ensures
        next_start_line(window_text(raw, start, limit), start, limit) matches Some(n) ==> n > start,
{
}

} // verus!
