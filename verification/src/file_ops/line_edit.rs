//! Line-range editing: replace lines `start_line..=end_line` (1-indexed,
//! lines being the pieces between `\n`s) after checking that they hold the
//! expected text.

use vstd::prelude::*;
use crate::errors::{CoreError, CoreResult};
use crate::file_ops::edit::{
    EditChunk,
    first_range_at, is_permutation, lemma_first_range_at, lemma_splice_permuted,
    lemma_splice_single, permuted, ranges_disjoint, ranges_disjoint_exec, ranges_view,
    ranges_within, splice_from,
};
use crate::text_ops::read::file_lines;
use crate::text::{
    is_ws, lemma_split_normalized, lemma_trim_ignores_trailing_ws,
    chars_of, decimal, decimal_chars, join_chars, join_with, pieces_view, split_chars, split_on,
    string_of, trim, trim_chars, chars_eq,
};

verus! {

/// Why a line-range edit is refused.
#[derive(Debug, PartialEq, Eq, Structural, Clone, Copy)]
pub enum LineRangeFailure {
    InvalidRange,
    Mismatch,
}

/// The range is a valid 1-indexed inclusive range over `n` lines.
pub open spec fn valid_line_range(start: int, end: int, n: int) -> bool {
    start != 0 && start <= end && end <= n
}

/// The text currently in lines `start..=end`.
pub open spec fn range_text(ls: Seq<Seq<char>>, start: int, end: int) -> Seq<char> {
    join_with(ls.subrange(start - 1, end), seq!['\n'])
}

/// Lines with `start..=end` replaced by the single piece `replacement`.
pub open spec fn replaced_lines(ls: Seq<Seq<char>>, start: int, end: int, replacement: Seq<char>) -> Seq<
    Seq<char>,
> {
    ls.take(start - 1).push(replacement) + ls.skip(end)
}

/// The message for a refused line-range edit.
pub open spec fn line_range_failure_text(
    f: LineRangeFailure,
    start: nat,
    end: nat,
    n: nat,
    expected: Seq<char>,
    actual: Seq<char>,
) -> Seq<char> {
    match f {
        LineRangeFailure::InvalidRange => "Invalid line range "@ + decimal(start) + "-"@ + decimal(end)
            + " for file with "@ + decimal(n) + " lines"@,
        LineRangeFailure::Mismatch => "Content mismatch. Expected:\n"@ + trim(expected)
            + "\nActual:\n"@ + trim(actual),
    }
}

/// What a line-range edit produced.
pub struct LineRangeReport {
    pub new_content: String,
    pub lines_modified: usize,
    pub new_line_count: usize,
}

/// Checks that `start_line..=end_line` is a valid range over `lines` and
/// that its text, trimmed, equals `target_content` trimmed.
pub fn verify_line_range(
    lines: &Vec<Vec<char>>,
    start_line: usize,
    end_line: usize,
    target_content: &str,
) -> (r: CoreResult<()>)
    ensures
        r is Ok <==> (valid_line_range(start_line as int, end_line as int, lines@.len() as int) && trim(
            range_text(pieces_view(lines@), start_line as int, end_line as int),
        ) == trim(target_content@)),
        r matches Err(e) ==> e matches CoreError::File(m) && if !valid_line_range(
            start_line as int,
            end_line as int,
            lines@.len() as int,
        ) {
            m@ == line_range_failure_text(
                LineRangeFailure::InvalidRange,
                start_line as nat,
                end_line as nat,
                lines@.len(),
                target_content@,
                Seq::<char>::empty(),
            )
        } else {
            m@ == line_range_failure_text(
                LineRangeFailure::Mismatch,
                start_line as nat,
                end_line as nat,
                lines@.len(),
                target_content@,
                range_text(pieces_view(lines@), start_line as int, end_line as int),
            )
        },
{
    if start_line == 0 || end_line < start_line || end_line > lines.len() {
        let mut m = String::from_str("Invalid line range ");
        m.append(string_of(decimal_chars(start_line).as_slice()).as_str());
        m.append("-");
        m.append(string_of(decimal_chars(end_line).as_slice()).as_str());
        m.append(" for file with ");
        m.append(string_of(decimal_chars(lines.len()).as_slice()).as_str());
        m.append(" lines");
        return Err(CoreError::File(m));
    }
    let mut sub: Vec<Vec<char>> = Vec::new();
    let mut i: usize = start_line - 1;
    let ghost pv = pieces_view(lines@);
    while i < end_line
        invariant
            start_line >= 1,
            start_line - 1 <= i <= end_line <= lines@.len(),
            pv == pieces_view(lines@),
            pieces_view(sub@) == pv.subrange(start_line - 1, i as int),
        decreases end_line - i,
    {
        let ghost before = pieces_view(sub@);
        let piece = copy_chars(lines[i].as_slice());
        sub.push(piece);
        assert(pieces_view(sub@) == before.push(piece@));
        assert(pv.subrange(start_line - 1, i + 1) == pv.subrange(start_line - 1, i as int).push(
            pv[i as int],
        ));
        i = i + 1;
    }
    let nl = newline_sep();
    let actual = join_chars(&sub, nl.as_slice());
    let target = chars_of(target_content);
    let ta = trim_chars(actual.as_slice());
    let tt = trim_chars(target.as_slice());
    if !chars_eq(ta.as_slice(), tt.as_slice()) {
        let mut m = String::from_str("Content mismatch. Expected:\n");
        m.append(string_of(tt.as_slice()).as_str());
        m.append("\nActual:\n");
        m.append(string_of(ta.as_slice()).as_str());
        return Err(CoreError::File(m));
    }
    Ok(())
}

/// A copy of `s`.
fn copy_chars(s: &[char]) -> (r: Vec<char>)
    ensures
        r@ == s@,
{
    crate::text::slice_range(s, 0, s.len())
}

/// The one-character separator `\n`.
fn newline_sep() -> (r: Vec<char>)
    ensures
        r@ == seq!['\n'],
{
    let mut v = Vec::new();
    v.push('\n');
    v
}

/// Replaces lines `start_line..=end_line` of `content` with
/// `replacement_content` when those lines, trimmed, equal `target_content`
/// trimmed; otherwise reports why, as a file error.
pub fn apply_line_range_edit(
    content: &str,
    start_line: usize,
    end_line: usize,
    target_content: &str,
    replacement_content: &str,
) -> (r: CoreResult<LineRangeReport>)
    ensures
        ({
            let ls = split_on(content@, '\n');
            &&& r is Ok <==> (valid_line_range(start_line as int, end_line as int, ls.len() as int)
                && trim(range_text(ls, start_line as int, end_line as int)) == trim(target_content@))
            &&& r matches Ok(rep) ==> {
                let nls = replaced_lines(ls, start_line as int, end_line as int, replacement_content@);
                &&& rep.new_content@ == join_with(nls, seq!['\n'])
                &&& rep.lines_modified == end_line - start_line + 1
                &&& rep.new_line_count == nls.len()
            }
            &&& r matches Err(e) ==> (e matches CoreError::File(m) && m@ == if !valid_line_range(
                start_line as int,
                end_line as int,
                ls.len() as int,
            ) {
                line_range_failure_text(
                    LineRangeFailure::InvalidRange,
                    start_line as nat,
                    end_line as nat,
                    ls.len(),
                    target_content@,
                    Seq::<char>::empty(),
                )
            } else {
                line_range_failure_text(
                    LineRangeFailure::Mismatch,
                    start_line as nat,
                    end_line as nat,
                    ls.len(),
                    target_content@,
                    range_text(ls, start_line as int, end_line as int),
                )
            })
        }),
{
    let cs = chars_of(content);
    let lines = split_chars(cs.as_slice(), '\n');
    verify_line_range(&lines, start_line, end_line, target_content)?;
    let ghost pv = pieces_view(lines@);
    let mut out: Vec<Vec<char>> = Vec::new();
    let mut i: usize = 0;
    while i < start_line - 1
        invariant
            1 <= start_line <= end_line <= lines@.len(),
            i <= start_line - 1,
            pv == pieces_view(lines@),
            pieces_view(out@) == pv.take(i as int),
        decreases start_line - 1 - i,
    {
        let ghost before = pieces_view(out@);
        let piece = copy_chars(lines[i].as_slice());
        out.push(piece);
        assert(pieces_view(out@) == before.push(piece@));
        assert(pv.take(i + 1) == pv.take(i as int).push(pv[i as int]));
        i = i + 1;
    }
    let rep = chars_of(replacement_content);
    let ghost head = pieces_view(out@);
    out.push(rep);
    assert(pieces_view(out@) == head.push(rep@));
    let ghost mid = pieces_view(out@);
    let mut j: usize = end_line;
    while j < lines.len()
        invariant
            end_line <= j <= lines@.len(),
            pv == pieces_view(lines@),
            pieces_view(out@) == mid + pv.subrange(end_line as int, j as int),
        decreases lines.len() - j,
    {
        let ghost before = pieces_view(out@);
        let piece = copy_chars(lines[j].as_slice());
        out.push(piece);
        assert(pieces_view(out@) == before.push(piece@));
        assert(pv.subrange(end_line as int, j + 1) == pv.subrange(end_line as int, j as int).push(
            pv[j as int],
        ));
        j = j + 1;
    }
    assert(pv.subrange(end_line as int, j as int) == pv.skip(end_line as int));
    let nl = newline_sep();
    let joined = join_chars(&out, nl.as_slice());
    let new_line_count = out.len();
    Ok(
        LineRangeReport {
            new_content: string_of(joined.as_slice()),
            lines_modified: end_line - start_line + 1,
            new_line_count,
        },
    )
}

/// One line-range edit: lines `start_line..=end_line` (1-indexed), which
/// must hold `target_content` (compared trimmed), become
/// `replacement_content`.
#[derive(Debug)]
pub struct LineRangeChunk {
    pub start_line: usize,
    pub end_line: usize,
    pub target_content: String,
    pub replacement_content: String,
}

/// The chunk's range is valid over `ls` and holds its target text.
pub open spec fn chunk_holds(ls: Seq<Seq<char>>, c: LineRangeChunk) -> bool {
    valid_line_range(c.start_line as int, c.end_line as int, ls.len() as int) && trim(
        range_text(ls, c.start_line as int, c.end_line as int),
    ) == trim(c.target_content@)
}

/// Why the chunk does not hold over `ls`.
pub open spec fn chunk_failure_text(ls: Seq<Seq<char>>, c: LineRangeChunk) -> Seq<char> {
    if !valid_line_range(c.start_line as int, c.end_line as int, ls.len() as int) {
        line_range_failure_text(
            LineRangeFailure::InvalidRange,
            c.start_line as nat,
            c.end_line as nat,
            ls.len(),
            c.target_content@,
            Seq::<char>::empty(),
        )
    } else {
        line_range_failure_text(
            LineRangeFailure::Mismatch,
            c.start_line as nat,
            c.end_line as nat,
            ls.len(),
            c.target_content@,
            range_text(ls, c.start_line as int, c.end_line as int),
        )
    }
}

/// The first chunk from `j` on that does not hold, or `chunks.len()`.
pub open spec fn first_failing_chunk(ls: Seq<Seq<char>>, chunks: Seq<LineRangeChunk>, j: int) -> int
    decreases chunks.len() - j,
{
    if j < 0 || j >= chunks.len() {
        chunks.len() as int
    } else if !chunk_holds(ls, chunks[j]) {
        j
    } else {
        first_failing_chunk(ls, chunks, j + 1)
    }
}

/// The 0-indexed half-open line ranges the chunks replace.
pub open spec fn chunk_ranges(chunks: Seq<LineRangeChunk>) -> Seq<(int, int)> {
    chunks.map_values(|c: LineRangeChunk| (c.start_line - 1, c.end_line as int))
}

/// Each chunk's replacement, as the single line piece it becomes.
pub open spec fn chunk_replacements(chunks: Seq<LineRangeChunk>) -> Seq<Seq<Seq<char>>> {
    chunks.map_values(|c: LineRangeChunk| seq![c.replacement_content@])
}

/// The message when two chunks cover a common line.
pub open spec fn overlapping_chunks_text() -> Seq<char> {
    "Two edits cover overlapping line ranges. Merge them into one edit, or split them into separate calls."@
}

/// The outcome of applying line-range `chunks` to `content` as one
/// transaction: every chunk is checked against the original lines, in
/// order, and the first that fails decides the error; then no two may
/// share a line; then every range is replaced at once.
pub open spec fn line_edits_outcome(content: Seq<char>, chunks: Seq<LineRangeChunk>) -> Result<Seq<char>, Seq<char>> {
    let ls = split_on(content, '\n');
    if chunks.len() == 0 {
        Err("No edit chunks provided"@)
    } else {
        let k = first_failing_chunk(ls, chunks, 0);
        if k < chunks.len() {
            Err(chunk_failure_text(ls, chunks[k]))
        } else if !ranges_disjoint(chunk_ranges(chunks)) {
            Err(overlapping_chunks_text())
        } else {
            Ok(
                join_with(
                    splice_from(ls, chunk_ranges(chunks), chunk_replacements(chunks), 0),
                    seq!['\n'],
                ),
            )
        }
    }
}

/// What a multi-chunk line-range edit produced.
#[derive(Debug)]
pub struct LineEditsReport {
    pub new_content: String,
    pub chunks_applied: usize,
    /// Lines in the new text.
    pub new_line_count: usize,
    /// Lines in the text before the edit.
    pub original_line_count: usize,
}

fn splice_lines(ls: &Vec<Vec<char>>, rs: &Vec<(usize, usize)>, reps: &Vec<Vec<char>>) -> (r: Vec<Vec<char>>)
    requires
        rs@.len() == reps@.len(),
        ranges_within(ranges_view(rs@), ls@.len() as int),
    ensures
        pieces_view(r@) == splice_from(
            pieces_view(ls@),
            ranges_view(rs@),
            pieces_view(reps@).map_values(|p: Seq<char>| seq![p]),
            0,
        ),
{
    let ghost c = pieces_view(ls@);
    let ghost v = ranges_view(rs@);
    let ghost pv = pieces_view(reps@).map_values(|p: Seq<char>| seq![p]);
    let mut out: Vec<Vec<char>> = Vec::new();
    let mut pos: usize = 0;
    assert(pieces_view(out@) + splice_from(c, v, pv, 0) == splice_from(c, v, pv, 0));
    while pos < ls.len()
        invariant
            pos <= c.len(),
            c == pieces_view(ls@),
            v == ranges_view(rs@),
            pv == pieces_view(reps@).map_values(|p: Seq<char>| seq![p]),
            rs@.len() == reps@.len(),
            ranges_within(v, c.len() as int),
            pieces_view(out@) + splice_from(c, v, pv, pos as int) == splice_from(c, v, pv, 0),
        decreases ls.len() - pos,
    {
        let mut j: usize = 0;
        while j < rs.len() && rs[j].0 != pos
            invariant
                j <= rs@.len(),
                v == ranges_view(rs@),
                pos < c.len(),
                forall|b: int| 0 <= b < j ==> (#[trigger] v[b]).0 != pos,
            decreases rs.len() - j,
        {
            j = j + 1;
        }
        proof {
            lemma_first_range_at(v, pos as int, c.len() as int, 0);
            let f = first_range_at(v, pos as int, c.len() as int, 0);
            if j < rs@.len() {
                assert(0 <= v[j as int].0 < v[j as int].1 <= c.len());
                if f < j {
                    assert(v[f].0 != pos);
                }
                if f > j {
                    assert(!((v[j as int]).0 == pos && pos < v[j as int].1 <= c.len()));
                }
                assert(f == j);
            } else {
                if f < v.len() {
                    assert(v[f].0 != pos);
                }
                assert(f == v.len());
            }
        }
        let ghost before = pieces_view(out@);
        if j < rs.len() {
            let e = rs[j].1;
            assert(splice_from(c, v, pv, pos as int) == pv[j as int] + splice_from(c, v, pv, e as int));
            let piece = copy_chars(reps[j].as_slice());
            out.push(piece);
            assert(pv[j as int] == seq![reps@[j as int]@]);
            assert(pieces_view(out@) == before.push(piece@));
            assert(pieces_view(out@) + splice_from(c, v, pv, e as int) == before + (pv[j as int]
                + splice_from(c, v, pv, e as int)));
            pos = e;
        } else {
            assert(splice_from(c, v, pv, pos as int) == seq![c[pos as int]] + splice_from(
                c,
                v,
                pv,
                pos + 1,
            ));
            let piece = copy_chars(ls[pos].as_slice());
            out.push(piece);
            assert(pieces_view(out@) == before.push(piece@));
            assert(pieces_view(out@) + splice_from(c, v, pv, pos + 1) == before + (seq![c[pos as int]]
                + splice_from(c, v, pv, pos + 1)));
            pos = pos + 1;
        }
    }
    assert(splice_from(c, v, pv, pos as int) == Seq::<Seq<char>>::empty());
    assert(pieces_view(out@) + Seq::<Seq<char>>::empty() == pieces_view(out@));
    out
}

/// Applies line-range `chunks` to `content` as one transaction: each chunk
/// is checked against the original lines (the first that fails is
/// reported, as by [`verify_line_range`]), chunks may not share a line,
/// and only then are all ranges replaced. Any failure is a file error and
/// leaves nothing applied.
pub fn apply_line_range_edits(content: &str, chunks: &[LineRangeChunk]) -> (r: CoreResult<LineEditsReport>)
    ensures
        match line_edits_outcome(content@, chunks@) {
            Ok(text) => (r matches Ok(rep) && rep.new_content@ == text && rep.chunks_applied
                == chunks@.len() && rep.new_line_count == split_on(text, '\n').len()
                && rep.original_line_count == split_on(content@, '\n').len()),
            Err(msg) => (r matches Err(CoreError::File(m)) && m@ == msg),
        },
{
    if chunks.len() == 0 {
        return Err(CoreError::File(String::from_str("No edit chunks provided")));
    }
    let cs = chars_of(content);
    let lines = split_chars(cs.as_slice(), '\n');
    let ghost ls = pieces_view(lines@);
    let mut i: usize = 0;
    while i < chunks.len()
        invariant
            i <= chunks@.len(),
            ls == pieces_view(lines@),
            ls == split_on(content@, '\n'),
            first_failing_chunk(ls, chunks@, 0) == first_failing_chunk(ls, chunks@, i as int),
            forall|k: int| 0 <= k < i ==> chunk_holds(ls, #[trigger] chunks@[k]),
        decreases chunks.len() - i,
    {
        let c = &chunks[i];
        match verify_line_range(&lines, c.start_line, c.end_line, c.target_content.as_str()) {
            Err(e) => {
                assert(first_failing_chunk(ls, chunks@, i as int) == i);
                return Err(e);
            },
            Ok(()) => {},
        }
        i = i + 1;
    }
    assert(first_failing_chunk(ls, chunks@, i as int) == chunks@.len());
    let mut rs: Vec<(usize, usize)> = Vec::new();
    let mut reps: Vec<Vec<char>> = Vec::new();
    let mut j: usize = 0;
    while j < chunks.len()
        invariant
            j <= chunks@.len(),
            forall|k: int| 0 <= k < chunks@.len() ==> chunk_holds(ls, #[trigger] chunks@[k]),
            ranges_view(rs@) == chunk_ranges(chunks@).take(j as int),
            pieces_view(reps@).map_values(|p: Seq<char>| seq![p]) == chunk_replacements(
                chunks@,
            ).take(j as int),
            rs@.len() == j,
            reps@.len() == j,
        decreases chunks.len() - j,
    {
        let c = &chunks[j];
        assert(chunk_holds(ls, chunks@[j as int]));
        let ghost rv = ranges_view(rs@);
        let ghost pv = pieces_view(reps@).map_values(|p: Seq<char>| seq![p]);
        rs.push((c.start_line - 1, c.end_line));
        let rep = chars_of(c.replacement_content.as_str());
        reps.push(rep);
        assert(ranges_view(rs@) == rv.push(((c.start_line - 1) as int, c.end_line as int)));
        assert(pieces_view(reps@).map_values(|p: Seq<char>| seq![p]) == pv.push(seq![rep@]));
        assert(chunk_ranges(chunks@).take(j + 1) == chunk_ranges(chunks@).take(j as int).push(
            chunk_ranges(chunks@)[j as int],
        ));
        assert(chunk_replacements(chunks@).take(j + 1) == chunk_replacements(chunks@).take(
            j as int,
        ).push(chunk_replacements(chunks@)[j as int]));
        j = j + 1;
    }
    assert(chunk_ranges(chunks@).take(j as int) == chunk_ranges(chunks@));
    assert(chunk_replacements(chunks@).take(j as int) == chunk_replacements(chunks@));
    if !ranges_disjoint_exec(&rs) {
        return Err(CoreError::File(String::from_str(
            "Two edits cover overlapping line ranges. Merge them into one edit, or split them into separate calls.",
        )));
    }
    assert(ranges_within(ranges_view(rs@), ls.len() as int)) by {
        assert forall|k: int| 0 <= k < ranges_view(rs@).len() implies 0 <= (
        #[trigger] ranges_view(rs@)[k]).0 < ranges_view(rs@)[k].1 <= ls.len() by {
            assert(chunk_holds(ls, chunks@[k]));
        }
    }
    let out = splice_lines(&lines, &rs, &reps);
    let nl = newline_sep();
    let joined = join_chars(&out, nl.as_slice());
    let new_line_count = split_chars(joined.as_slice(), '\n').len();
    Ok(
        LineEditsReport {
            new_content: string_of(joined.as_slice()),
            chunks_applied: chunks.len(),
            new_line_count,
            original_line_count: lines.len(),
        },
    )
}

/// One chunk is a one-element edit list: it edits exactly as the single
/// line-range editor does, and fails with the same message.
pub proof fn law_one_chunk_is_a_single_edit(content: Seq<char>, c: LineRangeChunk)
    ensures
        ({
            let ls = split_on(content, '\n');
            &&& chunk_holds(ls, c) ==> line_edits_outcome(content, seq![c]) == Ok::<
                Seq<char>,
                Seq<char>,
            >(
                join_with(
                    replaced_lines(
                        ls,
                        c.start_line as int,
                        c.end_line as int,
                        c.replacement_content@,
                    ),
                    seq!['\n'],
                ),
            )
            &&& !chunk_holds(ls, c) ==> line_edits_outcome(content, seq![c]) == Err::<
                Seq<char>,
                Seq<char>,
            >(chunk_failure_text(ls, c))
        }),
{
    let ls = split_on(content, '\n');
    let chunks = seq![c];
    assert(chunks[0] == c);
    if chunk_holds(ls, c) {
        assert(first_failing_chunk(ls, chunks, 1) == 1);
        assert(first_failing_chunk(ls, chunks, 0) == 1);
        let s = c.start_line - 1;
        let e = c.end_line as int;
        assert(chunk_ranges(chunks) =~= seq![(s, e)]);
        assert(chunk_replacements(chunks) =~= seq![seq![c.replacement_content@]]);
        lemma_splice_single(ls, s, e, seq![c.replacement_content@], 0);
        assert(ls.subrange(0, s) + seq![c.replacement_content@] + ls.skip(e) =~= replaced_lines(
            ls,
            c.start_line as int,
            c.end_line as int,
            c.replacement_content@,
        ));
    } else {
        assert(first_failing_chunk(ls, chunks, 0) == 0);
    }
}

proof fn lemma_first_failing_chunk(ls: Seq<Seq<char>>, chunks: Seq<LineRangeChunk>, j: int)
    requires
        0 <= j <= chunks.len(),
    ensures
        j <= first_failing_chunk(ls, chunks, j) <= chunks.len(),
        first_failing_chunk(ls, chunks, j) < chunks.len() ==> !chunk_holds(
            ls,
            chunks[first_failing_chunk(ls, chunks, j)],
        ),
        forall|k: int| j <= k < first_failing_chunk(ls, chunks, j) ==> chunk_holds(ls, #[trigger] chunks[k]),
    decreases chunks.len() - j,
{
    if j < chunks.len() && chunk_holds(ls, chunks[j]) {
        lemma_first_failing_chunk(ls, chunks, j + 1);
    }
}

/// Which order line-range chunks are listed in does not matter: when every
/// chunk holds, any other order gives the same outcome.
pub proof fn law_line_chunk_order_irrelevant(
    content: Seq<char>,
    chunks: Seq<LineRangeChunk>,
    perm: Seq<int>,
    inv: Seq<int>,
)
    requires
        is_permutation(perm, inv, chunks.len() as int),
        forall|k: int| 0 <= k < chunks.len() ==> chunk_holds(split_on(content, '\n'), #[trigger] chunks[k]),
    ensures
        line_edits_outcome(content, permuted(chunks, perm)) == line_edits_outcome(content, chunks),
{
    let ls = split_on(content, '\n');
    let n = chunks.len() as int;
    let chunks2 = permuted(chunks, perm);
    lemma_first_failing_chunk(ls, chunks, 0);
    lemma_first_failing_chunk(ls, chunks2, 0);
    if first_failing_chunk(ls, chunks, 0) < n {
        assert(false);
    }
    if first_failing_chunk(ls, chunks2, 0) < n {
        let k = first_failing_chunk(ls, chunks2, 0);
        assert(chunks2[k] == chunks[perm[k]]);
        assert(false);
    }
    if n > 0 {
        let rs = chunk_ranges(chunks);
        let rs2 = chunk_ranges(chunks2);
        assert(rs2 =~= permuted(rs, perm));
        let reps = chunk_replacements(chunks);
        assert(chunk_replacements(chunks2) =~= permuted(reps, perm));
        if ranges_disjoint(rs) {
            assert forall|i: int, j: int| 0 <= i < j < rs2.len() implies (#[trigger] rs2[i]).1 <= (
            #[trigger] rs2[j]).0 || rs2[j].1 <= rs2[i].0 by {
                let a = perm[i];
                let b = perm[j];
                assert(a != b) by {
                    if a == b {
                        assert(inv[a] == i && inv[b] == j);
                    }
                }
                assert(rs2[i] == rs[a] && rs2[j] == rs[b]);
                if a < b {
                    assert((rs[a]).1 <= (rs[b]).0 || rs[b].1 <= rs[a].0);
                } else {
                    assert((rs[b]).1 <= (rs[a]).0 || rs[a].1 <= rs[b].0);
                }
            }
            lemma_splice_permuted(ls, rs, reps, perm, inv, 0);
        } else {
            let (a, b) = choose|a: int, b: int|
                0 <= a < b < rs.len() && !((#[trigger] rs[a]).1 <= (#[trigger] rs[b]).0 || rs[b].1
                    <= rs[a].0);
            let i = inv[a];
            let j = inv[b];
            assert(rs2[i] == rs[a] && rs2[j] == rs[b]);
            assert(i != j);
            if i < j {
                assert(!((rs2[i]).1 <= (rs2[j]).0 || rs2[j].1 <= rs2[i].0));
            } else {
                assert(!((rs2[j]).1 <= (rs2[i]).0 || rs2[i].1 <= rs2[j].0));
            }
            assert(!ranges_disjoint(rs2));
        }
    }
}

/// What `read_file` shows as line `n` is a valid single-line edit target
/// at line `n`: a chunk that names line `n` and gives its shown text holds
/// (a `\r` that `read_file` hides before a line break is whitespace, which
/// the comparison trims).
pub proof fn law_shown_lines_are_edit_targets(content: Seq<char>, c: LineRangeChunk)
    requires
        1 <= c.start_line <= file_lines(content).len(),
        c.end_line == c.start_line,
        c.target_content@ == file_lines(content)[c.start_line - 1],
    ensures
        chunk_holds(split_on(content, '\n'), c),
{
    lemma_split_normalized(content);
    let ls = split_on(content, '\n');
    let shown = file_lines(content);
    let n = c.start_line as int;
    assert(ls.subrange(n - 1, n) =~= seq![ls[n - 1]]);
    if ls[n - 1] != shown[n - 1] {
        assert(ls[n - 1] == shown[n - 1].push('\r'));
        assert(is_ws('\r'));
        lemma_trim_ignores_trailing_ws(shown[n - 1], '\r');
    }
}

/// One edit chunk as a request gives it: matched by content, or by line
/// range.
#[derive(Debug)]
pub enum AnyEditChunk {
    Content(EditChunk),
    Lines(LineRangeChunk),
}

/// A request's chunks once sorted by kind: all line-range chunks, or all
/// content chunks.
#[derive(Debug)]
pub enum ChunkBatch {
    Lines(Vec<LineRangeChunk>),
    Content(Vec<EditChunk>),
}

/// Every chunk is a line-range chunk (so an empty list is one too).
pub open spec fn all_line_chunks(cs: Seq<AnyEditChunk>) -> bool {
    forall|i: int| 0 <= i < cs.len() ==> #[trigger] cs[i] is Lines
}

/// Every chunk is a content chunk.
pub open spec fn all_content_chunks(cs: Seq<AnyEditChunk>) -> bool {
    forall|i: int| 0 <= i < cs.len() ==> #[trigger] cs[i] is Content
}

fn copy_line_chunk(c: &LineRangeChunk) -> (r: LineRangeChunk)
    ensures
        r == *c,
{
    LineRangeChunk {
        start_line: c.start_line,
        end_line: c.end_line,
        target_content: c.target_content.clone(),
        replacement_content: c.replacement_content.clone(),
    }
}

fn copy_content_chunk(c: &EditChunk) -> (r: EditChunk)
    ensures
        r == *c,
{
    EditChunk { old_string: c.old_string.clone(), new_string: c.new_string.clone() }
}

/// Sorts a request's chunks by kind: line-range chunks (when every chunk is
/// one, the empty list included), else content chunks (when every chunk is
/// one); a list that mixes the two is a parsing error.
pub fn sort_edit_chunks(chunks: &Vec<AnyEditChunk>) -> (r: CoreResult<ChunkBatch>)
    ensures
        all_line_chunks(chunks@) ==> (r matches Ok(ChunkBatch::Lines(v)) && v@.len() == chunks@.len()
            && forall|i: int| 0 <= i < v@.len() ==> chunks@[i] == AnyEditChunk::Lines(#[trigger] v@[i])),
        !all_line_chunks(chunks@) && all_content_chunks(chunks@) ==> (r matches Ok(
            ChunkBatch::Content(v),
        ) && v@.len() == chunks@.len() && forall|i: int|
            0 <= i < v@.len() ==> chunks@[i] == AnyEditChunk::Content(#[trigger] v@[i])),
        !all_line_chunks(chunks@) && !all_content_chunks(chunks@) ==> (r matches Err(
            CoreError::Parsing(m),
        ) && m@ == "Invalid arguments for edit_file: edits mix line-range and content chunks"@),
{
    let mut line_kinds = true;
    let mut content_kinds = true;
    let mut k: usize = 0;
    while k < chunks.len()
        invariant
            k <= chunks@.len(),
            line_kinds == forall|j: int| 0 <= j < k ==> #[trigger] chunks@[j] is Lines,
            content_kinds == forall|j: int| 0 <= j < k ==> #[trigger] chunks@[j] is Content,
        decreases chunks.len() - k,
    {
        match &chunks[k] {
            AnyEditChunk::Lines(_) => content_kinds = false,
            AnyEditChunk::Content(_) => line_kinds = false,
        }
        k = k + 1;
    }
    if line_kinds {
        let mut lines: Vec<LineRangeChunk> = Vec::new();
        let mut i: usize = 0;
        while i < chunks.len()
            invariant
                i <= chunks@.len(),
                all_line_chunks(chunks@),
                lines@.len() == i,
                forall|j: int| 0 <= j < i ==> chunks@[j] == AnyEditChunk::Lines(#[trigger] lines@[j]),
            decreases chunks.len() - i,
        {
            assert(chunks@[i as int] is Lines);
            match &chunks[i] {
                AnyEditChunk::Lines(c) => lines.push(copy_line_chunk(c)),
                AnyEditChunk::Content(_) => {},
            }
            i = i + 1;
        }
        return Ok(ChunkBatch::Lines(lines));
    }
    if !content_kinds {
        return Err(CoreError::Parsing(
            String::from_str("Invalid arguments for edit_file: edits mix line-range and content chunks"),
        ));
    }
    let mut contents: Vec<EditChunk> = Vec::new();
    let mut j: usize = 0;
    while j < chunks.len()
        invariant
            j <= chunks@.len(),
            all_content_chunks(chunks@),
            contents@.len() == j,
            forall|m: int| 0 <= m < j ==> chunks@[m] == AnyEditChunk::Content(#[trigger] contents@[m]),
        decreases chunks.len() - j,
    {
        assert(chunks@[j as int] is Content);
        match &chunks[j] {
            AnyEditChunk::Content(c) => contents.push(copy_content_chunk(c)),
            AnyEditChunk::Lines(_) => {},
        }
        j = j + 1;
    }
    Ok(ChunkBatch::Content(contents))
}

} // verus!
