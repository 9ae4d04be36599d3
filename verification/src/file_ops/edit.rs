//! Content-addressed editing: each chunk's `old_string` is located in the
//! file's text (exactly, else ignoring trailing whitespace on each line),
//! must be unique, and all chunks are applied together or not at all.

use vstd::prelude::*;
use crate::errors::{CoreError, CoreResult};
use crate::text::{
    append_chars, chars_eq, chars_of, count_char, count_char_exec, join_chars, join_with, lines,
    lines_chars, match_positions, match_positions_exec, normalize_crlf, normalize_crlf_chars,
    pieces_view, slice_range, split_on, split_chars, string_of, trim_end, trim_end_chars, decimal, decimal_chars,
    lemma_match_positions_bounds, lemma_split_len, lemma_count_char_bound, is_ws, lemma_split_join,
    lemma_split_on_nonempty, lemma_split_pieces_lack_sep, lemma_ws_suffix_len_bound, lemma_ws_suffix_props,
    strip_cr, ws_suffix_len, drops_only_trailing_whitespace,
};

verus! {

/// One replacement: the text to find and the text to put in its place.
#[derive(Debug)]
pub struct EditChunk {
    pub old_string: String,
    pub new_string: String,
}

/// Why a set of edit chunks could not be applied.
#[derive(Debug, PartialEq, Eq, Structural, Clone, Copy)]
pub enum EditFailure {
    NoChunks,
    EmptyOldString,
    /// The old string occurs this many times (exactly).
    Ambiguous(usize),
    NotFound,
    /// The old string matches this many places once trailing whitespace
    /// on each line is ignored.
    AmbiguousLoose(usize),
    Overlapping,
}

/// Every line of `t` without its trailing whitespace, rejoined with `\n`.
pub open spec fn trim_line_ends(t: Seq<char>) -> Seq<char> {
    join_with(lines(t).map_values(|l: Seq<char>| trim_end(l)), seq!['\n'])
}

/// Index of the `rem`-th line feed (counting from one) at or after `i`, or
/// `h.len()` when there are fewer.
pub open spec fn nth_newline_from(h: Seq<char>, i: int, rem: nat) -> int
    decreases h.len() - i,
{
    if i < 0 || i >= h.len() {
        h.len() as int
    } else if h[i] == '\n' {
        if rem <= 1 {
            i
        } else {
            nth_newline_from(h, i + 1, (rem - 1) as nat)
        }
    } else {
        nth_newline_from(h, i + 1, rem)
    }
}

/// A line starts at `i`: the text's start, or just after a line feed.
pub open spec fn is_line_start(h: Seq<char>, i: int) -> bool {
    i == 0 || (1 <= i <= h.len() && h[i - 1] == '\n')
}

/// The `k`-line stretch of `h` starting at `st` that a loose match compares.
pub open spec fn candidate(h: Seq<char>, st: int, k: nat) -> Seq<char> {
    h.subrange(st, nth_newline_from(h, st, k))
}

/// Loose matches of `tn` (a needle with its line ends trimmed, `k` lines)
/// starting before `m`, in order: line starts whose `k`-line stretch equals
/// `tn` once its own line ends are trimmed.
pub open spec fn loose_matches_upto(h: Seq<char>, tn: Seq<char>, k: nat, m: int) -> Seq<(int, int)>
    decreases m,
{
    if m <= 0 {
        Seq::<(int, int)>::empty()
    } else {
        let rest = loose_matches_upto(h, tn, k, m - 1);
        let st = m - 1;
        if st <= h.len() && is_line_start(h, st) && trim_line_ends(candidate(h, st, k)) == tn {
            rest.push((st, nth_newline_from(h, st, k)))
        } else {
            rest
        }
    }
}

pub open spec fn loose_matches(h: Seq<char>, n: Seq<char>) -> Seq<(int, int)> {
    let tn = trim_line_ends(n);
    loose_matches_upto(h, tn, lines(tn).len(), h.len() + 1int)
}

/// Where the single occurrence of `n` in `h` lies: the exact occurrence if
/// there is exactly one (overlapping occurrences count), otherwise (only
/// when there is none) the single loose occurrence. A needle made of
/// whitespace and line breaks only, with no exact occurrence, is not found.
pub open spec fn locate(h: Seq<char>, n: Seq<char>) -> Result<(int, int), EditFailure> {
    let exact = match_positions(h, n);
    if n.len() == 0 {
        Err(EditFailure::EmptyOldString)
    } else if exact.len() == 1 {
        Ok((exact[0], exact[0] + n.len()))
    } else if exact.len() > 1 {
        Err(EditFailure::Ambiguous(exact.len() as usize))
    } else if trim_line_ends(n).len() == 0 {
        Err(EditFailure::NotFound)
    } else {
        let loose = loose_matches(h, n);
        if loose.len() == 1 {
            Ok(loose[0])
        } else if loose.len() == 0 {
            Err(EditFailure::NotFound)
        } else {
            Err(EditFailure::AmbiguousLoose(loose.len() as usize))
        }
    }
}

/// Every line of `t` without its trailing whitespace, rejoined with `\n`.
pub fn trim_line_ends_chars(t: &[char]) -> (r: Vec<char>)
    ensures
        r@ == trim_line_ends(t@),
{
    let ls = lines_chars(t);
    let ghost lv = pieces_view(ls@);
    let mut out: Vec<Vec<char>> = Vec::new();
    let mut i: usize = 0;
    while i < ls.len()
        invariant
            i <= ls.len(),
            lv == pieces_view(ls@),
            lv == lines(t@),
            pieces_view(out@) == lv.map_values(|l: Seq<char>| trim_end(l)).take(i as int),
        decreases ls.len() - i,
    {
        let te = trim_end_chars(ls[i].as_slice());
        let ghost before = pieces_view(out@);
        out.push(te);
        proof {
            let m = lv.map_values(|l: Seq<char>| trim_end(l));
            assert(pieces_view(out@) == before.push(te@));
            assert(m.take(i + 1) == m.take(i as int).push(m[i as int]));
        }
        i = i + 1;
    }
    assert(lv.map_values(|l: Seq<char>| trim_end(l)).take(i as int) == lv.map_values(
        |l: Seq<char>| trim_end(l),
    ));
    let mut sep: Vec<char> = Vec::new();
    sep.push('\n');
    assert(sep@ == seq!['\n']);
    join_chars(&out, sep.as_slice())
}

/// Index of the `k`-th line feed at or after `st`, or `h.len()`.
pub fn nth_newline_exec(h: &[char], st: usize, k: usize) -> (r: usize)
    requires
        st <= h@.len(),
    ensures
        r as int == nth_newline_from(h@, st as int, k as nat),
        st <= r <= h@.len(),
{
    let mut i = st;
    let mut rem = k;
    while i < h.len()
        invariant
            st <= i <= h@.len(),
            nth_newline_from(h@, i as int, rem as nat) == nth_newline_from(h@, st as int, k as nat),
        decreases h.len() - i,
    {
        if h[i] == '\n' {
            if rem <= 1 {
                return i;
            }
            rem = rem - 1;
        }
        i = i + 1;
    }
    i
}

/// View of a vector of index pairs.
pub open spec fn ranges_view(v: Seq<(usize, usize)>) -> Seq<(int, int)> {
    v.map_values(|p: (usize, usize)| (p.0 as int, p.1 as int))
}

proof fn lemma_trim_line_ends_empty()
    ensures
        trim_line_ends(Seq::<char>::empty()) == Seq::<char>::empty(),
{
    let e = Seq::<char>::empty();
    assert(split_on(e, '\n') == seq![e]);
    assert(lines(e) == Seq::<Seq<char>>::empty());
}

/// Records a loose match starting at `st` when there is one.
fn consider_line_start(
    h: &[char],
    tn: &Vec<char>,
    k: usize,
    st: usize,
    r: &mut Vec<(usize, usize)>,
)
    requires
        st <= h@.len(),
        tn@.len() > 0,
        trim_line_ends(Seq::<char>::empty()) == Seq::<char>::empty(),
        ranges_view(old(r)@) == loose_matches_upto(h@, tn@, k as nat, st as int),
        forall|j: int| 0 <= j < old(r)@.len() ==> (#[trigger] old(r)@[j]).0 < old(r)@[j].1 <= h@.len(),
    ensures
        ranges_view(final(r)@) == loose_matches_upto(h@, tn@, k as nat, st + 1),
        forall|j: int| 0 <= j < final(r)@.len() ==> (#[trigger] final(r)@[j]).0 < final(r)@[j].1 <= h@.len(),
{
    let ghost before = r@;
    if st == 0 || h[st - 1] == '\n' {
        let e = nth_newline_exec(h, st, k);
        let cand = slice_range(h, st, e);
        let tc = trim_line_ends_chars(cand.as_slice());
        if chars_eq(tc.as_slice(), tn.as_slice()) {
            if e == st {
                assert(cand@ == Seq::<char>::empty());
                assert(false);
            }
            r.push((st, e));
            assert(ranges_view(r@) == ranges_view(before).push((st as int, e as int)));
        }
    }
}

/// The loose matches of `n` in `h`.
pub fn loose_matches_exec(h: &[char], n: &[char]) -> (r: Vec<(usize, usize)>)
    requires
        trim_line_ends(n@).len() > 0,
    ensures
        ranges_view(r@) == loose_matches(h@, n@),
        forall|j: int| 0 <= j < r@.len() ==> (#[trigger] r@[j]).0 < r@[j].1 <= h@.len(),
{
    let tn = trim_line_ends_chars(n);
    let k = lines_chars(tn.as_slice()).len();
    let mut r: Vec<(usize, usize)> = Vec::new();
    let mut st: usize = 0;
    proof {
        lemma_trim_line_ends_empty();
    }
    assert(ranges_view(r@) == loose_matches_upto(h@, tn@, k as nat, 0));
    while st < h.len()
        invariant
            st <= h@.len(),
            tn@ == trim_line_ends(n@),
            tn@.len() > 0,
            k as nat == lines(tn@).len(),
            trim_line_ends(Seq::<char>::empty()) == Seq::<char>::empty(),
            ranges_view(r@) == loose_matches_upto(h@, tn@, k as nat, st as int),
            forall|j: int| 0 <= j < r@.len() ==> (#[trigger] r@[j]).0 < r@[j].1 <= h@.len(),
        decreases h@.len() - st,
    {
        consider_line_start(h, &tn, k, st, &mut r);
        st = st + 1;
    }
    consider_line_start(h, &tn, k, st, &mut r);
    r
}

/// Where the single occurrence of `n` in `h` lies.
pub fn locate_exec(h: &[char], n: &[char]) -> (r: Result<(usize, usize), EditFailure>)
    ensures
        r matches Ok(p) ==> locate(h@, n@) == Ok::<(int, int), EditFailure>((p.0 as int, p.1 as int)),
        r matches Ok(p) ==> p.0 < p.1 <= h@.len(),
        r matches Err(f) ==> locate(h@, n@) == Err::<(int, int), EditFailure>(f),
{
    if n.len() == 0 {
        return Err(EditFailure::EmptyOldString);
    }
    let exact = match_positions_exec(h, n);
    proof {
        lemma_match_positions_bounds(h@, n@, 0);
    }
    if exact.len() == 1 {
        let p = exact[0];
        assert(crate::text::matches_at(h@, n@, match_positions(h@, n@)[0]));
        assert(p as int == match_positions(h@, n@)[0]);
        assert(p as int + n@.len() <= h@.len());
        assert(h@.len() == h.len());
        return Ok((p, p + n.len()));
    } else if exact.len() > 1 {
        return Err(EditFailure::Ambiguous(exact.len()));
    }
    let tn = trim_line_ends_chars(n);
    if tn.len() == 0 {
        return Err(EditFailure::NotFound);
    }
    let loose = loose_matches_exec(h, n);
    if loose.len() == 1 {
        assert(ranges_view(loose@)[0] == (loose@[0].0 as int, loose@[0].1 as int));
        Ok(loose[0])
    } else if loose.len() == 0 {
        Err(EditFailure::NotFound)
    } else {
        Err(EditFailure::AmbiguousLoose(loose.len()))
    }
}

/// The `old_string`s of `edits`, in order.
pub open spec fn old_strings(edits: Seq<EditChunk>) -> Seq<Seq<char>> {
    edits.map_values(|e: EditChunk| e.old_string@)
}

/// The `new_string`s of `edits`, in order.
pub open spec fn new_strings(edits: Seq<EditChunk>) -> Seq<Seq<char>> {
    edits.map_values(|e: EditChunk| e.new_string@)
}

/// Locates every needle in order; the first that fails decides the error.
pub open spec fn resolve(h: Seq<char>, olds: Seq<Seq<char>>) -> Result<Seq<(int, int)>, EditFailure>
    decreases olds.len(),
{
    if olds.len() == 0 {
        Ok(Seq::<(int, int)>::empty())
    } else {
        match resolve(h, olds.drop_last()) {
            Err(f) => Err(f),
            Ok(rs) => match locate(h, olds.last()) {
                Err(f) => Err(f),
                Ok(r) => Ok(rs.push(r)),
            },
        }
    }
}

/// No two of the ranges share a position.
pub open spec fn ranges_disjoint(rs: Seq<(int, int)>) -> bool {
    forall|i: int, j: int|
        0 <= i < j < rs.len() ==> (#[trigger] rs[i]).1 <= (#[trigger] rs[j]).0 || rs[j].1 <= rs[i].0
}

/// Every range is non-empty and lies within `len`.
pub open spec fn ranges_within(rs: Seq<(int, int)>, len: int) -> bool {
    forall|i: int| 0 <= i < rs.len() ==> 0 <= (#[trigger] rs[i]).0 < rs[i].1 <= len
}

/// Index of the first range at or after `j` that starts at `pos` and ends
/// within `(pos, len]`, or `rs.len()` when there is none.
pub open spec fn first_range_at(rs: Seq<(int, int)>, pos: int, len: int, j: int) -> int
    decreases rs.len() - j,
{
    if j < 0 || j >= rs.len() {
        rs.len() as int
    } else if rs[j].0 == pos && pos < rs[j].1 <= len {
        j
    } else {
        first_range_at(rs, pos, len, j + 1)
    }
}

/// `c` from `pos` on, with the text of each range replaced by its
/// replacement and everything outside the ranges kept.
pub open spec fn splice_from<A>(
    c: Seq<A>,
    rs: Seq<(int, int)>,
    reps: Seq<Seq<A>>,
    pos: int,
) -> Seq<A>
    decreases c.len() - pos,
{
    if pos < 0 || pos >= c.len() {
        Seq::<A>::empty()
    } else {
        let j = first_range_at(rs, pos, c.len() as int, 0);
        if 0 <= j < rs.len() && pos < rs[j].1 <= c.len() {
            reps[j] + splice_from(c, rs, reps, rs[j].1)
        } else {
            seq![c[pos]] + splice_from(c, rs, reps, pos + 1)
        }
    }
}

pub proof fn lemma_first_range_at(rs: Seq<(int, int)>, pos: int, len: int, j: int)
    requires
        0 <= j <= rs.len(),
    ensures
        ({
            let f = first_range_at(rs, pos, len, j);
            &&& j <= f <= rs.len()
            &&& f < rs.len() ==> rs[f].0 == pos && pos < rs[f].1 <= len
            &&& forall|b: int| j <= b < f ==> !((#[trigger] rs[b]).0 == pos && pos < rs[b].1 <= len)
        }),
    decreases rs.len() - j,
{
    if j < rs.len() && !(rs[j].0 == pos && pos < rs[j].1 <= len) {
        lemma_first_range_at(rs, pos, len, j + 1);
    }
}

/// The result of applying `edits` to the file text `content` (after its
/// `\r\n` line ends become `\n`): the text with every chunk's matched range
/// replaced by its `new_string`, or the reason nothing is applied.
pub open spec fn edit_outcome(content: Seq<char>, edits: Seq<EditChunk>) -> Result<
    Seq<char>,
    EditFailure,
> {
    let c = normalize_crlf(content);
    if edits.len() == 0 {
        Err(EditFailure::NoChunks)
    } else {
        match resolve(c, old_strings(edits)) {
            Err(f) => Err(f),
            Ok(rs) => if !ranges_disjoint(rs) {
                Err(EditFailure::Overlapping)
            } else {
                Ok(splice_from(c, rs, new_strings(edits), 0))
            },
        }
    }
}

/// Locates every chunk's `old_string` in `h`, in order.
pub fn resolve_exec(h: &[char], edits: &[EditChunk]) -> (r: Result<Vec<(usize, usize)>, EditFailure>)
    ensures
        r matches Ok(v) ==> resolve(h@, old_strings(edits@)) == Ok::<Seq<(int, int)>, EditFailure>(
            ranges_view(v@),
        ),
        r matches Ok(v) ==> ranges_within(ranges_view(v@), h@.len() as int),
        r matches Err(f) ==> resolve(h@, old_strings(edits@)) == Err::<Seq<(int, int)>, EditFailure>(f),
{
    let mut out: Vec<(usize, usize)> = Vec::new();
    let mut i: usize = 0;
    assert(old_strings(edits@).take(0) == Seq::<Seq<char>>::empty());
    assert(ranges_view(out@) == Seq::<(int, int)>::empty());
    while i < edits.len()
        invariant
            i <= edits@.len(),
            resolve(h@, old_strings(edits@).take(i as int)) == Ok::<Seq<(int, int)>, EditFailure>(
                ranges_view(out@),
            ),
            ranges_within(ranges_view(out@), h@.len() as int),
        decreases edits.len() - i,
    {
        let ghost olds = old_strings(edits@);
        proof {
            assert(olds.take(i + 1).drop_last() == olds.take(i as int));
            assert(olds.take(i + 1).last() == edits@[i as int].old_string@);
        }
        let needle = chars_of(edits[i].old_string.as_str());
        match locate_exec(h, needle.as_slice()) {
            Err(f) => {
                proof {
                    lemma_resolve_err_extends(h@, old_strings(edits@), i + 1, f);
                }
                return Err(f);
            },
            Ok(p) => {
                let ghost before = out@;
                out.push(p);
                assert(ranges_view(out@) == ranges_view(before).push((p.0 as int, p.1 as int)));
            },
        }
        i = i + 1;
    }
    assert(old_strings(edits@).take(i as int) == old_strings(edits@));
    Ok(out)
}

proof fn lemma_resolve_len(h: Seq<char>, olds: Seq<Seq<char>>)
    ensures
        resolve(h, olds) matches Ok(rs) ==> rs.len() == olds.len(),
    decreases olds.len(),
{
    if olds.len() > 0 {
        lemma_resolve_len(h, olds.drop_last());
    }
}

proof fn lemma_resolve_err_extends(h: Seq<char>, olds: Seq<Seq<char>>, n: int, f: EditFailure)
    requires
        0 <= n <= olds.len(),
        resolve(h, olds.take(n)) == Err::<Seq<(int, int)>, EditFailure>(f),
    ensures
        resolve(h, olds) == Err::<Seq<(int, int)>, EditFailure>(f),
    decreases olds.len() - n,
{
    if n < olds.len() {
        assert(olds.take(n + 1).drop_last() == olds.take(n));
        lemma_resolve_err_extends(h, olds, n + 1, f);
    } else {
        assert(olds.take(n) == olds);
    }
}

/// Whether the ranges are pairwise disjoint.
pub fn ranges_disjoint_exec(rs: &Vec<(usize, usize)>) -> (r: bool)
    ensures
        r == ranges_disjoint(ranges_view(rs@)),
{
    let ghost v = ranges_view(rs@);
    let mut i: usize = 0;
    while i < rs.len()
        invariant
            i <= rs@.len(),
            v == ranges_view(rs@),
            forall|a: int, b: int|
                0 <= a < i && a < b < rs@.len() ==> (#[trigger] v[a]).1 <= (#[trigger] v[b]).0 || v[b].1
                    <= v[a].0,
        decreases rs.len() - i,
    {
        let mut j: usize = i + 1;
        while j < rs.len()
            invariant
                i < rs@.len(),
                i + 1 <= j <= rs@.len(),
                v == ranges_view(rs@),
                forall|a: int, b: int|
                    0 <= a < i && a < b < rs@.len() ==> (#[trigger] v[a]).1 <= (#[trigger] v[b]).0
                        || v[b].1 <= v[a].0,
                forall|b: int| i < b < j ==> v[i as int].1 <= (#[trigger] v[b]).0 || v[b].1 <= v[i as int].0,
            decreases rs.len() - j,
        {
            let (s1, e1) = rs[i];
            let (s2, e2) = rs[j];
            if !(e1 <= s2 || e2 <= s1) {
                assert(!((v[i as int]).1 <= (v[j as int]).0 || v[j as int].1 <= v[i as int].0));
                return false;
            }
            j = j + 1;
        }
        i = i + 1;
    }
    true
}

/// `c` with each range replaced by its replacement.
pub fn splice_exec(c: &[char], rs: &Vec<(usize, usize)>, reps: &Vec<Vec<char>>) -> (r: Vec<char>)
    requires
        rs@.len() == reps@.len(),
        ranges_within(ranges_view(rs@), c@.len() as int),
    ensures
        r@ == splice_from(c@, ranges_view(rs@), pieces_view(reps@), 0),
{
    let ghost v = ranges_view(rs@);
    let ghost pv = pieces_view(reps@);
    let mut out: Vec<char> = Vec::new();
    let mut pos: usize = 0;
    assert(out@ + splice_from(c@, v, pv, 0) == splice_from(c@, v, pv, 0));
    while pos < c.len()
        invariant
            pos <= c@.len(),
            v == ranges_view(rs@),
            pv == pieces_view(reps@),
            rs@.len() == reps@.len(),
            ranges_within(v, c@.len() as int),
            out@ + splice_from(c@, v, pv, pos as int) == splice_from(c@, v, pv, 0),
        decreases c.len() - pos,
    {
        let mut j: usize = 0;
        while j < rs.len() && rs[j].0 != pos
            invariant
                j <= rs@.len(),
                v == ranges_view(rs@),
                pos < c@.len(),
                forall|b: int| 0 <= b < j ==> (#[trigger] v[b]).0 != pos,
            decreases rs.len() - j,
        {
            j = j + 1;
        }
        proof {
            lemma_first_range_at(v, pos as int, c@.len() as int, 0);
            let f = first_range_at(v, pos as int, c@.len() as int, 0);
            if j < rs@.len() {
                assert(0 <= v[j as int].0 < v[j as int].1 <= c@.len());
                if f < j {
                    assert(v[f].0 != pos);
                }
                if f > j {
                    assert(!((v[j as int]).0 == pos && pos < v[j as int].1 <= c@.len()));
                }
                assert(f == j);
            } else {
                if f < v.len() {
                    assert(v[f].0 != pos);
                }
                assert(f == v.len());
            }
        }
        let ghost before = out@;
        if j < rs.len() {
            let e = rs[j].1;
            assert(splice_from(c@, v, pv, pos as int) == pv[j as int] + splice_from(c@, v, pv, e as int));
            append_chars(&mut out, reps[j].as_slice());
            assert(out@ + splice_from(c@, v, pv, e as int) == before + (pv[j as int] + splice_from(
                c@,
                v,
                pv,
                e as int,
            )));
            pos = e;
        } else {
            assert(splice_from(c@, v, pv, pos as int) == seq![c@[pos as int]] + splice_from(
                c@,
                v,
                pv,
                pos + 1,
            ));
            out.push(c[pos]);
            assert(out@ + splice_from(c@, v, pv, pos + 1) == before + (seq![c@[pos as int]]
                + splice_from(c@, v, pv, pos + 1)));
            pos = pos + 1;
        }
    }
    assert(splice_from(c@, v, pv, pos as int) == Seq::<char>::empty());
    assert(out@ + Seq::<char>::empty() == out@);
    out
}

/// The message reported (as a file error) for each edit failure.
pub open spec fn edit_failure_text(f: EditFailure, path: Seq<char>) -> Seq<char> {
    match f {
        EditFailure::NoChunks => "No edit chunks provided"@,
        EditFailure::EmptyOldString => "old_string must not be empty — to create a file use write_file"@,
        EditFailure::Ambiguous(n) => "old_string is not unique in '"@ + path + "': found "@ + decimal(
            n as nat,
        ) + " occurrences. Include more surrounding context to identify exactly one."@,
        EditFailure::NotFound => "old_string not found in '"@ + path
            + "'. Re-read the file — its content may differ from what you expected."@,
        EditFailure::AmbiguousLoose(n) => "old_string is not unique in '"@ + path + "': found "@
            + decimal(n as nat)
            + " whitespace-insensitive matches. Include more surrounding context to identify exactly one."@,
        EditFailure::Overlapping =>
            "Two edits matched overlapping regions of the file. Split them into separate calls, or widen their old_strings so they target distinct text."@,
    }
}

/// The message reported for an edit failure.
pub fn edit_failure_message(f: EditFailure, path: &str) -> (r: String)
    ensures
        r@ == edit_failure_text(f, path@),
{
    match f {
        EditFailure::NoChunks => String::from_str("No edit chunks provided"),
        EditFailure::EmptyOldString => String::from_str(
            "old_string must not be empty — to create a file use write_file",
        ),
        EditFailure::Ambiguous(n) => {
            let mut m = String::from_str("old_string is not unique in '");
            m.append(path);
            m.append("': found ");
            let d = string_of(decimal_chars(n).as_slice());
            m.append(d.as_str());
            m.append(" occurrences. Include more surrounding context to identify exactly one.");
            m
        },
        EditFailure::NotFound => {
            let mut m = String::from_str("old_string not found in '");
            m.append(path);
            m.append("'. Re-read the file — its content may differ from what you expected.");
            m
        },
        EditFailure::AmbiguousLoose(n) => {
            let mut m = String::from_str("old_string is not unique in '");
            m.append(path);
            m.append("': found ");
            let d = string_of(decimal_chars(n).as_slice());
            m.append(d.as_str());
            m.append(
                " whitespace-insensitive matches. Include more surrounding context to identify exactly one.",
            );
            m
        },
        EditFailure::Overlapping => String::from_str(
            "Two edits matched overlapping regions of the file. Split them into separate calls, or widen their old_strings so they target distinct text.",
        ),
    }
}

/// What a successful multi-chunk edit produced.
pub struct EditReport {
    /// The file's new text.
    pub new_content: String,
    pub chunks_applied: usize,
    /// Lines (pieces between `\n`s) in the new text.
    pub new_line_count: usize,
    /// Lines in the file's text before the edit.
    pub original_line_count: usize,
}

/// Applies `edits` to the file text `raw_content` as one transaction: every
/// chunk's `old_string` is located (exactly, else ignoring trailing
/// whitespace per line) and must be unique, no two matched ranges may
/// overlap, and only then are all replacements made. Any failure leaves
/// nothing applied and is reported as a file error naming `path`.
pub fn apply_edit_chunks(raw_content: &str, edits: &[EditChunk], path: &str) -> (r: CoreResult<
    EditReport,
>)
    ensures
        r is Ok <==> edit_outcome(raw_content@, edits@) is Ok,
        r matches Ok(rep) ==> {
            &&& edit_outcome(raw_content@, edits@) == Ok::<Seq<char>, EditFailure>(rep.new_content@)
            &&& rep.chunks_applied == edits@.len()
            &&& rep.new_line_count == split_on(rep.new_content@, '\n').len()
            &&& rep.original_line_count == split_on(normalize_crlf(raw_content@), '\n').len()
        },
        r matches Err(e) ==> exists|f: EditFailure|
            {
                &&& edit_outcome(raw_content@, edits@) == Err::<Seq<char>, EditFailure>(f)
                &&& e matches CoreError::File(m) && m@ == edit_failure_text(f, path@)
            },
{
    if edits.len() == 0 {
        let m = edit_failure_message(EditFailure::NoChunks, path);
        return Err(CoreError::File(m));
    }
    let raw = chars_of(raw_content);
    let content = normalize_crlf_chars(raw.as_slice());
    let original_line_count = split_chars(content.as_slice(), '\n').len();
    match resolve_exec(content.as_slice(), edits) {
        Err(f) => {
            let m = edit_failure_message(f, path);
            Err(CoreError::File(m))
        },
        Ok(rs) => {
            if !ranges_disjoint_exec(&rs) {
                let m = edit_failure_message(EditFailure::Overlapping, path);
                return Err(CoreError::File(m));
            }
            let mut reps: Vec<Vec<char>> = Vec::new();
            let mut i: usize = 0;
            while i < edits.len()
                invariant
                    i <= edits@.len(),
                    pieces_view(reps@) == new_strings(edits@).take(i as int),
                decreases edits.len() - i,
            {
                let ghost before = pieces_view(reps@);
                let rep = chars_of(edits[i].new_string.as_str());
                reps.push(rep);
                assert(new_strings(edits@).take(i + 1) == new_strings(edits@).take(i as int).push(
                    edits@[i as int].new_string@,
                ));
                assert(pieces_view(reps@) == before.push(rep@));
                i = i + 1;
            }
            assert(new_strings(edits@).take(i as int) == new_strings(edits@));
            proof {
                lemma_resolve_len(content@, old_strings(edits@));
            }
            let spliced = splice_exec(content.as_slice(), &rs, &reps);
            let new_line_count = split_chars(spliced.as_slice(), '\n').len();
            let new_content = string_of(spliced.as_slice());
            Ok(
                EditReport {
                    new_content,
                    chunks_applied: edits.len(),
                    new_line_count,
                    original_line_count,
                },
            )
        },
    }
}

/// The new text's line count and its change from `original_line_count`.
pub fn compute_line_stats(new_content: &str, original_line_count: usize) -> (r: (usize, i64))
    requires
        original_line_count <= i64::MAX,
        new_content@.len() < i64::MAX,
    ensures
        r.0 == split_on(new_content@, '\n').len(),
        r.1 == r.0 - original_line_count,
{
    let cs = chars_of(new_content);
    let new_line_count = split_chars(cs.as_slice(), '\n').len();
    proof {
        lemma_split_len(cs@, '\n');
        lemma_count_char_bound(cs@, '\n');
    }
    let line_delta = new_line_count as i64 - original_line_count as i64;
    (new_line_count, line_delta)
}

proof fn lemma_nth_newline_bounds(h: Seq<char>, i: int, rem: nat)
    requires
        0 <= i <= h.len(),
    ensures
        i <= nth_newline_from(h, i, rem) <= h.len(),
    decreases h.len() - i,
{
    if i < h.len() {
        if h[i] == '\n' {
            if rem > 1 {
                lemma_nth_newline_bounds(h, i + 1, (rem - 1) as nat);
            }
        } else {
            lemma_nth_newline_bounds(h, i + 1, rem);
        }
    }
}

proof fn lemma_loose_matches_bounds(h: Seq<char>, tn: Seq<char>, k: nat, m: int)
    requires
        tn.len() > 0,
    ensures
        forall|j: int|
            0 <= j < loose_matches_upto(h, tn, k, m).len() ==> 0 <= (#[trigger] loose_matches_upto(
                h,
                tn,
                k,
                m,
            )[j]).0 < loose_matches_upto(h, tn, k, m)[j].1 <= h.len(),
    decreases m,
{
    if m > 0 {
        lemma_loose_matches_bounds(h, tn, k, m - 1);
        let st = m - 1;
        let rest = loose_matches_upto(h, tn, k, m - 1);
        if st <= h.len() && is_line_start(h, st) && trim_line_ends(candidate(h, st, k)) == tn {
            lemma_nth_newline_bounds(h, st, k);
            lemma_trim_line_ends_empty();
            let e = nth_newline_from(h, st, k);
            if e == st {
                assert(candidate(h, st, k) == Seq::<char>::empty());
            }
            let all = rest.push((st, e));
            assert(loose_matches_upto(h, tn, k, m) == all);
            assert forall|j: int| 0 <= j < all.len() implies 0 <= (#[trigger] all[j]).0 < all[j].1
                <= h.len() by {
                if j < rest.len() {
                    assert(all[j] == rest[j]);
                }
            }
        } else {
            assert(loose_matches_upto(h, tn, k, m) == rest);
        }
    }
}

/// A successful location is a non-empty range within `h`.
pub proof fn lemma_locate_bounds(h: Seq<char>, n: Seq<char>)
    ensures
        locate(h, n) matches Ok(p) ==> 0 <= p.0 < p.1 <= h.len(),
{
    lemma_match_positions_bounds(h, n, 0);
    if n.len() > 0 && match_positions(h, n).len() == 0 && trim_line_ends(n).len() > 0 {
        let tn = trim_line_ends(n);
        lemma_loose_matches_bounds(h, tn, lines(tn).len(), h.len() + 1int);
    }
}

/// `resolve` succeeds exactly when every needle locates, giving their
/// locations in order.
pub proof fn lemma_resolve_ok(h: Seq<char>, olds: Seq<Seq<char>>, rs: Seq<(int, int)>)
    ensures
        resolve(h, olds) == Ok::<Seq<(int, int)>, EditFailure>(rs) <==> (rs.len() == olds.len() && forall|
            i: int,
        |
            0 <= i < olds.len() ==> locate(h, #[trigger] olds[i]) == Ok::<(int, int), EditFailure>(
                rs[i],
            )),
    decreases olds.len(),
{
    if olds.len() == 0 {
        if rs.len() == 0 {
            assert(rs == Seq::<(int, int)>::empty());
        }
    } else {
        let ol = olds.drop_last();
        let ln = olds.last();
        if resolve(h, olds) == Ok::<Seq<(int, int)>, EditFailure>(rs) {
            let prs = resolve(h, ol)->Ok_0;
            let r = locate(h, ln)->Ok_0;
            assert(rs == prs.push(r));
            assert(prs == rs.drop_last());
            lemma_resolve_ok(h, ol, prs);
            assert forall|i: int| 0 <= i < olds.len() implies locate(h, #[trigger] olds[i]) == Ok::<
                (int, int),
                EditFailure,
            >(rs[i]) by {
                if i < ol.len() {
                    assert(ol[i] == olds[i]);
                    assert(rs[i] == prs[i]);
                }
            }
        }
        if rs.len() == olds.len() && forall|i: int|
            0 <= i < olds.len() ==> locate(h, #[trigger] olds[i]) == Ok::<(int, int), EditFailure>(
                rs[i],
            ) {
            let prs = rs.drop_last();
            assert forall|i: int| 0 <= i < ol.len() implies locate(h, #[trigger] ol[i]) == Ok::<
                (int, int),
                EditFailure,
            >(prs[i]) by {
                assert(ol[i] == olds[i]);
                assert(locate(h, olds[i]) == Ok::<(int, int), EditFailure>(rs[i]));
            }
            lemma_resolve_ok(h, ol, prs);
            assert(resolve(h, ol) == Ok::<Seq<(int, int)>, EditFailure>(prs));
            assert(locate(h, olds[olds.len() - 1]) == Ok::<(int, int), EditFailure>(
                rs[rs.len() - 1],
            ));
            assert(prs.push(rs.last()) == rs);
        }
    }
}

proof fn lemma_splice_identity(c: Seq<char>, rs: Seq<(int, int)>, reps: Seq<Seq<char>>, pos: int)
    requires
        0 <= pos <= c.len(),
        rs.len() == reps.len(),
        forall|j: int| 0 <= j < rs.len() ==> #[trigger] reps[j] == c.subrange(rs[j].0, rs[j].1),
    ensures
        splice_from(c, rs, reps, pos) == c.skip(pos),
    decreases c.len() - pos,
{
    if pos < c.len() {
        let j = first_range_at(rs, pos, c.len() as int, 0);
        lemma_first_range_at(rs, pos, c.len() as int, 0);
        if 0 <= j < rs.len() && pos < rs[j].1 <= c.len() {
            lemma_splice_identity(c, rs, reps, rs[j].1);
            assert(reps[j] == c.subrange(pos, rs[j].1));
            assert(c.subrange(pos, rs[j].1) + c.skip(rs[j].1) == c.skip(pos));
        } else {
            lemma_splice_identity(c, rs, reps, pos + 1);
            assert(seq![c[pos]] + c.skip(pos + 1) == c.skip(pos));
        }
    } else {
        assert(c.skip(pos) == Seq::<char>::empty());
    }
}

/// An edit whose every chunk writes back exactly the text it matched leaves
/// the file's (line-end normalised) text unchanged.
pub proof fn law_rewriting_matched_text_changes_nothing(content: Seq<char>, edits: Seq<EditChunk>)
    requires
        edits.len() > 0,
        resolve(normalize_crlf(content), old_strings(edits)) matches Ok(rs) && ranges_disjoint(rs)
            && forall|j: int|
            0 <= j < edits.len() ==> (#[trigger] edits[j]).new_string@ == normalize_crlf(
                content,
            ).subrange(rs[j].0, rs[j].1),
    ensures
        edit_outcome(content, edits) == Ok::<Seq<char>, EditFailure>(normalize_crlf(content)),
{
    let c = normalize_crlf(content);
    let olds = old_strings(edits);
    let rs = resolve(c, olds)->Ok_0;
    lemma_resolve_ok(c, olds, rs);
    assert forall|j: int| 0 <= j < rs.len() implies 0 <= (#[trigger] rs[j]).0 < rs[j].1 <= c.len() by {
        assert(locate(c, olds[j]) == Ok::<(int, int), EditFailure>(rs[j]));
        lemma_locate_bounds(c, olds[j]);
    }
    let reps = new_strings(edits);
    assert forall|j: int| 0 <= j < rs.len() implies #[trigger] reps[j] == c.subrange(rs[j].0, rs[j].1) by {
        assert(reps[j] == edits[j].new_string@);
    }
    lemma_splice_identity(c, rs, reps, 0);
    assert(c.skip(0) == c);
}

/// Editing a single chunk whose `old_string` occurs exactly once replaces
/// that occurrence and keeps the text around it.
pub proof fn law_single_exact_edit(content: Seq<char>, edits: Seq<EditChunk>)
    requires
        edits.len() == 1,
        match_positions(normalize_crlf(content), edits[0].old_string@).len() == 1,
        edits[0].old_string@.len() > 0,
    ensures
        ({
            let c = normalize_crlf(content);
            let p = match_positions(c, edits[0].old_string@)[0];
            edit_outcome(content, edits) == Ok::<Seq<char>, EditFailure>(
                c.take(p) + edits[0].new_string@ + c.skip(p + edits[0].old_string@.len()),
            )
        }),
{
    let c = normalize_crlf(content);
    let n = edits[0].old_string@;
    let p = match_positions(c, n)[0];
    let e = p + n.len();
    let olds = old_strings(edits);
    assert(olds.drop_last() == Seq::<Seq<char>>::empty());
    assert(olds.last() == n);
    lemma_match_positions_bounds(c, n, 0);
    let rs = seq![(p, e)];
    assert(resolve(c, olds.drop_last()) == Ok::<Seq<(int, int)>, EditFailure>(Seq::<(int, int)>::empty()));
    assert(locate(c, n) == Ok::<(int, int), EditFailure>((p, e)));
    assert(Seq::<(int, int)>::empty().push((p, e)) == rs);
    assert(resolve(c, olds) == Ok::<Seq<(int, int)>, EditFailure>(rs));
    let reps = new_strings(edits);
    assert(reps == seq![edits[0].new_string@]);
    lemma_splice_single(c, p, e, edits[0].new_string@, 0);
    assert(c.subrange(0, p) == c.take(p));
}

pub proof fn lemma_splice_single<A>(c: Seq<A>, s: int, e: int, rep: Seq<A>, pos: int)
    requires
        0 <= s < e <= c.len(),
        0 <= pos <= s,
    ensures
        splice_from(c, seq![(s, e)], seq![rep], pos) == c.subrange(pos, s) + rep + c.skip(e),
    decreases s - pos,
{
    let rs = seq![(s, e)];
    lemma_first_range_at(rs, pos, c.len() as int, 0);
    if pos == s {
        lemma_splice_tail(c, s, e, rep, e);
        assert(c.subrange(pos, s) == Seq::<A>::empty());
    } else {
        lemma_splice_single(c, s, e, rep, pos + 1);
        assert(seq![c[pos]] + c.subrange(pos + 1, s) == c.subrange(pos, s));
    }
}

proof fn lemma_splice_tail<A>(c: Seq<A>, s: int, e: int, rep: Seq<A>, pos: int)
    requires
        0 <= s < e <= pos <= c.len(),
    ensures
        splice_from(c, seq![(s, e)], seq![rep], pos) == c.skip(pos),
    decreases c.len() - pos,
{
    let rs = seq![(s, e)];
    if pos < c.len() {
        lemma_first_range_at(rs, pos, c.len() as int, 0);
        lemma_splice_tail(c, s, e, rep, pos + 1);
        assert(seq![c[pos]] + c.skip(pos + 1) == c.skip(pos));
    } else {
        assert(c.skip(pos) == Seq::<A>::empty());
    }
}

/// `s` reordered by `perm`: its `i`-th element is `s[perm[i]]`.
pub open spec fn permuted<A>(s: Seq<A>, perm: Seq<int>) -> Seq<A> {
    Seq::new(perm.len(), |i: int| s[perm[i]])
}

/// `perm` and `inv` are inverse permutations of `0..n`.
pub open spec fn is_permutation(perm: Seq<int>, inv: Seq<int>, n: int) -> bool {
    &&& perm.len() == n
    &&& inv.len() == n
    &&& forall|i: int| 0 <= i < n ==> 0 <= #[trigger] perm[i] < n && inv[perm[i]] == i
    &&& forall|i: int| 0 <= i < n ==> 0 <= #[trigger] inv[i] < n && perm[inv[i]] == i
}

pub proof fn lemma_splice_permuted<A>(
    c: Seq<A>,
    rs: Seq<(int, int)>,
    reps: Seq<Seq<A>>,
    perm: Seq<int>,
    inv: Seq<int>,
    pos: int,
)
    requires
        rs.len() == reps.len(),
        is_permutation(perm, inv, rs.len() as int),
        ranges_disjoint(rs),
        0 <= pos <= c.len(),
    ensures
        splice_from(c, permuted(rs, perm), permuted(reps, perm), pos) == splice_from(c, rs, reps, pos),
    decreases c.len() - pos,
{
    let rs2 = permuted(rs, perm);
    let reps2 = permuted(reps, perm);
    let len = c.len() as int;
    if pos < c.len() {
        lemma_first_range_at(rs, pos, len, 0);
        lemma_first_range_at(rs2, pos, len, 0);
        let f = first_range_at(rs, pos, len, 0);
        let f2 = first_range_at(rs2, pos, len, 0);
        if f < rs.len() {
            let i = inv[f];
            assert(rs2[i] == rs[f]);
            if f2 > i {
                assert(!((rs2[i]).0 == pos && pos < rs2[i].1 <= len));
            }
            assert(f2 < rs2.len());
            let g = perm[f2];
            assert(rs2[f2] == rs[g]);
            if g != f {
                if g < f {
                    assert((rs[g]).1 <= (rs[f]).0 || rs[f].1 <= rs[g].0);
                } else {
                    assert((rs[f]).1 <= (rs[g]).0 || rs[g].1 <= rs[f].0);
                }
            }
            assert(reps2[f2] == reps[f]);
            lemma_splice_permuted(c, rs, reps, perm, inv, rs[f].1);
        } else {
            if f2 < rs2.len() {
                let g = perm[f2];
                assert(rs2[f2] == rs[g]);
                assert(!((rs[g]).0 == pos && pos < rs[g].1 <= len));
            }
            lemma_splice_permuted(c, rs, reps, perm, inv, pos + 1);
        }
    }
}

/// Which order the chunks are given in does not matter: whenever every
/// chunk locates, listing them in any other order gives the same outcome.
pub proof fn law_chunk_order_irrelevant(
    content: Seq<char>,
    edits: Seq<EditChunk>,
    perm: Seq<int>,
    inv: Seq<int>,
)
    requires
        is_permutation(perm, inv, edits.len() as int),
        resolve(normalize_crlf(content), old_strings(edits)) is Ok,
    ensures
        edit_outcome(content, permuted(edits, perm)) == edit_outcome(content, edits),
{
    let c = normalize_crlf(content);
    let n = edits.len() as int;
    let olds = old_strings(edits);
    let edits2 = permuted(edits, perm);
    let olds2 = old_strings(edits2);
    let rs = resolve(c, olds)->Ok_0;
    lemma_resolve_ok(c, olds, rs);
    let rs2 = permuted(rs, perm);
    assert forall|i: int| 0 <= i < olds2.len() implies locate(c, #[trigger] olds2[i]) == Ok::<
        (int, int),
        EditFailure,
    >(rs2[i]) by {
        assert(olds2[i] == olds[perm[i]]);
    }
    lemma_resolve_ok(c, olds2, rs2);
    assert(resolve(c, olds2) == Ok::<Seq<(int, int)>, EditFailure>(rs2));
    if ranges_disjoint(rs) {
        assert forall|i: int, j: int| 0 <= i < j < rs2.len() implies (#[trigger] rs2[i]).1 <= (
        #[trigger] rs2[j]).0 || rs2[j].1 <= rs2[i].0 by {
            let a = perm[i];
            let b = perm[j];
            assert(a != b) by {
                if a == b {
                    assert(inv[a] == i && inv[b] == j);
                }
            }
            if a < b {
                assert((rs[a]).1 <= (rs[b]).0 || rs[b].1 <= rs[a].0);
            } else {
                assert((rs[b]).1 <= (rs[a]).0 || rs[a].1 <= rs[b].0);
            }
        }
        let reps = new_strings(edits);
        assert(new_strings(edits2) == permuted(reps, perm));
        lemma_splice_permuted(c, rs, reps, perm, inv, 0);
    } else {
        let (a, b) = choose|a: int, b: int|
            0 <= a < b < rs.len() && !((#[trigger] rs[a]).1 <= (#[trigger] rs[b]).0 || rs[b].1 <= rs[a].0);
        let i = inv[a];
        let j = inv[b];
        assert(rs2[i] == rs[a] && rs2[j] == rs[b]);
        assert(i != j);
        if i < j {
            assert(!((rs2[i]).1 <= (rs2[j]).0 || rs2[j].1 <= rs2[i].0));
        } else {
            assert(!((rs2[j]).1 <= (rs2[i]).0 || rs2[i].1 <= rs2[j].0));
        }
        assert(!ranges_disjoint(rs2));
    }
}

/// The lines an edit adds or removes are the line feeds it adds or
/// removes: a successful edit's line delta (new line count less the
/// original's, as `apply_edit_chunks` and `compute_line_stats` report it)
/// is the change in the number of `\n`s.
pub proof fn law_line_delta_counts_line_feeds(content: Seq<char>, edits: Seq<EditChunk>)
    requires
        edit_outcome(content, edits) is Ok,
    ensures
        split_on(edit_outcome(content, edits)->Ok_0, '\n').len() as int - split_on(
            normalize_crlf(content),
            '\n',
        ).len() as int == count_char(edit_outcome(content, edits)->Ok_0, '\n') as int - count_char(
            normalize_crlf(content),
            '\n',
        ) as int,
{
    lemma_split_len(edit_outcome(content, edits)->Ok_0, '\n');
    lemma_split_len(normalize_crlf(content), '\n');
}

/// An edit is all or nothing: with no chunks, with a chunk whose
/// `old_string` is empty, missing or not unique, or with two chunks whose
/// matches overlap, the outcome is a failure and no replacement is made.
pub proof fn law_failed_edits_apply_nothing(content: Seq<char>, edits: Seq<EditChunk>)
    requires
        edits.len() == 0 || (exists|j: int|
            0 <= j < edits.len() && locate(normalize_crlf(content), #[trigger] edits[j].old_string@) is Err)
            || (resolve(normalize_crlf(content), old_strings(edits)) matches Ok(rs) && !ranges_disjoint(rs)),
    ensures
        edit_outcome(content, edits) is Err,
{
    let c = normalize_crlf(content);
    let olds = old_strings(edits);
    if edits.len() > 0 {
        if resolve(c, olds) is Ok {
            let rs = resolve(c, olds)->Ok_0;
            lemma_resolve_ok(c, olds, rs);
            if exists|j: int| 0 <= j < edits.len() && locate(c, #[trigger] edits[j].old_string@) is Err {
                let j = choose|j: int| 0 <= j < edits.len() && locate(c, #[trigger] edits[j].old_string@) is Err;
                assert(olds[j] == edits[j].old_string@);
                assert(false);
            }
        }
    }
}

proof fn lemma_take_lacks(l: Seq<char>, k: int, c: char)
    requires
        0 <= k <= l.len(),
        !l.contains(c),
    ensures
        !l.take(k).contains(c),
{
    if l.take(k).contains(c) {
        let j = choose|j: int| 0 <= j < l.take(k).len() && l.take(k)[j] == c;
        assert(l[j] == c);
    }
}

/// What the loose match compares is the text's lines with only their
/// trailing whitespace removed: each line of `trim_line_ends(t)` is the
/// matching line of `t` (as `str::lines` gives it) less its trailing
/// whitespace, its indentation kept; a text without lines gives nothing.
pub proof fn law_trim_line_ends_keeps_indentation(t: Seq<char>)
    ensures
        lines(t).len() == 0 ==> trim_line_ends(t).len() == 0,
        lines(t).len() > 0 ==> split_on(trim_line_ends(t), '\n').len() == lines(t).len(),
        lines(t).len() > 0 ==> forall|i: int|
            0 <= i < lines(t).len() ==> drops_only_trailing_whitespace(
                #[trigger] lines(t)[i],
                split_on(trim_line_ends(t), '\n')[i],
            ),
{
    let ls = lines(t);
    let p = split_on(t, '\n');
    lemma_split_on_nonempty(t, '\n');
    lemma_split_pieces_lack_sep(t, '\n');
    let tr = ls.map_values(|l: Seq<char>| trim_end(l));
    assert forall|i: int| 0 <= i < ls.len() implies !(#[trigger] ls[i]).contains('\n') by {
        if i < p.len() - 1 {
            assert(ls[i] == strip_cr(p[i]));
            assert(!p[i].contains('\n'));
            if p[i].len() > 0 && p[i].last() == '\r' {
                lemma_take_lacks(p[i], p[i].len() - 1, '\n');
                assert(p[i].drop_last() =~= p[i].take(p[i].len() - 1));
            }
        } else {
            assert(ls[i] == p.last());
            assert(!p[p.len() - 1].contains('\n'));
        }
    }
    assert forall|i: int| 0 <= i < ls.len() implies drops_only_trailing_whitespace(
        #[trigger] ls[i],
        tr[i],
    ) && !tr[i].contains('\n') by {
        let l = ls[i];
        lemma_ws_suffix_len_bound(l);
        lemma_ws_suffix_props(l);
        let k = l.len() - ws_suffix_len(l);
        assert(tr[i] == l.take(k));
        lemma_take_lacks(l, k, '\n');
        if k > 0 {
            assert(tr[i].last() == l[k - 1]);
        }
    }
    if ls.len() == 0 {
        assert(tr.len() == 0);
    } else {
        lemma_split_join(tr, '\n');
    }
}

} // verus!
