//! Filtering, sorting and deduplicating columns of CSV/TSV data.

use vstd::prelude::*;
use crate::errors::{CoreError, CoreResult};
use crate::guardrails::truncation::{is_truncation_of, truncate_output, TruncateResult};
use crate::text::{
    append_chars, chars_eq, chars_of, debug_list, debug_list_text, ends_with, join_with,
    lowercase, lowercase_text, starts_with, string_of,
};

verus! {

broadcast use vstd::seq_lib::group_to_multiset_ensures;

// ----- the order of texts and rows --------------------------------------

/// Three-way comparison of texts, character by character by code point,
/// a proper prefix first (the order of `String`).
pub open spec fn text_order(a: Seq<char>, b: Seq<char>) -> int
    decreases a.len(),
{
    if a.len() == 0 {
        if b.len() == 0 {
            0
        } else {
            -1
        }
    } else if b.len() == 0 {
        1
    } else if a[0] < b[0] {
        -1
    } else if a[0] > b[0] {
        1
    } else {
        text_order(a.drop_first(), b.drop_first())
    }
}

/// Three-way comparison of rows, field by field, a proper prefix first
/// (the order of `Vec<String>`).
pub open spec fn row_order(a: Seq<Seq<char>>, b: Seq<Seq<char>>) -> int
    decreases a.len(),
{
    if a.len() == 0 {
        if b.len() == 0 {
            0
        } else {
            -1
        }
    } else if b.len() == 0 {
        1
    } else if text_order(a[0], b[0]) != 0 {
        text_order(a[0], b[0])
    } else {
        row_order(a.drop_first(), b.drop_first())
    }
}

pub proof fn lemma_text_order(a: Seq<char>, b: Seq<char>)
    ensures
        -1 <= text_order(a, b) <= 1,
        text_order(a, b) == 0 <==> a == b,
        text_order(b, a) == -text_order(a, b),
    decreases a.len(),
{
    if a.len() > 0 && b.len() > 0 {
        lemma_text_order(a.drop_first(), b.drop_first());
        if a == b {
            assert(a.drop_first() == b.drop_first());
        }
        if a[0] == b[0] && a.drop_first() == b.drop_first() {
            assert(a[0] == b[0]);
            assert(a == seq![a[0]] + a.drop_first());
            assert(b == seq![b[0]] + b.drop_first());
        }
    } else if a.len() == 0 && b.len() > 0 {
        assert(a != b);
    } else if a.len() > 0 && b.len() == 0 {
        assert(a != b);
    } else {
        assert(a == b);
    }
}

pub proof fn lemma_text_order_trans(a: Seq<char>, b: Seq<char>, c: Seq<char>)
    requires
        text_order(a, b) <= 0,
        text_order(b, c) <= 0,
    ensures
        text_order(a, c) <= 0,
        text_order(a, b) < 0 || text_order(b, c) < 0 ==> text_order(a, c) < 0,
    decreases a.len(),
{
    lemma_text_order(a, b);
    lemma_text_order(b, c);
    lemma_text_order(a, c);
    if a.len() > 0 && b.len() > 0 && c.len() > 0 {
        if a[0] == b[0] && b[0] == c[0] {
            lemma_text_order_trans(a.drop_first(), b.drop_first(), c.drop_first());
        }
    }
}

proof fn lemma_row_order(a: Seq<Seq<char>>, b: Seq<Seq<char>>)
    ensures
        -1 <= row_order(a, b) <= 1,
        row_order(a, b) == 0 <==> a == b,
        row_order(b, a) == -row_order(a, b),
    decreases a.len(),
{
    if a.len() > 0 && b.len() > 0 {
        lemma_text_order(a[0], b[0]);
        lemma_row_order(a.drop_first(), b.drop_first());
        if a == b {
            assert(a.drop_first() == b.drop_first());
        }
        if a[0] == b[0] && a.drop_first() == b.drop_first() {
            assert(a == seq![a[0]] + a.drop_first());
            assert(b == seq![b[0]] + b.drop_first());
        }
    } else if a.len() == 0 && b.len() > 0 {
        assert(a != b);
    } else if a.len() > 0 && b.len() == 0 {
        assert(a != b);
    } else {
        assert(a == b);
    }
}

proof fn lemma_row_order_trans(a: Seq<Seq<char>>, b: Seq<Seq<char>>, c: Seq<Seq<char>>)
    requires
        row_order(a, b) <= 0,
        row_order(b, c) <= 0,
    ensures
        row_order(a, c) <= 0,
        row_order(a, b) < 0 || row_order(b, c) < 0 ==> row_order(a, c) < 0,
    decreases a.len(),
{
    lemma_row_order(a, b);
    lemma_row_order(b, c);
    lemma_row_order(a, c);
    if a.len() > 0 && b.len() > 0 && c.len() > 0 {
        lemma_text_order(a[0], b[0]);
        lemma_text_order(b[0], c[0]);
        lemma_text_order(a[0], c[0]);
        if text_order(a[0], b[0]) <= 0 && text_order(b[0], c[0]) <= 0 {
            lemma_text_order_trans(a[0], b[0], c[0]);
        }
        if text_order(a[0], b[0]) == 0 && text_order(b[0], c[0]) == 0 {
            lemma_row_order_trans(a.drop_first(), b.drop_first(), c.drop_first());
        }
    }
}

/// Compares two texts.
pub fn compare_texts(a: &str, b: &str) -> (r: i8)
    ensures
        r as int == text_order(a@, b@),
{
    let ac = chars_of(a);
    let bc = chars_of(b);
    let mut i: usize = 0;
    assert(a@.skip(0) == a@ && b@.skip(0) == b@);
    while i < ac.len() && i < bc.len() && ac[i] == bc[i]
        invariant
            i <= ac@.len(),
            i <= bc@.len(),
            ac@ == a@,
            bc@ == b@,
            text_order(a@, b@) == text_order(a@.skip(i as int), b@.skip(i as int)),
        decreases ac.len() - i,
    {
        assert(a@.skip(i as int).drop_first() == a@.skip(i + 1));
        assert(b@.skip(i as int).drop_first() == b@.skip(i + 1));
        i = i + 1;
    }
    let ghost sa = a@.skip(i as int);
    let ghost sb = b@.skip(i as int);
    if i == ac.len() {
        if i == bc.len() {
            0
        } else {
            -1
        }
    } else if i == bc.len() {
        1
    } else {
        assert(sa[0] == a@[i as int]);
        assert(sb[0] == b@[i as int]);
        if ac[i] < bc[i] {
            -1
        } else {
            1
        }
    }
}

/// The view of a row: its fields as texts.
pub open spec fn row_view(row: Seq<String>) -> Seq<Seq<char>> {
    row.map_values(|s: String| s@)
}

/// The views of rows.
pub open spec fn rows_view(rows: Seq<Vec<String>>) -> Seq<Seq<Seq<char>>> {
    rows.map_values(|r: Vec<String>| row_view(r@))
}

/// Compares two rows.
pub fn compare_rows(a: &Vec<String>, b: &Vec<String>) -> (r: i8)
    ensures
        r as int == row_order(row_view(a@), row_view(b@)),
{
    let ghost va = row_view(a@);
    let ghost vb = row_view(b@);
    let mut i: usize = 0;
    assert(va.skip(0) == va && vb.skip(0) == vb);
    while i < a.len() && i < b.len()
        invariant
            i <= a@.len(),
            i <= b@.len(),
            va == row_view(a@),
            vb == row_view(b@),
            row_order(va, vb) == row_order(va.skip(i as int), vb.skip(i as int)),
        decreases a.len() - i,
    {
        let c = compare_texts(a[i].as_str(), b[i].as_str());
        assert(va.skip(i as int)[0] == a@[i as int]@);
        assert(vb.skip(i as int)[0] == b@[i as int]@);
        if c != 0 {
            return c;
        }
        assert(va.skip(i as int).drop_first() == va.skip(i + 1));
        assert(vb.skip(i as int).drop_first() == vb.skip(i + 1));
        i = i + 1;
    }
    if i == a.len() {
        if i == b.len() {
            0
        } else {
            -1
        }
    } else {
        1
    }
}

// ----- sorting ------------------------------------------------------------

/// Where `x` goes among `sorted`: before the first row greater than it.
pub open spec fn insert_pos(sorted: Seq<Seq<Seq<char>>>, x: Seq<Seq<char>>) -> int
    decreases sorted.len(),
{
    if sorted.len() == 0 || row_order(x, sorted[0]) < 0 {
        0
    } else {
        1 + insert_pos(sorted.drop_first(), x)
    }
}

/// `rows` in ascending order, by insertion.
pub open spec fn sort_rows(rows: Seq<Seq<Seq<char>>>) -> Seq<Seq<Seq<char>>>
    decreases rows.len(),
{
    if rows.len() == 0 {
        rows
    } else {
        let s = sort_rows(rows.drop_last());
        s.insert(insert_pos(s, rows.last()), rows.last())
    }
}

/// `rows` with each run of equal adjacent rows reduced to one
/// (`Vec::dedup`).
pub open spec fn dedup_rows(rows: Seq<Seq<Seq<char>>>) -> Seq<Seq<Seq<char>>>
    decreases rows.len(),
{
    if rows.len() <= 1 {
        rows
    } else {
        let d = dedup_rows(rows.drop_last());
        if rows.last() == rows[rows.len() - 2] {
            d
        } else {
            d.push(rows.last())
        }
    }
}

/// Rows in ascending order (equal rows allowed).
pub open spec fn is_sorted(rows: Seq<Seq<Seq<char>>>) -> bool {
    forall|i: int, j: int| 0 <= i < j < rows.len() ==> row_order(#[trigger] rows[i], #[trigger] rows[j]) <= 0
}

/// Rows in strictly ascending order: sorted, no two equal.
pub open spec fn is_strictly_sorted(rows: Seq<Seq<Seq<char>>>) -> bool {
    forall|i: int, j: int| 0 <= i < j < rows.len() ==> row_order(#[trigger] rows[i], #[trigger] rows[j]) < 0
}

proof fn lemma_insert_pos(sorted: Seq<Seq<Seq<char>>>, x: Seq<Seq<char>>)
    ensures
        0 <= insert_pos(sorted, x) <= sorted.len(),
        forall|i: int| 0 <= i < insert_pos(sorted, x) ==> row_order(x, #[trigger] sorted[i]) >= 0,
        insert_pos(sorted, x) < sorted.len() ==> row_order(x, sorted[insert_pos(sorted, x)]) < 0,
    decreases sorted.len(),
{
    if !(sorted.len() == 0 || row_order(x, sorted[0]) < 0) {
        let t = sorted.drop_first();
        lemma_insert_pos(t, x);
        assert forall|i: int| 0 <= i < insert_pos(sorted, x) implies row_order(x, #[trigger] sorted[i]) >= 0 by {
            if i > 0 {
                assert(sorted[i] == t[i - 1]);
            }
        }
    }
}

proof fn lemma_insert_keeps_sorted(sorted: Seq<Seq<Seq<char>>>, x: Seq<Seq<char>>)
    requires
        is_sorted(sorted),
    ensures
        is_sorted(sorted.insert(insert_pos(sorted, x), x)),
{
    lemma_insert_pos(sorted, x);
    let p = insert_pos(sorted, x);
    let r = sorted.insert(p, x);
    assert forall|i: int, j: int| 0 <= i < j < r.len() implies row_order(#[trigger] r[i], #[trigger] r[j]) <= 0 by {
        if j < p {
            assert(r[i] == sorted[i] && r[j] == sorted[j]);
        } else if j == p {
            assert(r[i] == sorted[i]);
            lemma_row_order(x, sorted[i]);
        } else if i == p {
            assert(r[j] == sorted[j - 1]);
            lemma_row_order(x, sorted[p]);
            if j - 1 > p {
                lemma_row_order_trans(x, sorted[p], sorted[j - 1]);
            }
        } else if i < p {
            assert(r[i] == sorted[i] && r[j] == sorted[j - 1]);
        } else {
            assert(r[i] == sorted[i - 1] && r[j] == sorted[j - 1]);
        }
    }
}

/// The rows come out sorted, and as the same rows, each as many times as
/// it went in.
pub proof fn law_sorting_orders_and_keeps_every_row(rows: Seq<Seq<Seq<char>>>)
    ensures
        is_sorted(sort_rows(rows)),
        sort_rows(rows).to_multiset() == rows.to_multiset(),
    decreases rows.len(),
{
    if rows.len() > 0 {
        let s = sort_rows(rows.drop_last());
        law_sorting_orders_and_keeps_every_row(rows.drop_last());
        lemma_insert_keeps_sorted(s, rows.last());
        lemma_insert_pos(s, rows.last());
        vstd::seq_lib::to_multiset_insert(s, insert_pos(s, rows.last()), rows.last());
        assert(rows.drop_last().push(rows.last()) == rows);
    }
}

proof fn lemma_dedup_last(rows: Seq<Seq<Seq<char>>>)
    requires
        rows.len() > 0,
    ensures
        dedup_rows(rows).len() > 0,
        dedup_rows(rows).last() == rows.last(),
    decreases rows.len(),
{
    if rows.len() > 1 {
        lemma_dedup_last(rows.drop_last());
    }
}

/// Deduplicating sorted rows leaves them strictly sorted, with exactly
/// the rows that were there.
pub proof fn law_dedup_of_sorted_rows_is_strict(rows: Seq<Seq<Seq<char>>>)
    requires
        is_sorted(rows),
    ensures
        is_strictly_sorted(dedup_rows(rows)),
        forall|x: Seq<Seq<char>>| dedup_rows(rows).contains(x) <==> rows.contains(x),
    decreases rows.len(),
{
    if rows.len() > 1 {
        let t = rows.drop_last();
        assert(is_sorted(t)) by {
            assert forall|i: int, j: int| 0 <= i < j < t.len() implies row_order(#[trigger] t[i], #[trigger] t[j]) <= 0 by {
                assert(t[i] == rows[i] && t[j] == rows[j]);
            }
        }
        law_dedup_of_sorted_rows_is_strict(t);
        lemma_dedup_last(t);
        let d = dedup_rows(t);
        let x = rows.last();
        if x == rows[rows.len() - 2] {
            assert forall|y: Seq<Seq<char>>| dedup_rows(rows).contains(y) <==> rows.contains(y) by {
                if rows.contains(y) {
                    let k = choose|k: int| 0 <= k < rows.len() && rows[k] == y;
                    if k < rows.len() - 1 {
                        assert(t[k] == y);
                    } else {
                        assert(t[rows.len() - 2] == y);
                    }
                }
                if t.contains(y) {
                    let k = choose|k: int| 0 <= k < t.len() && t[k] == y;
                    assert(rows[k] == y);
                }
            }
        } else {
            assert(row_order(rows[rows.len() - 2], x) <= 0);
            lemma_row_order(rows[rows.len() - 2], x);
            let r = d.push(x);
            assert(dedup_rows(rows) == r);
            assert forall|i: int, j: int| 0 <= i < j < r.len() implies row_order(#[trigger] r[i], #[trigger] r[j]) < 0 by {
                if j < d.len() {
                    assert(r[i] == d[i] && r[j] == d[j]);
                } else {
                    assert(r[j] == x);
                    assert(d.last() == rows[rows.len() - 2]);
                    if i < d.len() - 1 {
                        assert(r[i] == d[i]);
                        lemma_row_order_trans(d[i], d.last(), x);
                    }
                }
            }
            assert forall|y: Seq<Seq<char>>| dedup_rows(rows).contains(y) <==> rows.contains(y) by {
                if rows.contains(y) {
                    let k = choose|k: int| 0 <= k < rows.len() && rows[k] == y;
                    if k < rows.len() - 1 {
                        assert(t[k] == y);
                        assert(t.contains(y));
                        assert(d.contains(y));
                        let j = choose|j: int| 0 <= j < d.len() && d[j] == y;
                        assert(r[j] == y);
                    } else {
                        assert(r[r.len() - 1] == y);
                    }
                    assert(r.contains(y));
                }
                if r.contains(y) {
                    let k = choose|k: int| 0 <= k < r.len() && r[k] == y;
                    if k < d.len() {
                        assert(d[k] == y);
                        assert(d.contains(y));
                        assert(t.contains(y));
                        let m = choose|m: int| 0 <= m < t.len() && t[m] == y;
                        assert(rows[m] == y);
                    } else {
                        assert(rows[rows.len() - 1] == y);
                    }
                }
            }
        }
    }
}

/// Sorts `rows` in ascending order.
pub fn sort_rows_exec(rows: Vec<Vec<String>>) -> (r: Vec<Vec<String>>)
    ensures
        rows_view(r@) == sort_rows(rows_view(rows@)),
{
    let ghost rv = rows_view(rows@);
    let mut out: Vec<Vec<String>> = Vec::new();
    let mut rest = rows;
    assert(rows_view(rest@) == rv.skip(0));
    let mut i: usize = 0;
    let n = rest.len();
    while i < n
        invariant
            n == rv.len(),
            rest@.len() == n - i,
            rows_view(rest@) == rv.skip(i as int),
            rows_view(out@) == sort_rows(rv.take(i as int)),
            i <= n,
        decreases n - i,
    {
        assert(rv.skip(i as int)[0] == rv[i as int]);
        let ghost old_rest = rest@;
        let x = rest.remove(0);
        assert(row_view(x@) == rv[i as int]);
        assert(rows_view(rest@) == rv.skip(i + 1)) by {
            assert forall|k: int| 0 <= k < rest@.len() implies #[trigger] rows_view(rest@)[k] == rv.skip(i + 1)[k] by {
                assert(rest@[k] == old_rest[k + 1]);
                assert(rows_view(old_rest)[k + 1] == rv.skip(i as int)[k + 1]);
            }
            assert(rows_view(rest@) =~= rv.skip(i + 1));
        }
        let ghost s = rows_view(out@);
        let ghost xv = row_view(x@);
        proof {
            law_sorting_orders_and_keeps_every_row(rv.take(i as int));
        }
        // Binary search for the first row greater than `x`: rows before
        // `lo` are not, rows from `hi` on are.
        let mut lo: usize = 0;
        let mut hi: usize = out.len();
        while lo < hi
            invariant
                lo <= hi <= out@.len(),
                s == rows_view(out@),
                xv == row_view(x@),
                is_sorted(s),
                forall|k: int| 0 <= k < lo ==> row_order(xv, #[trigger] s[k]) >= 0,
                forall|k: int| hi <= k < s.len() ==> row_order(xv, #[trigger] s[k]) < 0,
            decreases hi - lo,
        {
            let mid = lo + (hi - lo) / 2;
            assert(s[mid as int] == row_view(out@[mid as int]@));
            if compare_rows(&x, &out[mid]) >= 0 {
                assert forall|k: int| 0 <= k <= mid implies row_order(xv, #[trigger] s[k]) >= 0 by {
                    if k < mid {
                        lemma_row_order(xv, s[k]);
                        lemma_row_order(s[k], s[mid as int]);
                        if row_order(xv, s[k]) < 0 {
                            lemma_row_order_trans(xv, s[k], s[mid as int]);
                        }
                    }
                }
                lo = mid + 1;
            } else {
                assert forall|k: int| mid <= k < s.len() implies row_order(xv, #[trigger] s[k]) < 0 by {
                    if k > mid {
                        lemma_row_order_trans(xv, s[mid as int], s[k]);
                    }
                }
                hi = mid;
            }
        }
        let p = lo;
        proof {
            lemma_insert_pos(s, xv);
            let q = insert_pos(s, xv);
            if q < p {
                assert(row_order(xv, s[q]) >= 0);
            }
            if q > p {
                assert(row_order(xv, s[p as int]) >= 0);
            }
        }
        out.insert(p, x);
        assert(rv.take(i + 1).drop_last() == rv.take(i as int));
        assert(rows_view(out@) == s.insert(p as int, row_view(x@))) by {
            assert(rows_view(out@) =~= s.insert(p as int, row_view(x@)));
        }
        i = i + 1;
    }
    assert(rv.take(n as int) == rv);
    out
}

/// Reduces each run of equal adjacent rows of `rows` to one.
pub fn dedup_rows_exec(rows: Vec<Vec<String>>) -> (r: Vec<Vec<String>>)
    ensures
        rows_view(r@) == dedup_rows(rows_view(rows@)),
{
    let ghost rv = rows_view(rows@);
    let mut out: Vec<Vec<String>> = Vec::new();
    let mut rest = rows;
    assert(rows_view(rest@) == rv.skip(0));
    let mut i: usize = 0;
    let n = rest.len();
    while i < n
        invariant
            n == rv.len(),
            rest@.len() == n - i,
            rows_view(rest@) == rv.skip(i as int),
            rows_view(out@) == dedup_rows(rv.take(i as int)),
            i > 0 ==> out@.len() > 0 && row_view(out@.last()@) == rv[i - 1],
            i <= n,
        decreases n - i,
    {
        assert(rv.skip(i as int)[0] == rv[i as int]);
        let ghost old_rest = rest@;
        let x = rest.remove(0);
        assert(row_view(x@) == rv[i as int]);
        assert(rows_view(rest@) == rv.skip(i + 1)) by {
            assert forall|k: int| 0 <= k < rest@.len() implies #[trigger] rows_view(rest@)[k] == rv.skip(i + 1)[k] by {
                assert(rest@[k] == old_rest[k + 1]);
                assert(rows_view(old_rest)[k + 1] == rv.skip(i as int)[k + 1]);
            }
            assert(rows_view(rest@) =~= rv.skip(i + 1));
        }
        let ghost t = rv.take(i + 1);
        assert(t.drop_last() == rv.take(i as int));
        proof {
            lemma_dedup_last(t);
        }
        if out.len() > 0 && compare_rows(&out[out.len() - 1], &x) == 0 {
            proof {
                lemma_row_order(row_view(out@.last()@), row_view(x@));
                assert(t[t.len() - 2] == rv[i - 1]);
            }
        } else {
            proof {
                if i > 0 {
                    lemma_row_order(row_view(out@.last()@), row_view(x@));
                    assert(t[t.len() - 2] == rv[i - 1]);
                }
            }
            let ghost before = rows_view(out@);
            out.push(x);
            assert(rows_view(out@) == before.push(row_view(x@))) by {
                assert(rows_view(out@) =~= before.push(row_view(x@)));
            }
        }
        i = i + 1;
    }
    assert(rv.take(n as int) == rv);
    out
}

// ----- columns and rows -------------------------------------------------

/// The index of the first header equal to `name`.
pub open spec fn position_of(headers: Seq<Seq<char>>, name: Seq<char>) -> Option<nat>
    decreases headers.len(),
{
    if headers.len() == 0 {
        None
    } else if headers[0] == name {
        Some(0)
    } else {
        match position_of(headers.drop_first(), name) {
            Some(p) => Some(p + 1),
            None => None,
        }
    }
}

/// The header indices of the requested columns that exist, in the order
/// requested; columns that match no header are skipped.
pub open spec fn column_positions(headers: Seq<Seq<char>>, columns: Seq<Seq<char>>) -> Seq<nat>
    decreases columns.len(),
{
    if columns.len() == 0 {
        Seq::<nat>::empty()
    } else {
        let rest = column_positions(headers, columns.drop_last());
        match position_of(headers, columns.last()) {
            Some(p) => rest.push(p),
            None => rest,
        }
    }
}

/// The message when none of `columns` is a header of the file at `path`.
pub open spec fn columns_not_found_text(columns: Seq<Seq<char>>, path: Seq<char>, headers: Seq<Seq<char>>) -> Seq<char> {
    "None of the requested columns "@ + debug_list_text(columns) + " were found. Actual headers in '"@
        + path
        + "': "@ + debug_list_text(headers)
}

/// The fields of `record` at `positions`, in that order; a position past
/// the end of the record gives an empty field.
pub open spec fn project_record(record: Seq<Seq<char>>, positions: Seq<nat>) -> Seq<Seq<char>> {
    Seq::new(
        positions.len(),
        |k: int|
            if positions[k] < record.len() {
                record[positions[k] as int]
            } else {
                Seq::<char>::empty()
            },
    )
}

/// Every record projected onto `positions`.
pub open spec fn project_records(records: Seq<Seq<Seq<char>>>, positions: Seq<nat>) -> Seq<Seq<Seq<char>>> {
    records.map_values(|rec: Seq<Seq<char>>| project_record(rec, positions))
}

/// The rows of the output: sorted, then deduplicated when asked.
pub open spec fn output_rows(rows: Seq<Seq<Seq<char>>>, deduplicate: bool) -> Seq<Seq<Seq<char>>> {
    if deduplicate {
        dedup_rows(sort_rows(rows))
    } else {
        sort_rows(rows)
    }
}

/// The field delimiter: a tab for TSV, else a comma.
pub open spec fn delimiter_text(is_tsv: bool) -> Seq<char> {
    if is_tsv {
        seq!['\t']
    } else {
        seq![',']
    }
}

/// Each row joined by `d`, one per line.
pub open spec fn rows_text(rows: Seq<Seq<Seq<char>>>, d: Seq<char>) -> Seq<char>
    decreases rows.len(),
{
    if rows.len() == 0 {
        Seq::<char>::empty()
    } else {
        rows_text(rows.drop_last(), d) + join_with(rows.last(), d) + seq!['\n']
    }
}

/// The output text: the requested columns as a header line, then one line
/// per row.
pub open spec fn matrix_text(columns: Seq<Seq<char>>, rows: Seq<Seq<Seq<char>>>, is_tsv: bool) -> Seq<char> {
    join_with(columns, delimiter_text(is_tsv)) + seq!['\n'] + rows_text(rows, delimiter_text(is_tsv))
}

fn copy_strings(items: &[String]) -> (r: Vec<String>)
    ensures
        row_view(r@) == row_view(items@),
{
    let mut out: Vec<String> = Vec::new();
    let mut i: usize = 0;
    while i < items.len()
        invariant
            i <= items@.len(),
            row_view(out@) == row_view(items@).take(i as int),
        decreases items.len() - i,
    {
        let ghost before = row_view(out@);
        out.push(String::from_str(items[i].as_str()));
        assert(row_view(out@) == before.push(items@[i as int]@));
        assert(row_view(items@).take(i + 1) == row_view(items@).take(i as int).push(items@[i as int]@));
        i = i + 1;
    }
    assert(row_view(items@).take(items@.len() as int) == row_view(items@));
    out
}

fn position_of_exec(headers: &Vec<String>, name: &str) -> (r: Option<usize>)
    ensures
        match r {
            Some(p) => position_of(row_view(headers@), name@) == Some(p as nat),
            None => position_of(row_view(headers@), name@) is None,
        },
{
    let ghost hv = row_view(headers@);
    let nc = chars_of(name);
    let mut i: usize = 0;
    assert(hv.skip(0) == hv);
    while i < headers.len()
        invariant
            i <= headers@.len(),
            hv == row_view(headers@),
            nc@ == name@,
            position_of(hv, name@) == match position_of(hv.skip(i as int), name@) {
                Some(p) => Some((p + i) as nat),
                None => None,
            },
        decreases headers.len() - i,
    {
        let hc = chars_of(headers[i].as_str());
        let ghost rest = hv.skip(i as int);
        assert(hv.len() == headers@.len());
        assert(rest.len() > 0);
        assert(hc@ == headers@[i as int]@);
        assert(rest[0] == headers@[i as int]@);
        assert(rest.drop_first() == hv.skip(i + 1));
        if chars_eq(hc.as_slice(), nc.as_slice()) {
            assert(position_of(rest, name@) == Some(0nat));
            return Some(i);
        }
        assert(position_of(rest, name@) == match position_of(hv.skip(i + 1), name@) {
            Some(p) => Some(p + 1),
            None => None,
        });
        i = i + 1;
    }
    None
}

/// Resolves `columns` to their indices in the header row `headers`, in the
/// order requested, skipping names that match no header. Fails with the
/// headers that are present when none matches.
pub fn resolve_column_indices(headers: &Vec<String>, columns: &[String], path: &str) -> (r: CoreResult<Vec<usize>>)
    ensures
        ({
            let pos = column_positions(row_view(headers@), row_view(columns@));
            if pos.len() == 0 {
                r matches Err(CoreError::General(m)) && m@ == columns_not_found_text(
                    row_view(columns@),
                    path@,
                    row_view(headers@),
                )
            } else {
                r matches Ok(v) && v@.map_values(|i: usize| i as nat) == pos
            }
        }),
{
    let ghost cv = row_view(columns@);
    let ghost hv = row_view(headers@);
    let mut out: Vec<usize> = Vec::new();
    let mut i: usize = 0;
    while i < columns.len()
        invariant
            i <= columns@.len(),
            cv == row_view(columns@),
            hv == row_view(headers@),
            out@.map_values(|k: usize| k as nat) == column_positions(hv, cv.take(i as int)),
        decreases columns.len() - i,
    {
        assert(cv.take(i + 1).drop_last() == cv.take(i as int));
        assert(cv[i as int] == columns@[i as int]@);
        match position_of_exec(headers, columns[i].as_str()) {
            Some(p) => {
                let ghost before = out@.map_values(|k: usize| k as nat);
                out.push(p);
                assert(out@.map_values(|k: usize| k as nat) == before.push(p as nat));
            },
            None => {},
        }
        i = i + 1;
    }
    assert(cv.take(columns@.len() as int) == cv);
    if out.len() == 0 {
        let cols = copy_strings(columns);
        let mut m = String::from_str("None of the requested columns ");
        m.append(debug_list(&cols).as_str());
        m.append(" were found. Actual headers in '");
        m.append(path);
        m.append("': ");
        m.append(debug_list(headers).as_str());
        return Err(CoreError::General(m));
    }
    Ok(out)
}

/// Keeps, from every record, only the fields at `col_indices`, in that
/// order (an index past a record's end gives an empty field).
pub fn read_filtered_rows(records: &Vec<Vec<String>>, col_indices: &[usize]) -> (r: Vec<Vec<String>>)
    ensures
        rows_view(r@) == project_records(
            rows_view(records@),
            col_indices@.map_values(|i: usize| i as nat),
        ),
{
    let ghost pos = col_indices@.map_values(|i: usize| i as nat);
    let ghost rv = rows_view(records@);
    let mut rows: Vec<Vec<String>> = Vec::new();
    let mut i: usize = 0;
    while i < records.len()
        invariant
            i <= records@.len(),
            pos == col_indices@.map_values(|k: usize| k as nat),
            rv == rows_view(records@),
            rows_view(rows@) == project_records(rv, pos).take(i as int),
        decreases records.len() - i,
    {
        let rec = &records[i];
        let mut row: Vec<String> = Vec::new();
        let mut j: usize = 0;
        while j < col_indices.len()
            invariant
                j <= col_indices@.len(),
                pos == col_indices@.map_values(|k: usize| k as nat),
                rv == rows_view(records@),
                i < records@.len(),
                rec == records@[i as int],
                row_view(row@) == project_record(rv[i as int], pos).take(j as int),
            decreases col_indices.len() - j,
        {
            let idx = col_indices[j];
            let ghost before = row_view(row@);
            assert(pos[j as int] == idx as nat);
            assert(rv[i as int] == row_view(rec@));
            let field = if idx < rec.len() {
                String::from_str(rec[idx].as_str())
            } else {
                String::new()
            };
            assert(field@ == project_record(rv[i as int], pos)[j as int]);
            row.push(field);
            assert(row_view(row@) == before.push(field@));
            assert(row_view(row@) =~= project_record(rv[i as int], pos).take(j + 1));
            j = j + 1;
        }
        assert(project_record(rv[i as int], pos).take(col_indices@.len() as int) == project_record(
            rv[i as int],
            pos,
        ));
        let ghost before = rows_view(rows@);
        let ghost rowv = row_view(row@);
        rows.push(row);
        assert(rows_view(rows@) == before.push(rowv));
        assert(project_records(rv, pos)[i as int] == project_record(rv[i as int], pos));
        assert(rows_view(rows@) =~= project_records(rv, pos).take(i + 1));
        i = i + 1;
    }
    assert(project_records(rv, pos).take(records@.len() as int) == project_records(rv, pos));
    rows
}

fn append_joined(out: &mut Vec<char>, items: &Vec<String>, sep: char)
    ensures
        final(out)@ == old(out)@ + join_with(row_view(items@), seq![sep]),
{
    let ghost iv = row_view(items@);
    let ghost start = out@;
    let mut i: usize = 0;
    while i < items.len()
        invariant
            i <= items@.len(),
            iv == row_view(items@),
            out@ == start + join_with(iv.take(i as int), seq![sep]),
        decreases items.len() - i,
    {
        assert(iv.take(i + 1).drop_last() == iv.take(i as int));
        assert(iv[i as int] == items@[i as int]@);
        if i > 0 {
            out.push(sep);
        }
        let ic = chars_of(items[i].as_str());
        append_chars(out, ic.as_slice());
        proof {
            if i > 0 {
                assert(out@ == start + (join_with(iv.take(i as int), seq![sep]) + seq![sep] + iv[i as int]));
            } else {
                assert(iv.take(1) =~= seq![iv[0]]);
            }
        }
        i = i + 1;
    }
    assert(iv.take(items@.len() as int) == iv);
}

/// The requested columns as a header line, then each row as one line,
/// fields joined by a tab for TSV, else by a comma.
pub fn format_matrix_output(columns: &[String], rows: &Vec<Vec<String>>, is_tsv: bool) -> (r: String)
    ensures
        r@ == matrix_text(row_view(columns@), rows_view(rows@), is_tsv),
{
    let sep = if is_tsv {
        '\t'
    } else {
        ','
    };
    let cols = copy_strings(columns);
    let mut out: Vec<char> = Vec::new();
    append_joined(&mut out, &cols, sep);
    out.push('\n');
    let ghost rv = rows_view(rows@);
    let ghost head = out@;
    let mut i: usize = 0;
    while i < rows.len()
        invariant
            i <= rows@.len(),
            rv == rows_view(rows@),
            out@ == head + rows_text(rv.take(i as int), seq![sep]),
            seq![sep] == delimiter_text(is_tsv),
        decreases rows.len() - i,
    {
        assert(rv.take(i + 1).drop_last() == rv.take(i as int));
        assert(rv[i as int] == row_view(rows@[i as int]@));
        append_joined(&mut out, &rows[i], sep);
        out.push('\n');
        i = i + 1;
    }
    assert(rv.take(rows@.len() as int) == rv);
    string_of(out.as_slice())
}

/// Sorts `rows`, deduplicates them when asked, and formats them under the
/// `columns` header, truncated to `limit` characters.
pub fn sorted_matrix(columns: &[String], rows: Vec<Vec<String>>, deduplicate: bool, is_tsv: bool, limit: usize) -> (r: TruncateResult)
    ensures
        is_truncation_of(
            r,
            matrix_text(row_view(columns@), output_rows(rows_view(rows@), deduplicate), is_tsv),
            limit as nat,
        ),
{
    let sorted = sort_rows_exec(rows);
    let out_rows = if deduplicate {
        dedup_rows_exec(sorted)
    } else {
        sorted
    };
    let text = format_matrix_output(columns, &out_rows, is_tsv);
    truncate_output(text.as_str(), limit)
}

// ----- reading CSV --------------------------------------------------------

#[verifier::external_type_specification]
#[verifier::external_body]
pub struct ExCsvError(csv::Error);

/// The header row the `csv` crate reads from `data` with `delimiter`
/// (default reader settings), or `None` where it fails.
pub uninterp spec fn csv_header_row(data: Seq<u8>, delimiter: u8) -> Option<Seq<Seq<char>>>;

/// The records after the header row that the `csv` crate reads from
/// `data` with `delimiter` (default reader settings: a header row, records
/// of equal length), or `None` where reading any of them fails.
pub uninterp spec fn csv_record_rows(data: Seq<u8>, delimiter: u8) -> Option<Seq<Seq<Seq<char>>>>;

/// The header row of CSV `data` (`csv::Reader::headers` on a reader built
/// with `delimiter`). The outcome is named, not stated: it depends on the
/// bytes and the delimiter alone.
#[verifier::external_body]
fn read_csv_headers(data: &[u8], delimiter: u8) -> (r: Result<Vec<String>, csv::Error>)
    ensures
        match r {
            Ok(h) => csv_header_row(data@, delimiter) == Some(row_view(h@)),
            Err(_) => csv_header_row(data@, delimiter) is None,
        },
{
    let mut reader = csv::ReaderBuilder::new().delimiter(delimiter).from_reader(data);
    match reader.headers() {
        Ok(h) => Ok(h.iter().map(|f| f.to_string()).collect()),
        Err(e) => Err(e),
    }
}

/// The records of CSV `data` after its header row (`csv::Reader::records`
/// on a reader built with `delimiter`), stopping at the first that fails.
/// The outcome is named, not stated: it depends on the bytes and the
/// delimiter alone.
#[verifier::external_body]
fn read_csv_records(data: &[u8], delimiter: u8) -> (r: Result<Vec<Vec<String>>, csv::Error>)
    ensures
        match r {
            Ok(rs) => csv_record_rows(data@, delimiter) == Some(rows_view(rs@)),
            Err(_) => csv_record_rows(data@, delimiter) is None,
        },
{
    let mut reader = csv::ReaderBuilder::new().delimiter(delimiter).from_reader(data);
    reader.records().map(|rec| rec.map(|r| r.iter().map(|f| f.to_string()).collect())).collect()
}

/// The message of a CSV error (its `Display`); nothing is stated of it.
#[verifier::external_body]
fn csv_error_message(e: &csv::Error) -> String {
    e.to_string()
}

/// The file at `path` is read as TSV: its lowercased name ends in `.tsv`.
pub open spec fn is_tsv_path(path: Seq<char>) -> bool {
    ends_with(lowercase_text(path), ".tsv"@)
}

/// The byte that separates fields.
pub open spec fn delimiter_byte(is_tsv: bool) -> u8 {
    if is_tsv {
        9u8
    } else {
        44u8
    }
}

/// Filters, sorts and optionally deduplicates the columns of the CSV (TSV
/// when `path` ends in `.tsv`) text `data`: the named `columns` that
/// exist, in the order given, formatted under a header line and truncated
/// to `limit` characters.
pub fn filter_and_sort_csv(data: &[u8], path: &str, columns: &[String], deduplicate: Option<bool>, limit: usize) -> (r: CoreResult<TruncateResult>)
    ensures
        ({
            let tsv = is_tsv_path(path@);
            let d = delimiter_byte(tsv);
            let dedup = deduplicate == Some(true);
            match csv_header_row(data@, d) {
                None => r matches Err(CoreError::Parsing(m)) && starts_with(
                    m@,
                    "Failed to read CSV headers: "@,
                ),
                Some(h) => {
                    let pos = column_positions(h, row_view(columns@));
                    if pos.len() == 0 {
                        r matches Err(CoreError::General(m)) && m@ == columns_not_found_text(
                            row_view(columns@),
                            path@,
                            h,
                        )
                    } else {
                        match csv_record_rows(data@, d) {
                            None => r matches Err(CoreError::Parsing(m)) && starts_with(
                                m@,
                                "Failed to read CSV record: "@,
                            ),
                            Some(recs) => r matches Ok(t) && is_truncation_of(
                                t,
                                matrix_text(
                                    row_view(columns@),
                                    output_rows(project_records(recs, pos), dedup),
                                    tsv,
                                ),
                                limit as nat,
                            ),
                        }
                    }
                },
            }
        }),
{
    let lower = lowercase(path);
    let lc = chars_of(lower.as_str());
    let suffix = chars_of(".tsv");
    let is_tsv = crate::text::ends_with_chars(lc.as_slice(), suffix.as_slice());
    let delimiter: u8 = if is_tsv {
        9
    } else {
        44
    };
    let headers = match read_csv_headers(data, delimiter) {
        Ok(h) => h,
        Err(e) => {
            let mut m = String::from_str("Failed to read CSV headers: ");
            let ghost prefix = m@;
            m.append(csv_error_message(&e).as_str());
            assert(m@.take(prefix.len() as int) == prefix);
            return Err(CoreError::Parsing(m));
        },
    };
    let col_indices = resolve_column_indices(&headers, columns, path)?;
    let records = match read_csv_records(data, delimiter) {
        Ok(rs) => rs,
        Err(e) => {
            let mut m = String::from_str("Failed to read CSV record: ");
            let ghost prefix = m@;
            m.append(csv_error_message(&e).as_str());
            assert(m@.take(prefix.len() as int) == prefix);
            return Err(CoreError::Parsing(m));
        },
    };
    let rows = read_filtered_rows(&records, col_indices.as_slice());
    let dedup = match deduplicate {
        Some(b) => b,
        None => false,
    };
    Ok(sorted_matrix(columns, rows, dedup, is_tsv, limit))
}

/// Every output row has exactly one field per found column, in the order
/// the columns were requested.
pub proof fn law_rows_have_one_field_per_found_column(records: Seq<Seq<Seq<char>>>, positions: Seq<nat>)
    ensures
        forall|i: int|
            0 <= i < records.len() ==> (#[trigger] project_records(records, positions)[i]).len()
                == positions.len(),
{
}

/// `text_order` is the order of `String`: equal texts compare equal, a
/// proper prefix comes before the longer text (`"1"` before `"10"`), and
/// otherwise the first character where the two differ decides.
pub proof fn law_text_order_is_string_order(a: Seq<char>, b: Seq<char>)
    ensures
        text_order(a, b) == 0 <==> a == b,
        a.len() < b.len() && b.take(a.len() as int) == a ==> text_order(a, b) == -1,
        b.len() < a.len() && a.take(b.len() as int) == b ==> text_order(a, b) == 1,
        forall|i: int|
            0 <= i < a.len() && i < b.len() && a.take(i) == b.take(i) && #[trigger] a[i] != #[trigger] b[i]
                ==> text_order(a, b) == (if a[i] < b[i] {
                -1int
            } else {
                1int
            }),
    decreases a.len(),
{
    lemma_text_order(a, b);
    if a.len() > 0 && b.len() > 0 {
        let a1 = a.drop_first();
        let b1 = b.drop_first();
        law_text_order_is_string_order(a1, b1);
        if a.len() < b.len() && b.take(a.len() as int) == a {
            assert(b[0] == a[0]);
            assert(b1.take(a1.len() as int) =~= a1);
        }
        if b.len() < a.len() && a.take(b.len() as int) == b {
            assert(a[0] == b[0]);
            assert(a1.take(b1.len() as int) =~= b1);
        }
        assert forall|i: int|
            0 <= i < a.len() && i < b.len() && a.take(i) == b.take(i) && #[trigger] a[i] != #[trigger] b[i]
                implies text_order(a, b) == (if a[i] < b[i] {
                -1int
            } else {
                1int
            }) by {
            if i > 0 {
                assert(a[0] == a.take(i)[0] && b[0] == b.take(i)[0]);
                assert(a1.take(i - 1) =~= a.take(i).drop_first());
                assert(b1.take(i - 1) =~= b.take(i).drop_first());
                assert(a1[i - 1] == a[i] && b1[i - 1] == b[i]);
            }
        }
    } else if a.len() == 0 && b.len() > 0 {
        assert(b.take(0) =~= a);
    } else if b.len() == 0 && a.len() > 0 {
        assert(a.take(0) =~= b);
    }
}

/// `row_order` is the order of `Vec<String>`: equal rows compare equal, a
/// proper prefix comes first, and otherwise the first field where the two
/// differ decides, by the order of `String`.
pub proof fn law_row_order_is_vec_order(a: Seq<Seq<char>>, b: Seq<Seq<char>>)
    ensures
        row_order(a, b) == 0 <==> a == b,
        a.len() < b.len() && b.take(a.len() as int) == a ==> row_order(a, b) == -1,
        b.len() < a.len() && a.take(b.len() as int) == b ==> row_order(a, b) == 1,
        forall|i: int|
            0 <= i < a.len() && i < b.len() && a.take(i) == b.take(i) && #[trigger] a[i] != #[trigger] b[i]
                ==> row_order(a, b) == text_order(a[i], b[i]),
    decreases a.len(),
{
    lemma_row_order(a, b);
    if a.len() > 0 && b.len() > 0 {
        let a1 = a.drop_first();
        let b1 = b.drop_first();
        law_row_order_is_vec_order(a1, b1);
        lemma_text_order(a[0], b[0]);
        if a.len() < b.len() && b.take(a.len() as int) == a {
            assert(b[0] == a[0]);
            assert(b1.take(a1.len() as int) =~= a1);
        }
        if b.len() < a.len() && a.take(b.len() as int) == b {
            assert(a[0] == b[0]);
            assert(a1.take(b1.len() as int) =~= b1);
        }
        assert forall|i: int|
            0 <= i < a.len() && i < b.len() && a.take(i) == b.take(i) && #[trigger] a[i] != #[trigger] b[i]
                implies row_order(a, b) == text_order(a[i], b[i]) by {
            if i > 0 {
                assert(a[0] == a.take(i)[0] && b[0] == b.take(i)[0]);
                assert(a1.take(i - 1) =~= a.take(i).drop_first());
                assert(b1.take(i - 1) =~= b.take(i).drop_first());
                assert(a1[i - 1] == a[i] && b1[i - 1] == b[i]);
            }
        }
    } else if a.len() == 0 && b.len() > 0 {
        assert(b.take(0) =~= a);
    } else if b.len() == 0 && a.len() > 0 {
        assert(a.take(0) =~= b);
    }
}

/// A column's position is that of the first header with its name, and a
/// name no header has has none.
pub proof fn law_position_is_the_first_matching_header(headers: Seq<Seq<char>>, name: Seq<char>)
    ensures
        position_of(headers, name) matches Some(p) ==> p < headers.len() && headers[p as int] == name
            && forall|q: int| 0 <= q < p ==> #[trigger] headers[q] != name,
        position_of(headers, name) is None ==> !headers.contains(name),
    decreases headers.len(),
{
    if headers.len() > 0 && headers[0] != name {
        let t = headers.drop_first();
        law_position_is_the_first_matching_header(t, name);
        if let Some(p) = position_of(headers, name) {
            assert(headers[p as int] == t[p - 1]);
            assert forall|q: int| 0 <= q < p implies #[trigger] headers[q] != name by {
                if q > 0 {
                    assert(headers[q] == t[q - 1]);
                }
            }
        } else {
            if headers.contains(name) {
                let j = choose|j: int| 0 <= j < headers.len() && headers[j] == name;
                assert(t[j - 1] == name);
            }
        }
    }
}

} // verus!
