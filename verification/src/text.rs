//! Character-sequence operations the toolkit's text handling is built on,
//! each stated over `Seq<char>` and implemented over `Vec<char>`.

use vstd::prelude::*;

verus! {

/// The characters of `s`, in order (`str::chars`).
pub(crate) fn chars_of(s: &str) -> (r: Vec<char>)
    ensures
        r@ == s@,
{
    broadcast use vstd::string::axiom_spec_iter;
    let mut r: Vec<char> = Vec::new();
    for c in it: s.chars()
        invariant
            it.seq() == s@,
            r@ == it.seq().take(it.index()),
    {
        r.push(c);
    }
    r
}

/// The string made of the characters of `cs`, in order (collecting
/// `chars` into a `String`): the contract claims the string holds exactly
/// those characters.
#[verifier::external_body]
pub(crate) fn string_of(cs: &[char]) -> (r: String)
    ensures
        r@ == cs@,
{
    cs.iter().collect()
}

/// Unicode `White_Space`, the property `char::is_whitespace` tests.
pub open spec fn is_ws(c: char) -> bool {
    let u = c as u32;
    ||| 0x9 <= u <= 0xd
    ||| u == 0x20
    ||| u == 0x85
    ||| u == 0xa0
    ||| u == 0x1680
    ||| 0x2000 <= u <= 0x200a
    ||| u == 0x2028
    ||| u == 0x2029
    ||| u == 0x202f
    ||| u == 0x205f
    ||| u == 0x3000
}

pub fn is_ws_exec(c: char) -> (r: bool)
    ensures
        r == is_ws(c),
{
    let u = c as u32;
    (0x9 <= u && u <= 0xd) || u == 0x20 || u == 0x85 || u == 0xa0 || u == 0x1680 || (0x2000 <= u
        && u <= 0x200a) || u == 0x2028 || u == 0x2029 || u == 0x202f || u == 0x205f || u == 0x3000
}

/// Number of leading whitespace characters.
pub open spec fn ws_prefix_len(s: Seq<char>) -> nat
    decreases s.len(),
{
    if s.len() > 0 && is_ws(s[0]) {
        1 + ws_prefix_len(s.drop_first())
    } else {
        0
    }
}

/// Number of trailing whitespace characters.
pub open spec fn ws_suffix_len(s: Seq<char>) -> nat
    decreases s.len(),
{
    if s.len() > 0 && is_ws(s.last()) {
        1 + ws_suffix_len(s.drop_last())
    } else {
        0
    }
}

/// `s` without its trailing whitespace (`str::trim_end`).
pub open spec fn trim_end(s: Seq<char>) -> Seq<char> {
    s.take(s.len() - ws_suffix_len(s))
}

/// `s` without its leading whitespace (`str::trim_start`).
pub open spec fn trim_start(s: Seq<char>) -> Seq<char> {
    s.skip(ws_prefix_len(s) as int)
}

/// `s` without leading or trailing whitespace (`str::trim`).
pub open spec fn trim(s: Seq<char>) -> Seq<char> {
    trim_end(trim_start(s))
}

pub proof fn lemma_ws_prefix_len(s: Seq<char>, i: int)
    requires
        0 <= i <= s.len(),
        forall|j: int| 0 <= j < i ==> is_ws(#[trigger] s[j]),
        i == s.len() || !is_ws(s[i]),
    ensures
        ws_prefix_len(s) == i,
    decreases i,
{
    if i > 0 {
        let t = s.drop_first();
        assert forall|j: int| 0 <= j < i - 1 implies is_ws(#[trigger] t[j]) by {
            assert(t[j] == s[j + 1]);
        }
        lemma_ws_prefix_len(t, i - 1);
    }
}

pub proof fn lemma_ws_suffix_len(s: Seq<char>, i: int)
    requires
        0 <= i <= s.len(),
        forall|j: int| i <= j < s.len() ==> is_ws(#[trigger] s[j]),
        i == 0 || !is_ws(s[i - 1]),
    ensures
        ws_suffix_len(s) == s.len() - i,
    decreases s.len() - i,
{
    if i < s.len() {
        let t = s.drop_last();
        assert forall|j: int| i <= j < t.len() implies is_ws(#[trigger] t[j]) by {
            assert(t[j] == s[j]);
        }
        lemma_ws_suffix_len(t, i);
    }
}

pub proof fn lemma_ws_prefix_len_bound(s: Seq<char>)
    ensures
        ws_prefix_len(s) <= s.len(),
    decreases s.len(),
{
    if s.len() > 0 && is_ws(s[0]) {
        lemma_ws_prefix_len_bound(s.drop_first());
    }
}

pub proof fn lemma_ws_suffix_len_bound(s: Seq<char>)
    ensures
        ws_suffix_len(s) <= s.len(),
    decreases s.len(),
{
    if s.len() > 0 && is_ws(s.last()) {
        lemma_ws_suffix_len_bound(s.drop_last());
    }
}

/// Index of the first non-whitespace character (or `s.len()`).
pub fn ws_prefix_end(s: &[char]) -> (r: usize)
    ensures
        r == ws_prefix_len(s@),
{
    let mut i: usize = 0;
    while i < s.len() && is_ws_exec(s[i])
        invariant
            i <= s.len(),
            forall|j: int| 0 <= j < i ==> is_ws(#[trigger] s@[j]),
        decreases s.len() - i,
    {
        i = i + 1;
    }
    proof {
        lemma_ws_prefix_len(s@, i as int);
    }
    i
}

/// Index just past the last non-whitespace character (or `0`).
pub fn ws_suffix_start(s: &[char]) -> (r: usize)
    ensures
        r == s@.len() - ws_suffix_len(s@),
{
    let mut i: usize = s.len();
    while i > 0 && is_ws_exec(s[i - 1])
        invariant
            i <= s.len(),
            forall|j: int| i <= j < s.len() ==> is_ws(#[trigger] s@[j]),
        decreases i,
    {
        i = i - 1;
    }
    proof {
        lemma_ws_suffix_len(s@, i as int);
    }
    i
}

pub fn trim_end_chars(s: &[char]) -> (r: Vec<char>)
    ensures
        r@ == trim_end(s@),
{
    let e = ws_suffix_start(s);
    slice_range(s, 0, e)
}

pub fn trim_chars(s: &[char]) -> (r: Vec<char>)
    ensures
        r@ == trim(s@),
{
    let b = ws_prefix_end(s);
    proof {
        lemma_ws_prefix_len_bound(s@);
    }
    let t = slice_range(s, b, s.len());
    assert(t@ == trim_start(s@));
    trim_end_chars(t.as_slice())
}

/// The characters `s[lo..hi]`.
pub fn slice_range(s: &[char], lo: usize, hi: usize) -> (r: Vec<char>)
    requires
        lo <= hi <= s@.len(),
    ensures
        r@ == s@.subrange(lo as int, hi as int),
{
    let mut r: Vec<char> = Vec::new();
    let mut i = lo;
    while i < hi
        invariant
            lo <= i <= hi <= s@.len(),
            r@ == s@.subrange(lo as int, i as int),
        decreases hi - i,
    {
        r.push(s[i]);
        i = i + 1;
    }
    r
}


/// `s` split at every `sep` (`str::split` with a `char` pattern): always at
/// least one piece, the pieces joined by `sep` give back `s`.
pub open spec fn split_on(s: Seq<char>, sep: char) -> Seq<Seq<char>>
    decreases s.len(),
{
    if s.len() == 0 {
        seq![Seq::<char>::empty()]
    } else {
        let p = split_on(s.drop_last(), sep);
        if s.last() == sep {
            p.push(Seq::<char>::empty())
        } else {
            p.update(p.len() - 1, p.last().push(s.last()))
        }
    }
}

pub proof fn lemma_split_on_nonempty(s: Seq<char>, sep: char)
    ensures
        split_on(s, sep).len() >= 1,
    decreases s.len(),
{
    if s.len() > 0 {
        lemma_split_on_nonempty(s.drop_last(), sep);
    }
}

/// `pieces` joined with `sep` between consecutive pieces (`join`).
pub open spec fn join_with(pieces: Seq<Seq<char>>, sep: Seq<char>) -> Seq<char>
    decreases pieces.len(),
{
    if pieces.len() == 0 {
        Seq::<char>::empty()
    } else if pieces.len() == 1 {
        pieces[0]
    } else {
        join_with(pieces.drop_last(), sep) + sep + pieces.last()
    }
}

/// Deep view of a vector of character vectors.
pub open spec fn pieces_view(v: Seq<Vec<char>>) -> Seq<Seq<char>> {
    v.map_values(|x: Vec<char>| x@)
}

/// `s` split at every `sep`.
pub fn split_chars(s: &[char], sep: char) -> (r: Vec<Vec<char>>)
    ensures
        pieces_view(r@) == split_on(s@, sep),
{
    let mut done: Vec<Vec<char>> = Vec::new();
    let mut cur: Vec<char> = Vec::new();
    let mut i: usize = 0;
    while i < s.len()
        invariant
            i <= s.len(),
            pieces_view(done@).push(cur@) == split_on(s@.take(i as int), sep),
        decreases s.len() - i,
    {
        let c = s[i];
        proof {
            assert(s@.take(i + 1).drop_last() == s@.take(i as int));
            lemma_split_on_nonempty(s@.take(i as int), sep);
        }
        if c == sep {
            done.push(cur);
            cur = Vec::new();
            assert(pieces_view(done@).push(cur@) == split_on(s@.take(i + 1), sep));
        } else {
            cur.push(c);
            assert(pieces_view(done@).push(cur@) == split_on(s@.take(i + 1), sep));
        }
        i = i + 1;
    }
    assert(s@.take(s@.len() as int) == s@);
    done.push(cur);
    assert(pieces_view(done@) == split_on(s@, sep));
    done
}

/// `pieces` joined with `sep`.
pub fn join_chars(pieces: &Vec<Vec<char>>, sep: &[char]) -> (r: Vec<char>)
    ensures
        r@ == join_with(pieces_view(pieces@), sep@),
{
    let mut r: Vec<char> = Vec::new();
    let mut i: usize = 0;
    while i < pieces.len()
        invariant
            i <= pieces.len(),
            r@ == join_with(pieces_view(pieces@).take(i as int), sep@),
        decreases pieces.len() - i,
    {
        proof {
            let pv = pieces_view(pieces@);
            assert(pv.take(i + 1).drop_last() == pv.take(i as int));
        }
        if i > 0 {
            append_chars(&mut r, sep);
        }
        append_chars(&mut r, pieces[i].as_slice());
        i = i + 1;
    }
    assert(pieces_view(pieces@).take(pieces.len() as int) == pieces_view(pieces@));
    r
}

/// Appends the characters of `s` to `r`.
pub fn append_chars(r: &mut Vec<char>, s: &[char])
    ensures
        final(r)@ == old(r)@ + s@,
{
    let mut i: usize = 0;
    while i < s.len()
        invariant
            i <= s.len(),
            r@ == old(r)@ + s@.take(i as int),
        decreases s.len() - i,
    {
        r.push(s[i]);
        i = i + 1;
        assert(r@ == old(r)@ + s@.take(i as int));
    }
    assert(s@.take(s@.len() as int) == s@);
}

/// `l` without one trailing carriage return.
pub open spec fn strip_cr(l: Seq<char>) -> Seq<char> {
    if l.len() > 0 && l.last() == '\r' {
        l.drop_last()
    } else {
        l
    }
}

/// The lines of `s` (`str::lines`): split at `\n`, a final empty piece
/// dropped, and one `\r` stripped from each line that a `\n` ended.
pub open spec fn lines(s: Seq<char>) -> Seq<Seq<char>> {
    let p = split_on(s, '\n');
    let ended = p.drop_last().map_values(|l: Seq<char>| strip_cr(l));
    if p.last().len() == 0 {
        ended
    } else {
        ended.push(p.last())
    }
}

pub fn strip_cr_chars(l: Vec<char>) -> (r: Vec<char>)
    ensures
        r@ == strip_cr(l@),
{
    let mut l = l;
    if l.len() > 0 && l[l.len() - 1] == '\r' {
        l.pop();
    }
    l
}

/// The lines of `s`.
pub fn lines_chars(s: &[char]) -> (r: Vec<Vec<char>>)
    ensures
        pieces_view(r@) == lines(s@),
{
    let p = split_chars(s, '\n');
    proof {
        lemma_split_on_nonempty(s@, '\n');
    }
    let ghost pv = pieces_view(p@);
    let n = p.len();
    let mut r: Vec<Vec<char>> = Vec::new();
    let mut i: usize = 0;
    while i + 1 < n
        invariant
            n == p.len(),
            n >= 1,
            i + 1 <= n,
            pv == pieces_view(p@),
            pieces_view(r@) == pv.drop_last().map_values(|l: Seq<char>| strip_cr(l)).take(i as int),
        decreases n - i,
    {
        let piece = slice_range(p[i].as_slice(), 0, p[i].len());
        assert(piece@ == pv[i as int]);
        let stripped = strip_cr_chars(piece);
        let ghost before = pieces_view(r@);
        r.push(stripped);
        proof {
            let m = pv.drop_last().map_values(|l: Seq<char>| strip_cr(l));
            assert(pieces_view(r@) == before.push(stripped@));
            assert(m.take(i + 1) == m.take(i as int).push(m[i as int]));
        }
        i = i + 1;
    }
    assert(pv.drop_last().map_values(|l: Seq<char>| strip_cr(l)).take(i as int)
        == pv.drop_last().map_values(|l: Seq<char>| strip_cr(l)));
    if p[n - 1].len() > 0 {
        let last = slice_range(p[n - 1].as_slice(), 0, p[n - 1].len());
        assert(last@ == pv[n - 1]);
        r.push(last);
        assert(pieces_view(r@) == pv.drop_last().map_values(|l: Seq<char>| strip_cr(l)).push(pv.last()));
    }
    r
}

/// The decimal digit character for `d < 10`.
pub open spec fn digit_char(d: nat) -> char {
    if d == 0 {
        '0'
    } else if d == 1 {
        '1'
    } else if d == 2 {
        '2'
    } else if d == 3 {
        '3'
    } else if d == 4 {
        '4'
    } else if d == 5 {
        '5'
    } else if d == 6 {
        '6'
    } else if d == 7 {
        '7'
    } else if d == 8 {
        '8'
    } else {
        '9'
    }
}

/// The decimal numeral of `n`, without sign or leading zeros.
pub open spec fn decimal(n: nat) -> Seq<char>
    decreases n,
{
    if n < 10 {
        seq![digit_char(n)]
    } else {
        decimal(n / 10).push(digit_char(n % 10))
    }
}

/// The decimal digits of `n`.
pub fn decimal_chars_u64(n: u64) -> (r: Vec<char>)
    ensures
        r@ == decimal(n as nat),
    decreases n,
{
    if n < 10 {
        let mut v = Vec::new();
        v.push(digit_exec(n as usize));
        v
    } else {
        let mut v = decimal_chars_u64(n / 10);
        v.push(digit_exec((n % 10) as usize));
        v
    }
}

fn digit_exec(d: usize) -> (c: char)
    requires
        d < 10,
    ensures
        c == digit_char(d as nat),
{
    if d == 0 {
        '0'
    } else if d == 1 {
        '1'
    } else if d == 2 {
        '2'
    } else if d == 3 {
        '3'
    } else if d == 4 {
        '4'
    } else if d == 5 {
        '5'
    } else if d == 6 {
        '6'
    } else if d == 7 {
        '7'
    } else if d == 8 {
        '8'
    } else {
        '9'
    }
}

/// The decimal numeral of `n`.
pub fn decimal_chars(n: usize) -> (r: Vec<char>)
    ensures
        r@ == decimal(n as nat),
    decreases n,
{
    if n < 10 {
        let mut v = Vec::new();
        v.push(digit_exec(n));
        v
    } else {
        let mut v = decimal_chars(n / 10);
        v.push(digit_exec(n % 10));
        v
    }
}

/// `n` occurs in `h` starting at `i`.
pub open spec fn matches_at(h: Seq<char>, n: Seq<char>, i: int) -> bool {
    0 <= i && i + n.len() <= h.len() && h.subrange(i, i + n.len()) == n
}

/// Start positions of every occurrence of a non-empty `n` in `h` at or
/// after `from`, overlapping ones included, in increasing order.
pub open spec fn match_positions_from(h: Seq<char>, n: Seq<char>, from: int) -> Seq<int>
    decreases h.len() - from,
{
    if n.len() == 0 || from < 0 || from + n.len() > h.len() {
        Seq::<int>::empty()
    } else if matches_at(h, n, from) {
        seq![from] + match_positions_from(h, n, from + 1)
    } else {
        match_positions_from(h, n, from + 1)
    }
}

pub open spec fn match_positions(h: Seq<char>, n: Seq<char>) -> Seq<int> {
    match_positions_from(h, n, 0)
}

/// The exact occurrences are every position where the needle occurs,
/// overlapping ones included, each once, in increasing order.
pub proof fn law_match_positions_are_every_occurrence(h: Seq<char>, n: Seq<char>)
    requires
        n.len() > 0,
    ensures
        forall|i: int| matches_at(h, n, i) <==> #[trigger] match_positions(h, n).contains(i),
        forall|a: int, b: int|
            0 <= a < b < match_positions(h, n).len() ==> #[trigger] match_positions(h, n)[a]
                < #[trigger] match_positions(h, n)[b],
{
    lemma_match_positions_every(h, n, 0);
}

proof fn lemma_match_positions_every(h: Seq<char>, n: Seq<char>, from: int)
    requires
        n.len() > 0,
        0 <= from,
    ensures
        forall|i: int| (from <= i && matches_at(h, n, i)) <==> #[trigger] match_positions_from(h, n, from).contains(i),
        forall|a: int, b: int|
            0 <= a < b < match_positions_from(h, n, from).len() ==> #[trigger] match_positions_from(h, n, from)[a]
                < #[trigger] match_positions_from(h, n, from)[b],
        forall|a: int| 0 <= a < match_positions_from(h, n, from).len() ==> from <= #[trigger] match_positions_from(h, n, from)[a],
    decreases h.len() - from,
{
    let r = match_positions_from(h, n, from);
    if from + n.len() > h.len() {
        assert forall|i: int| (from <= i && matches_at(h, n, i)) <==> #[trigger] r.contains(i) by {
            if r.contains(i) {
                let k = choose|k: int| 0 <= k < r.len() && r[k] == i;
            }
        }
    } else {
        lemma_match_positions_every(h, n, from + 1);
        let rest = match_positions_from(h, n, from + 1);
        if matches_at(h, n, from) {
            assert(r == seq![from] + rest);
            assert forall|i: int| (from <= i && matches_at(h, n, i)) <==> #[trigger] r.contains(i) by {
                if i == from {
                    assert(r[0] == from);
                } else if r.contains(i) {
                    let k = choose|k: int| 0 <= k < r.len() && r[k] == i;
                    if k > 0 {
                        assert(r[k] == rest[k - 1]);
                        assert(rest.contains(i));
                    }
                } else if from < i && matches_at(h, n, i) {
                    assert(rest.contains(i));
                    let k = choose|k: int| 0 <= k < rest.len() && rest[k] == i;
                    assert(r[k + 1] == i);
                }
            }
            assert forall|a: int, b: int| 0 <= a < b < r.len() implies #[trigger] r[a] < #[trigger] r[b] by {
                assert(r[b] == rest[b - 1]);
                if a > 0 {
                    assert(r[a] == rest[a - 1]);
                }
            }
            assert forall|a: int| 0 <= a < r.len() implies from <= #[trigger] r[a] by {
                if a > 0 {
                    assert(r[a] == rest[a - 1]);
                }
            }
        } else {
            assert(r == rest);
        }
    }
}

/// Whether `n` occurs in `h` at `i`.
pub fn matches_at_exec(h: &[char], n: &[char], i: usize) -> (r: bool)
    ensures
        r == matches_at(h@, n@, i as int),
{
    if i > h.len() || n.len() > h.len() - i {
        return false;
    }
    let mut j: usize = 0;
    while j < n.len()
        invariant
            i + n.len() <= h.len(),
            j <= n@.len(),
            forall|k: int| 0 <= k < j ==> h@[i + k] == n@[k],
        decreases n.len() - j,
    {
        if h[i + j] != n[j] {
            assert(h@.subrange(i as int, i + n@.len())[j as int] != n@[j as int]);
            return false;
        }
        j = j + 1;
    }
    assert(h@.subrange(i as int, i + n@.len()) == n@);
    true
}

pub proof fn lemma_match_positions_bounds(h: Seq<char>, n: Seq<char>, from: int)
    ensures
        forall|k: int| 0 <= k < match_positions_from(h, n, from).len() ==> {
            let p = #[trigger] match_positions_from(h, n, from)[k];
            &&& from <= p
            &&& matches_at(h, n, p)
        },
    decreases h.len() - from,
{
    if n.len() == 0 || from < 0 || from + n.len() > h.len() {
    } else if matches_at(h, n, from) {
        lemma_match_positions_bounds(h, n, from + 1);
        let r = match_positions_from(h, n, from + 1);
        assert forall|k: int| 0 <= k < match_positions_from(h, n, from).len() implies {
            let p = #[trigger] match_positions_from(h, n, from)[k];
            &&& from <= p
            &&& matches_at(h, n, p)
        } by {
            if k > 0 {
                assert(match_positions_from(h, n, from)[k] == r[k - 1]);
            }
        }
    } else {
        lemma_match_positions_bounds(h, n, from + 1);
        assert(match_positions_from(h, n, from) == match_positions_from(h, n, from + 1));
    }
}

/// The start positions of every occurrence of a non-empty `n` in `h`,
/// overlapping ones included.
pub fn match_positions_exec(h: &[char], n: &[char]) -> (r: Vec<usize>)
    requires
        n@.len() > 0,
    ensures
        r@.len() == match_positions(h@, n@).len(),
        forall|k: int| 0 <= k < r@.len() ==> r@[k] as int == match_positions(h@, n@)[k],
{
    let mut r: Vec<usize> = Vec::new();
    let mut from: usize = 0;
    while from <= h.len() && n.len() <= h.len() - from
        invariant
            n@.len() > 0,
            from <= h@.len() + 1,
            forall|k: int| 0 <= k < r@.len() ==> r@[k] as int == (r@.map_values(|x: usize| x as int)
                + match_positions_from(h@, n@, from as int))[k],
            r@.map_values(|x: usize| x as int) + match_positions_from(h@, n@, from as int)
                == match_positions(h@, n@),
        decreases h.len() + 1 - from,
    {
        let ghost old_r = r@;
        if matches_at_exec(h, n, from) {
            r.push(from);
            assert(r@.map_values(|x: usize| x as int) == old_r.map_values(|x: usize| x as int).push(
                from as int,
            ));
            assert(r@.map_values(|x: usize| x as int) + match_positions_from(h@, n@, from + 1)
                == old_r.map_values(|x: usize| x as int) + match_positions_from(h@, n@, from as int));
            from = from + 1;
        } else {
            from = from + 1;
        }
    }
    assert(match_positions_from(h@, n@, from as int) == Seq::<int>::empty());
    assert(r@.map_values(|x: usize| x as int) + Seq::<int>::empty() == r@.map_values(
        |x: usize| x as int,
    ));
    r
}

/// Number of occurrences of `c` in `s`.
pub open spec fn count_char(s: Seq<char>, c: char) -> nat
    decreases s.len(),
{
    if s.len() == 0 {
        0
    } else {
        count_char(s.drop_last(), c) + if s.last() == c {
            1nat
        } else {
            0nat
        }
    }
}

pub proof fn lemma_split_len(s: Seq<char>, sep: char)
    ensures
        split_on(s, sep).len() == count_char(s, sep) + 1,
    decreases s.len(),
{
    if s.len() > 0 {
        lemma_split_len(s.drop_last(), sep);
    }
}

pub proof fn lemma_count_char_bound(s: Seq<char>, c: char)
    ensures
        count_char(s, c) <= s.len(),
    decreases s.len(),
{
    if s.len() > 0 {
        lemma_count_char_bound(s.drop_last(), c);
    }
}

/// Number of occurrences of `c` in `s`.
pub fn count_char_exec(s: &[char], c: char) -> (r: usize)
    ensures
        r == count_char(s@, c),
{
    let mut k: usize = 0;
    let mut i: usize = 0;
    while i < s.len()
        invariant
            i <= s.len(),
            k == count_char(s@.take(i as int), c),
            k <= i,
        decreases s.len() - i,
    {
        assert(s@.take(i + 1).drop_last() == s@.take(i as int));
        if s[i] == c {
            k = k + 1;
        }
        i = i + 1;
    }
    assert(s@.take(s@.len() as int) == s@);
    k
}

/// `s` with every `\r\n` turned into `\n` (`str::replace("\r\n", "\n")`):
/// a carriage return is dropped exactly when a line feed follows it.
pub open spec fn normalize_crlf(s: Seq<char>) -> Seq<char>
    decreases s.len(),
{
    if s.len() == 0 {
        s
    } else {
        let rest = normalize_crlf(s.drop_first());
        if s[0] == '\r' && s.len() > 1 && s[1] == '\n' {
            rest
        } else {
            seq![s[0]] + rest
        }
    }
}

/// `s` with every `\r\n` turned into `\n`.
pub fn normalize_crlf_chars(s: &[char]) -> (r: Vec<char>)
    ensures
        r@ == normalize_crlf(s@),
{
    let mut r: Vec<char> = Vec::new();
    let mut i: usize = 0;
    assert(s@.skip(0) == s@);
    assert(r@ + normalize_crlf(s@) == normalize_crlf(s@));
    while i < s.len()
        invariant
            i <= s.len(),
            r@ + normalize_crlf(s@.skip(i as int)) == normalize_crlf(s@),
        decreases s.len() - i,
    {
        assert(s@.skip(i as int).drop_first() == s@.skip(i + 1));
        if !(s[i] == '\r' && i + 1 < s.len() && s[i + 1] == '\n') {
            r.push(s[i]);
            assert(r@ + normalize_crlf(s@.skip(i + 1)) == normalize_crlf(s@));
        }
        i = i + 1;
    }
    assert(normalize_crlf(s@.skip(s@.len() as int)) == Seq::<char>::empty());
    assert(r@ + Seq::<char>::empty() == r@);
    r
}

/// Whether `a` and `b` hold the same characters.
pub fn chars_eq(a: &[char], b: &[char]) -> (r: bool)
    ensures
        r == (a@ == b@),
{
    if a.len() != b.len() {
        return false;
    }
    let mut i: usize = 0;
    while i < a.len()
        invariant
            a@.len() == b@.len(),
            i <= a@.len(),
            forall|k: int| 0 <= k < i ==> a@[k] == b@[k],
        decreases a.len() - i,
    {
        if a[i] != b[i] {
            return false;
        }
        i = i + 1;
    }
    assert(a@ == b@);
    true
}

/// Index of the last `c` in `s`, or `-1`.
pub open spec fn last_index_of(s: Seq<char>, c: char) -> int
    decreases s.len(),
{
    if s.len() == 0 {
        -1
    } else if s.last() == c {
        s.len() - 1
    } else {
        last_index_of(s.drop_last(), c)
    }
}

pub proof fn lemma_last_index_of(s: Seq<char>, c: char)
    ensures
        -1 <= last_index_of(s, c) < s.len(),
        last_index_of(s, c) >= 0 ==> s[last_index_of(s, c)] == c,
        forall|j: int| last_index_of(s, c) < j < s.len() ==> #[trigger] s[j] != c,
    decreases s.len(),
{
    if s.len() > 0 && s.last() != c {
        lemma_last_index_of(s.drop_last(), c);
        let t = s.drop_last();
        assert forall|j: int| last_index_of(s, c) < j < s.len() implies #[trigger] s[j] != c by {
            if j < t.len() {
                assert(s[j] == t[j]);
            }
        }
    }
}

/// Index of the last `c` in `s`, if any.
pub fn last_index_of_char(s: &[char], c: char) -> (r: Option<usize>)
    ensures
        match r {
            Some(i) => i as int == last_index_of(s@, c),
            None => last_index_of(s@, c) < 0,
        },
{
    let mut i: usize = s.len();
    assert(s@.take(s@.len() as int) == s@);
    while i > 0
        invariant
            i <= s@.len(),
            last_index_of(s@, c) == last_index_of(s@.take(i as int), c),
        decreases i,
    {
        assert(s@.take(i as int).drop_last() == s@.take(i - 1));
        if s[i - 1] == c {
            return Some(i - 1);
        }
        i = i - 1;
    }
    None
}

/// `d` is an ASCII decimal digit.
pub open spec fn is_digit(d: char) -> bool {
    '0' <= d <= '9'
}

/// The value of the ASCII digit `d`.
pub open spec fn digit_value(d: char) -> nat {
    ((d as u32) - ('0' as u32)) as nat
}

/// The value of a string of decimal digits (most significant first).
pub open spec fn digits_value(s: Seq<char>) -> nat
    decreases s.len(),
{
    if s.len() == 0 {
        0
    } else {
        digits_value(s.drop_last()) * 10 + digit_value(s.last())
    }
}

/// The digit part of an unsigned numeral: `s` without one leading `+`.
pub open spec fn unsigned_digits(s: Seq<char>) -> Seq<char> {
    if s.len() > 0 && s[0] == '+' {
        s.drop_first()
    } else {
        s
    }
}

/// Every character of `d` is an ASCII digit.
pub open spec fn all_digits(d: Seq<char>) -> bool {
    forall|i: int| 0 <= i < d.len() ==> is_digit(#[trigger] d[i])
}

/// Parse of an unsigned integer no larger than `max` (`str::parse` for an
/// unsigned type): an optional `+`, then one or more ASCII digits, with no
/// overflow.
pub open spec fn parse_unsigned(s: Seq<char>, max: nat) -> Option<nat> {
    let d = unsigned_digits(s);
    if d.len() == 0 || !all_digits(d) {
        None
    } else if digits_value(d) > max {
        None
    } else {
        Some(digits_value(d))
    }
}

proof fn lemma_digits_value_grows(s: Seq<char>, i: int)
    requires
        0 <= i <= s.len(),
        forall|k: int| 0 <= k < s.len() ==> is_digit(#[trigger] s[k]),
    ensures
        digits_value(s.take(i)) <= digits_value(s),
    decreases s.len() - i,
{
    if i < s.len() {
        lemma_digits_value_grows(s, i + 1);
        assert(s.take(i + 1).drop_last() == s.take(i));
        let a = digits_value(s.take(i));
        let b = digits_value(s.take(i + 1));
        assert(b == a * 10 + digit_value(s[i]));
        assert(a <= b) by (nonlinear_arith)
            requires
                b == a * 10 + digit_value(s[i]),
        ;
    } else {
        assert(s.take(i) == s);
    }
}

/// Parses `s` as a `u64` the way `str::parse::<u64>` does.
pub fn parse_u64(s: &str) -> (r: Option<u64>)
    ensures
        r matches Some(v) ==> parse_unsigned(s@, u64::MAX as nat) == Some(v as nat),
        r is None ==> parse_unsigned(s@, u64::MAX as nat) is None,
{
    let cs = chars_of(s);
    let mut start: usize = 0;
    if cs.len() > 0 && cs[0] == '+' {
        start = 1;
    }
    let ghost d = unsigned_digits(s@);
    assert(d == cs@.skip(start as int));
    if start == cs.len() {
        return None;
    }
    let mut v: u64 = 0;
    let mut i: usize = start;
    while i < cs.len()
        invariant
            start <= i <= cs@.len(),
            cs@ == s@,
            d == unsigned_digits(s@),
            d.len() > 0,
            d == cs@.skip(start as int),
            forall|k: int| 0 <= k < i - start ==> is_digit(#[trigger] d[k]),
            v as nat == digits_value(d.take(i - start)),
        decreases cs.len() - i,
    {
        let c = cs[i];
        if !('0' <= c && c <= '9') {
            assert(!is_digit(d[i - start]));
            assert(!all_digits(d));
            return None;
        }
        let dv = (c as u32 - '0' as u32) as u64;
        assert(dv as nat == digit_value(c));
        assert(d.take(i - start + 1).drop_last() == d.take(i - start));
        assert(d[i - start] == c);
        match v.checked_mul(10) {
            None => {
                proof {
                    assert(v as nat * 10 + digit_value(c) > u64::MAX);
                    lemma_digits_value_all(d, cs@, start as int, i as int);
                    assert(parse_unsigned_digits_fail(d));
                }
                return None;
            },
            Some(m) => match m.checked_add(dv) {
                None => {
                    proof {
                        assert(v as nat * 10 + digit_value(c) > u64::MAX);
                        lemma_digits_value_all(d, cs@, start as int, i as int);
                        assert(parse_unsigned_digits_fail(d));
                    }
                    return None;
                },
                Some(nv) => {
                    v = nv;
                },
            },
        }
        i = i + 1;
    }
    assert(d.take(i - start) == d);
    Some(v)
}

/// When the first `i - start` digits of `d` are valid digits but appending
/// the next one overflows `u64`, the whole of `d` does not parse.
proof fn lemma_digits_value_all(d: Seq<char>, cs: Seq<char>, start: int, i: int)
    requires
        0 <= start <= i < cs.len(),
        d == cs.skip(start),
        forall|k: int| 0 <= k < i - start ==> is_digit(#[trigger] d[k]),
        is_digit(d[i - start]),
        digits_value(d.take(i - start)) * 10 + digit_value(d[i - start]) > u64::MAX,
    ensures
        parse_unsigned_digits_fail(d),
{
    assert(d.take(i - start + 1).drop_last() == d.take(i - start));
    if all_digits(d) {
        lemma_digits_value_grows(d, i - start + 1);
    }
}

/// `d` is not a string of digits whose value fits in a `u64`.
pub open spec fn parse_unsigned_digits_fail(d: Seq<char>) -> bool {
    !all_digits(d) || digits_value(d) > u64::MAX
}

/// The Unicode lowercase mapping of `s` (`str::to_lowercase`).
pub uninterp spec fn lowercase_of(s: Seq<char>) -> Seq<char>;

/// Every character of `s` is ASCII.
pub open spec fn is_ascii_text(s: Seq<char>) -> bool {
    forall|i: int| 0 <= i < s.len() ==> (#[trigger] s[i] as u32) < 0x80
}

/// The ASCII lowercase of `c`: `A`..=`Z` become `a`..=`z`, anything else
/// stays.
pub open spec fn ascii_lower(c: char) -> char {
    if 'A' <= c <= 'Z' {
        ((c as u32) + 32) as char
    } else {
        c
    }
}

/// `s` in lowercase: on ASCII text `A`..=`Z` become `a`..=`z` and every
/// other character stays; any other text takes Unicode's mapping.
pub open spec fn lowercase_text(s: Seq<char>) -> Seq<char> {
    if is_ascii_text(s) {
        s.map_values(|c: char| ascii_lower(c))
    } else {
        lowercase_of(s)
    }
}

/// `s` in lowercase, by `str::to_lowercase`. The result is named: Unicode's
/// lowercase mapping, which depends on `s` alone; on ASCII text it maps
/// `A`..=`Z` to `a`..=`z` and keeps every other character.
#[verifier::external_body]
pub(crate) fn lowercase(s: &str) -> (r: String)
    ensures
        r@ == lowercase_of(s@),
        is_ascii_text(s@) ==> r@ == s@.map_values(|c: char| ascii_lower(c)),
        r@ == lowercase_text(s@),
{
    s.to_lowercase()
}

/// `s` starts with `prefix`.
pub open spec fn starts_with(s: Seq<char>, prefix: Seq<char>) -> bool {
    prefix.len() <= s.len() && s.take(prefix.len() as int) == prefix
}

/// `s` ends with `suffix`.
pub open spec fn ends_with(s: Seq<char>, suffix: Seq<char>) -> bool {
    suffix.len() <= s.len() && s.skip(s.len() - suffix.len()) == suffix
}

/// Whether `s` ends with `suffix`.
pub fn ends_with_chars(s: &[char], suffix: &[char]) -> (r: bool)
    ensures
        r == ends_with(s@, suffix@),
{
    if suffix.len() > s.len() {
        return false;
    }
    let off = s.len() - suffix.len();
    let mut i: usize = 0;
    while i < suffix.len()
        invariant
            off + suffix.len() == s.len(),
            off + suffix@.len() == s@.len(),
            i <= suffix@.len(),
            forall|k: int| 0 <= k < i ==> s@[off + k] == suffix@[k],
        decreases suffix.len() - i,
    {
        if s[off + i] != suffix[i] {
            assert(s@.skip(off as int)[i as int] != suffix@[i as int]);
            return false;
        }
        i = i + 1;
    }
    assert(s@.skip(off as int) == suffix@);
    true
}

/// Whether `s` contains `c`.
pub fn contains_char(s: &[char], c: char) -> (r: bool)
    ensures
        r == s@.contains(c),
{
    let mut i: usize = 0;
    while i < s.len()
        invariant
            i <= s@.len(),
            forall|k: int| 0 <= k < i ==> s@[k] != c,
        decreases s.len() - i,
    {
        if s[i] == c {
            assert(s@[i as int] == c);
            return true;
        }
        i = i + 1;
    }
    false
}

pub proof fn lemma_trim_idempotent(s: Seq<char>)
    ensures
        trim(trim(s)) == trim(s),
{
    let a = trim_start(s);
    lemma_ws_prefix_len_bound(s);
    let t = trim_end(a);
    lemma_ws_suffix_len_bound(a);
    // `t` starts with a non-whitespace character (or is empty) ...
    lemma_ws_prefix_props(s);
    if t.len() > 0 {
        assert(t[0] == a[0]);
    }
    lemma_ws_prefix_len(t, 0);
    assert(trim_start(t) == t);
    // ... and ends with one.
    lemma_ws_suffix_props(a);
    if t.len() > 0 {
        assert(t.last() == a[t.len() - 1]);
    }
    lemma_ws_suffix_len(t, t.len() as int);
    assert(trim_end(t) == t);
}

pub proof fn lemma_ws_prefix_props(s: Seq<char>)
    ensures
        ws_prefix_len(s) < s.len() ==> !is_ws(s[ws_prefix_len(s) as int]),
        forall|j: int| 0 <= j < ws_prefix_len(s) ==> is_ws(#[trigger] s[j]),
    decreases s.len(),
{
    lemma_ws_prefix_len_bound(s);
    if s.len() > 0 && is_ws(s[0]) {
        let t = s.drop_first();
        lemma_ws_prefix_props(t);
        assert forall|j: int| 0 <= j < ws_prefix_len(s) implies is_ws(#[trigger] s[j]) by {
            if j > 0 {
                assert(s[j] == t[j - 1]);
            }
        }
    }
}

pub proof fn lemma_ws_suffix_props(s: Seq<char>)
    ensures
        ws_suffix_len(s) < s.len() ==> !is_ws(s[s.len() - ws_suffix_len(s) - 1]),
        forall|j: int| s.len() - ws_suffix_len(s) <= j < s.len() ==> is_ws(#[trigger] s[j]),
    decreases s.len(),
{
    lemma_ws_suffix_len_bound(s);
    if s.len() > 0 && is_ws(s.last()) {
        let t = s.drop_last();
        lemma_ws_suffix_props(t);
        assert forall|j: int| s.len() - ws_suffix_len(s) <= j < s.len() implies is_ws(#[trigger] s[j]) by {
            if j < t.len() {
                assert(s[j] == t[j]);
            }
        }
    }
}

/// Occurrences add up over a concatenation.
pub proof fn lemma_count_char_concat(a: Seq<char>, b: Seq<char>, c: char)
    ensures
        count_char(a + b, c) == count_char(a, c) + count_char(b, c),
    decreases b.len(),
{
    if b.len() > 0 {
        lemma_count_char_concat(a, b.drop_last(), c);
        assert((a + b).drop_last() == a + b.drop_last());
    } else {
        assert(a + b == a);
    }
}

/// A prefix holds no more occurrences than the whole.
pub proof fn lemma_count_char_prefix(s: Seq<char>, k: int, c: char)
    requires
        0 <= k <= s.len(),
    ensures
        count_char(s.take(k), c) <= count_char(s, c),
{
    lemma_count_char_concat(s.take(k), s.skip(k), c);
    assert(s.take(k) + s.skip(k) == s);
}

/// A sequence without `c` holds no occurrence of it.
pub proof fn lemma_count_char_absent(s: Seq<char>, c: char)
    requires
        !s.contains(c),
    ensures
        count_char(s, c) == 0,
    decreases s.len(),
{
    if s.len() > 0 {
        assert(!s.drop_last().contains(c)) by {
            if s.drop_last().contains(c) {
                let j = choose|j: int| 0 <= j < s.drop_last().len() && s.drop_last()[j] == c;
                assert(s[j] == c);
            }
        }
        lemma_count_char_absent(s.drop_last(), c);
        assert(s.last() != c) by {
            if s.last() == c {
                assert(s[s.len() - 1] == c);
            }
        }
    }
}

/// No piece of a split holds the separator.
pub proof fn lemma_split_pieces_lack_sep(s: Seq<char>, sep: char)
    ensures
        forall|i: int| 0 <= i < split_on(s, sep).len() ==> !(#[trigger] split_on(s, sep)[i]).contains(sep),
    decreases s.len(),
{
    if s.len() > 0 {
        let p = split_on(s.drop_last(), sep);
        lemma_split_pieces_lack_sep(s.drop_last(), sep);
        lemma_split_on_nonempty(s.drop_last(), sep);
        if s.last() != sep {
            let q = p.last().push(s.last());
            assert(!q.contains(sep)) by {
                if q.contains(sep) {
                    let j = choose|j: int| 0 <= j < q.len() && q[j] == sep;
                    if j < p.last().len() {
                        assert(p.last()[j] == sep);
                        assert(p[p.len() - 1].contains(sep));
                    }
                }
            }
        } else {
            assert(!Seq::<char>::empty().contains(sep));
        }
        assert forall|i: int| 0 <= i < split_on(s, sep).len() implies !(#[trigger] split_on(s, sep)[i]).contains(sep) by {
            if i < p.len() - 1 {
                assert(split_on(s, sep)[i] == p[i]);
            }
        }
    }
}

/// A decimal numeral holds no line feed.
pub proof fn lemma_decimal_has_no_newline(n: nat)
    ensures
        count_char(decimal(n), '\n') == 0,
    decreases n,
{
    assert(count_char(Seq::<char>::empty(), '\n') == 0);
    if n >= 10 {
        lemma_decimal_has_no_newline(n / 10);
        assert(decimal(n).drop_last() == decimal(n / 10));
        assert(decimal(n).last() == digit_char(n % 10));
    } else {
        assert(decimal(n).drop_last() =~= Seq::<char>::empty());
        assert(decimal(n).last() == digit_char(n));
    }
}

/// A sequence holding `c` holds at least one occurrence of it.
pub proof fn lemma_count_char_contains(s: Seq<char>, c: char)
    requires
        s.contains(c),
    ensures
        count_char(s, c) >= 1,
    decreases s.len(),
{
    if s.last() != c {
        let j = choose|j: int| 0 <= j < s.len() && s[j] == c;
        assert(s.drop_last()[j] == c);
        lemma_count_char_contains(s.drop_last(), c);
    }
}

/// `s` with every occurrence of the non-empty `pat` replaced by `rep`,
/// scanning left to right without overlap (`str::replace`).
pub open spec fn replace_all(s: Seq<char>, pat: Seq<char>, rep: Seq<char>) -> Seq<char>
    decreases s.len(),
{
    if s.len() == 0 || pat.len() == 0 {
        s
    } else if matches_at(s, pat, 0) {
        rep + replace_all(s.skip(pat.len() as int), pat, rep)
    } else {
        seq![s[0]] + replace_all(s.drop_first(), pat, rep)
    }
}

/// `s` with every occurrence of the non-empty `pat` replaced by `rep`.
pub fn replace_all_chars(s: &[char], pat: &[char], rep: &[char]) -> (r: Vec<char>)
    requires
        pat@.len() > 0,
    ensures
        r@ == replace_all(s@, pat@, rep@),
{
    let mut r: Vec<char> = Vec::new();
    let mut i: usize = 0;
    assert(s@.skip(0) == s@);
    while i < s.len()
        invariant
            pat@.len() > 0,
            i <= s@.len(),
            r@ + replace_all(s@.skip(i as int), pat@, rep@) == replace_all(s@, pat@, rep@),
        decreases s.len() - i,
    {
        let ghost t = s@.skip(i as int);
        if matches_at_exec(s, pat, i) {
            assert(matches_at(t, pat@, 0)) by {
                assert(t.subrange(0, pat@.len() as int) == s@.subrange(i as int, i + pat@.len()));
            }
            assert(t.skip(pat@.len() as int) == s@.skip(i + pat@.len()));
            append_chars(&mut r, rep);
            i = i + pat.len();
        } else {
            assert(!matches_at(t, pat@, 0)) by {
                if matches_at(t, pat@, 0) {
                    assert(t.subrange(0, pat@.len() as int) == s@.subrange(i as int, i + pat@.len()));
                }
            }
            assert(t.drop_first() == s@.skip(i + 1));
            r.push(s[i]);
            i = i + 1;
        }
    }
    assert(s@.skip(i as int).len() == 0);
    r
}

/// Text without the separator only lengthens the last piece.
pub proof fn lemma_split_append_plain(s: Seq<char>, y: Seq<char>, sep: char)
    requires
        !y.contains(sep),
    ensures
        split_on(s + y, sep) == split_on(s, sep).update(
            split_on(s, sep).len() - 1,
            split_on(s, sep).last() + y,
        ),
    decreases y.len(),
{
    lemma_split_on_nonempty(s, sep);
    if y.len() == 0 {
        assert(s + y =~= s);
        assert(split_on(s, sep).last() + y =~= split_on(s, sep).last());
        assert(split_on(s, sep).update(split_on(s, sep).len() - 1, split_on(s, sep).last())
            =~= split_on(s, sep));
    } else {
        let y0 = y.drop_last();
        let c = y.last();
        assert(!y0.contains(sep)) by {
            if y0.contains(sep) {
                let j = choose|j: int| 0 <= j < y0.len() && y0[j] == sep;
                assert(y[j] == sep);
            }
        }
        assert(c != sep) by {
            assert(y[y.len() - 1] == c);
        }
        lemma_split_append_plain(s, y0, sep);
        assert((s + y).drop_last() =~= s + y0);
        assert((s + y).last() == c);
        let p = split_on(s, sep);
        assert(p.last() + y =~= (p.last() + y0).push(c));
        assert(split_on(s + y, sep) =~= p.update(p.len() - 1, p.last() + y));
    }
}

/// Splitting pieces joined with the separator gives the pieces back, when
/// none of them holds the separator.
pub proof fn lemma_split_join(ps: Seq<Seq<char>>, sep: char)
    requires
        ps.len() >= 1,
        forall|i: int| 0 <= i < ps.len() ==> !(#[trigger] ps[i]).contains(sep),
    ensures
        split_on(join_with(ps, seq![sep]), sep) == ps,
    decreases ps.len(),
{
    let e = Seq::<char>::empty();
    if ps.len() == 1 {
        assert(e + ps[0] =~= ps[0]);
        lemma_split_append_plain(e, ps[0], sep);
        assert(split_on(e, sep) =~= seq![e]);
        assert(e + ps[0] =~= ps[0]);
        assert(seq![e].update(0, e + ps[0]) =~= ps);
    } else {
        let q = ps.drop_last();
        assert forall|i: int| 0 <= i < q.len() implies !(#[trigger] q[i]).contains(sep) by {
            assert(q[i] == ps[i]);
        }
        lemma_split_join(q, sep);
        let j = join_with(q, seq![sep]);
        let js = j + seq![sep];
        assert(js.drop_last() =~= j);
        assert(split_on(js, sep) == split_on(j, sep).push(e));
        assert(!ps[ps.len() - 1].contains(sep));
        lemma_split_append_plain(js, ps.last(), sep);
        assert(e + ps.last() =~= ps.last());
        assert(join_with(ps, seq![sep]) == js + ps.last());
        assert(q.push(e).update(q.len() as int, e + ps.last()) =~= ps);
    }
}

/// A separator in front adds an empty first piece.
pub proof fn lemma_split_lead_join(ps: Seq<Seq<char>>, sep: char)
    requires
        ps.len() >= 1,
        forall|i: int| 0 <= i < ps.len() ==> !(#[trigger] ps[i]).contains(sep),
    ensures
        split_on(seq![sep] + join_with(ps, seq![sep]), sep) == seq![Seq::<char>::empty()] + ps,
    decreases ps.len(),
{
    let e = Seq::<char>::empty();
    let lead = seq![sep];
    assert(lead.drop_last() =~= e);
    assert(split_on(lead, sep) == split_on(e, sep).push(e));
    assert(split_on(e, sep) =~= seq![e]);
    if ps.len() == 1 {
        lemma_split_append_plain(lead, ps[0], sep);
        assert(e + ps[0] =~= ps[0]);
        assert(seq![e, e].update(1, e + ps[0]) =~= seq![e] + ps);
        assert(split_on(lead, sep) =~= seq![e, e]);
    } else {
        let q = ps.drop_last();
        assert forall|i: int| 0 <= i < q.len() implies !(#[trigger] q[i]).contains(sep) by {
            assert(q[i] == ps[i]);
        }
        lemma_split_lead_join(q, sep);
        let j = lead + join_with(q, seq![sep]);
        let js = j + seq![sep];
        assert(js.drop_last() =~= j);
        assert(split_on(js, sep) == split_on(j, sep).push(e));
        assert(!ps[ps.len() - 1].contains(sep));
        lemma_split_append_plain(js, ps.last(), sep);
        assert(e + ps.last() =~= ps.last());
        assert(lead + join_with(ps, seq![sep]) =~= js + ps.last());
        assert((seq![e] + q).push(e).update(q.len() as int + 1, e + ps.last()) =~= seq![e] + ps);
    }
}

/// `kept` is `line` less only its trailing whitespace: a prefix of it,
/// followed in `line` by whitespace alone, and not itself ending in
/// whitespace.
pub open spec fn drops_only_trailing_whitespace(line: Seq<char>, kept: Seq<char>) -> bool {
    &&& kept.len() <= line.len()
    &&& line.take(kept.len() as int) == kept
    &&& forall|j: int| kept.len() <= j < line.len() ==> is_ws(#[trigger] line[j])
    &&& kept.len() > 0 ==> !is_ws(kept.last())
}

/// `trim_end` removes exactly the trailing whitespace (`str::trim_end`).
pub proof fn law_trim_end_drops_only_trailing_whitespace(s: Seq<char>)
    ensures
        drops_only_trailing_whitespace(s, trim_end(s)),
{
    lemma_ws_suffix_len_bound(s);
    lemma_ws_suffix_props(s);
    let k = s.len() - ws_suffix_len(s);
    if k > 0 {
        assert(trim_end(s).last() == s[k - 1]);
    }
}

/// `trim` removes exactly the leading and trailing whitespace
/// (`str::trim`): what is left is a stretch of `s` with only whitespace
/// around it, and it neither starts nor ends with whitespace.
pub proof fn law_trim_drops_only_surrounding_whitespace(s: Seq<char>)
    ensures
        exists|a: int|
            0 <= a && a + trim(s).len() <= s.len() && #[trigger] s.subrange(a, a + trim(s).len()) == trim(s)
                && (forall|j: int| 0 <= j < a ==> is_ws(#[trigger] s[j])) && (forall|j: int|
                a + trim(s).len() <= j < s.len() ==> is_ws(#[trigger] s[j])),
        trim(s).len() > 0 ==> !is_ws(trim(s)[0]) && !is_ws(trim(s).last()),
{
    lemma_ws_prefix_len_bound(s);
    lemma_ws_prefix_props(s);
    let a = ws_prefix_len(s) as int;
    let st = trim_start(s);
    lemma_ws_suffix_len_bound(st);
    lemma_ws_suffix_props(st);
    let t = trim(s);
    let k = st.len() - ws_suffix_len(st);
    assert(t == st.take(k));
    assert(s.subrange(a, a + t.len()) =~= t);
    assert forall|j: int| a + t.len() <= j < s.len() implies is_ws(#[trigger] s[j]) by {
        assert(s[j] == st[j - a]);
    }
    if t.len() > 0 {
        assert(t[0] == s[a]);
        assert(t.last() == st[k - 1]);
    }
}

/// `split_on` cuts at every separator and nowhere else: its pieces hold no
/// separator, and joined with the separator they give the text back.
pub proof fn law_split_on_cuts_at_every_separator(s: Seq<char>, sep: char)
    ensures
        forall|i: int| 0 <= i < split_on(s, sep).len() ==> !(#[trigger] split_on(s, sep)[i]).contains(sep),
        join_with(split_on(s, sep), seq![sep]) == s,
    decreases s.len(),
{
    lemma_split_pieces_lack_sep(s, sep);
    lemma_split_on_nonempty(s, sep);
    if s.len() > 0 {
        let d = s.drop_last();
        law_split_on_cuts_at_every_separator(d, sep);
        lemma_split_on_nonempty(d, sep);
        let p = split_on(d, sep);
        assert(d.push(s.last()) =~= s);
        if s.last() == sep {
            let q = p.push(Seq::<char>::empty());
            assert(q.drop_last() =~= p);
            assert(join_with(q, seq![sep]) =~= join_with(p, seq![sep]) + seq![sep]);
        } else {
            let q = p.update(p.len() - 1, p.last().push(s.last()));
            assert(p.last().push(s.last()).take(p.last().len() as int) =~= p.last());
            lemma_join_with_last(p, p.last().push(s.last()), sep);
            assert(p.last().push(s.last()).skip(p.last().len() as int) =~= seq![s.last()]);
        }
    } else {
        assert(split_on(s, sep) =~= seq![Seq::<char>::empty()]);
    }
}

/// Replacing the last piece changes only the tail of the joined text.
proof fn lemma_join_with_last(p: Seq<Seq<char>>, x: Seq<char>, sep: char)
    requires
        p.len() >= 1,
        x.len() >= p.last().len(),
        x.take(p.last().len() as int) == p.last(),
    ensures
        join_with(p.update(p.len() - 1, x), seq![sep]) == join_with(p, seq![sep]) + x.skip(
            p.last().len() as int,
        ),
{
    let q = p.update(p.len() - 1, x);
    if p.len() == 1 {
        assert(x =~= p.last() + x.skip(p.last().len() as int));
    } else {
        assert(q.drop_last() =~= p.drop_last());
        assert(x =~= p.last() + x.skip(p.last().len() as int));
    }
}

/// Whitespace at the very end never survives a trim.
pub proof fn lemma_trim_ignores_trailing_ws(x: Seq<char>, w: char)
    requires
        is_ws(w),
    ensures
        trim(x.push(w)) == trim(x),
{
    let y = x.push(w);
    let p = ws_prefix_len(x);
    lemma_ws_prefix_props(x);
    lemma_ws_prefix_len_bound(x);
    if p == x.len() {
        assert forall|j: int| 0 <= j < y.len() implies is_ws(#[trigger] y[j]) by {
            if j < x.len() {
                assert(y[j] == x[j]);
            }
        }
        lemma_ws_prefix_len(y, y.len() as int);
        assert(trim_start(y).len() == 0);
        assert(trim_start(x).len() == 0);
        assert(trim(y) =~= trim(x));
    } else {
        assert forall|j: int| 0 <= j < p implies is_ws(#[trigger] y[j]) by {
            assert(y[j] == x[j]);
        }
        assert(y[p as int] == x[p as int]);
        lemma_ws_prefix_len(y, p as int);
        let a = trim_start(x);
        assert(trim_start(y) =~= a.push(w));
        assert(a.push(w).drop_last() =~= a);
        lemma_ws_suffix_len_bound(a);
        assert(ws_suffix_len(a.push(w)) == 1 + ws_suffix_len(a));
        assert(trim_end(a.push(w)) =~= trim_end(a));
    }
}

/// How `normalize_crlf` grows by one character at the end: a `\n` that
/// completes a `\r\n` replaces the pending `\r`; any other character is
/// appended.
pub proof fn lemma_normalize_crlf_push(s: Seq<char>, c: char)
    ensures
        normalize_crlf(s.push(c)) == (if c == '\n' && s.len() > 0 && s.last() == '\r' {
            normalize_crlf(s.drop_last()).push('\n')
        } else {
            normalize_crlf(s).push(c)
        }),
    decreases s.len(),
{
    let t = s.push(c);
    if s.len() == 0 {
        assert(t.drop_first().len() == 0);
        assert(t[0] == c);
        assert(normalize_crlf(t.drop_first()).len() == 0);
        assert(normalize_crlf(t) =~= seq![c]);
    } else {
        let s1 = s.drop_first();
        assert(t.drop_first() =~= s1.push(c));
        assert(t[0] == s[0]);
        lemma_normalize_crlf_push(s1, c);
        if s.len() == 1 {
            assert(s1.len() == 0);
            assert(t[1] == c);
            if s[0] == '\r' && c == '\n' {
                assert(s.drop_last().len() == 0);
                assert(normalize_crlf(t) == normalize_crlf(s1.push(c)));
                assert(normalize_crlf(s1.push(c)) =~= seq!['\n']);
            } else {
                assert(normalize_crlf(s1.push(c)) =~= seq![c]);
                assert(normalize_crlf(s) =~= seq![s[0]]);
                assert(normalize_crlf(t) =~= seq![s[0], c]);
            }
        } else {
            assert(t[1] == s[1]);
            let d = s.drop_last();
            if c == '\n' && s.last() == '\r' {
                assert(s1.last() == '\r');
                assert(d.drop_first() =~= s1.drop_last());
                if d.len() > 1 {
                    assert(d[0] == s[0] && d[1] == s[1]);
                } else {
                    assert(s1.drop_last().len() == 0);
                    assert(normalize_crlf(d) =~= seq![s[0]]);
                    assert(!(s[0] == '\r' && s[1] == '\n'));
                }
                if s[0] == '\r' && s[1] == '\n' {
                    assert(normalize_crlf(t) == normalize_crlf(s1.push(c)));
                } else {
                    assert(normalize_crlf(t) == seq![s[0]] + normalize_crlf(s1.push(c)));
                    assert(seq![s[0]] + normalize_crlf(s1.drop_last()).push('\n') =~= (seq![s[0]]
                        + normalize_crlf(s1.drop_last())).push('\n'));
                }
            } else {
                if s[0] == '\r' && s[1] == '\n' {
                    assert(normalize_crlf(t) == normalize_crlf(s1.push(c)));
                } else {
                    assert(normalize_crlf(t) == seq![s[0]] + normalize_crlf(s1.push(c)));
                    assert(seq![s[0]] + normalize_crlf(s1).push(c) =~= (seq![s[0]] + normalize_crlf(
                        s1,
                    )).push(c));
                }
            }
        }
    }
}

/// The `\n`-separated pieces of a text and of the same text with `\r\n`
/// normalized line up one for one: each piece but the last is the
/// normalized piece, or that piece followed by the `\r` that the
/// normalization took away; the last piece is the same.
pub proof fn lemma_split_normalized(s: Seq<char>)
    ensures
        split_on(s, '\n').len() == split_on(normalize_crlf(s), '\n').len(),
        split_on(s, '\n').last() == split_on(normalize_crlf(s), '\n').last(),
        forall|i: int|
            0 <= i < split_on(s, '\n').len() - 1 ==> (#[trigger] split_on(s, '\n')[i] == split_on(
                normalize_crlf(s),
                '\n',
            )[i] || split_on(s, '\n')[i] == split_on(normalize_crlf(s), '\n')[i].push('\r')),
    decreases s.len(),
{
    lemma_split_on_nonempty(s, '\n');
    lemma_split_on_nonempty(normalize_crlf(s), '\n');
    if s.len() > 0 {
        let u = s.drop_last();
        let c = s.last();
        assert(u.push(c) =~= s);
        lemma_normalize_crlf_push(u, c);
        if c == '\n' && u.len() > 0 && u.last() == '\r' {
            let w = u.drop_last();
            assert(w.push('\r') =~= u);
            lemma_split_normalized(w);
            lemma_normalize_crlf_push(w, '\r');
            lemma_split_on_nonempty(w, '\n');
            lemma_split_on_nonempty(normalize_crlf(w), '\n');
            let nw = normalize_crlf(w);
            assert(normalize_crlf(s) == nw.push('\n'));
            assert(nw.push('\n').drop_last() =~= nw);
            assert(u.drop_last() =~= w);
            assert(s.drop_last() =~= u);
        } else {
            lemma_split_normalized(u);
            lemma_split_on_nonempty(u, '\n');
            lemma_split_on_nonempty(normalize_crlf(u), '\n');
            let nu = normalize_crlf(u);
            assert(normalize_crlf(s) == nu.push(c));
            assert(nu.push(c).drop_last() =~= nu);
            assert(s.drop_last() =~= u);
        }
    }
}

/// The `Debug` rendering of a list of strings (`["a", "b"]`).
pub uninterp spec fn debug_list_text(items: Seq<Seq<char>>) -> Seq<char>;

/// The `Debug` rendering of `items` (`format!("{:?}", items)`). The result
/// is named, not stated: each item quoted with Rust's escapes, in order,
/// separated by `, ` between brackets.
#[verifier::external_body]
pub(crate) fn debug_list(items: &Vec<String>) -> (r: String)
    ensures
        r@ == debug_list_text(items@.map_values(|s: String| s@)),
{
    format!("{:?}", items)
}

} // verus!
