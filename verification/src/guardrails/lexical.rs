//! A lexical model of Unix paths (`std::path::Path` components), enough to
//! collapse `.` and `..` without touching the filesystem and to compare
//! paths component by component.

use vstd::prelude::*;
use crate::text::{
    append_chars, chars_eq, join_with, lemma_split_join, lemma_split_lead_join, lemma_split_pieces_lack_sep,
    pieces_view, split_chars, split_on,
};

verus! {

/// The path is absolute: it starts with `/`.
pub open spec fn is_absolute(p: Seq<char>) -> bool {
    p.len() > 0 && p[0] == '/'
}

/// The component that stands for the root directory.
pub open spec fn root_component() -> Seq<char> {
    seq!['/']
}

/// The component that stands for the current directory.
pub open spec fn cur_component() -> Seq<char> {
    seq!['.']
}

/// The component that stands for the parent directory.
pub open spec fn parent_component() -> Seq<char> {
    seq!['.', '.']
}

/// Keeps the pieces of `ps` that name something: not empty, not `.`.
pub open spec fn named_pieces(ps: Seq<Seq<char>>) -> Seq<Seq<char>>
    decreases ps.len(),
{
    if ps.len() == 0 {
        ps
    } else {
        let rest = named_pieces(ps.drop_last());
        if ps.last().len() == 0 || ps.last() == cur_component() {
            rest
        } else {
            rest.push(ps.last())
        }
    }
}

/// The non-root components of `p`, with `.` and empty pieces dropped.
pub open spec fn segments(p: Seq<char>) -> Seq<Seq<char>> {
    named_pieces(split_on(p, '/'))
}

/// A relative path that starts with a `.` component (`.` or `./...`).
pub open spec fn leads_with_cur_dir(p: Seq<char>) -> bool {
    !is_absolute(p) && p.len() > 0 && p[0] == '.' && (p.len() == 1 || p[1] == '/')
}

/// The components of `p` as `Path::components` yields them: the root, a
/// leading `.` of a relative path, then every named piece.
pub open spec fn components(p: Seq<char>) -> Seq<Seq<char>> {
    if is_absolute(p) {
        seq![root_component()] + segments(p)
    } else if leads_with_cur_dir(p) {
        seq![cur_component()] + segments(p)
    } else {
        segments(p)
    }
}

/// One step of lexical normalisation: `..` removes the last named
/// component, is ignored directly under the root, and is kept otherwise.
pub open spec fn normalize_step(absolute: bool, st: Seq<Seq<char>>, seg: Seq<char>) -> Seq<Seq<char>> {
    if seg == parent_component() {
        if st.len() > 0 && st.last() != parent_component() {
            st.drop_last()
        } else if absolute {
            st
        } else {
            st.push(seg)
        }
    } else {
        st.push(seg)
    }
}

/// `segs` with `..` collapsed lexically.
pub open spec fn normalize_segments(absolute: bool, segs: Seq<Seq<char>>) -> Seq<Seq<char>>
    decreases segs.len(),
{
    if segs.len() == 0 {
        segs
    } else {
        normalize_step(absolute, normalize_segments(absolute, segs.drop_last()), segs.last())
    }
}

/// The components of `p` once `.` and `..` are collapsed lexically.
pub open spec fn normalized_components(p: Seq<char>) -> Seq<Seq<char>> {
    let st = normalize_segments(is_absolute(p), segments(p));
    if is_absolute(p) {
        seq![root_component()] + st
    } else {
        st
    }
}

/// `p` collapses lexically to the current directory (`.`, `./`, `a/..`).
pub open spec fn is_current_dir_equivalent(p: Seq<char>) -> bool {
    normalized_components(p).len() == 0
}

/// `base` joined with `p` (`Path::join`): `p` itself when absolute or when
/// `base` is empty, else the two with one `/` between them.
pub open spec fn join_path(base: Seq<char>, p: Seq<char>) -> Seq<char> {
    if is_absolute(p) || base.len() == 0 {
        p
    } else if base.last() == '/' {
        base + p
    } else {
        base + seq!['/'] + p
    }
}

/// `base` is a component-wise prefix of `p` (`Path::starts_with`).
pub open spec fn is_prefix_of(base: Seq<Seq<char>>, p: Seq<Seq<char>>) -> bool {
    base.len() <= p.len() && forall|i: int| 0 <= i < base.len() ==> #[trigger] base[i] == p[i]
}

/// The named pieces of `ps`.
pub fn named_pieces_exec(ps: &Vec<Vec<char>>) -> (r: Vec<Vec<char>>)
    ensures
        pieces_view(r@) == named_pieces(pieces_view(ps@)),
{
    let ghost pv = pieces_view(ps@);
    let mut out: Vec<Vec<char>> = Vec::new();
    let mut i: usize = 0;
    while i < ps.len()
        invariant
            i <= ps@.len(),
            pv == pieces_view(ps@),
            pieces_view(out@) == named_pieces(pv.take(i as int)),
        decreases ps.len() - i,
    {
        assert(pv.take(i + 1).drop_last() == pv.take(i as int));
        assert(pv.take(i + 1).last() == ps@[i as int]@);
        let p = &ps[i];
        let is_cur = p.len() == 1 && p[0] == '.';
        proof {
            if is_cur {
                assert(p@ =~= cur_component());
            } else if p@ == cur_component() {
                assert(p@[0] == cur_component()[0]);
            }
        }
        if !(p.len() == 0 || is_cur) {
            let ghost before = pieces_view(out@);
            let mut copy: Vec<char> = Vec::new();
            append_chars(&mut copy, p.as_slice());
            assert(copy@ == p@);
            out.push(copy);
            assert(pieces_view(out@) == before.push(copy@));
        }
        i = i + 1;
    }
    assert(pv.take(i as int) == pv);
    out
}

/// The named pieces of `p`.
pub fn segments_exec(p: &[char]) -> (r: Vec<Vec<char>>)
    ensures
        pieces_view(r@) == segments(p@),
{
    let ps = split_chars(p, '/');
    named_pieces_exec(&ps)
}

fn is_parent(s: &Vec<char>) -> (r: bool)
    ensures
        r == (s@ == parent_component()),
{
    let r = s.len() == 2 && s[0] == '.' && s[1] == '.';
    proof {
        if r {
            assert(s@ =~= parent_component());
        } else if s@ == parent_component() {
            assert(s@[0] == parent_component()[0] && s@[1] == parent_component()[1]);
        }
    }
    r
}

/// `segs` with `..` collapsed lexically.
pub fn normalize_segments_exec(absolute: bool, segs: Vec<Vec<char>>) -> (r: Vec<Vec<char>>)
    ensures
        pieces_view(r@) == normalize_segments(absolute, pieces_view(segs@)),
{
    let ghost pv = pieces_view(segs@);
    let mut st: Vec<Vec<char>> = Vec::new();
    let mut segs = segs;
    let mut rev: Vec<Vec<char>> = Vec::new();
    // Consume `segs` front to back by first reversing it.
    while segs.len() > 0
        invariant
            pieces_view(segs@) + pieces_view(rev@).reverse() == pv,
        decreases segs.len(),
    {
        let ghost before_s = pieces_view(segs@);
        let ghost before_r = pieces_view(rev@);
        let x = segs.pop().unwrap();
        rev.push(x);
        assert(pieces_view(segs@) == before_s.drop_last());
        assert(pieces_view(rev@) == before_r.push(x@));
        assert(pieces_view(rev@).reverse() == seq![x@] + before_r.reverse());
        assert(before_s == before_s.drop_last().push(x@));
    }
    assert(pieces_view(segs@) == Seq::<Seq<char>>::empty());
    let n = rev.len();
    let mut k: usize = 0;
    while rev.len() > 0
        invariant
            n == k + rev@.len(),
            pieces_view(rev@).reverse() == pv.skip(k as int),
            pv.len() == n,
            pieces_view(st@) == normalize_segments(absolute, pv.take(k as int)),
        decreases rev.len(),
    {
        let ghost before_r = pieces_view(rev@);
        let seg = rev.pop().unwrap();
        assert(pieces_view(rev@) == before_r.drop_last());
        assert(seg@ == pv[k as int]) by {
            assert(before_r.reverse()[0] == before_r.last());
            assert(pv.skip(k as int)[0] == pv[k as int]);
        }
        assert(pieces_view(rev@).reverse() == pv.skip(k + 1)) by {
            assert(pv.skip(k as int).drop_first() == pv.skip(k + 1));
            assert(before_r.reverse().drop_first() == before_r.drop_last().reverse());
        }
        assert(pv.take(k + 1).drop_last() == pv.take(k as int));
        let ghost prev = pieces_view(st@);
        if is_parent(&seg) {
            let last_named = st.len() > 0 && !is_parent(&st[st.len() - 1]);
            if last_named {
                st.pop();
                assert(pieces_view(st@) == prev.drop_last());
            } else if !absolute {
                st.push(seg);
                assert(pieces_view(st@) == prev.push(seg@));
            }
        } else {
            st.push(seg);
            assert(pieces_view(st@) == prev.push(seg@));
        }
        k = k + 1;
    }
    assert(pv.take(k as int) == pv);
    st
}

/// The components of `p` once `.` and `..` are collapsed lexically.
pub fn normalized_components_exec(p: &[char]) -> (r: Vec<Vec<char>>)
    ensures
        pieces_view(r@) == normalized_components(p@),
{
    let absolute = p.len() > 0 && p[0] == '/';
    let segs = segments_exec(p);
    let st = normalize_segments_exec(absolute, segs);
    if absolute {
        let mut out: Vec<Vec<char>> = Vec::new();
        let mut root: Vec<char> = Vec::new();
        root.push('/');
        out.push(root);
        let mut i: usize = 0;
        while i < st.len()
            invariant
                i <= st@.len(),
                out@.len() == i + 1,
                pieces_view(out@) == seq![root_component()] + pieces_view(st@).take(i as int),
            decreases st.len() - i,
        {
            let ghost before = pieces_view(out@);
            let mut copy: Vec<char> = Vec::new();
            append_chars(&mut copy, st[i].as_slice());
            out.push(copy);
            assert(pieces_view(out@) == before.push(copy@));
            assert(pieces_view(st@).take(i + 1) == pieces_view(st@).take(i as int).push(
                pieces_view(st@)[i as int],
            ));
            i = i + 1;
        }
        assert(pieces_view(st@).take(i as int) == pieces_view(st@));
        out
    } else {
        st
    }
}

/// The components of `p` as `Path::components` yields them.
pub fn components_exec(p: &[char]) -> (r: Vec<Vec<char>>)
    ensures
        pieces_view(r@) == components(p@),
{
    let segs = segments_exec(p);
    let absolute = p.len() > 0 && p[0] == '/';
    let lead_cur = !absolute && p.len() > 0 && p[0] == '.' && (p.len() == 1 || p[1] == '/');
    if !absolute && !lead_cur {
        return segs;
    }
    let mut first: Vec<char> = Vec::new();
    if absolute {
        first.push('/');
    } else {
        first.push('.');
    }
    let mut out: Vec<Vec<char>> = Vec::new();
    out.push(first);
    let mut i: usize = 0;
    while i < segs.len()
        invariant
            i <= segs@.len(),
            pieces_view(out@) == seq![if absolute {
                root_component()
            } else {
                cur_component()
            }] + pieces_view(segs@).take(i as int),
        decreases segs.len() - i,
    {
        let ghost before = pieces_view(out@);
        let mut copy: Vec<char> = Vec::new();
        append_chars(&mut copy, segs[i].as_slice());
        out.push(copy);
        assert(pieces_view(out@) == before.push(copy@));
        assert(pieces_view(segs@).take(i + 1) == pieces_view(segs@).take(i as int).push(
            pieces_view(segs@)[i as int],
        ));
        i = i + 1;
    }
    assert(pieces_view(segs@).take(i as int) == pieces_view(segs@));
    out
}

/// `base` joined with `p`.
pub fn join_path_exec(base: &[char], p: &[char]) -> (r: Vec<char>)
    ensures
        r@ == join_path(base@, p@),
{
    let mut out: Vec<char> = Vec::new();
    if (p.len() > 0 && p[0] == '/') || base.len() == 0 {
        append_chars(&mut out, p);
        return out;
    }
    append_chars(&mut out, base);
    if base[base.len() - 1] != '/' {
        out.push('/');
    }
    append_chars(&mut out, p);
    out
}

/// Whether `base` is a component-wise prefix of `p`.
pub fn is_prefix_of_exec(base: &Vec<Vec<char>>, p: &Vec<Vec<char>>) -> (r: bool)
    ensures
        r == is_prefix_of(pieces_view(base@), pieces_view(p@)),
{
    if base.len() > p.len() {
        return false;
    }
    let mut i: usize = 0;
    while i < base.len()
        invariant
            base@.len() <= p@.len(),
            i <= base@.len(),
            forall|k: int| 0 <= k < i ==> #[trigger] pieces_view(base@)[k] == pieces_view(p@)[k],
        decreases base.len() - i,
    {
        if !chars_eq(base[i].as_slice(), p[i].as_slice()) {
            assert(pieces_view(base@)[i as int] != pieces_view(p@)[i as int]);
            return false;
        }
        i = i + 1;
    }
    true
}

/// Components in collapsed form: every `..` stands before every named
/// component, and an absolute path keeps none.
pub open spec fn is_collapsed(absolute: bool, st: Seq<Seq<char>>) -> bool {
    &&& forall|i: int, j: int|
        0 <= i < j < st.len() && #[trigger] st[j] == parent_component() ==> #[trigger] st[i]
            == parent_component()
    &&& absolute ==> forall|i: int| 0 <= i < st.len() ==> #[trigger] st[i] != parent_component()
}

proof fn lemma_normalize_is_collapsed(absolute: bool, segs: Seq<Seq<char>>)
    ensures
        is_collapsed(absolute, normalize_segments(absolute, segs)),
    decreases segs.len(),
{
    if segs.len() > 0 {
        let st = normalize_segments(absolute, segs.drop_last());
        lemma_normalize_is_collapsed(absolute, segs.drop_last());
        let seg = segs.last();
        let r = normalize_step(absolute, st, seg);
        if seg == parent_component() {
            if st.len() > 0 && st.last() != parent_component() {
                assert forall|i: int, j: int|
                    0 <= i < j < r.len() && #[trigger] r[j] == parent_component() implies #[trigger] r[i]
                        == parent_component() by {
                    assert(r[j] == st[j] && r[i] == st[i]);
                }
            } else if !absolute {
                assert forall|i: int| 0 <= i < st.len() implies #[trigger] st[i] == parent_component() by {
                    if st.len() > 0 {
                        assert(st[st.len() - 1] == parent_component());
                        if i < st.len() - 1 {
                            assert(st[i] == parent_component());
                        }
                    }
                }
                assert forall|i: int, j: int|
                    0 <= i < j < r.len() && #[trigger] r[j] == parent_component() implies #[trigger] r[i]
                        == parent_component() by {
                    assert(r[i] == st[i]);
                }
            }
        } else {
            assert forall|i: int, j: int|
                0 <= i < j < r.len() && #[trigger] r[j] == parent_component() implies #[trigger] r[i]
                    == parent_component() by {
                assert(r[j] == st[j] && r[i] == st[i]);
            }
            assert forall|i: int| absolute && 0 <= i < r.len() implies #[trigger] r[i] != parent_component() by {
                if i < st.len() {
                    assert(r[i] == st[i]);
                }
            }
        }
    }
}

proof fn lemma_collapsed_is_fixed(absolute: bool, st: Seq<Seq<char>>)
    requires
        is_collapsed(absolute, st),
    ensures
        normalize_segments(absolute, st) == st,
    decreases st.len(),
{
    if st.len() > 0 {
        let d = st.drop_last();
        assert(is_collapsed(absolute, d)) by {
            assert forall|i: int, j: int|
                0 <= i < j < d.len() && #[trigger] d[j] == parent_component() implies #[trigger] d[i]
                    == parent_component() by {
                assert(st[j] == d[j] && st[i] == d[i]);
            }
            assert forall|i: int| absolute && 0 <= i < d.len() implies #[trigger] d[i] != parent_component() by {
                assert(st[i] == d[i]);
            }
        }
        lemma_collapsed_is_fixed(absolute, d);
        if st.last() == parent_component() {
            assert(st[st.len() - 1] == parent_component());
            assert(!absolute);
            if d.len() > 0 {
                assert(st[d.len() - 1] == parent_component());
            }
        }
        assert(d.push(st.last()) == st);
    }
}

/// Collapsing `.` and `..` is idempotent: what it gives is already
/// collapsed, and collapsing that again changes nothing.
pub proof fn law_collapsing_is_idempotent(absolute: bool, segs: Seq<Seq<char>>)
    ensures
        is_collapsed(absolute, normalize_segments(absolute, segs)),
        normalize_segments(absolute, normalize_segments(absolute, segs)) == normalize_segments(
            absolute,
            segs,
        ),
{
    lemma_normalize_is_collapsed(absolute, segs);
    lemma_collapsed_is_fixed(absolute, normalize_segments(absolute, segs));
}

/// The path text a component list spells (a `PathBuf` built from the
/// components): the root as a leading `/`, the other components joined
/// with `/`.
pub open spec fn component_text(cs: Seq<Seq<char>>) -> Seq<char> {
    if cs.len() > 0 && cs[0] == root_component() {
        seq!['/'] + join_with(cs.drop_first(), seq!['/'])
    } else {
        join_with(cs, seq!['/'])
    }
}

/// A component that names something: not empty, not `.`, without `/`.
pub open spec fn is_named(c: Seq<char>) -> bool {
    c.len() > 0 && c != cur_component() && !c.contains('/')
}

proof fn lemma_named_pieces_named(ps: Seq<Seq<char>>)
    requires
        forall|i: int| 0 <= i < ps.len() ==> !(#[trigger] ps[i]).contains('/'),
    ensures
        forall|i: int| 0 <= i < named_pieces(ps).len() ==> is_named(#[trigger] named_pieces(ps)[i]),
    decreases ps.len(),
{
    if ps.len() > 0 {
        let q = ps.drop_last();
        assert forall|i: int| 0 <= i < q.len() implies !(#[trigger] q[i]).contains('/') by {
            assert(q[i] == ps[i]);
        }
        lemma_named_pieces_named(q);
        assert(!ps[ps.len() - 1].contains('/'));
        let rest = named_pieces(q);
        let r = named_pieces(ps);
        assert forall|i: int| 0 <= i < r.len() implies is_named(#[trigger] r[i]) by {
            if i < rest.len() {
                assert(r[i] == rest[i]);
            } else {
                assert(r[i] == ps.last());
            }
        }
    }
}

proof fn lemma_named_pieces_keep(ps: Seq<Seq<char>>)
    requires
        forall|i: int| 0 <= i < ps.len() ==> is_named(#[trigger] ps[i]),
    ensures
        named_pieces(ps) == ps,
        named_pieces(seq![Seq::<char>::empty()] + ps) == ps,
    decreases ps.len(),
{
    if ps.len() > 0 {
        let q = ps.drop_last();
        assert forall|i: int| 0 <= i < q.len() implies is_named(#[trigger] q[i]) by {
            assert(q[i] == ps[i]);
        }
        lemma_named_pieces_keep(q);
        assert(is_named(ps[ps.len() - 1]));
        assert(ps.last().len() > 0 && ps.last() != cur_component());
        assert(q.push(ps.last()) =~= ps);
        assert(named_pieces(ps) == named_pieces(q).push(ps.last()));
        let e = seq![Seq::<char>::empty()];
        assert((e + ps).drop_last() =~= e + q);
        assert((e + ps).last() == ps.last());
        assert(named_pieces(e + ps) == named_pieces(e + q).push(ps.last()));
    } else {
        let e = seq![Seq::<char>::empty()];
        assert(e.drop_last() =~= Seq::<Seq<char>>::empty());
        assert(e + ps =~= e);
        assert(named_pieces(e) == named_pieces(e.drop_last()));
    }
}

proof fn lemma_normalize_keeps_named(absolute: bool, segs: Seq<Seq<char>>)
    requires
        forall|i: int| 0 <= i < segs.len() ==> is_named(#[trigger] segs[i]),
    ensures
        forall|i: int|
            0 <= i < normalize_segments(absolute, segs).len() ==> is_named(
                #[trigger] normalize_segments(absolute, segs)[i],
            ),
    decreases segs.len(),
{
    if segs.len() > 0 {
        let q = segs.drop_last();
        assert forall|i: int| 0 <= i < q.len() implies is_named(#[trigger] q[i]) by {
            assert(q[i] == segs[i]);
        }
        lemma_normalize_keeps_named(absolute, q);
        assert(is_named(segs[segs.len() - 1]));
        let st = normalize_segments(absolute, q);
        let r = normalize_segments(absolute, segs);
        assert forall|i: int| 0 <= i < r.len() implies is_named(#[trigger] r[i]) by {
            if i < st.len() {
                assert(r[i] == st[i]);
            }
        }
    }
}

/// Collapsing the path text that a collapse spells changes nothing: the
/// collapsed path, written out, collapses to the same components.
pub proof fn law_collapsed_path_text_is_stable(p: Seq<char>)
    ensures
        normalized_components(component_text(normalized_components(p))) == normalized_components(p),
{
    let abs = is_absolute(p);
    let segs = segments(p);
    lemma_split_pieces_lack_sep(p, '/');
    lemma_named_pieces_named(split_on(p, '/'));
    lemma_normalize_keeps_named(abs, segs);
    let st = normalize_segments(abs, segs);
    law_collapsing_is_idempotent(abs, segs);
    let t = component_text(normalized_components(p));
    assert forall|i: int| 0 <= i < st.len() implies !(#[trigger] st[i]).contains('/') by {
        assert(is_named(st[i]));
    }
    if abs {
        assert((seq![root_component()] + st)[0] == root_component());
        assert((seq![root_component()] + st).drop_first() =~= st);
        assert(t == seq!['/'] + join_with(st, seq!['/']));
        assert(is_absolute(t));
        if st.len() > 0 {
            lemma_split_lead_join(st, '/');
            lemma_named_pieces_keep(st);
        } else {
            assert(t =~= seq!['/']);
            let e = Seq::<char>::empty();
            assert(seq!['/'].drop_last() =~= e);
            assert(split_on(e, '/') =~= seq![e]);
            assert(split_on(seq!['/'], '/') == seq![e].push(e));
            assert(seq![e].push(e).drop_last() =~= seq![e]);
            assert(seq![e].drop_last() =~= Seq::<Seq<char>>::empty());
            assert(named_pieces(seq![e]) == named_pieces(Seq::<Seq<char>>::empty()));
            assert(named_pieces(seq![e].push(e)) == named_pieces(seq![e]));
        }
        assert(segments(t) == st);
    } else {
        if st.len() > 0 {
            assert(st[0] != root_component()) by {
                assert(is_named(st[0]));
                assert(root_component().contains('/')) by {
                    assert(root_component()[0] == '/');
                }
            }
            assert(t == join_with(st, seq!['/']));
            lemma_split_join(st, '/');
            lemma_named_pieces_keep(st);
            assert(segments(t) == st);
            assert(!is_absolute(t)) by {
                lemma_join_starts_with_first(st);
                assert(is_named(st[0]));
                assert(st[0][0] != '/') by {
                    assert(st[0].contains(st[0][0]));
                }
            }
        } else {
            let e = Seq::<char>::empty();
            assert(t =~= e);
            assert(split_on(t, '/') =~= seq![e]);
            assert(seq![e].drop_last() =~= Seq::<Seq<char>>::empty());
            assert(named_pieces(seq![e]) == named_pieces(Seq::<Seq<char>>::empty()));
            assert(segments(t) =~= st);
        }
    }
}

proof fn lemma_join_starts_with_first(ps: Seq<Seq<char>>)
    requires
        ps.len() >= 1,
        ps[0].len() > 0,
    ensures
        join_with(ps, seq!['/']).len() > 0,
        join_with(ps, seq!['/'])[0] == ps[0][0],
    decreases ps.len(),
{
    if ps.len() > 1 {
        lemma_join_starts_with_first(ps.drop_last());
    }
}

} // verus!
