//! `grep`- and `find`-style search decisions: which lines match, which
//! directory entries qualify, how many results are kept, and the
//! JSON-structured, output-limited payload.

use vstd::prelude::*;
use crate::errors::{CoreError, CoreResult};
use crate::guardrails::truncation::{is_truncation_of, truncate_output, TruncateResult};
use crate::text::{
    chars_of, lines, lines_chars, matches_at, matches_at_exec, starts_with, string_of, trim_end,
    trim_end_chars,
};

verus! {

/// At most this many matching lines are collected by a text search.
pub const MAX_MATCHES: usize = 1000;

#[verifier::external_type_specification]
#[verifier::external_body]
pub struct ExRegex(regex::Regex);

#[verifier::external_type_specification]
#[verifier::external_body]
pub struct ExRegexError(regex::Error);

/// `pattern` is a valid regular expression (`regex::Regex::new` succeeds).
pub uninterp spec fn regex_compiles(pattern: Seq<char>) -> bool;

/// The regular expression `pattern` matches somewhere in `text`
/// (`regex::Regex::is_match`).
pub uninterp spec fn regex_finds_match(pattern: Seq<char>, text: Seq<char>) -> bool;

/// A compiled regular expression with the pattern it was built from.
pub struct CompiledPattern {
    source: String,
    re: regex::Regex,
}

impl CompiledPattern {
    /// The pattern this expression was compiled from.
    pub closed spec fn pattern(&self) -> Seq<char> {
        self.source@
    }

    /// Compiles `pattern` (`regex::Regex::new`). Whether it succeeds is
    /// named, not stated: it depends on the pattern alone.
    #[verifier::external_body]
    pub(crate) fn compile(pattern: &str) -> (r: Result<CompiledPattern, regex::Error>)
        ensures
            r is Ok <==> regex_compiles(pattern@),
            r matches Ok(c) ==> c.pattern() == pattern@,
    {
        match regex::Regex::new(pattern) {
            Ok(re) => Ok(CompiledPattern { source: pattern.to_string(), re }),
            Err(e) => Err(e),
        }
    }

    /// Whether the expression matches somewhere in `text`
    /// (`regex::Regex::is_match`). `compile` is the only way to build a
    /// value, so `re` is always the compiled form of `source`; the answer is
    /// named, not stated.
    #[verifier::external_body]
    pub(crate) fn is_match(&self, text: &str) -> (r: bool)
        ensures
            r == regex_finds_match(self.pattern(), text@),
    {
        self.re.is_match(text)
    }
}

/// The message of a regex error (its `Display`); nothing is stated of it.
#[verifier::external_body]
fn regex_error_message(e: &regex::Error) -> String {
    e.to_string()
}

/// How a text search decides whether a line matches.
pub enum LineMatcher {
    /// The line contains this text.
    Substring(String),
    /// The regular expression matches somewhere in the line.
    Pattern(CompiledPattern),
}

/// `n` occurs somewhere in `h` (every text contains the empty text).
pub open spec fn contains_text(h: Seq<char>, n: Seq<char>) -> bool {
    exists|i: int| matches_at(h, n, i)
}

/// Whether `m` accepts `line`.
pub open spec fn accepts(m: LineMatcher, line: Seq<char>) -> bool {
    match m {
        LineMatcher::Substring(q) => contains_text(line, q@),
        LineMatcher::Pattern(p) => regex_finds_match(p.pattern(), line),
    }
}

/// Builds the line matcher for `query_string`: a compiled regex when
/// `is_regex`, otherwise a plain substring test.
pub fn build_matcher(query_string: &str, is_regex: bool) -> (r: CoreResult<LineMatcher>)
    ensures
        is_regex && !regex_compiles(query_string@) ==> (r matches Err(CoreError::Parsing(m))
            && starts_with(m@, "Invalid regex: "@)),
        !(is_regex && !regex_compiles(query_string@)) ==> (r matches Ok(lm) && forall|line: Seq<char>|
            accepts(lm, line) == if is_regex {
                regex_finds_match(query_string@, line)
            } else {
                contains_text(line, query_string@)
            }),
{
    if is_regex {
        match CompiledPattern::compile(query_string) {
            Ok(p) => Ok(LineMatcher::Pattern(p)),
            Err(e) => {
                let mut m = String::from_str("Invalid regex: ");
                let ghost prefix = m@;
                m.append(regex_error_message(&e).as_str());
                assert(m@.take(prefix.len() as int) == prefix);
                Err(CoreError::Parsing(m))
            },
        }
    } else {
        Ok(LineMatcher::Substring(String::from_str(query_string)))
    }
}

fn contains_text_exec(h: &[char], n: &[char]) -> (r: bool)
    ensures
        r == contains_text(h@, n@),
{
    if n.len() == 0 {
        assert(h@.subrange(0, 0) =~= n@);
        assert(matches_at(h@, n@, 0));
        return true;
    }
    if n.len() > h.len() {
        assert forall|i: int| !matches_at(h@, n@, i) by {}
        return false;
    }
    let mut i: usize = 0;
    let last = h.len() - n.len();
    while i <= last
        invariant
            last + n@.len() == h@.len(),
            n@.len() >= 1,
            h@.len() <= usize::MAX,
            forall|k: int| 0 <= k < i ==> !matches_at(h@, n@, k),
        decreases last + 1 - i,
    {
        if matches_at_exec(h, n, i) {
            return true;
        }
        i = i + 1;
    }
    assert forall|k: int| !matches_at(h@, n@, k) by {
        if k >= i {
            assert(k + n@.len() > h@.len());
        }
    }
    false
}

/// Whether `m` accepts `line`.
pub fn line_accepted(m: &LineMatcher, line: &str) -> (r: bool)
    ensures
        r == accepts(*m, line@),
{
    match m {
        LineMatcher::Substring(q) => {
            let hc = chars_of(line);
            let qc = chars_of(q.as_str());
            contains_text_exec(hc.as_slice(), qc.as_slice())
        },
        LineMatcher::Pattern(p) => p.is_match(line),
    }
}

/// One matching line: the file, its 1-indexed line number, and the line
/// without its trailing whitespace (leading indentation is kept, so the
/// text can be pasted back as an edit target).
#[derive(Debug)]
pub struct TextMatch {
    pub file: String,
    pub line: usize,
    pub content: String,
}

/// The plain view of a match.
pub open spec fn match_view(t: TextMatch) -> (Seq<char>, nat, Seq<char>) {
    (t.file@, t.line as nat, t.content@)
}

/// The plain views of matches.
pub open spec fn matches_view(ts: Seq<TextMatch>) -> Seq<(Seq<char>, nat, Seq<char>)> {
    ts.map_values(|t: TextMatch| match_view(t))
}

/// The matching lines of a file whose lines are `ls`, in order, as
/// (file, line number, line without trailing whitespace).
pub open spec fn line_hits(m: LineMatcher, file: Seq<char>, ls: Seq<Seq<char>>) -> Seq<(Seq<char>, nat, Seq<char>)>
    decreases ls.len(),
{
    if ls.len() == 0 {
        Seq::empty()
    } else {
        let rest = line_hits(m, file, ls.drop_last());
        if accepts(m, ls.last()) {
            rest.push((file, ls.len(), trim_end(ls.last())))
        } else {
            rest
        }
    }
}

/// The hits that fit beside `held` results already collected: all of
/// them while the cap allows, else the first ones up to the cap.
pub open spec fn kept_hits(hits: Seq<(Seq<char>, nat, Seq<char>)>, held: nat) -> Seq<(Seq<char>, nat, Seq<char>)> {
    if held + hits.len() <= MAX_MATCHES {
        hits
    } else {
        hits.take(MAX_MATCHES - held)
    }
}

/// Adds the matching lines of `content` (the text of `file`) to `results`,
/// in order, until `results` holds [`MAX_MATCHES`]. Returns whether the
/// search should go on to the next file.
pub fn scan_file(results: &mut Vec<TextMatch>, file: &str, content: &str, m: &LineMatcher) -> (go_on: bool)
    requires
        old(results)@.len() < MAX_MATCHES,
    ensures
        matches_view(final(results)@) == matches_view(old(results)@) + kept_hits(
            line_hits(*m, file@, lines(content@)),
            old(results)@.len(),
        ),
        go_on == (final(results)@.len() < MAX_MATCHES),
{
    let cs = chars_of(content);
    let ls = lines_chars(cs.as_slice());
    let ghost lv = lines(content@);
    let ghost base = matches_view(results@);
    let ghost start = results@.len();
    let mut i: usize = 0;
    while i < ls.len()
        invariant
            crate::text::pieces_view(ls@) == lv,
            lv == lines(content@),
            i <= ls@.len(),
            start < MAX_MATCHES,
            results@.len() < MAX_MATCHES,
            matches_view(results@) == base + line_hits(*m, file@, lv.take(i as int)),
            base.len() == start,
            base == matches_view(old(results)@),
        decreases ls.len() - i,
    {
        assert(lv.take(i + 1).drop_last() == lv.take(i as int));
        assert(lv[i as int] == ls@[i as int]@);
        let line = string_of(ls[i].as_slice());
        if line_accepted(m, line.as_str()) {
            let trimmed = trim_end_chars(ls[i].as_slice());
            let t = TextMatch {
                file: String::from_str(file),
                line: i + 1,
                content: string_of(trimmed.as_slice()),
            };
            let ghost before = matches_view(results@);
            results.push(t);
            assert(matches_view(results@) == before.push(match_view(t)));
            if results.len() >= MAX_MATCHES {
                proof {
                    let hits = line_hits(*m, file@, lv);
                    lemma_line_hits_prefix(*m, file@, lv, i + 1);
                    let pre = line_hits(*m, file@, lv.take(i + 1));
                    assert(pre == hits.take(pre.len() as int));
                    assert(matches_view(results@).len() == results@.len());
                    assert(results@.len() == MAX_MATCHES);
                    assert(pre.len() == MAX_MATCHES - start);
                    let room = MAX_MATCHES - start;
                    if hits.len() <= room {
                        assert(hits.take(room as int) == hits);
                    }
                    assert(base == matches_view(old(results)@));
                    assert(matches_view(results@) == base + hits.take(room as int));
                }
                return false;
            }
        }
        i = i + 1;
    }
    proof {
        assert(lv.take(ls@.len() as int) == lv);
    }
    true
}

proof fn lemma_line_hits_len(m: LineMatcher, file: Seq<char>, ls: Seq<Seq<char>>)
    ensures
        line_hits(m, file, ls).len() <= ls.len(),
    decreases ls.len(),
{
    if ls.len() > 0 {
        lemma_line_hits_len(m, file, ls.drop_last());
    }
}

/// The hits of a prefix of the lines are a prefix of the hits.
proof fn lemma_line_hits_prefix(m: LineMatcher, file: Seq<char>, ls: Seq<Seq<char>>, k: int)
    requires
        0 <= k <= ls.len(),
    ensures
        line_hits(m, file, ls.take(k)).len() <= line_hits(m, file, ls).len(),
        line_hits(m, file, ls.take(k)) == line_hits(m, file, ls).take(
            line_hits(m, file, ls.take(k)).len() as int,
        ),
    decreases ls.len() - k,
{
    if k == ls.len() {
        assert(ls.take(k) == ls);
    } else {
        lemma_line_hits_prefix(m, file, ls, k + 1);
        let a = line_hits(m, file, ls.take(k));
        let b = line_hits(m, file, ls.take(k + 1));
        assert(ls.take(k + 1).drop_last() == ls.take(k));
        assert(b == a || b == a.push(b.last()));
        assert(a == b.take(a.len() as int));
    }
}

/// The pretty-printed JSON array of match objects, each with the keys
/// `content`, `file` and `line` (`serde_json::to_string_pretty`).
pub uninterp spec fn pretty_match_list(items: Seq<(Seq<char>, nat, Seq<char>)>) -> Seq<char>;

/// The pretty-printed JSON array of strings (`serde_json::to_string_pretty`).
pub uninterp spec fn pretty_string_list(items: Seq<Seq<char>>) -> Seq<char>;

/// The matches as a pretty-printed JSON array of `{file, line, content}`
/// objects, by `serde_json`. The text is named, not stated.
#[verifier::external_body]
fn matches_json(items: &Vec<TextMatch>) -> (r: String)
    ensures
        r@ == pretty_match_list(matches_view(items@)),
{
    let values: Vec<serde_json::Value> = items.iter().map(
        |t| {
            let mut obj = serde_json::Map::new();
            obj.insert("file".to_string(), serde_json::Value::from(t.file.clone()));
            obj.insert("line".to_string(), serde_json::Value::from(t.line));
            obj.insert("content".to_string(), serde_json::Value::from(t.content.clone()));
            serde_json::Value::Object(obj)
        },
    ).collect();
    serde_json::to_string_pretty(&values).unwrap_or_else(|_| "[]".to_string())
}

/// The strings as a pretty-printed JSON array, by `serde_json`. The text
/// is named, not stated.
#[verifier::external_body]
fn strings_json(items: &Vec<String>) -> (r: String)
    ensures
        r@ == pretty_string_list(items@.map_values(|s: String| s@)),
{
    serde_json::to_string_pretty(items).unwrap_or_else(|_| "[]".to_string())
}

/// The payload of a text search: the matches as pretty-printed JSON,
/// truncated to `limit` characters.
pub fn matches_payload(results: &Vec<TextMatch>, limit: usize) -> (r: TruncateResult)
    ensures
        is_truncation_of(r, pretty_match_list(matches_view(results@)), limit as nat),
{
    let payload = matches_json(results);
    truncate_output(payload.as_str(), limit)
}

/// The payload of a file search: the paths as pretty-printed JSON,
/// truncated to `limit` characters.
pub fn paths_payload(paths: &Vec<String>, limit: usize) -> (r: TruncateResult)
    ensures
        is_truncation_of(r, pretty_string_list(paths@.map_values(|s: String| s@)), limit as nat),
{
    let payload = strings_json(paths);
    truncate_output(payload.as_str(), limit)
}

/// The kind of a directory entry, as the walk reports it (a symbolic link
/// is not followed).
#[derive(Debug, PartialEq, Eq, Structural, Clone, Copy)]
pub enum EntryKind {
    File,
    Directory,
    Symlink,
    Other,
}

/// Whether an entry of `kind` passes the type filter: `file`,
/// `directory`/`dir` or `symlink`; any other value, or none, lets every
/// entry through.
pub open spec fn type_filter_accepts(kind: EntryKind, file_type: Option<Seq<char>>) -> bool {
    match file_type {
        Some(t) => if t == "file"@ {
            kind == EntryKind::File
        } else if t == "directory"@ || t == "dir"@ {
            kind == EntryKind::Directory
        } else if t == "symlink"@ {
            kind == EntryKind::Symlink
        } else {
            true
        },
        None => true,
    }
}

/// Whether an entry named `name` of `kind` is reported: its name matches
/// the pattern (when one is given) and its kind passes the type filter.
pub open spec fn entry_accepted(name: Seq<char>, kind: EntryKind, pattern: Option<Seq<char>>, file_type: Option<Seq<char>>) -> bool {
    &&& match pattern {
        Some(p) => regex_finds_match(p, name),
        None => true,
    }
    &&& type_filter_accepts(kind, file_type)
}

fn is_literal(s: &str, lit: &str) -> (r: bool)
    ensures
        r == (s@ == lit@),
{
    let a = chars_of(s);
    let b = chars_of(lit);
    crate::text::chars_eq(a.as_slice(), b.as_slice())
}

/// Whether the entry named `name`, of `kind`, is reported by a file
/// search with the given name pattern and type filter.
pub fn entry_matches(name: &str, kind: EntryKind, name_regex: Option<&CompiledPattern>, file_type: Option<&str>) -> (r: bool)
    ensures
        r == entry_accepted(
            name@,
            kind,
            match name_regex {
                Some(p) => Some(p.pattern()),
                None => None,
            },
            match file_type {
                Some(t) => Some(t@),
                None => None,
            },
        ),
{
    match name_regex {
        Some(re) => {
            if !re.is_match(name) {
                return false;
            }
        },
        None => {},
    }
    match file_type {
        Some(t) => {
            if is_literal(t, "file") {
                kind == EntryKind::File
            } else if is_literal(t, "directory") || is_literal(t, "dir") {
                kind == EntryKind::Directory
            } else if is_literal(t, "symlink") {
                kind == EntryKind::Symlink
            } else {
                true
            }
        },
        None => true,
    }
}

/// Compiles the name pattern of a file search.
pub fn compile_name_pattern(pattern: &str) -> (r: CoreResult<CompiledPattern>)
    ensures
        regex_compiles(pattern@) ==> (r matches Ok(c) && c.pattern() == pattern@),
        !regex_compiles(pattern@) ==> (r matches Err(CoreError::Parsing(m)) && starts_with(
            m@,
            "Invalid name pattern regex: "@,
        )),
{
    match CompiledPattern::compile(pattern) {
        Ok(p) => Ok(p),
        Err(e) => {
            let mut m = String::from_str("Invalid name pattern regex: ");
            let ghost prefix = m@;
            m.append(regex_error_message(&e).as_str());
            assert(m@.take(prefix.len() as int) == prefix);
            Err(CoreError::Parsing(m))
        },
    }
}

/// A scan never takes the collection past the cap, keeps the file's
/// matches in order from the first, and loses none while there is room.
pub proof fn law_scans_respect_the_cap(hits: Seq<(Seq<char>, nat, Seq<char>)>, held: nat)
    requires
        held < MAX_MATCHES,
    ensures
        held + kept_hits(hits, held).len() <= MAX_MATCHES,
        kept_hits(hits, held) == hits.take(kept_hits(hits, held).len() as int),
        held + hits.len() <= MAX_MATCHES ==> kept_hits(hits, held) == hits,
        held + hits.len() > MAX_MATCHES ==> held + kept_hits(hits, held).len() == MAX_MATCHES,
{
    if held + hits.len() <= MAX_MATCHES {
        assert(hits.take(hits.len() as int) == hits);
    }
}

/// A scan reports exactly the lines the matcher accepts, in order: each
/// hit names a line that matches (by its 1-based number, with the line's
/// text less its trailing whitespace), and every matching line is hit.
pub proof fn law_hits_are_exactly_the_matching_lines(m: LineMatcher, file: Seq<char>, ls: Seq<Seq<char>>)
    ensures
        forall|k: int|
            0 <= k < line_hits(m, file, ls).len() ==> {
                let h = #[trigger] line_hits(m, file, ls)[k];
                &&& h.0 == file
                &&& 1 <= h.1 <= ls.len()
                &&& accepts(m, ls[h.1 - 1])
                &&& h.2 == trim_end(ls[h.1 - 1])
            },
        forall|a: int, b: int|
            0 <= a < b < line_hits(m, file, ls).len() ==> (#[trigger] line_hits(m, file, ls)[a]).1
                < (#[trigger] line_hits(m, file, ls)[b]).1,
        forall|i: int|
            0 <= i < ls.len() && accepts(m, #[trigger] ls[i]) ==> exists|k: int|
                0 <= k < line_hits(m, file, ls).len() && line_hits(m, file, ls)[k].1 == i + 1,
    decreases ls.len(),
{
    if ls.len() > 0 {
        let pre = ls.drop_last();
        law_hits_are_exactly_the_matching_lines(m, file, pre);
        let rest = line_hits(m, file, pre);
        let hits = line_hits(m, file, ls);
        lemma_line_hits_len(m, file, pre);
        assert forall|k: int| 0 <= k < rest.len() implies #[trigger] hits[k] == rest[k] by {}
        assert forall|k: int|
            0 <= k < hits.len() implies {
                let h = #[trigger] hits[k];
                &&& h.0 == file
                &&& 1 <= h.1 <= ls.len()
                &&& accepts(m, ls[h.1 - 1])
                &&& h.2 == trim_end(ls[h.1 - 1])
            } by {
            if k < rest.len() {
                let h = rest[k];
                assert(pre[h.1 - 1] == ls[h.1 - 1]);
            }
        }
        assert forall|a: int, b: int| 0 <= a < b < hits.len() implies (#[trigger] hits[a]).1 < (
        #[trigger] hits[b]).1 by {
            if b >= rest.len() {
                assert(rest[a].1 <= pre.len());
            }
        }
        assert forall|i: int| 0 <= i < ls.len() && accepts(m, #[trigger] ls[i]) implies exists|k: int|
            0 <= k < hits.len() && hits[k].1 == i + 1 by {
            if i < pre.len() {
                assert(pre[i] == ls[i]);
                let k = choose|k: int| 0 <= k < rest.len() && rest[k].1 == i + 1;
                assert(hits[k] == rest[k]);
            } else {
                assert(hits[hits.len() - 1].1 == i + 1);
            }
        }
    }
}

/// A substring matcher accepts a line exactly when the query occurs in it
/// at some position; so no line too short for the query (an empty line
/// among them) matches a non-empty query.
pub proof fn law_substring_match_is_an_occurrence(h: Seq<char>, n: Seq<char>)
    ensures
        contains_text(h, n) <==> exists|i: int|
            0 <= i && i + n.len() <= h.len() && #[trigger] h.subrange(i, i + n.len()) == n,
        h.len() < n.len() ==> !contains_text(h, n),
{
    if contains_text(h, n) {
        let i = choose|i: int| matches_at(h, n, i);
        assert(h.subrange(i, i + n.len()) == n);
    }
    if exists|i: int| 0 <= i && i + n.len() <= h.len() && #[trigger] h.subrange(i, i + n.len()) == n {
        let i = choose|i: int| 0 <= i && i + n.len() <= h.len() && #[trigger] h.subrange(i, i + n.len()) == n;
        assert(matches_at(h, n, i));
    }
}

/// The type filter admits only its kind: `file` regular files,
/// `directory`/`dir` directories, `symlink` links; with no filter, or one
/// of another value, every entry passes.
pub proof fn law_type_filter_admits_only_its_kind(kind: EntryKind, t: Seq<char>)
    ensures
        t == "file"@ ==> (type_filter_accepts(kind, Some(t)) <==> kind == EntryKind::File),
        t == "directory"@ || t == "dir"@ ==> (type_filter_accepts(kind, Some(t)) <==> kind
            == EntryKind::Directory),
        t == "symlink"@ ==> (type_filter_accepts(kind, Some(t)) <==> kind == EntryKind::Symlink),
        t != "file"@ && t != "directory"@ && t != "dir"@ && t != "symlink"@ ==> type_filter_accepts(
            kind,
            Some(t),
        ),
        type_filter_accepts(kind, None),
{
    reveal_strlit("file");
    reveal_strlit("directory");
    reveal_strlit("dir");
    reveal_strlit("symlink");
    assert("file"@.len() == 4 && "dir"@.len() == 3 && "directory"@.len() == 9 && "symlink"@.len() == 7);
}

} // verus!
