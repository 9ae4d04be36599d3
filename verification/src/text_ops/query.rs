//! Querying structured data (JSON, TOML or YAML, all read into one JSON
//! value model) by a dot-separated path with optional bracket indices.

use vstd::prelude::*;
use crate::errors::{CoreError, CoreResult};
use crate::guardrails::lexical::{components, components_exec};
use crate::text::{
    join_with, lemma_split_append_plain, lemma_split_join,
    append_chars, chars_eq, chars_of, contains_char, debug_list, debug_list_text, decimal, decimal_chars, last_index_of,
    last_index_of_char, lemma_count_char_contains, lemma_last_index_of, lemma_split_len,
    lowercase, lowercase_text, parse_u64, parse_unsigned, pieces_view, replace_all,
    replace_all_chars, slice_range, split_chars, split_on, string_of,
};

verus! {

/// A JSON value. Object members keep the order they were read in; a
/// number is held as its text (as `serde_json` displays it).
#[derive(Debug, PartialEq, Eq)]
pub enum JsonValue {
    Null,
    Bool(bool),
    Number(String),
    String(String),
    Array(Vec<JsonValue>),
    Object(Vec<(String, JsonValue)>),
}


/// What a JSON value denotes, with every text as its characters.
pub enum JsonModel {
    Null,
    Bool(bool),
    Number(Seq<char>),
    Text(Seq<char>),
    Array(Seq<JsonModel>),
    Object(Seq<(Seq<char>, JsonModel)>),
}

/// The model of `j`.
pub open spec fn json_model(j: JsonValue) -> JsonModel
    decreases j, 1int,
{
    match j {
        JsonValue::Null => JsonModel::Null,
        JsonValue::Bool(b) => JsonModel::Bool(b),
        JsonValue::Number(t) => JsonModel::Number(t@),
        JsonValue::String(s) => JsonModel::Text(s@),
        JsonValue::Array(items) => JsonModel::Array(json_models(items@)),
        JsonValue::Object(es) => JsonModel::Object(json_member_models(es@)),
    }
}

/// The models of `items`, in order.
pub open spec fn json_models(items: Seq<JsonValue>) -> Seq<JsonModel>
    decreases items, 0int,
{
    if items.len() == 0 {
        Seq::empty()
    } else {
        json_models(items.drop_last()).push(json_model(items[items.len() - 1]))
    }
}

/// The members `es` with their names as text and their values as models.
pub open spec fn json_member_models(es: Seq<(String, JsonValue)>) -> Seq<(Seq<char>, JsonModel)>
    decreases es, 0int,
{
    if es.len() == 0 {
        Seq::empty()
    } else {
        json_member_models(es.drop_last()).push((es[es.len() - 1].0@, json_model(es[es.len() - 1].1)))
    }
}

/// The member models line up one for one with the members.
pub proof fn lemma_json_member_models(es: Seq<(String, JsonValue)>)
    ensures
        json_member_models(es).len() == es.len(),
        forall|j: int|
            0 <= j < es.len() ==> #[trigger] json_member_models(es)[j] == (es[j].0@, json_model(es[j].1)),
    decreases es.len(),
{
    if es.len() > 0 {
        lemma_json_member_models(es.drop_last());
        assert forall|j: int| 0 <= j < es.len() implies #[trigger] json_member_models(es)[j] == (
            es[j].0@,
            json_model(es[j].1),
        ) by {
            if j < es.len() - 1 {
                assert(es.drop_last()[j] == es[j]);
            }
        }
    }
}

/// The item models line up one for one with the items.
pub proof fn lemma_json_models(items: Seq<JsonValue>)
    ensures
        json_models(items).len() == items.len(),
        forall|j: int| 0 <= j < items.len() ==> #[trigger] json_models(items)[j] == json_model(items[j]),
    decreases items.len(),
{
    if items.len() > 0 {
        lemma_json_models(items.drop_last());
        assert forall|j: int| 0 <= j < items.len() implies #[trigger] json_models(items)[j] == json_model(
            items[j],
        ) by {
            if j < items.len() - 1 {
                assert(items.drop_last()[j] == items[j]);
            }
        }
    }
}

/// The format a data file is read as.
#[derive(Debug, PartialEq, Eq, Structural, Clone, Copy)]
pub enum DataFormat {
    Json,
    Toml,
    Yaml,
}

// ----- format detection -------------------------------------------------

/// The final component of `p` when it names a file or directory
/// (`Path::file_name`): not the root, `.` or `..`.
pub open spec fn file_name(p: Seq<char>) -> Option<Seq<char>> {
    let cs = components(p);
    if cs.len() > 0 && cs.last() != seq!['/'] && cs.last() != seq!['.'] && cs.last() != seq![
        '.',
        '.',
    ] {
        Some(cs.last())
    } else {
        None
    }
}

/// The extension of a file name (`Path::extension`): what follows its
/// last `.`, unless that `.` is the name's first character or there is
/// none.
pub open spec fn extension_of(name: Seq<char>) -> Option<Seq<char>> {
    let dot = last_index_of(name, '.');
    if dot <= 0 {
        None
    } else {
        Some(name.skip(dot + 1))
    }
}

/// The format of the file at `p`, from its lowercased extension: `toml`,
/// `yml`/`yaml`, and JSON for anything else.
pub open spec fn data_format(p: Seq<char>) -> DataFormat {
    let ext = match file_name(p) {
        Some(n) => match extension_of(n) {
            Some(e) => e,
            None => Seq::<char>::empty(),
        },
        None => Seq::<char>::empty(),
    };
    let lower = lowercase_text(ext);
    if lower == "toml"@ {
        DataFormat::Toml
    } else if lower == "yml"@ || lower == "yaml"@ {
        DataFormat::Yaml
    } else {
        DataFormat::Json
    }
}

fn is_literal(s: &[char], lit: &str) -> (r: bool)
    ensures
        r == (s@ == lit@),
{
    let l = chars_of(lit);
    chars_eq(s, l.as_slice())
}

/// The format the file at `path` is read as, from its extension.
pub fn detect_format(path: &str) -> (r: DataFormat)
    ensures
        r == data_format(path@),
{
    let pc = chars_of(path);
    let cs = components_exec(pc.as_slice());
    let mut ext: Vec<char> = Vec::new();
    proof {
        reveal_strlit("/");
        reveal_strlit(".");
        reveal_strlit("..");
        assert("/"@ =~= seq!['/']);
        assert("."@ =~= seq!['.']);
        assert(".."@ =~= seq!['.', '.']);
    }
    let ghost fname = file_name(path@);
    if cs.len() > 0 {
        let last = &cs[cs.len() - 1];
        assert(last@ == components(path@).last());
        if !is_literal(last.as_slice(), "/") && !is_literal(last.as_slice(), ".") && !is_literal(
            last.as_slice(),
            "..",
        ) {
            proof {
                lemma_last_index_of(last@, '.');
            }
            assert(fname == Some(last@));
            let n = last.len();
            match last_index_of_char(last.as_slice(), '.') {
                Some(dot) => {
                    if dot > 0 {
                        assert(dot < n);
                        ext = slice_range(last.as_slice(), dot + 1, n);
                        assert(ext@ =~= last@.skip(dot + 1));
                        assert(extension_of(last@) == Some(ext@));
                    } else {
                        assert(extension_of(last@) is None);
                    }
                },
                None => {
                    assert(extension_of(last@) is None);
                },
            }
        } else {
            assert(fname is None);
        }
    } else {
        assert(fname is None);
    }
    assert(ext@ == match file_name(path@) {
        Some(n) => match extension_of(n) {
            Some(e) => e,
            None => Seq::<char>::empty(),
        },
        None => Seq::<char>::empty(),
    });
    let lower = lowercase(string_of(ext.as_slice()).as_str());
    let lc = chars_of(lower.as_str());
    if is_literal(lc.as_slice(), "toml") {
        DataFormat::Toml
    } else if is_literal(lc.as_slice(), "yml") || is_literal(lc.as_slice(), "yaml") {
        DataFormat::Yaml
    } else {
        DataFormat::Json
    }
}

// ----- dot paths --------------------------------------------------------

/// The pointer text for one dot-separated part: `name[index]` gives
/// `/name/index` (`/index` when the name is empty; only the first bracket
/// counts), a plain part gives `/part`, an empty part nothing.
pub open spec fn pointer_piece(part: Seq<char>) -> Seq<char> {
    if part.contains('[') && part.contains(']') {
        let pieces = split_on(part, '[');
        let base = pieces[0];
        let index = split_on(pieces[1], ']')[0];
        (if base.len() > 0 {
            seq!['/'] + base
        } else {
            Seq::<char>::empty()
        }) + seq!['/'] + index
    } else if part.len() > 0 {
        seq!['/'] + part
    } else {
        Seq::<char>::empty()
    }
}

/// The pointer pieces of `parts`, concatenated.
pub open spec fn pointer_of_parts(parts: Seq<Seq<char>>) -> Seq<char>
    decreases parts.len(),
{
    if parts.len() == 0 {
        Seq::<char>::empty()
    } else {
        pointer_of_parts(parts.drop_last()) + pointer_piece(parts.last())
    }
}

/// The JSON pointer for a dot path such as `data.users[0].id`
/// (`/data/users/0/id`).
pub open spec fn dot_path_pointer(path: Seq<char>) -> Seq<char> {
    pointer_of_parts(split_on(path, '.'))
}

proof fn lemma_pointer_of_names(names: Seq<Seq<char>>)
    requires
        names.len() >= 1,
        forall|i: int| 0 <= i < names.len() ==> (#[trigger] names[i]).len() > 0 && !names[i].contains('['),
    ensures
        pointer_of_parts(names) == seq!['/'] + join_with(names, seq!['/']),
    decreases names.len(),
{
    let q = names.drop_last();
    assert(pointer_piece(names.last()) == seq!['/'] + names.last()) by {
        assert(!names[names.len() - 1].contains('['));
    }
    if names.len() == 1 {
        assert(q.len() == 0);
        assert(pointer_of_parts(q) == Seq::<char>::empty());
        assert(names.last() == names[0]);
        assert(pointer_of_parts(names) == pointer_of_parts(q) + pointer_piece(names.last()));
        assert(Seq::<char>::empty() + (seq!['/'] + names[0]) =~= seq!['/'] + names[0]);
    } else {
        assert forall|i: int| 0 <= i < q.len() implies (#[trigger] q[i]).len() > 0 && !q[i].contains('[') by {
            assert(q[i] == names[i]);
        }
        lemma_pointer_of_names(q);
        assert(seq!['/'] + join_with(q, seq!['/']) + (seq!['/'] + names.last()) =~= seq!['/'] + (join_with(
            q,
            seq!['/'],
        ) + seq!['/'] + names.last()));
    }
}

/// A dot path of plain names (no dots or brackets in a name) is the
/// pointer that descends through those names in order: `a.b.c` is
/// `/a/b/c`.
pub proof fn law_dot_path_of_names_descends_through_them(names: Seq<Seq<char>>)
    requires
        names.len() >= 1,
        forall|i: int|
            0 <= i < names.len() ==> (#[trigger] names[i]).len() > 0 && !names[i].contains('.')
                && !names[i].contains('['),
    ensures
        dot_path_pointer(join_with(names, seq!['.'])) == seq!['/'] + join_with(names, seq!['/']),
{
    lemma_split_join(names, '.');
    lemma_pointer_of_names(names);
}

/// A bracketed index after a name descends into the name, then to that
/// index: `users[0]` is `/users/0`, and a bare `[0]` is `/0`.
pub proof fn law_bracket_index_descends_into_the_element(name: Seq<char>, index: Seq<char>)
    requires
        !name.contains('['),
        !index.contains('['),
        !index.contains(']'),
    ensures
        pointer_piece(name + seq!['['] + index + seq![']']) == (if name.len() > 0 {
            seq!['/'] + name
        } else {
            Seq::<char>::empty()
        }) + seq!['/'] + index,
{
    let part = name + seq!['['] + index + seq![']'];
    assert(part[name.len() as int] == '[');
    assert(part[part.len() - 1] == ']');
    assert(part.contains('[') && part.contains(']'));
    lemma_split_append_plain(name + seq!['['], index + seq![']'], '[');
    assert(!(index + seq![']']).contains('[')) by {
        if (index + seq![']']).contains('[') {
            let j = choose|j: int| 0 <= j < (index + seq![']']).len() && (index + seq![']'])[j] == '[';
            if j < index.len() {
                assert(index[j] == '[');
            }
        }
    }
    assert(part =~= (name + seq!['[']) + (index + seq![']']));
    let e = Seq::<char>::empty();
    assert(name + seq!['['] =~= name.push('['));
    assert((name + seq!['[']).drop_last() =~= name);
    lemma_split_append_plain(e, name, '[');
    assert(e + name =~= name);
    assert(split_on(e, '[') =~= seq![e]);
    assert(split_on(name, '[') =~= seq![name]);
    assert(split_on(name + seq!['['], '[') =~= seq![name, e]);
    let pieces = split_on(part, '[');
    assert(pieces =~= seq![name, index + seq![']']]);
    assert((index + seq![']']).drop_last() =~= index);
    lemma_split_append_plain(e, index, ']');
    assert(e + index =~= index);
    assert(split_on(index, ']') =~= seq![index]);
    assert(split_on(index + seq![']'], ']') =~= seq![index, e]);
}

fn pointer_piece_exec(part: &[char], out: &mut Vec<char>)
    ensures
        final(out)@ == old(out)@ + pointer_piece(part@),
{
    if contains_char(part, '[') && contains_char(part, ']') {
        let pieces = split_chars(part, '[');
        proof {
            lemma_count_char_contains(part@, '[');
            lemma_split_len(part@, '[');
        }
        let inner = split_chars(pieces[1].as_slice(), ']');
        proof {
            lemma_split_len(pieces@[1]@, ']');
        }
        if pieces[0].len() > 0 {
            out.push('/');
            append_chars(out, pieces[0].as_slice());
        }
        out.push('/');
        append_chars(out, inner[0].as_slice());
        assert(pieces_view(pieces@)[0] == pieces@[0]@);
        assert(pieces_view(pieces@)[1] == pieces@[1]@);
        assert(pieces_view(inner@)[0] == inner@[0]@);
    } else if part.len() > 0 {
        out.push('/');
        append_chars(out, part);
    }
}

/// Converts a dot-separated path with optional bracket indices (e.g.
/// `"data.users[0].id"`) into a JSON pointer (`"/data/users/0/id"`).
pub fn dot_path_to_json_pointer(json_path: &str) -> (r: String)
    ensures
        r@ == dot_path_pointer(json_path@),
{
    let pc = chars_of(json_path);
    let parts = split_chars(pc.as_slice(), '.');
    let ghost pv = pieces_view(parts@);
    let mut out: Vec<char> = Vec::new();
    let mut i: usize = 0;
    while i < parts.len()
        invariant
            i <= parts@.len(),
            pv == pieces_view(parts@),
            out@ == pointer_of_parts(pv.take(i as int)),
        decreases parts.len() - i,
    {
        assert(pv.take(i + 1).drop_last() == pv.take(i as int));
        assert(pv[i as int] == parts@[i as int]@);
        pointer_piece_exec(parts[i].as_slice(), &mut out);
        i = i + 1;
    }
    assert(pv.take(parts@.len() as int) == pv);
    string_of(out.as_slice())
}

// ----- pointer resolution -----------------------------------------------

/// A pointer token with its escapes undone: `~1` is `/`, then `~0` is `~`.
pub open spec fn unescape_token(t: Seq<char>) -> Seq<char> {
    replace_all(replace_all(t, "~1"@, "/"@), "~0"@, "~"@)
}

/// The array index a token names: decimal digits without a sign or a
/// leading zero (a lone `0` is fine), within `usize`.
pub open spec fn token_index(t: Seq<char>) -> Option<nat> {
    if t.len() > 0 && (t[0] == '+' || (t[0] == '0' && t.len() != 1)) {
        None
    } else {
        parse_unsigned(t, usize::MAX as nat)
    }
}

/// The value of the first member of `entries` named `key`.
pub open spec fn member_value(entries: Seq<(String, JsonValue)>, key: Seq<char>) -> Option<
    JsonValue,
>
    decreases entries.len(),
{
    if entries.len() == 0 {
        None
    } else if entries[0].0@ == key {
        Some(entries[0].1)
    } else {
        member_value(entries.drop_first(), key)
    }
}

/// One step of resolution: a member of an object, an element of an array.
pub open spec fn step_into(v: JsonValue, token: Seq<char>) -> Option<JsonValue> {
    match v {
        JsonValue::Object(entries) => member_value(entries@, token),
        JsonValue::Array(items) => match token_index(token) {
            Some(i) => if i < items@.len() {
                Some(items@[i as int])
            } else {
                None
            },
            None => None,
        },
        _ => None,
    }
}

/// Resolution of the raw tokens `tokens` (escapes still in) from `v`.
pub open spec fn follow_tokens(v: JsonValue, tokens: Seq<Seq<char>>) -> Option<JsonValue>
    decreases tokens.len(),
{
    if tokens.len() == 0 {
        Some(v)
    } else {
        match step_into(v, unescape_token(tokens[0])) {
            Some(next) => follow_tokens(next, tokens.drop_first()),
            None => None,
        }
    }
}

/// The value a JSON pointer (RFC 6901) designates in `v`: `v` itself for
/// the empty pointer, nothing for one that does not start with `/`.
pub open spec fn pointer_get(v: JsonValue, pointer: Seq<char>) -> Option<JsonValue> {
    if pointer.len() == 0 {
        Some(v)
    } else if pointer[0] != '/' {
        None
    } else {
        follow_tokens(v, split_on(pointer, '/').drop_first())
    }
}

fn member_value_exec<'a>(entries: &'a Vec<(String, JsonValue)>, key: &[char]) -> (r: Option<
    &'a JsonValue,
>)
    ensures
        match r {
            Some(v) => member_value(entries@, key@) == Some(*v),
            None => member_value(entries@, key@) is None,
        },
{
    let mut i: usize = 0;
    assert(entries@.skip(0) == entries@);
    while i < entries.len()
        invariant
            i <= entries@.len(),
            member_value(entries@, key@) == member_value(entries@.skip(i as int), key@),
        decreases entries.len() - i,
    {
        let kc = chars_of(entries[i].0.as_str());
        assert(entries@.skip(i as int)[0] == entries@[i as int]);
        assert(entries@.skip(i as int).drop_first() == entries@.skip(i + 1));
        if chars_eq(kc.as_slice(), key) {
            return Some(&entries[i].1);
        }
        i = i + 1;
    }
    None
}

fn token_index_exec(t: &[char]) -> (r: Option<usize>)
    ensures
        match r {
            Some(i) => token_index(t@) == Some(i as nat),
            None => token_index(t@) is None,
        },
{
    if t.len() > 0 && (t[0] == '+' || (t[0] == '0' && t.len() != 1)) {
        return None;
    }
    let s = string_of(t);
    match parse_u64(s.as_str()) {
        Some(v) => {
            if v as u128 <= usize::MAX as u128 {
                Some(v as usize)
            } else {
                None
            }
        },
        None => None,
    }
}

fn step_into_exec<'a>(v: &'a JsonValue, token: &[char]) -> (r: Option<&'a JsonValue>)
    ensures
        match r {
            Some(n) => step_into(*v, token@) == Some(*n),
            None => step_into(*v, token@) is None,
        },
{
    match v {
        JsonValue::Object(entries) => member_value_exec(entries, token),
        JsonValue::Array(items) => match token_index_exec(token) {
            Some(i) => if i < items.len() {
                Some(&items[i])
            } else {
                None
            },
            None => None,
        },
        _ => None,
    }
}

fn unescape_token_exec(t: &[char]) -> (r: Vec<char>)
    ensures
        r@ == unescape_token(t@),
{
    let a = chars_of("~1");
    let b = chars_of("/");
    let c = chars_of("~0");
    let d = chars_of("~");
    proof {
        reveal_strlit("~1");
        reveal_strlit("~0");
    }
    let first = replace_all_chars(t, a.as_slice(), b.as_slice());
    replace_all_chars(first.as_slice(), c.as_slice(), d.as_slice())
}

/// Resolves the JSON pointer `pointer` in `data`.
pub fn resolve_pointer<'a>(data: &'a JsonValue, pointer: &str) -> (r: Option<&'a JsonValue>)
    ensures
        match r {
            Some(v) => pointer_get(*data, pointer@) == Some(*v),
            None => pointer_get(*data, pointer@) is None,
        },
{
    let pc = chars_of(pointer);
    if pc.len() == 0 {
        return Some(data);
    }
    if pc[0] != '/' {
        return None;
    }
    let pieces = split_chars(pc.as_slice(), '/');
    let ghost tokens = split_on(pointer@, '/').drop_first();
    let mut cur: &JsonValue = data;
    let mut i: usize = 1;
    proof {
        crate::text::lemma_split_on_nonempty(pointer@, '/');
        assert(tokens.skip(0) == tokens);
    }
    while i < pieces.len()
        invariant
            1 <= i <= pieces@.len(),
            pieces_view(pieces@) == split_on(pointer@, '/'),
            tokens == split_on(pointer@, '/').drop_first(),
            follow_tokens(*data, tokens) == follow_tokens(*cur, tokens.skip(i - 1)),
        decreases pieces.len() - i,
    {
        let ghost rest = tokens.skip(i - 1);
        assert(rest[0] == pieces@[i as int]@);
        assert(rest.drop_first() == tokens.skip(i as int));
        let tok = unescape_token_exec(pieces[i].as_slice());
        match step_into_exec(cur, tok.as_slice()) {
            Some(next) => {
                cur = next;
            },
            None => {
                return None;
            },
        }
        i = i + 1;
    }
    assert(tokens.skip(i - 1).len() == 0);
    Some(cur)
}

// ----- reporting a failed resolution ------------------------------------

/// The lowercase hexadecimal digit of `d` (below 16).
pub open spec fn hex_digit(d: int) -> char {
    if d < 10 {
        (48 + d) as char
    } else {
        (87 + d) as char
    }
}

/// How `serde_json` writes the character `c` inside a string: `"` and `\`
/// escaped with a backslash, the control characters with short escapes
/// (`\b`, `\t`, `\n`, `\f`, `\r`) or `\u00XX`, anything else as it is.
pub open spec fn json_escape(c: char) -> Seq<char> {
    let u = c as int;
    if c == '"' {
        seq!['\\', '"']
    } else if c == '\\' {
        seq!['\\', '\\']
    } else if u == 8 {
        seq!['\\', 'b']
    } else if u == 9 {
        seq!['\\', 't']
    } else if u == 10 {
        seq!['\\', 'n']
    } else if u == 12 {
        seq!['\\', 'f']
    } else if u == 13 {
        seq!['\\', 'r']
    } else if u < 0x20 {
        seq!['\\', 'u', '0', '0', hex_digit(u / 16), hex_digit(u % 16)]
    } else {
        seq![c]
    }
}

/// Every character of `s` as `serde_json` writes it in a string.
pub open spec fn json_escaped(s: Seq<char>) -> Seq<char>
    decreases s.len(),
{
    if s.len() == 0 {
        Seq::<char>::empty()
    } else {
        json_escaped(s.drop_last()) + json_escape(s.last())
    }
}

/// The JSON text of the string `s`: quoted, with JSON escapes
/// (`Display` of `serde_json::Value::String`).
pub open spec fn json_string_literal(s: Seq<char>) -> Seq<char> {
    seq!['"'] + json_escaped(s) + seq!['"']
}

/// The JSON text of the string `s`, as `serde_json` writes it
/// (`format_escaped_str`): quoted, each character escaped as
/// [`json_escape`] says.
#[verifier::external_body]
fn json_string_text(s: &str) -> (r: String)
    ensures
        r@ == json_string_literal(s@),
{
    serde_json::Value::String(s.to_string()).to_string()
}

/// The non-empty pieces of `ps`, in order.
pub open spec fn nonempty_pieces(ps: Seq<Seq<char>>) -> Seq<Seq<char>>
    decreases ps.len(),
{
    if ps.len() == 0 {
        ps
    } else {
        let rest = nonempty_pieces(ps.drop_last());
        if ps.last().len() == 0 {
            rest
        } else {
            rest.push(ps.last())
        }
    }
}

/// How far the segments `segs[i..]` resolve in `data` after `resolved`
/// did: each step appends `/segment` and keeps it while the longer
/// pointer still resolves from the root.
pub open spec fn resolved_prefix(data: JsonValue, segs: Seq<Seq<char>>, i: int, resolved: Seq<char>) -> Seq<char>
    decreases segs.len() - i,
{
    if i < 0 || i >= segs.len() {
        resolved
    } else {
        let next = resolved + seq!['/'] + segs[i];
        if pointer_get(data, next) is Some {
            resolved_prefix(data, segs, i + 1, next)
        } else {
            resolved
        }
    }
}

/// The longest leading part of `pointer` (its non-empty segments) that
/// resolves in `data`.
pub open spec fn stopping_point(data: JsonValue, pointer: Seq<char>) -> Seq<char> {
    resolved_prefix(data, nonempty_pieces(split_on(pointer, '/')), 0, Seq::<char>::empty())
}

/// The text of a scalar as JSON writes it.
pub open spec fn scalar_text(v: JsonValue) -> Seq<char> {
    match v {
        JsonValue::Null => "null"@,
        JsonValue::Bool(b) => if b {
            "true"@
        } else {
            "false"@
        },
        JsonValue::Number(t) => t@,
        JsonValue::String(s) => json_string_literal(s@),
        _ => Seq::<char>::empty(),
    }
}

/// The member names of an object, in order.
pub open spec fn member_names(entries: Seq<(String, JsonValue)>) -> Seq<Seq<char>> {
    entries.map_values(|e: (String, JsonValue)| e.0@)
}

/// What a value offers to a path that stopped at it.
pub open spec fn available_text(v: JsonValue) -> Seq<char> {
    match v {
        JsonValue::Object(entries) => "an object with keys "@ + debug_list_text(
            member_names(entries@),
        ),
        JsonValue::Array(items) => "an array with "@ + decimal(items@.len())
            + " element(s) (valid indices 0.."@ + decimal(items@.len()) + ")"@,
        _ => "a scalar value ("@ + scalar_text(v) + ")"@,
    }
}

/// The message for a dot path `json_path` (pointer `pointer`) that does
/// not resolve in `data`: where resolution stopped and what is there.
pub open spec fn failure_text(data: JsonValue, pointer: Seq<char>, json_path: Seq<char>) -> Seq<char> {
    let rp = stopping_point(data, pointer);
    let current = match pointer_get(data, rp) {
        Some(v) => v,
        None => data,
    };
    let location = if rp.len() == 0 {
        "the root"@
    } else {
        rp
    };
    "Path '"@ + json_path + "' not found in JSON object — resolution stopped at '"@ + location
        + "', which is "@ + available_text(current)
}

fn nonempty_pieces_exec(ps: &Vec<Vec<char>>) -> (r: Vec<Vec<char>>)
    ensures
        pieces_view(r@) == nonempty_pieces(pieces_view(ps@)),
{
    let ghost pv = pieces_view(ps@);
    let mut out: Vec<Vec<char>> = Vec::new();
    let mut i: usize = 0;
    while i < ps.len()
        invariant
            i <= ps@.len(),
            pv == pieces_view(ps@),
            pieces_view(out@) == nonempty_pieces(pv.take(i as int)),
        decreases ps.len() - i,
    {
        assert(pv.take(i + 1).drop_last() == pv.take(i as int));
        assert(pv[i as int] == ps@[i as int]@);
        if ps[i].len() > 0 {
            let mut copy: Vec<char> = Vec::new();
            append_chars(&mut copy, ps[i].as_slice());
            let ghost before = pieces_view(out@);
            out.push(copy);
            assert(pieces_view(out@) == before.push(copy@));
        }
        i = i + 1;
    }
    assert(pv.take(ps@.len() as int) == pv);
    out
}

fn available_message(v: &JsonValue) -> (r: String)
    ensures
        r@ == available_text(*v),
{
    match v {
        JsonValue::Object(entries) => {
            let mut keys: Vec<String> = Vec::new();
            let mut i: usize = 0;
            while i < entries.len()
                invariant
                    i <= entries@.len(),
                    keys@.map_values(|s: String| s@) == member_names(entries@).take(i as int),
                decreases entries.len() - i,
            {
                let k = String::from_str(entries[i].0.as_str());
                let ghost before = keys@.map_values(|s: String| s@);
                keys.push(k);
                assert(keys@.map_values(|s: String| s@) == before.push(k@));
                assert(member_names(entries@).take(i + 1) == member_names(entries@).take(
                    i as int,
                ).push(entries@[i as int].0@));
                i = i + 1;
            }
            assert(member_names(entries@).take(entries@.len() as int) == member_names(entries@));
            let mut m = String::from_str("an object with keys ");
            m.append(debug_list(&keys).as_str());
            m
        },
        JsonValue::Array(items) => {
            let n = string_of(decimal_chars(items.len()).as_slice());
            let mut m = String::from_str("an array with ");
            m.append(n.as_str());
            m.append(" element(s) (valid indices 0..");
            m.append(n.as_str());
            m.append(")");
            m
        },
        _ => {
            let text = match v {
                JsonValue::Null => String::from_str("null"),
                JsonValue::Bool(b) => if *b {
                    String::from_str("true")
                } else {
                    String::from_str("false")
                },
                JsonValue::Number(t) => String::from_str(t.as_str()),
                JsonValue::String(s) => json_string_text(s.as_str()),
                _ => String::new(),
            };
            let mut m = String::from_str("a scalar value (");
            m.append(text.as_str());
            m.append(")");
            m
        },
    }
}

/// Walks `pointer` segment by segment against `json_data` and reports
/// where resolution of the dot path `json_path` stopped and what is
/// available there.
pub fn describe_pointer_resolution_failure(json_data: &JsonValue, pointer: &str, json_path: &str) -> (r: String)
    ensures
        r@ == failure_text(*json_data, pointer@, json_path@),
{
    let pc = chars_of(pointer);
    let pieces = split_chars(pc.as_slice(), '/');
    let segs = nonempty_pieces_exec(&pieces);
    let ghost sv = pieces_view(segs@);
    let mut resolved: Vec<char> = Vec::new();
    let mut i: usize = 0;
    let mut stopped = false;
    while i < segs.len() && !stopped
        invariant
            i <= segs@.len(),
            sv == pieces_view(segs@),
            sv == nonempty_pieces(split_on(pointer@, '/')),
            stopped ==> stopping_point(*json_data, pointer@) == resolved@,
            !stopped ==> stopping_point(*json_data, pointer@) == resolved_prefix(
                *json_data,
                sv,
                i as int,
                resolved@,
            ),
        decreases segs.len() - i,
    {
        let mut next: Vec<char> = Vec::new();
        append_chars(&mut next, resolved.as_slice());
        next.push('/');
        append_chars(&mut next, segs[i].as_slice());
        assert(next@ == resolved@ + seq!['/'] + sv[i as int]);
        let ns = string_of(next.as_slice());
        match resolve_pointer(json_data, ns.as_str()) {
            Some(_) => {
                resolved = next;
            },
            None => {
                stopped = true;
            },
        }
        i = i + 1;
    }
    let rs = string_of(resolved.as_slice());
    let current = match resolve_pointer(json_data, rs.as_str()) {
        Some(v) => v,
        None => json_data,
    };
    let mut m = String::from_str("Path '");
    m.append(json_path);
    m.append("' not found in JSON object — resolution stopped at '");
    if resolved.len() == 0 {
        m.append("the root");
    } else {
        m.append(rs.as_str());
    }
    m.append("', which is ");
    m.append(available_message(current).as_str());
    m
}

/// Resolves the dot path `data_path` in `data`: the value it designates,
/// or a `General` error saying where resolution stopped.
pub fn query_value<'a>(data: &'a JsonValue, data_path: &str) -> (r: CoreResult<&'a JsonValue>)
    ensures
        match pointer_get(*data, dot_path_pointer(data_path@)) {
            Some(v) => (r matches Ok(x) && *x == v),
            None => (r matches Err(CoreError::General(m)) && m@ == failure_text(
                *data,
                dot_path_pointer(data_path@),
                data_path@,
            )),
        },
{
    let pointer = dot_path_to_json_pointer(data_path);
    match resolve_pointer(data, pointer.as_str()) {
        Some(v) => Ok(v),
        None => Err(
            CoreError::General(
                describe_pointer_resolution_failure(data, pointer.as_str(), data_path),
            ),
        ),
    }
}

proof fn lemma_pointer_of_parts_starts_with_slash(parts: Seq<Seq<char>>)
    ensures
        pointer_of_parts(parts).len() == 0 || pointer_of_parts(parts)[0] == '/',
    decreases parts.len(),
{
    if parts.len() > 0 {
        lemma_pointer_of_parts_starts_with_slash(parts.drop_last());
        let pre = pointer_of_parts(parts.drop_last());
        let piece = pointer_piece(parts.last());
        if pre.len() == 0 {
            assert(pre + piece == piece);
        } else {
            assert((pre + piece)[0] == pre[0]);
        }
    }
}

/// Every pointer built from a dot path is empty (the whole document) or
/// starts with `/`, so it is a well-formed JSON pointer.
pub proof fn law_dot_path_pointers_are_well_formed(json_path: Seq<char>)
    ensures
        dot_path_pointer(json_path).len() == 0 || dot_path_pointer(json_path)[0] == '/',
{
    lemma_pointer_of_parts_starts_with_slash(split_on(json_path, '.'));
}

proof fn lemma_resolved_prefix_resolves(data: JsonValue, segs: Seq<Seq<char>>, i: int, resolved: Seq<char>)
    requires
        pointer_get(data, resolved) is Some,
    ensures
        pointer_get(data, resolved_prefix(data, segs, i, resolved)) is Some,
    decreases segs.len() - i,
{
    if 0 <= i < segs.len() {
        let next = resolved + seq!['/'] + segs[i];
        if pointer_get(data, next) is Some {
            lemma_resolved_prefix_resolves(data, segs, i + 1, next);
        }
    }
}

/// The place a failed resolution reports as where it stopped always
/// exists in the document: the root, or a prefix of the pointer that
/// resolves.
pub proof fn law_reported_stopping_point_resolves(data: JsonValue, pointer: Seq<char>)
    ensures
        pointer_get(data, stopping_point(data, pointer)) is Some,
{
    lemma_resolved_prefix_resolves(
        data,
        nonempty_pieces(split_on(pointer, '/')),
        0,
        Seq::<char>::empty(),
    );
}

} // verus!
