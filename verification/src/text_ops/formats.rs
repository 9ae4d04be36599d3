//! Reading JSON, TOML and YAML text into the library's JSON value model.
//! The parsers are the outside crates'; the library decides which one a
//! format uses and what a failure is reported as.

use vstd::prelude::*;
use crate::errors::{CoreError, CoreResult};
use crate::text::{append_chars, decimal, decimal_chars_u64, starts_with, string_of};
use crate::text_ops::matrix::{compare_texts, lemma_text_order, lemma_text_order_trans, text_order};
use crate::text_ops::query::{
    json_member_models, json_model, json_models, lemma_json_member_models, DataFormat, JsonModel, JsonValue,
};
use serde_json::{Number, Value};
use yaml_rust2::Yaml;

verus! {

#[verifier::external_type_specification]
#[verifier::external_body]
pub struct ExSerdeValue(serde_json::Value);

#[verifier::external_type_specification]
#[verifier::external_body]
pub struct ExYaml(yaml_rust2::Yaml);

/// The value `serde_json::from_str` reads from `text`, in the library's
/// model (`None` when the text is not JSON).
pub uninterp spec fn json_document(text: Seq<char>) -> Option<JsonValue>;

/// `toml::from_str` reads `text` as a TOML table.
pub uninterp spec fn toml_parses(text: Seq<char>) -> bool;

/// The value a TOML text reads as (`toml::from_str`, then
/// `serde_json::to_value`), in the library's model (`None` when either
/// step fails).
pub uninterp spec fn toml_document(text: Seq<char>) -> Option<JsonValue>;

/// The first document `YamlLoader::load_from_str` reads from `text`, node
/// for node: `None` when the text does not load, `Some(None)` when it holds
/// no document.
pub uninterp spec fn yaml_first_document(text: Seq<char>) -> Option<Option<YamlNode>>;

/// The text `serde_json` writes for the number `Yaml::as_f64` reads from
/// the YAML real `text` (`Number::from_f64`), `None` when that number is
/// not finite.
pub uninterp spec fn yaml_real_number(text: Seq<char>) -> Option<Seq<char>>;

/// A YAML node as `yaml_rust2` reads it: a real as its source text, a
/// mapping's entries in document order.
pub enum YamlNode {
    Real(String),
    Integer(i64),
    Text(String),
    Boolean(bool),
    Array(Vec<YamlNode>),
    Hash(Vec<(YamlNode, YamlNode)>),
    Alias(usize),
    Null,
    BadValue,
}

/// Why a TOML text could not be read: its syntax (with the parser's
/// message), or the conversion of the table to JSON.
pub enum TomlFailure {
    Syntax(String),
    Conversion(String),
}

/// A `serde_json::Value` in the library's model: one variant for one, a
/// number as the text `Number` displays, object members in map order.
#[verifier::external_body]
fn json_from_serde(v: &Value) -> JsonValue {
    match v {
        Value::Null => JsonValue::Null,
        Value::Bool(b) => JsonValue::Bool(*b),
        Value::Number(n) => JsonValue::Number(n.to_string()),
        Value::String(s) => JsonValue::String(s.clone()),
        Value::Array(a) => JsonValue::Array(a.iter().map(json_from_serde).collect()),
        Value::Object(m) => JsonValue::Object(m.iter().map(|(k, x)| (k.clone(), json_from_serde(x))).collect()),
    }
}

/// A `yaml_rust2::Yaml` node as the library's `YamlNode`: one variant for
/// one, fields moved over, a mapping's entries in its iteration order.
#[verifier::external_body]
fn node_from_yaml(y: &Yaml) -> YamlNode {
    match y {
        Yaml::Real(s) => YamlNode::Real(s.clone()),
        Yaml::Integer(i) => YamlNode::Integer(*i),
        Yaml::String(s) => YamlNode::Text(s.clone()),
        Yaml::Boolean(b) => YamlNode::Boolean(*b),
        Yaml::Array(a) => YamlNode::Array(a.iter().map(node_from_yaml).collect()),
        Yaml::Hash(m) => YamlNode::Hash(m.iter().map(|(k, x)| (node_from_yaml(k), node_from_yaml(x))).collect()),
        Yaml::Alias(n) => YamlNode::Alias(*n),
        Yaml::Null => YamlNode::Null,
        Yaml::BadValue => YamlNode::BadValue,
    }
}

/// The number a YAML real reads as (`Yaml::as_f64`, then
/// `Number::from_f64`), written as `serde_json` writes it; `None` when it
/// is not finite.
#[verifier::external_body]
fn yaml_real_text(text: &str) -> (r: Option<String>)
    ensures
        r is Some <==> yaml_real_number(text@) is Some,
        r matches Some(t) ==> yaml_real_number(text@) == Some(t@),
{
    match Yaml::Real(text.to_string()).as_f64().and_then(Number::from_f64) {
        Some(n) => Some(n.to_string()),
        None => None,
    }
}

/// Reads `text` as JSON (`serde_json::from_str`); the error carries the
/// parser's message, of which nothing is stated.
#[verifier::external_body]
fn read_json(text: &str) -> (r: Result<JsonValue, String>)
    ensures
        r is Ok <==> json_document(text@) is Some,
        r matches Ok(v) ==> json_document(text@) == Some(v),
{
    match serde_json::from_str::<serde_json::Value>(text) {
        Ok(v) => Ok(json_from_serde(&v)),
        Err(e) => Err(e.to_string()),
    }
}

/// Reads `text` as TOML (`toml::from_str`) and converts the table to JSON
/// (`serde_json::to_value`); the messages are the crates' own, of which
/// nothing is stated.
#[verifier::external_body]
fn read_toml(text: &str) -> (r: Result<JsonValue, TomlFailure>)
    ensures
        r is Ok <==> toml_document(text@) is Some,
        r matches Ok(v) ==> toml_document(text@) == Some(v),
        r matches Err(TomlFailure::Syntax(_)) <==> !toml_parses(text@),
{
    match toml::from_str::<toml::Value>(text) {
        Err(e) => Err(TomlFailure::Syntax(e.to_string())),
        Ok(t) => match serde_json::to_value(t) {
            Ok(v) => Ok(json_from_serde(&v)),
            Err(e) => Err(TomlFailure::Conversion(e.to_string())),
        },
    }
}

/// Loads `text` as YAML (`YamlLoader::load_from_str`) and gives its first
/// document, if any; the error carries the scanner's message, of which
/// nothing is stated.
#[verifier::external_body]
fn read_yaml(text: &str) -> (r: Result<Option<YamlNode>, String>)
    ensures
        r is Ok <==> yaml_first_document(text@) is Some,
        r matches Ok(d) ==> yaml_first_document(text@) == Some(d),
{
    match yaml_rust2::YamlLoader::load_from_str(text) {
        Ok(docs) => match docs.first() {
            Some(d) => Ok(Some(node_from_yaml(d))),
            None => Ok(None),
        },
        Err(e) => Err(e.to_string()),
    }
}

// ----- YAML nodes as JSON --------------------------------------------------

/// The decimal text of `i`, with a `-` when negative.
pub open spec fn int_text(i: int) -> Seq<char> {
    if i < 0 {
        seq!['-'] + decimal((-i) as nat)
    } else {
        decimal(i as nat)
    }
}

/// The member name a mapping key becomes: a string or real as written, an
/// integer in decimal, a boolean as `true`/`false`, any other node empty.
pub open spec fn yaml_key_text(k: YamlNode) -> Seq<char> {
    match k {
        YamlNode::Real(s) => s@,
        YamlNode::Text(s) => s@,
        YamlNode::Integer(i) => int_text(i as int),
        YamlNode::Boolean(b) => if b {
            "true"@
        } else {
            "false"@
        },
        _ => Seq::<char>::empty(),
    }
}

/// `ms` with the member `k` set to `v`, as a JSON map does it: members stay
/// in name order, one per name, and a name already there takes the new
/// value.
pub open spec fn member_insert(
    ms: Seq<(Seq<char>, JsonModel)>,
    k: Seq<char>,
    v: JsonModel,
) -> Seq<(Seq<char>, JsonModel)>
    decreases ms.len(),
{
    if ms.len() == 0 {
        seq![(k, v)]
    } else if ms[0].0 == k {
        seq![(k, v)] + ms.drop_first()
    } else if text_order(k, ms[0].0) < 0 {
        seq![(k, v)] + ms
    } else {
        seq![ms[0]] + member_insert(ms.drop_first(), k, v)
    }
}

/// The member names of `ms` are strictly increasing (so each name occurs
/// once).
pub open spec fn names_strictly_sorted(ms: Seq<(Seq<char>, JsonModel)>) -> bool {
    forall|i: int, j: int| 0 <= i < j < ms.len() ==> text_order(#[trigger] ms[i].0, #[trigger] ms[j].0) < 0
}

/// Setting a member keeps the members in strict name order, holds the new
/// member, keeps every member of another name, and adds nothing else.
pub proof fn law_member_insert_sets_one_member(ms: Seq<(Seq<char>, JsonModel)>, k: Seq<char>, v: JsonModel)
    requires
        names_strictly_sorted(ms),
    ensures
        names_strictly_sorted(member_insert(ms, k, v)),
        member_insert(ms, k, v).contains((k, v)),
        forall|m: (Seq<char>, JsonModel)| ms.contains(m) && m.0 != k ==> member_insert(ms, k, v).contains(m),
        forall|m: (Seq<char>, JsonModel)|
            #[trigger] member_insert(ms, k, v).contains(m) ==> m == (k, v) || (ms.contains(m) && m.0 != k),
    decreases ms.len(),
{
    let r = member_insert(ms, k, v);
    if ms.len() == 0 {
        assert(r[0] == (k, v));
    } else {
        let t = ms.drop_first();
        assert(names_strictly_sorted(t)) by {
            assert forall|i: int, j: int| 0 <= i < j < t.len() implies text_order(
                #[trigger] t[i].0,
                #[trigger] t[j].0,
            ) < 0 by {
                assert(t[i] == ms[i + 1] && t[j] == ms[j + 1]);
            }
        }
        assert forall|m: (Seq<char>, JsonModel)| #[trigger] ms.contains(m) implies m == ms[0] || t.contains(m) by {
            let j = choose|j: int| 0 <= j < ms.len() && ms[j] == m;
            if j > 0 {
                assert(t[j - 1] == m);
            }
        }
        assert forall|j: int| 0 <= j < t.len() implies text_order(ms[0].0, #[trigger] t[j].0) < 0 by {
            assert(t[j] == ms[j + 1]);
        }
        lemma_text_order(k, ms[0].0);
        if ms[0].0 == k {
            assert(r == seq![(k, v)] + t);
            assert(r[0] == (k, v));
            assert forall|i: int, j: int| 0 <= i < j < r.len() implies text_order(
                #[trigger] r[i].0,
                #[trigger] r[j].0,
            ) < 0 by {
                assert(r[j] == t[j - 1]);
                if i > 0 {
                    assert(r[i] == t[i - 1]);
                }
            }
            assert forall|m: (Seq<char>, JsonModel)| ms.contains(m) && m.0 != k implies r.contains(m) by {
                let j = choose|j: int| 0 <= j < t.len() && t[j] == m;
                assert(r[j + 1] == m);
            }
            assert forall|m: (Seq<char>, JsonModel)| #[trigger] r.contains(m) implies m == (k, v) || (
            ms.contains(m) && m.0 != k) by {
                let j = choose|j: int| 0 <= j < r.len() && r[j] == m;
                if j > 0 {
                    assert(m == t[j - 1] && ms[j] == m);
                    assert(text_order(ms[0].0, ms[j].0) < 0);
                    lemma_text_order(ms[0].0, m.0);
                }
            }
        } else if text_order(k, ms[0].0) < 0 {
            assert(r == seq![(k, v)] + ms);
            assert(r[0] == (k, v));
            assert forall|i: int, j: int| 0 <= i < j < r.len() implies text_order(
                #[trigger] r[i].0,
                #[trigger] r[j].0,
            ) < 0 by {
                assert(r[j] == ms[j - 1]);
                if i > 0 {
                    assert(r[i] == ms[i - 1]);
                } else if j > 1 {
                    lemma_text_order_trans(k, ms[0].0, ms[j - 1].0);
                }
            }
            assert forall|m: (Seq<char>, JsonModel)| ms.contains(m) && m.0 != k implies r.contains(m) by {
                let j = choose|j: int| 0 <= j < ms.len() && ms[j] == m;
                assert(r[j + 1] == m);
            }
            assert forall|m: (Seq<char>, JsonModel)| #[trigger] r.contains(m) implies m == (k, v) || (
            ms.contains(m) && m.0 != k) by {
                let j = choose|j: int| 0 <= j < r.len() && r[j] == m;
                if j > 0 {
                    assert(m == ms[j - 1]);
                    if j > 1 {
                        lemma_text_order_trans(k, ms[0].0, ms[j - 1].0);
                    }
                    lemma_text_order(k, m.0);
                }
            }
        } else {
            law_member_insert_sets_one_member(t, k, v);
            let rt = member_insert(t, k, v);
            assert(r == seq![ms[0]] + rt);
            assert(r[0] == ms[0]);
            assert forall|j: int| 0 <= j < rt.len() implies text_order(ms[0].0, #[trigger] rt[j].0) < 0 by {
                assert(rt.contains(rt[j]));
                if rt[j] != (k, v) {
                    assert(t.contains(rt[j]));
                    let q = choose|q: int| 0 <= q < t.len() && t[q] == rt[j];
                    assert(text_order(ms[0].0, t[q].0) < 0);
                }
            }
            assert forall|i: int, j: int| 0 <= i < j < r.len() implies text_order(
                #[trigger] r[i].0,
                #[trigger] r[j].0,
            ) < 0 by {
                assert(r[j] == rt[j - 1]);
                if i > 0 {
                    assert(r[i] == rt[i - 1]);
                }
            }
            assert(rt.contains((k, v)));
            let jj = choose|j: int| 0 <= j < rt.len() && rt[j] == (k, v);
            assert(r[jj + 1] == (k, v));
            assert forall|m: (Seq<char>, JsonModel)| ms.contains(m) && m.0 != k implies r.contains(m) by {
                if m == ms[0] {
                    assert(r[0] == m);
                } else {
                    assert(rt.contains(m));
                    let j = choose|j: int| 0 <= j < rt.len() && rt[j] == m;
                    assert(r[j + 1] == m);
                }
            }
            assert forall|m: (Seq<char>, JsonModel)| #[trigger] r.contains(m) implies m == (k, v) || (
            ms.contains(m) && m.0 != k) by {
                let j = choose|j: int| 0 <= j < r.len() && r[j] == m;
                if j == 0 {
                    assert(ms[0] == m);
                    assert(ms.contains(m));
                } else {
                    assert(rt[j - 1] == m);
                    assert(rt.contains(m));
                    if m != (k, v) {
                        let q = choose|q: int| 0 <= q < t.len() && t[q] == m;
                        assert(ms[q + 1] == m);
                    }
                }
            }
        }
    }
}

/// The JSON a YAML node stands for: a real is the number it reads as (its
/// text when that is not finite), an integer, string or boolean the same
/// scalar, a sequence an array, a mapping an object (members set in
/// document order, so a later key wins), anything else null.
pub open spec fn yaml_json(n: YamlNode) -> JsonModel
    decreases n, 1int,
{
    match n {
        YamlNode::Real(s) => match yaml_real_number(s@) {
            Some(t) => JsonModel::Number(t),
            None => JsonModel::Text(s@),
        },
        YamlNode::Integer(i) => JsonModel::Number(int_text(i as int)),
        YamlNode::Text(s) => JsonModel::Text(s@),
        YamlNode::Boolean(b) => JsonModel::Bool(b),
        YamlNode::Array(items) => JsonModel::Array(yaml_jsons(items@)),
        YamlNode::Hash(entries) => JsonModel::Object(yaml_members(entries@)),
        _ => JsonModel::Null,
    }
}

/// The JSON of each node of `items`, in order.
pub open spec fn yaml_jsons(items: Seq<YamlNode>) -> Seq<JsonModel>
    decreases items, 0int,
{
    if items.len() == 0 {
        Seq::empty()
    } else {
        yaml_jsons(items.drop_last()).push(yaml_json(items[items.len() - 1]))
    }
}

/// The members a mapping's entries give, set one after another.
pub open spec fn yaml_members(entries: Seq<(YamlNode, YamlNode)>) -> Seq<(Seq<char>, JsonModel)>
    decreases entries, 0int,
{
    if entries.len() == 0 {
        Seq::empty()
    } else {
        member_insert(
            yaml_members(entries.drop_last()),
            yaml_key_text(entries[entries.len() - 1].0),
            yaml_json(entries[entries.len() - 1].1),
        )
    }
}

/// A mapping becomes an object whose members are in strict name order, one
/// per key: each key's value is the JSON of its last entry, and every
/// member comes from an entry.
pub proof fn law_mapping_object_keeps_the_last_entry_per_key(entries: Seq<(YamlNode, YamlNode)>)
    ensures
        names_strictly_sorted(yaml_members(entries)),
        forall|i: int|
            0 <= i < entries.len() && (forall|j: int|
                i < j < entries.len() ==> yaml_key_text(#[trigger] entries[j].0) != yaml_key_text(entries[i].0))
                ==> yaml_members(entries).contains(
                (yaml_key_text(#[trigger] entries[i].0), yaml_json(entries[i].1)),
            ),
        forall|m: (Seq<char>, JsonModel)|
            #[trigger] yaml_members(entries).contains(m) ==> exists|i: int|
                0 <= i < entries.len() && m == (yaml_key_text(#[trigger] entries[i].0), yaml_json(
                    entries[i].1,
                )),
    decreases entries.len(),
{
    if entries.len() > 0 {
        let d = entries.drop_last();
        law_mapping_object_keeps_the_last_entry_per_key(d);
        let n = entries.len() - 1;
        let k = yaml_key_text(entries[n].0);
        let v = yaml_json(entries[n].1);
        let md = yaml_members(d);
        law_member_insert_sets_one_member(md, k, v);
        let r = yaml_members(entries);
        assert(r == member_insert(md, k, v));
        assert forall|i: int|
            0 <= i < entries.len() && (forall|j: int|
                i < j < entries.len() ==> yaml_key_text(#[trigger] entries[j].0) != yaml_key_text(entries[i].0))
                implies r.contains((yaml_key_text(#[trigger] entries[i].0), yaml_json(entries[i].1))) by {
            if i < n {
                assert(d[i] == entries[i]);
                assert forall|j: int| i < j < d.len() implies yaml_key_text(#[trigger] d[j].0) != yaml_key_text(
                    d[i].0,
                ) by {
                    assert(d[j] == entries[j]);
                }
                assert(md.contains((yaml_key_text(d[i].0), yaml_json(d[i].1))));
                assert(yaml_key_text(entries[n].0) != yaml_key_text(entries[i].0));
            }
        }
        assert forall|m: (Seq<char>, JsonModel)| #[trigger] r.contains(m) implies exists|i: int|
            0 <= i < entries.len() && m == (yaml_key_text(#[trigger] entries[i].0), yaml_json(entries[i].1)) by {
            if m == (k, v) {
                assert(m == (yaml_key_text(entries[n].0), yaml_json(entries[n].1)));
            } else {
                assert(md.contains(m));
                let i = choose|i: int| 0 <= i < d.len() && m == (yaml_key_text(#[trigger] d[i].0), yaml_json(d[i].1));
                assert(d[i] == entries[i]);
                assert(m == (yaml_key_text(entries[i].0), yaml_json(entries[i].1)));
            }
        }
    }
}

fn int_text_exec(i: i64) -> (r: String)
    ensures
        r@ == int_text(i as int),
{
    if i < 0 {
        let m: u64 = if i == i64::MIN {
            9223372036854775808u64
        } else {
            (-i) as u64
        };
        let d = decimal_chars_u64(m);
        let mut cs: Vec<char> = Vec::new();
        cs.push('-');
        append_chars(&mut cs, d.as_slice());
        assert(cs@ == seq!['-'] + decimal((-i) as nat));
        string_of(cs.as_slice())
    } else {
        let d = decimal_chars_u64(i as u64);
        string_of(d.as_slice())
    }
}

fn key_text_exec(k: &YamlNode) -> (r: String)
    ensures
        r@ == yaml_key_text(*k),
{
    match k {
        YamlNode::Real(s) => s.clone(),
        YamlNode::Text(s) => s.clone(),
        YamlNode::Integer(i) => int_text_exec(*i),
        YamlNode::Boolean(b) => if *b {
            String::from_str("true")
        } else {
            String::from_str("false")
        },
        _ => String::new(),
    }
}

proof fn lemma_member_insert_skip(ms: Seq<(Seq<char>, JsonModel)>, k: Seq<char>, v: JsonModel, i: int)
    requires
        0 <= i <= ms.len(),
        forall|j: int| 0 <= j < i ==> text_order(#[trigger] ms[j].0, k) < 0,
    ensures
        member_insert(ms, k, v) == ms.take(i) + member_insert(ms.skip(i), k, v),
    decreases i,
{
    if i > 0 {
        lemma_text_order(ms[0].0, k);
        let t = ms.drop_first();
        assert forall|j: int| 0 <= j < i - 1 implies text_order(#[trigger] t[j].0, k) < 0 by {
            assert(t[j] == ms[j + 1]);
        }
        lemma_member_insert_skip(t, k, v, i - 1);
        assert(text_order(ms[0].0, k) < 0);
        assert(ms[0].0 != k);
        assert(member_insert(ms, k, v) == seq![ms[0]] + member_insert(t, k, v));
        assert(ms.take(i) =~= seq![ms[0]] + t.take(i - 1));
        assert(ms.skip(i) =~= t.skip(i - 1));
        assert(seq![ms[0]] + (t.take(i - 1) + member_insert(t.skip(i - 1), k, v)) =~= (seq![ms[0]]
            + t.take(i - 1)) + member_insert(t.skip(i - 1), k, v));
    } else {
        assert(ms.skip(0) =~= ms);
        assert(ms.take(0) + member_insert(ms, k, v) =~= member_insert(ms, k, v));
    }
}

/// Sets the member `k` of the sorted members `ms` to `v`.
fn insert_member(ms: &mut Vec<(String, JsonValue)>, k: String, v: JsonValue)
    ensures
        json_member_models(final(ms)@) == member_insert(json_member_models(old(ms)@), k@, json_model(v)),
{
    let ghost m0 = json_member_models(ms@);
    let ghost kv = (k@, json_model(v));
    proof {
        lemma_json_member_models(ms@);
    }
    let mut i: usize = 0;
    while i < ms.len() && compare_texts(ms[i].0.as_str(), k.as_str()) < 0
        invariant
            i <= ms@.len(),
            m0 == json_member_models(ms@),
            m0.len() == ms@.len(),
            forall|j: int| 0 <= j < ms@.len() ==> #[trigger] m0[j] == (ms@[j].0@, json_model(ms@[j].1)),
            forall|j: int| 0 <= j < i ==> text_order(#[trigger] m0[j].0, k@) < 0,
        decreases ms.len() - i,
    {
        i = i + 1;
    }
    proof {
        lemma_member_insert_skip(m0, k@, json_model(v), i as int);
    }
    let ghost old_ms = ms@;
    if i < ms.len() && compare_texts(ms[i].0.as_str(), k.as_str()) == 0 {
        proof {
            lemma_text_order(m0[i as int].0, k@);
            assert(m0.skip(i as int).drop_first() == m0.skip(i + 1));
        }
        ms.set(i, (k, v));
        proof {
            lemma_json_member_models(ms@);
            assert(json_member_models(ms@) =~= m0.take(i as int) + (seq![kv] + m0.skip(i + 1)));
        }
    } else {
        proof {
            if i < m0.len() {
                lemma_text_order(m0[i as int].0, k@);
            }
        }
        ms.insert(i, (k, v));
        proof {
            lemma_json_member_models(ms@);
            assert(json_member_models(ms@) =~= m0.take(i as int) + (seq![kv] + m0.skip(i as int)));
        }
    }
}

/// The JSON value of a YAML node, exactly [`yaml_json`].
#[verifier::loop_isolation(false)]
pub fn yaml_to_json(n: &YamlNode) -> (r: JsonValue)
    ensures
        json_model(r) == yaml_json(*n),
    decreases n,
{
    match n {
        YamlNode::Real(s) => match yaml_real_text(s.as_str()) {
            Some(t) => JsonValue::Number(t),
            None => JsonValue::String(s.clone()),
        },
        YamlNode::Integer(i) => JsonValue::Number(int_text_exec(*i)),
        YamlNode::Text(s) => JsonValue::String(s.clone()),
        YamlNode::Boolean(b) => JsonValue::Bool(*b),
        YamlNode::Array(items) => {
            let mut out: Vec<JsonValue> = Vec::new();
            let mut i: usize = 0;
            while i < items.len()
                invariant
                    i <= items@.len(),
                    json_models(out@) == yaml_jsons(items@.take(i as int)),
                decreases items.len() - i,
            {
                proof {
                    assert(decreases_to!(*n => *items));
                    assert(decreases_to!(*items => items@));
                    assert(decreases_to!(items@ => items@[i as int]));
                    assert(decreases_to!(*n => items@[i as int]));
                }
                let j = yaml_to_json(&items[i]);
                let ghost before = out@;
                out.push(j);
                proof {
                    assert(out@.drop_last() =~= before);
                    assert(items@.take(i + 1).drop_last() =~= items@.take(i as int));
                }
                i = i + 1;
            }
            assert(items@.take(i as int) =~= items@);
            JsonValue::Array(out)
        },
        YamlNode::Hash(entries) => {
            let mut ms: Vec<(String, JsonValue)> = Vec::new();
            let mut i: usize = 0;
            while i < entries.len()
                invariant
                    i <= entries@.len(),
                    json_member_models(ms@) == yaml_members(entries@.take(i as int)),
                decreases entries.len() - i,
            {
                let k = key_text_exec(&entries[i].0);
                proof {
                    assert(decreases_to!(*n => *entries));
                    assert(decreases_to!(*entries => entries@));
                    assert(decreases_to!(entries@ => entries@[i as int]));
                    assert(decreases_to!(entries@[i as int] => entries@[i as int].1));
                    assert(decreases_to!(*n => entries@[i as int].1));
                }
                let v = yaml_to_json(&entries[i].1);
                insert_member(&mut ms, k, v);
                proof {
                    assert(entries@.take(i + 1).drop_last() =~= entries@.take(i as int));
                }
                i = i + 1;
            }
            assert(entries@.take(i as int) =~= entries@);
            JsonValue::Object(ms)
        },
        _ => JsonValue::Null,
    }
}

/// `m` is a parsing error whose message starts with `prefix`.
pub open spec fn parsing_error_with(r: CoreResult<JsonValue>, prefix: Seq<char>) -> bool {
    r matches Err(CoreError::Parsing(m)) && starts_with(m@, prefix)
}

/// What reading a JSON or TOML text gives (a YAML text is read node by
/// node, then converted by [`yaml_json`]).
pub open spec fn parse_outcome_ok(content: Seq<char>, format: DataFormat) -> Option<JsonValue> {
    match format {
        DataFormat::Json => json_document(content),
        DataFormat::Toml => toml_document(content),
        DataFormat::Yaml => None,
    }
}

fn parsing_error(prefix: &str, detail: &str) -> (r: CoreResult<JsonValue>)
    ensures
        parsing_error_with(r, prefix@),
{
    let mut m = String::from_str(prefix);
    m.append(detail);
    assert((prefix@ + detail@).take(prefix@.len() as int) =~= prefix@);
    Err(CoreError::Parsing(m))
}

/// Parses a data file's text in the given format into the library's JSON
/// model. The value is the parser's; a text the parser refuses is a
/// parsing error naming the format (for TOML, also a table that does not
/// convert to JSON), and a YAML text without documents is a parsing error
/// of its own.
pub fn parse_structured_data(content: &str, format: DataFormat) -> (r: CoreResult<JsonValue>)
    ensures
        parse_outcome_ok(content@, format) matches Some(v) ==> r == Ok::<JsonValue, CoreError>(v),
        format == DataFormat::Yaml ==> (yaml_first_document(content@) matches Some(Some(n)) ==> (r
            matches Ok(v) && json_model(v) == yaml_json(n))),
        format == DataFormat::Json && json_document(content@) is None ==> parsing_error_with(
            r,
            "Failed to parse JSON: "@,
        ),
        format == DataFormat::Toml && !toml_parses(content@) ==> parsing_error_with(
            r,
            "Failed to parse TOML: "@,
        ),
        format == DataFormat::Toml && toml_parses(content@) && toml_document(content@) is None
            ==> parsing_error_with(r, "Failed to convert TOML to JSON: "@),
        format == DataFormat::Yaml && yaml_first_document(content@) is None ==> parsing_error_with(
            r,
            "Failed to parse YAML: "@,
        ),
        format == DataFormat::Yaml && yaml_first_document(content@) == Some(None::<YamlNode>) ==> (r
            matches Err(CoreError::Parsing(m)) && m@ == "YAML file contains no documents"@),
{
    match format {
        DataFormat::Json => match read_json(content) {
            Ok(v) => Ok(v),
            Err(e) => parsing_error("Failed to parse JSON: ", e.as_str()),
        },
        DataFormat::Toml => match read_toml(content) {
            Ok(v) => Ok(v),
            Err(TomlFailure::Syntax(e)) => parsing_error("Failed to parse TOML: ", e.as_str()),
            Err(TomlFailure::Conversion(e)) => parsing_error("Failed to convert TOML to JSON: ", e.as_str()),
        },
        DataFormat::Yaml => match read_yaml(content) {
            Ok(Some(n)) => Ok(yaml_to_json(&n)),
            Ok(None) => Err(CoreError::Parsing(String::from_str("YAML file contains no documents"))),
            Err(e) => parsing_error("Failed to parse YAML: ", e.as_str()),
        },
    }
}

} // verus!
