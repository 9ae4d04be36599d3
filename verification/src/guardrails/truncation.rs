//! Output truncation: keeping tool responses within an AI-friendly size,
//! cutting after the last line feed within the limit when there is one.

use vstd::prelude::*;
use crate::text::{chars_of, last_index_of, lemma_last_index_of, parse_u64, parse_unsigned, slice_range, string_of};

verus! {

/// The character limit used when `AI_COMMAND_MAX_CHARACTERS` is unset or
/// does not parse.
pub const DEFAULT_MAX_CHARACTERS: usize = 8192;

/// A possibly truncated output, with where to resume when it was cut.
#[derive(Debug)]
pub struct TruncateResult {
    pub content: String,
    /// `"success"` or `"truncated"`.
    pub status: String,
    /// When truncated: the character offset at which the rest begins.
    pub next_offset: Option<usize>,
}

/// Where `input` is cut under `limit`: `None` when it fits, else the number
/// of characters kept — up to and including the last line feed among the
/// first `limit` characters, or exactly `limit` when there is none.
pub open spec fn cut_point(input: Seq<char>, limit: nat) -> Option<nat> {
    if input.len() <= limit {
        None
    } else {
        let nl = last_index_of(input.take(limit as int), '\n');
        if nl >= 0 {
            Some((nl + 1) as nat)
        } else {
            Some(limit)
        }
    }
}

/// The content kept of `input` under `limit`.
pub open spec fn truncated_content(input: Seq<char>, limit: nat) -> Seq<char> {
    match cut_point(input, limit) {
        None => input,
        Some(k) => input.take(k as int),
    }
}

/// `r` is `input` truncated under `limit`: the kept content, the status,
/// and where the rest begins.
pub open spec fn is_truncation_of(r: TruncateResult, input: Seq<char>, limit: nat) -> bool {
    &&& r.content@ == truncated_content(input, limit)
    &&& r.status@ == (if cut_point(input, limit) is None {
        "success"@
    } else {
        "truncated"@
    })
    &&& match r.next_offset {
        Some(k) => cut_point(input, limit) == Some(k as nat),
        None => cut_point(input, limit) is None,
    }
}

/// The limit configured by the setting's text: its value when it parses
/// as an unsigned integer, else [`DEFAULT_MAX_CHARACTERS`].
pub open spec fn limit_from_setting(setting: Option<Seq<char>>) -> nat {
    match setting {
        Some(s) => match parse_unsigned(s, usize::MAX as nat) {
            Some(v) => v,
            None => DEFAULT_MAX_CHARACTERS as nat,
        },
        None => DEFAULT_MAX_CHARACTERS as nat,
    }
}

/// The character limit configured by the text of `AI_COMMAND_MAX_CHARACTERS`
/// (`None` when unset).
pub fn max_characters(setting: Option<&str>) -> (r: usize)
    ensures
        r as nat == limit_from_setting(
            match setting {
                Some(s) => Some(s@),
                None => None,
            },
        ),
{
    match setting {
        Some(s) => match parse_u64(s) {
            Some(v) => {
                if v as u128 <= usize::MAX as u128 {
                    v as usize
                } else {
                    DEFAULT_MAX_CHARACTERS
                }
            },
            None => DEFAULT_MAX_CHARACTERS,
        },
        None => DEFAULT_MAX_CHARACTERS,
    }
}

/// Truncates `input` to at most `limit` characters, preferring to cut just
/// after the last line feed so structured output is not split mid-line.
/// `next_offset` reports where the rest begins.
pub fn truncate_output(input: &str, limit: usize) -> (r: TruncateResult)
    ensures
        is_truncation_of(r, input@, limit as nat),
{
    let cs = chars_of(input);
    if cs.len() <= limit {
        return TruncateResult {
            content: string_of(cs.as_slice()),
            status: String::from_str("success"),
            next_offset: None,
        };
    }
    proof {
        lemma_last_index_of(input@.take(limit as int), '\n');
    }
    let nl = last_newline_before(cs.as_slice(), limit);
    let cut = match nl {
        Some(i) => i + 1,
        None => limit,
    };
    let kept = slice_range(cs.as_slice(), 0, cut);
    assert(kept@ == input@.take(cut as int));
    TruncateResult {
        content: string_of(kept.as_slice()),
        status: String::from_str("truncated"),
        next_offset: Some(cut),
    }
}

/// Index of the last line feed among the first `limit` characters.
fn last_newline_before(cs: &[char], limit: usize) -> (r: Option<usize>)
    requires
        limit < cs@.len(),
    ensures
        r matches Some(i) ==> i as int == last_index_of(cs@.take(limit as int), '\n') && i < limit,
        r is None ==> last_index_of(cs@.take(limit as int), '\n') < 0,
{
    let mut i: usize = limit;
    proof {
        lemma_last_index_of(cs@.take(limit as int), '\n');
    }
    while i > 0
        invariant
            i <= limit < cs@.len(),
            last_index_of(cs@.take(limit as int), '\n') == last_index_of(cs@.take(i as int), '\n'),
        decreases i,
    {
        assert(cs@.take(i as int).drop_last() == cs@.take(i - 1));
        if cs[i - 1] == '\n' {
            return Some(i - 1);
        }
        i = i - 1;
    }
    None
}

/// Truncated content never exceeds the limit and is always a prefix of the
/// input; whatever was cut off starts exactly at the reported offset.
pub proof fn law_truncation_keeps_a_bounded_prefix(input: Seq<char>, limit: nat)
    ensures
        truncated_content(input, limit).len() <= limit || truncated_content(input, limit) == input,
        truncated_content(input, limit) == input.take(truncated_content(input, limit).len() as int),
        cut_point(input, limit) matches Some(k) ==> k == truncated_content(input, limit).len()
            && input == truncated_content(input, limit) + input.skip(k as int),
{
    lemma_last_index_of(input.take(limit as int), '\n');
    match cut_point(input, limit) {
        None => {
            assert(input.take(input.len() as int) == input);
        },
        Some(k) => {
            assert(input.take(k as int) + input.skip(k as int) == input);
        },
    }
}

/// Input within the limit comes back whole, reported as a success.
pub proof fn law_short_input_unchanged(input: Seq<char>, limit: nat)
    requires
        input.len() <= limit,
    ensures
        cut_point(input, limit) is None,
        truncated_content(input, limit) == input,
{
}

/// A cut keeps at least one character whenever the limit allows one, so
/// resuming from `next_offset` always makes progress.
pub proof fn law_truncation_makes_progress(input: Seq<char>, limit: nat)
    requires
        limit > 0,
    ensures
        cut_point(input, limit) matches Some(k) ==> k > 0,
{
    lemma_last_index_of(input.take(limit as int), '\n');
}

/// The cut falls just after the last line feed within the limit: the kept
/// text ends with that line feed and none follows it before the limit;
/// without a line feed the cut falls exactly at the limit.
pub proof fn law_truncation_cuts_at_last_newline(input: Seq<char>, limit: nat)
    requires
        input.len() > limit,
    ensures
        ({
            let k = cut_point(input, limit)->Some_0;
            &&& k <= limit
            &&& (k < limit ==> input[k - 1] == '\n')
            &&& forall|j: int| k <= j < limit ==> #[trigger] input[j] != '\n'
        }),
{
    let t = input.take(limit as int);
    lemma_last_index_of(t, '\n');
    assert forall|j: int| cut_point(input, limit)->Some_0 <= j < limit implies #[trigger] input[j]
        != '\n' by {
        assert(t[j] == input[j]);
    }
}

} // verus!
