use core_utilities_mcp::guardrails::truncation::{max_characters, DEFAULT_MAX_CHARACTERS};
use core_utilities_mcp::guardrails::truncate_output;

#[test]
fn tests_test_truncate_output_success() {
    let res = truncate_output("hello", max_characters(Some("10")));
    assert_eq!(res.content, "hello");
    assert_eq!(res.status, "success");
    assert_eq!(res.next_offset, None);
}

#[test]
fn tests_test_truncate_output_smart_boundary() {
    let res = truncate_output("hello\nworld!", max_characters(Some("10")));
    assert_eq!(res.content, "hello\n");
    assert_eq!(res.status, "truncated");
    assert_eq!(res.next_offset, Some(6));
}

#[test]
fn tests_test_truncate_output_hard_cutoff() {
    let res = truncate_output("helloworldtest", max_characters(Some("10")));
    assert_eq!(res.content, "helloworld");
    assert_eq!(res.status, "truncated");
    assert_eq!(res.next_offset, Some(10));
}

#[test]
fn mod_test_truncate_output_success() {
    let res = truncate_output("hello", max_characters(Some("10")));
    assert_eq!(res.content, "hello");
    assert_eq!(res.status, "success");
    assert_eq!(res.next_offset, None);
}

#[test]
fn mod_test_truncate_output_smart_boundary() {
    let res = truncate_output("hello\nworld!", max_characters(Some("10")));
    assert_eq!(res.content, "hello\n");
    assert_eq!(res.status, "truncated");
    assert_eq!(res.next_offset, Some(6));
}

#[test]
fn mod_test_truncate_output_hard_cutoff() {
    let res = truncate_output("helloworldtest", max_characters(Some("10")));
    assert_eq!(res.content, "helloworld");
    assert_eq!(res.status, "truncated");
    assert_eq!(res.next_offset, Some(10));
}

#[test]
fn truncation_counts_characters_not_bytes() {
    let res = truncate_output("ééééé", 3);
    assert_eq!(res.content, "ééé");
    assert_eq!(res.next_offset, Some(3));
}

#[test]
fn limit_setting_falls_back_to_default() {
    assert_eq!(max_characters(None), DEFAULT_MAX_CHARACTERS);
    assert_eq!(max_characters(Some("abc")), 8192);
    assert_eq!(max_characters(Some("-5")), 8192);
    assert_eq!(max_characters(Some("+42")), 42);
    assert_eq!(max_characters(Some("0")), 0);
}

#[test]
fn resuming_at_next_offset_loses_nothing() {
    let text = "ab\ncd\nefgh\nij";
    let mut rest: String = text.to_string();
    let mut pages = Vec::new();
    loop {
        let r = truncate_output(&rest, 5);
        pages.push(r.content.clone());
        match r.next_offset {
            Some(k) => rest = rest.chars().skip(k).collect(),
            None => break,
        }
    }
    assert_eq!(pages.concat(), text);
    assert_eq!(pages, vec!["ab\n", "cd\n", "efgh\n", "ij"]);
}

#[test]
fn zero_limit_hard_cuts_everything() {
    let r = truncate_output("abc", 0);
    assert_eq!(r.content, "");
    assert_eq!(r.status, "truncated");
    assert_eq!(r.next_offset, Some(0));
}
