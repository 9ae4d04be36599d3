use core_utilities_mcp::search_ops::{
    build_matcher, compile_name_pattern, entry_matches, line_accepted, matches_payload,
    paths_payload, scan_file, EntryKind, TextMatch, MAX_MATCHES,
};
use core_utilities_mcp::CoreError;

#[test]
fn test_search_text() {
    let m = build_matcher("magic", false).unwrap();
    let mut results: Vec<TextMatch> = Vec::new();
    assert!(scan_file(&mut results, "dir/search.txt", "magic keyword found\nordinary line\n", &m));
    let res = matches_payload(&results, 2000);
    assert!(res.content.contains("magic keyword found"));
    assert!(!res.content.contains("ordinary line"));
}

#[test]
fn test_search_file_by_name() {
    let re = compile_name_pattern(r"\.rs$").unwrap();
    assert!(entry_matches("target_file.rs", EntryKind::File, Some(&re), Some("file")));
    assert!(!entry_matches("ignore.txt", EntryKind::File, Some(&re), Some("file")));
    let res = paths_payload(&vec!["dir/target_file.rs".to_string()], 2000);
    assert!(res.content.contains("target_file.rs"));
    assert!(!res.content.contains("ignore.txt"));
}

#[test]
fn test_invalid_regex_returns_parsing_error() {
    assert!(matches!(build_matcher("(unclosed", true), Err(CoreError::Parsing(_))));
    assert!(matches!(compile_name_pattern("(unclosed"), Err(CoreError::Parsing(_))));
    match build_matcher("(unclosed", true) {
        Err(CoreError::Parsing(m)) => assert!(m.starts_with("Invalid regex: ")),
        _ => panic!("expected a parsing error"),
    }
    match compile_name_pattern("(unclosed") {
        Err(CoreError::Parsing(m)) => assert!(m.starts_with("Invalid name pattern regex: ")),
        _ => panic!("expected a parsing error"),
    }
}

#[test]
fn matches_record_line_numbers_and_keep_indentation() {
    let m = build_matcher(r"fo+", true).unwrap();
    let mut results = Vec::new();
    assert!(scan_file(&mut results, "a.rs", "bar\n    foo  \r\nbaz\nfoooo", &m));
    let got: Vec<(String, usize, String)> =
        results.iter().map(|t| (t.file.clone(), t.line, t.content.clone())).collect();
    assert_eq!(
        got,
        vec![
            ("a.rs".to_string(), 2, "    foo".to_string()),
            ("a.rs".to_string(), 4, "foooo".to_string())
        ]
    );
    let payload = matches_payload(&results, 10_000).content;
    let parsed: serde_json::Value = serde_json::from_str(&payload).unwrap();
    assert_eq!(parsed[0]["line"], 2);
    assert_eq!(parsed[1]["content"], "foooo");
    assert_eq!(parsed[0]["file"], "a.rs");
}

#[test]
fn the_match_cap_stops_the_search() {
    let m = build_matcher("x", false).unwrap();
    let content = "x\n".repeat(MAX_MATCHES + 5);
    let mut results = Vec::new();
    assert!(!scan_file(&mut results, "f", &content, &m));
    assert_eq!(results.len(), MAX_MATCHES);
    assert_eq!(results.last().unwrap().line, MAX_MATCHES);
}

#[test]
fn empty_query_matches_every_line() {
    let m = build_matcher("", false).unwrap();
    assert!(line_accepted(&m, ""));
    assert!(line_accepted(&m, "anything"));
    let m = build_matcher("needle", false).unwrap();
    assert!(line_accepted(&m, "haystack with needle"));
    assert!(!line_accepted(&m, "needl"));
}

#[test]
fn type_filters() {
    assert!(entry_matches("d", EntryKind::Directory, None, Some("dir")));
    assert!(entry_matches("d", EntryKind::Directory, None, Some("directory")));
    assert!(!entry_matches("d", EntryKind::File, None, Some("dir")));
    assert!(entry_matches("l", EntryKind::Symlink, None, Some("symlink")));
    assert!(!entry_matches("l", EntryKind::Symlink, None, Some("file")));
    assert!(entry_matches("x", EntryKind::Other, None, Some("anything else")));
    assert!(entry_matches("x", EntryKind::Other, None, None));
}

#[test]
fn payloads_are_pretty_json() {
    let res = paths_payload(&vec!["a".to_string(), "b".to_string()], 100);
    assert_eq!(res.content, "[\n  \"a\",\n  \"b\"\n]");
    assert_eq!(paths_payload(&vec![], 100).content, "[]");
}
