use core_utilities_mcp::file_ops::line_edit::{sort_edit_chunks, AnyEditChunk, ChunkBatch};
use core_utilities_mcp::file_ops::edit::{
    apply_edit_chunks, compute_line_stats, EditChunk,
};
use core_utilities_mcp::file_ops::line_edit::{
    apply_line_range_edit, apply_line_range_edits, verify_line_range, LineRangeChunk,
};
use core_utilities_mcp::file_ops::listing::write_guard;
use core_utilities_mcp::text_ops::read::read_window;
use core_utilities_mcp::CoreError;

fn chunk(old: &str, new: &str) -> EditChunk {
    EditChunk {
        old_string: old.to_string(),
        new_string: new.to_string(),
    }
}

/// Applies `edits` and reports the new text with its line delta.
fn edit(content: &str, edits: &[EditChunk]) -> Result<(String, usize, i64), CoreError> {
    let rep = apply_edit_chunks(content, edits, "file.txt")?;
    let (lines, delta) = compute_line_stats(&rep.new_content, rep.original_line_count);
    assert_eq!(lines, rep.new_line_count);
    assert_eq!(rep.chunks_applied, edits.len());
    Ok((rep.new_content, rep.chunks_applied, delta))
}

#[test]
fn test_edit_file_single_chunk_success_across_crlf() {
    let (text, _, delta) = edit(
        "line 1\r\nline 2\r\nline 3\nline 4",
        &[chunk("line 2\nline 3", "new line 2\nnew line 3")],
    )
    .unwrap();
    assert_eq!(delta, 0);
    assert_eq!(text, "line 1\nnew line 2\nnew line 3\nline 4");
}

#[test]
fn test_edit_file_errors_when_old_string_not_found() {
    let err = edit("alpha\nbeta\ngamma", &[chunk("not in the file", "x")]).unwrap_err();
    assert!(err.message().contains("not found"));
    assert_eq!(
        err.message(),
        "File operation failed: old_string not found in 'file.txt'. Re-read the file — its content may differ from what you expected."
    );
}

#[test]
fn test_edit_file_errors_when_old_string_is_ambiguous() {
    let err = edit("dup\nunique\ndup", &[chunk("dup", "x")]).unwrap_err();
    let msg = err.message();
    assert!(msg.contains("not unique") && msg.contains('2'));
}

#[test]
fn test_edit_file_disambiguates_with_surrounding_context() {
    let (text, _, _) = edit("dup\nunique\ndup", &[chunk("unique\ndup", "unique\nCHANGED")]).unwrap();
    assert_eq!(text, "dup\nunique\nCHANGED");
}

#[test]
fn test_edit_file_falls_back_to_whitespace_insensitive_match() {
    let (text, _, _) = edit("keep\nfoo   \nbar\t\nkeep2", &[chunk("foo\nbar", "REPLACED")]).unwrap();
    assert_eq!(text, "keep\nREPLACED\nkeep2");
}

#[test]
fn test_edit_file_multi_chunk_success_and_all_or_nothing_rollback() {
    let original = "line 1\nline 2\nline 3\nline 4\nline 5\nline 6";
    let (text, applied, delta) =
        edit(original, &[chunk("line 2", "CHANGED 2"), chunk("line 5", "CHANGED 5")]).unwrap();
    assert_eq!(applied, 2);
    assert_eq!(delta, 0);
    let after_success = "line 1\nCHANGED 2\nline 3\nline 4\nCHANGED 5\nline 6";
    assert_eq!(text, after_success);
    assert!(edit(
        after_success,
        &[
            chunk("line 1", "SHOULD NOT BE APPLIED"),
            chunk("WRONG TARGET", "SHOULD NOT BE APPLIED"),
        ],
    )
    .is_err());
}

#[test]
fn test_edit_file_applies_edits_out_of_document_order() {
    let (text, applied, _) = edit("a\nb\nc", &[chunk("c", "C"), chunk("a", "A")]).unwrap();
    assert_eq!(applied, 2);
    assert_eq!(text, "A\nb\nC");
}

#[test]
fn test_edit_file_rejects_overlapping_matches() {
    let err = edit("abcdef", &[chunk("abcd", "X"), chunk("cdef", "Y")]).unwrap_err();
    assert!(err.message().contains("overlapping"));
}

#[test]
fn test_edit_file_empty_new_string_deletes_matched_text() {
    let (text, _, delta) = edit("keep\nremove me\nkeep2", &[chunk("remove me\n", "")]).unwrap();
    assert_eq!(delta, -1);
    assert_eq!(text, "keep\nkeep2");
}

#[test]
fn test_edit_file_rejects_empty_old_string() {
    let err = edit("content", &[chunk("", "x")]).unwrap_err();
    assert!(matches!(err, CoreError::File(_)));
}

#[test]
fn test_edit_file_line_delta_reflects_real_line_count_change() {
    let (text, _, delta) = edit("line 1\nline 2\nline 3", &[chunk("line 2", "a\nb\nc")]).unwrap();
    assert_eq!(delta, 2);
    assert_eq!(text, "line 1\na\nb\nc\nline 3");
    let rep = apply_edit_chunks("line 1\nline 2\nline 3", &[chunk("line 2", "a\nb\nc")], "f").unwrap();
    assert_eq!(rep.new_line_count, 5);
}

#[test]
fn no_chunks_is_an_error() {
    match apply_edit_chunks("x", &[], "f.txt") {
        Err(CoreError::File(m)) => assert_eq!(m, "No edit chunks provided"),
        other => panic!("unexpected {:?}", other.map(|r| r.new_content)),
    }
}

#[test]
fn ambiguous_loose_matches_are_counted() {
    let err = edit("a  \nb\na\nb", &[chunk("a\nb ", "x")]).unwrap_err();
    assert_eq!(
        err.message(),
        "File operation failed: old_string is not unique in 'file.txt': found 2 whitespace-insensitive matches. Include more surrounding context to identify exactly one."
    );
}

#[test]
fn whitespace_only_old_string_that_is_absent_is_not_found() {
    let err = edit("content", &[chunk("  ", "x")]).unwrap_err();
    assert!(matches!(err, CoreError::File(_)));
    assert!(err.message().contains("not found"));
    let err = edit("abc", &[chunk("\n", "x")]).unwrap_err();
    assert!(err.message().contains("not found"));
    assert_eq!(edit("abc\n", &[chunk("\n", "x")]).unwrap().0, "abcx");
}

#[test]
fn overlapping_occurrences_make_a_target_ambiguous() {
    let err = edit("aaa", &[chunk("aa", "b")]).unwrap_err();
    assert!(matches!(err, CoreError::File(_)));
    assert!(err.message().contains("not unique"));
    assert!(err.message().contains("found 2"));
}

#[test]
fn test_edit_file_content_success() {
    let rep = apply_line_range_edit("line 1\nline 2\nline 3", 2, 2, "line 2", "new line 2").unwrap();
    assert_eq!(rep.new_content, "line 1\nnew line 2\nline 3");
    assert_eq!(rep.lines_modified, 1);
    assert_eq!(rep.new_line_count, 3);
}

#[test]
fn line_range_errors() {
    let lines: Vec<Vec<char>> = vec!["a".chars().collect(), "b".chars().collect()];
    match verify_line_range(&lines, 0, 1, "a") {
        Err(CoreError::File(m)) => assert_eq!(m, "Invalid line range 0-1 for file with 2 lines"),
        other => panic!("unexpected {other:?}"),
    }
    match verify_line_range(&lines, 1, 2, " x ") {
        Err(CoreError::File(m)) => assert_eq!(m, "Content mismatch. Expected:\nx\nActual:\na\nb"),
        other => panic!("unexpected {other:?}"),
    }
    assert!(verify_line_range(&lines, 1, 2, "  a\nb\n").is_ok());
}

fn line_chunk(start: usize, end: usize, target: &str, replacement: &str) -> LineRangeChunk {
    LineRangeChunk {
        start_line: start,
        end_line: end,
        target_content: target.to_string(),
        replacement_content: replacement.to_string(),
    }
}

#[test]
fn line_range_edits_apply_together() {
    let rep = apply_line_range_edits("line 1\nline 2\nline 3", &[line_chunk(2, 2, "line 2", "a\nb")])
        .unwrap();
    assert_eq!(rep.new_content, "line 1\na\nb\nline 3");
    let (_, delta) = compute_line_stats(&rep.new_content, rep.original_line_count);
    assert_eq!(delta, 1);

    let rep = apply_line_range_edits(
        "a\nb\nc\nd",
        &[line_chunk(4, 4, "d", "D"), line_chunk(1, 2, "a\nb", "AB")],
    )
    .unwrap();
    assert_eq!(rep.new_content, "AB\nc\nD");
    assert_eq!(rep.chunks_applied, 2);
    assert_eq!(rep.new_line_count, 3);
    assert_eq!(rep.original_line_count, 4);
}

#[test]
fn line_range_edits_fail_as_a_whole() {
    match apply_line_range_edits("a\nb\nc", &[line_chunk(1, 1, "a", "A"), line_chunk(3, 3, "x", "X")]) {
        Err(CoreError::File(m)) => assert_eq!(m, "Content mismatch. Expected:\nx\nActual:\nc"),
        other => panic!("unexpected {:?}", other.map(|r| r.new_content)),
    }
    match apply_line_range_edits("a\nb\nc", &[line_chunk(1, 2, "a\nb", "A"), line_chunk(2, 3, "b\nc", "X")]) {
        Err(CoreError::File(m)) => assert!(m.contains("overlapping")),
        other => panic!("unexpected {:?}", other.map(|r| r.new_content)),
    }
    match apply_line_range_edits("a", &[]) {
        Err(CoreError::File(m)) => assert_eq!(m, "No edit chunks provided"),
        other => panic!("unexpected {:?}", other.map(|r| r.new_content)),
    }
}

#[test]
fn tests_test_write_file_refuses_overwrite_without_flag() {
    assert!(matches!(write_guard("existing.txt", true, None), Err(CoreError::File(_))));
    assert!(write_guard("existing.txt", true, Some(true)).is_ok());
    match write_guard("existing.txt", true, Some(false)) {
        Err(CoreError::File(m)) => assert_eq!(
            m,
            "'existing.txt' already exists — pass overwrite: true to replace it, or use edit_file for a targeted change"
        ),
        other => panic!("unexpected {other:?}"),
    }
    assert!(write_guard("new.txt", false, None).is_ok());
}

#[test]
fn rewriting_matched_text_changes_nothing() {
    let text = "alpha\nbeta  \ngamma";
    let (out, _, delta) = edit(text, &[chunk("alpha", "alpha"), chunk("gamma", "gamma")]).unwrap();
    assert_eq!(out, text);
    assert_eq!(delta, 0);
}

#[test]
fn lines_shown_by_a_read_are_edit_targets() {
    let text = "fn main() {\n    work();\n}";
    let shown = read_window(text, Some(2), 100).content;
    let (number, line) = shown.lines().next().unwrap().split_once('\t').unwrap();
    let n: usize = number.parse().unwrap();
    let rep = apply_line_range_edits(text, &[line_chunk(n, n, line, "    rest();")]).unwrap();
    assert_eq!(rep.new_content, "fn main() {\n    rest();\n}");
}

#[test]
fn lines_shown_by_a_read_of_crlf_text_are_edit_targets() {
    let text = "fn main() {\r\n    work();\r\n}";
    let shown = read_window(text, Some(2), 100).content;
    let (number, line) = shown.lines().next().unwrap().split_once('\t').unwrap();
    assert_eq!(line, "    work();");
    let n: usize = number.parse().unwrap();
    let rep = apply_line_range_edits(text, &[line_chunk(n, n, line, "    rest();")]).unwrap();
    assert_eq!(rep.new_content, "fn main() {\r\n    rest();\n}");
}

#[test]
fn chunks_are_sorted_by_kind() {
    let lines = vec![AnyEditChunk::Lines(line_chunk(1, 1, "a", "b"))];
    assert!(matches!(sort_edit_chunks(&lines), Ok(ChunkBatch::Lines(v)) if v.len() == 1));
    assert!(matches!(sort_edit_chunks(&Vec::new()), Ok(ChunkBatch::Lines(v)) if v.is_empty()));
    let contents = vec![AnyEditChunk::Content(chunk("a", "b")), AnyEditChunk::Content(chunk("c", "d"))];
    match sort_edit_chunks(&contents) {
        Ok(ChunkBatch::Content(v)) => {
            assert_eq!(v.len(), 2);
            assert_eq!(v[1].old_string, "c");
        }
        _ => panic!("expected content chunks"),
    }
    let mixed = vec![AnyEditChunk::Content(chunk("a", "b")), AnyEditChunk::Lines(line_chunk(1, 1, "a", "b"))];
    let err = sort_edit_chunks(&mixed).unwrap_err();
    assert!(matches!(&err, CoreError::Parsing(m)
        if m == "Invalid arguments for edit_file: edits mix line-range and content chunks"));
}
