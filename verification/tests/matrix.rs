use core_utilities_mcp::text_ops::matrix::{
    filter_and_sort_csv, format_matrix_output, read_filtered_rows, resolve_column_indices,
    sorted_matrix,
};
use core_utilities_mcp::CoreError;

fn cols(names: &[&str]) -> Vec<String> {
    names.iter().map(|s| s.to_string()).collect()
}

#[test]
fn tests_test_filter_and_sort_matrix_columns() {
    let data = b"id,name,age\n1,Alice,30\n2,Bob,25\n1,Alice,30\n";
    let res = filter_and_sort_csv(data, "matrix.csv", &cols(&["name", "id"]), Some(true), 1000)
        .unwrap();
    assert!(res.content.contains("name,id"));
    assert!(res.content.contains("Alice,1"));
    assert!(res.content.contains("Bob,2"));
    assert_eq!(res.content, "name,id\nAlice,1\nBob,2\n");
}

#[test]
fn tests_test_filter_and_sort_matrix_columns_no_matching_columns() {
    let data = b"id,name,age\n1,Alice,30\n";
    let err = filter_and_sort_csv(data, "matrix.csv", &cols(&["nonexistent"]), None, 1000)
        .unwrap_err();
    assert!(matches!(err, CoreError::General(_)));
    let message = err.message();
    assert!(message.contains("nonexistent"));
    assert!(message.contains("\"id\""));
    assert!(message.contains("\"name\""));
    assert!(message.contains("\"age\""));
    assert_eq!(
        message,
        "Generic error: None of the requested columns [\"nonexistent\"] were found. Actual headers in 'matrix.csv': [\"id\", \"name\", \"age\"]"
    );
}

#[test]
fn duplicates_are_kept_unless_asked() {
    let data = b"k,v\nb,2\na,1\nb,2\n";
    let kept = filter_and_sort_csv(data, "m.csv", &cols(&["k", "v"]), None, 1000).unwrap();
    assert_eq!(kept.content, "k,v\na,1\nb,2\nb,2\n");
    let deduped = filter_and_sort_csv(data, "m.csv", &cols(&["k", "v"]), Some(true), 1000).unwrap();
    assert_eq!(deduped.content, "k,v\na,1\nb,2\n");
}

#[test]
fn tsv_paths_use_tabs() {
    let data = b"k\tv\nz\t1\ny\t2\n";
    let res = filter_and_sort_csv(data, "DATA.TSV", &cols(&["v", "k"]), None, 1000).unwrap();
    assert_eq!(res.content, "v\tk\n1\tz\n2\ty\n");
}

#[test]
fn unknown_columns_are_skipped_but_kept_in_the_header() {
    let data = b"a,b\n2,x\n1,y\n";
    let res = filter_and_sort_csv(data, "m.csv", &cols(&["nope", "a"]), None, 1000).unwrap();
    assert_eq!(res.content, "nope,a\n1\n2\n");
}

#[test]
fn ragged_records_are_parsing_errors() {
    let data = b"a,b\n1,2\n3\n";
    match filter_and_sort_csv(data, "m.csv", &cols(&["a"]), None, 1000) {
        Err(CoreError::Parsing(m)) => assert!(m.starts_with("Failed to read CSV record: ")),
        other => panic!("unexpected {:?}", other.map(|t| t.content)),
    }
    let bad = [b'a', b',', 0xff, b'\n'];
    match filter_and_sort_csv(&bad, "m.csv", &cols(&["a"]), None, 1000) {
        Err(CoreError::Parsing(m)) => assert!(m.starts_with("Failed to read CSV headers: ")),
        other => panic!("unexpected {:?}", other.map(|t| t.content)),
    }
}

#[test]
fn output_is_truncated_to_the_limit() {
    let data = b"n\n3\n1\n2\n";
    let res = filter_and_sort_csv(data, "m.csv", &cols(&["n"]), None, 5).unwrap();
    assert_eq!(res.content, "n\n1\n");
    assert_eq!(res.status, "truncated");
    assert_eq!(res.next_offset, Some(4));
}

#[test]
fn building_blocks() {
    let headers = cols(&["id", "name", "id"]);
    let idx = resolve_column_indices(&headers, &cols(&["name", "id", "zz"]), "p").unwrap();
    assert_eq!(idx, vec![1, 0]);
    let records = vec![cols(&["1", "Bob"]), cols(&["2"])];
    let rows = read_filtered_rows(&records, &[1, 0]);
    assert_eq!(rows, vec![cols(&["Bob", "1"]), cols(&["", "2"])]);
    assert_eq!(format_matrix_output(&cols(&["x", "y"]), &rows, false), "x,y\nBob,1\n,2\n");
    let t = sorted_matrix(&cols(&["x"]), vec![cols(&["b"]), cols(&["a", "z"]), cols(&["a"])], false, true, 100);
    assert_eq!(t.content, "x\na\na\tz\nb\n");
}
