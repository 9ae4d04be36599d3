use core_utilities_mcp::guardrails::truncation::max_characters;
use core_utilities_mcp::text_ops::read::{read_window, READ_WINDOW_MARGIN};

#[test]
fn test_read_file_annotates_line_numbers() {
    let res = read_window("hello\nworld\n", None, max_characters(Some("50")));
    assert_eq!(res.content, "1\thello\n2\tworld\n3\t\n");
    assert_eq!(res.status, "success");
    assert_eq!(res.next_start_line, None);
}

#[test]
fn test_read_file_from_start_line() {
    let res = read_window("hello\nworld\n", Some(2), max_characters(Some("50")));
    assert_eq!(res.content, "2\tworld\n3\t\n");
    assert_eq!(res.status, "success");
    assert_eq!(res.next_start_line, None);
}

#[test]
fn test_read_file_truncates_and_reports_next_start_line() {
    let text = "hello\nworld\nthird\n";
    let res = read_window(text, None, max_characters(Some("10")));
    assert_eq!(res.content, "1\thello\n");
    assert_eq!(res.status, "truncated");
    assert_eq!(res.next_start_line, Some(2));

    let page2 = read_window(text, res.next_start_line, 10);
    assert_eq!(page2.content, "2\tworld\n");
    assert_eq!(page2.status, "truncated");
    assert_eq!(page2.next_start_line, Some(3));
}

#[test]
fn test_read_file_oversized_single_line_still_makes_progress() {
    let text = format!("{}\nshort\n", "x".repeat(50));
    let res = read_window(&text, None, 10);
    assert_eq!(res.status, "truncated");
    assert_eq!(res.next_start_line, Some(2));
}

#[test]
fn test_read_file_bounds_accumulation_for_huge_files() {
    let mut text = String::new();
    for i in 0..200_000 {
        text.push_str(&format!("line {i}\n"));
    }
    let res = read_window(&text, None, 100);
    assert_eq!(res.status, "truncated");
    assert!(res.content.len() <= 100 + READ_WINDOW_MARGIN + 32);
    assert!(res.next_start_line.unwrap() < 200_000);
}

#[test]
fn crlf_line_ends_read_as_line_feeds() {
    let res = read_window("a\r\nb\r\n", None, 100);
    assert_eq!(res.content, "1\ta\n2\tb\n3\t\n");
}

#[test]
fn start_line_zero_reads_from_the_first_line() {
    let res = read_window("a\nb", Some(0), 100);
    assert_eq!(res.content, "1\ta\n2\tb\n");
}

#[test]
fn start_past_the_end_reads_nothing() {
    let res = read_window("a\nb", Some(9), 100);
    assert_eq!(res.content, "");
    assert_eq!(res.status, "success");
    assert_eq!(res.next_start_line, None);
}

#[test]
fn paging_covers_every_line_exactly_once() {
    let text: String = (1..=40).map(|i| format!("row {i}\n")).collect();
    let mut start = None;
    let mut pages = String::new();
    loop {
        let r = read_window(&text, start, 30);
        pages.push_str(&r.content);
        match r.next_start_line {
            Some(n) => start = Some(n),
            None => break,
        }
    }
    let expected: String = (1..=41)
        .map(|i| if i <= 40 { format!("{i}\trow {i}\n") } else { format!("{i}\t\n") })
        .collect();
    assert_eq!(pages, expected);
}
