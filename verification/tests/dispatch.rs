use core_utilities_mcp::dispatch::{
    invalid_params, is_blank_line, method_not_found, missing_params, parse_error, resolve_tool,
    route_method, tool_call_content, tool_name, RpcMethod, ToolName, INVALID_PARAMS, METHOD_NOT_FOUND,
    PARSE_ERROR,
};
use core_utilities_mcp::errors::CoreError;
use core_utilities_mcp::text_ops::query::JsonValue;
use core_utilities_mcp::file_ops::listing::classify_entries;
use core_utilities_mcp::search_ops::EntryKind;

#[test]
fn tools_resolve_by_name() {
    assert!(matches!(resolve_tool("read_file"), Ok(ToolName::ReadFile)));
    assert!(matches!(resolve_tool("get_system_info"), Ok(ToolName::GetSystemInfo)));
    assert!(matches!(resolve_tool("get_system_context"), Ok(ToolName::GetSystemInfo)));
    assert!(matches!(resolve_tool("query_data_by_path"), Ok(ToolName::QueryDataByPath)));
    match resolve_tool("rm_rf") {
        Err(CoreError::General(m)) => assert_eq!(m, "Method not found: rm_rf"),
        other => panic!("unexpected {other:?}"),
    }
}

#[test]
fn methods_route_and_errors_carry_codes() {
    assert_eq!(route_method("initialize"), RpcMethod::Handshake);
    assert_eq!(route_method("initialized"), RpcMethod::Handshake);
    assert_eq!(route_method("tools/list"), RpcMethod::ToolsList);
    assert_eq!(route_method("tools/call"), RpcMethod::ToolsCall);
    assert_eq!(route_method("totally/bogus"), RpcMethod::Unknown);
    let e = method_not_found("totally/bogus");
    assert_eq!(e.code, METHOD_NOT_FOUND);
    assert_eq!(e.code, -32601);
    assert_eq!(e.message, "Method not found: totally/bogus");
    assert_eq!(parse_error("eof").code, PARSE_ERROR);
    assert_eq!(parse_error("eof").message, "Parse error: eof");
    assert_eq!(missing_params().code, INVALID_PARAMS);
    assert_eq!(missing_params().message, "Missing params");
    assert_eq!(invalid_params("bad").message, "Invalid params: bad");
}

#[test]
fn blank_lines_are_skipped() {
    assert!(is_blank_line(""));
    assert!(is_blank_line(" \t\r"));
    assert!(!is_blank_line(" {} "));
}

#[test]
fn tool_outcomes_become_content() {
    let ok = tool_call_content(Ok("done".to_string()));
    assert_eq!(ok.text, "done");
    assert!(!ok.is_error);
    assert_eq!(ok.error_type, None);
    let err = tool_call_content(Err(CoreError::File("Path does not exist: /x".to_string())));
    assert!(err.is_error);
    assert_eq!(err.error_type.as_deref(), Some("File"));
    assert_eq!(err.text, "Error: File operation failed: Path does not exist: /x");
    let unexpected = tool_call_content(Err(CoreError::Unexpected));
    assert_eq!(unexpected.text, "Error: Unexpected error occurred");
    assert_eq!(unexpected.error_type.as_deref(), Some("Unexpected"));
}

#[test]
fn error_categories_and_messages() {
    let cases = vec![
        (CoreError::Command("c".into()), "Command", "Command execution error: c"),
        (CoreError::Guardrail("g".into()), "Guardrail", "Guardrail violation: g"),
        (CoreError::Parsing("p".into()), "Parsing", "Parsing error: p"),
        (CoreError::System("s".into()), "System", "System error: s"),
        (CoreError::Process("x".into()), "Process", "Process execution failed: x"),
        (CoreError::General("y".into()), "General", "Generic error: y"),
    ];
    for (e, cat, msg) in cases {
        assert_eq!(e.category(), cat);
        assert_eq!(e.message(), msg);
    }
    let io = CoreError::Io(std::io::Error::new(std::io::ErrorKind::Other, "disk"));
    assert_eq!(io.category(), "IO");
    assert_eq!(io.message(), "IO error: disk");
}

#[test]
fn test_list_directory_contents() {
    let listing = classify_entries(vec![
        ("a.txt".to_string(), EntryKind::File),
        ("sub".to_string(), EntryKind::Directory),
        ("ln".to_string(), EntryKind::Symlink),
        ("fifo".to_string(), EntryKind::Other),
        ("b.txt".to_string(), EntryKind::File),
    ]);
    assert_eq!(listing.files, vec!["a.txt", "fifo", "b.txt"]);
    assert_eq!(listing.directories, vec!["sub"]);
    assert_eq!(listing.links, vec!["ln"]);
}

#[test]
fn every_advertised_tool_is_reachable_by_its_name() {
    let all = [
        ToolName::ListDirectoryContents,
        ToolName::GetFileMetadata,
        ToolName::CopyFileOrDirectory,
        ToolName::MoveFileOrDirectory,
        ToolName::DeleteFileOrDirectory,
        ToolName::CreateDirectory,
        ToolName::WriteFile,
        ToolName::EditFile,
        ToolName::ReadFile,
        ToolName::SearchTextWithLimit,
        ToolName::SearchFileByNameOrType,
        ToolName::FilterAndSortMatrixColumns,
        ToolName::QueryDataByPath,
        ToolName::GetSystemInfo,
        ToolName::ExecuteCommand,
    ];
    let mut names: Vec<&str> = all.iter().map(|t| tool_name(*t)).collect();
    for t in all {
        assert_eq!(resolve_tool(tool_name(t)).unwrap(), t);
    }
    names.sort();
    names.dedup();
    assert_eq!(names.len(), 15);
}

#[test]
fn tools_are_advertised_under_the_documented_names() {
    assert_eq!(tool_name(ToolName::ListDirectoryContents), "list_dir");
    assert_eq!(tool_name(ToolName::CreateDirectory), "create_dir");
    assert_eq!(tool_name(ToolName::SearchTextWithLimit), "search_text");
    assert_eq!(tool_name(ToolName::SearchFileByNameOrType), "find_files");
    assert!(matches!(resolve_tool("list_dir"), Ok(ToolName::ListDirectoryContents)));
    assert!(matches!(resolve_tool("find_files"), Ok(ToolName::SearchFileByNameOrType)));
    assert!(matches!(resolve_tool("search_text_with_limit"), Ok(ToolName::SearchTextWithLimit)));
    assert!(matches!(resolve_tool("create_directory"), Ok(ToolName::CreateDirectory)));
}

#[test]
fn the_catalogue_lists_fifteen_distinct_documented_tools() {
    let defs = core_utilities_mcp::tools::tool_definitions();
    let items = match defs {
        JsonValue::Array(items) => items,
        _ => panic!("not an array"),
    };
    assert_eq!(items.len(), 15);
    let mut names = Vec::new();
    for item in &items {
        match item {
            JsonValue::Object(fs) => {
                assert_eq!(fs[0].0, "name");
                assert_eq!(fs[1].0, "description");
                assert_eq!(fs[2].0, "inputSchema");
                match &fs[0].1 {
                    JsonValue::String(n) => names.push(n.clone()),
                    _ => panic!("name is not a string"),
                }
            }
            _ => panic!("not an object"),
        }
    }
    let expected = [
        "list_dir", "get_file_metadata", "copy_file_or_directory", "move_file_or_directory",
        "delete_file_or_directory", "create_dir", "write_file", "edit_file", "read_file",
        "search_text", "find_files", "filter_and_sort_matrix_columns", "query_data_by_path",
        "get_system_info", "execute_command",
    ];
    assert_eq!(names, expected);
}
