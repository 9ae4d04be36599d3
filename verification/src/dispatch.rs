//! The decisions of the JSON-RPC server: which method and tool a request
//! names, the error codes it answers with, and how a tool's outcome is
//! reported.

use vstd::prelude::*;
use crate::errors::{category_of, describes, CoreError, CoreResult};
use crate::text::{chars_eq, chars_of, trim, trim_chars};

verus! {

/// JSON-RPC: the request is not valid JSON.
pub const PARSE_ERROR: i32 = -32700;

/// JSON-RPC: the method does not exist.
pub const METHOD_NOT_FOUND: i32 = -32601;

/// JSON-RPC: the method's parameters are missing or invalid.
pub const INVALID_PARAMS: i32 = -32602;

/// The tools the server offers.
#[derive(Debug, PartialEq, Eq, Structural, Clone, Copy)]
pub enum ToolName {
    ListDirectoryContents,
    GetFileMetadata,
    CopyFileOrDirectory,
    MoveFileOrDirectory,
    DeleteFileOrDirectory,
    CreateDirectory,
    WriteFile,
    EditFile,
    ReadFile,
    SearchTextWithLimit,
    SearchFileByNameOrType,
    FilterAndSortMatrixColumns,
    QueryDataByPath,
    GetSystemInfo,
    ExecuteCommand,
}

/// The tool a name calls, if any. Each tool answers to its advertised
/// name; the directory, search and find tools also answer to their long
/// names (`list_directory_contents`, `create_directory`,
/// `search_text_with_limit`, `search_file_by_name_or_type`), the system
/// tool to `get_system_context`, the query tool to `query_json_by_path`.
pub open spec fn tool_named(name: Seq<char>) -> Option<ToolName> {
    if name == "list_dir"@ || name == "list_directory_contents"@ {
        Some(ToolName::ListDirectoryContents)
    } else if name == "get_file_metadata"@ {
        Some(ToolName::GetFileMetadata)
    } else if name == "copy_file_or_directory"@ {
        Some(ToolName::CopyFileOrDirectory)
    } else if name == "move_file_or_directory"@ {
        Some(ToolName::MoveFileOrDirectory)
    } else if name == "delete_file_or_directory"@ {
        Some(ToolName::DeleteFileOrDirectory)
    } else if name == "create_dir"@ || name == "create_directory"@ {
        Some(ToolName::CreateDirectory)
    } else if name == "write_file"@ {
        Some(ToolName::WriteFile)
    } else if name == "edit_file"@ {
        Some(ToolName::EditFile)
    } else if name == "read_file"@ {
        Some(ToolName::ReadFile)
    } else if name == "search_text"@ || name == "search_text_with_limit"@ {
        Some(ToolName::SearchTextWithLimit)
    } else if name == "find_files"@ || name == "search_file_by_name_or_type"@ {
        Some(ToolName::SearchFileByNameOrType)
    } else if name == "filter_and_sort_matrix_columns"@ {
        Some(ToolName::FilterAndSortMatrixColumns)
    } else if name == "query_data_by_path"@ || name == "query_json_by_path"@ {
        Some(ToolName::QueryDataByPath)
    } else if name == "get_system_info"@ || name == "get_system_context"@ {
        Some(ToolName::GetSystemInfo)
    } else if name == "execute_command"@ {
        Some(ToolName::ExecuteCommand)
    } else {
        None
    }
}

/// The name a tool is advertised under.
pub open spec fn advertised_name(t: ToolName) -> Seq<char> {
    match t {
        ToolName::ListDirectoryContents => "list_dir"@,
        ToolName::GetFileMetadata => "get_file_metadata"@,
        ToolName::CopyFileOrDirectory => "copy_file_or_directory"@,
        ToolName::MoveFileOrDirectory => "move_file_or_directory"@,
        ToolName::DeleteFileOrDirectory => "delete_file_or_directory"@,
        ToolName::CreateDirectory => "create_dir"@,
        ToolName::WriteFile => "write_file"@,
        ToolName::EditFile => "edit_file"@,
        ToolName::ReadFile => "read_file"@,
        ToolName::SearchTextWithLimit => "search_text"@,
        ToolName::SearchFileByNameOrType => "find_files"@,
        ToolName::FilterAndSortMatrixColumns => "filter_and_sort_matrix_columns"@,
        ToolName::QueryDataByPath => "query_data_by_path"@,
        ToolName::GetSystemInfo => "get_system_info"@,
        ToolName::ExecuteCommand => "execute_command"@,
    }
}

/// Every tool's advertised name calls that tool.
pub proof fn law_advertised_names_call_their_tools(t: ToolName)
    ensures
        tool_named(advertised_name(t)) == Some(t),
{
        reveal_strlit("list_directory_contents");
        reveal_strlit("get_file_metadata");
        reveal_strlit("copy_file_or_directory");
        reveal_strlit("move_file_or_directory");
        reveal_strlit("delete_file_or_directory");
        reveal_strlit("create_directory");
        reveal_strlit("write_file");
        reveal_strlit("edit_file");
        reveal_strlit("read_file");
        reveal_strlit("search_text_with_limit");
        reveal_strlit("search_file_by_name_or_type");
        reveal_strlit("filter_and_sort_matrix_columns");
        reveal_strlit("query_data_by_path");
        reveal_strlit("get_system_info");
        reveal_strlit("execute_command");
        reveal_strlit("query_json_by_path");
        reveal_strlit("get_system_context");
        reveal_strlit("list_dir");
        reveal_strlit("create_dir");
        reveal_strlit("search_text");
        reveal_strlit("find_files");
        assert("list_dir"@.len() == 8 && "list_dir"@[0] == 'l');
        assert("create_dir"@.len() == 10 && "create_dir"@[0] == 'c');
        assert("search_text"@.len() == 11 && "search_text"@[0] == 's');
        assert("find_files"@.len() == 10 && "find_files"@[0] == 'f');
        assert("list_directory_contents"@.len() == 23 && "list_directory_contents"@[0] == 'l');
        assert("get_file_metadata"@.len() == 17 && "get_file_metadata"@[0] == 'g');
        assert("copy_file_or_directory"@.len() == 22 && "copy_file_or_directory"@[0] == 'c');
        assert("move_file_or_directory"@.len() == 22 && "move_file_or_directory"@[0] == 'm');
        assert("delete_file_or_directory"@.len() == 24 && "delete_file_or_directory"@[0] == 'd');
        assert("create_directory"@.len() == 16 && "create_directory"@[0] == 'c');
        assert("write_file"@.len() == 10 && "write_file"@[0] == 'w');
        assert("edit_file"@.len() == 9 && "edit_file"@[0] == 'e');
        assert("read_file"@.len() == 9 && "read_file"@[0] == 'r');
        assert("search_text_with_limit"@.len() == 22 && "search_text_with_limit"@[0] == 's');
        assert("search_file_by_name_or_type"@.len() == 27 && "search_file_by_name_or_type"@[0] == 's');
        assert("filter_and_sort_matrix_columns"@.len() == 30 && "filter_and_sort_matrix_columns"@[0] == 'f');
        assert("query_data_by_path"@.len() == 18 && "query_data_by_path"@[0] == 'q');
        assert("query_json_by_path"@.len() == 18 && "query_json_by_path"@[0] == 'q');
        assert("get_system_info"@.len() == 15 && "get_system_info"@[0] == 'g');
        assert("get_system_context"@.len() == 18 && "get_system_context"@[0] == 'g');
        assert("execute_command"@.len() == 15 && "execute_command"@[0] == 'e');
        assert("query_data_by_path"@[6] == 'd' && "query_json_by_path"@[6] == 'j');
}

/// The name a tool is advertised under; calling that name reaches the
/// tool.
pub fn tool_name(t: ToolName) -> (r: &'static str)
    ensures
        r@ == advertised_name(t),
        tool_named(r@) == Some(t),
{
    proof {
        law_advertised_names_call_their_tools(t);
    }
    match t {
        ToolName::ListDirectoryContents => "list_dir",
        ToolName::GetFileMetadata => "get_file_metadata",
        ToolName::CopyFileOrDirectory => "copy_file_or_directory",
        ToolName::MoveFileOrDirectory => "move_file_or_directory",
        ToolName::DeleteFileOrDirectory => "delete_file_or_directory",
        ToolName::CreateDirectory => "create_dir",
        ToolName::WriteFile => "write_file",
        ToolName::EditFile => "edit_file",
        ToolName::ReadFile => "read_file",
        ToolName::SearchTextWithLimit => "search_text",
        ToolName::SearchFileByNameOrType => "find_files",
        ToolName::FilterAndSortMatrixColumns => "filter_and_sort_matrix_columns",
        ToolName::QueryDataByPath => "query_data_by_path",
        ToolName::GetSystemInfo => "get_system_info",
        ToolName::ExecuteCommand => "execute_command",
    }
}

fn is_literal(s: &[char], lit: &str) -> (r: bool)
    ensures
        r == (s@ == lit@),
{
    let l = chars_of(lit);
    chars_eq(s, l.as_slice())
}

/// Resolves a tool name; an unknown one is a `General` error.
pub fn resolve_tool(name: &str) -> (r: CoreResult<ToolName>)
    ensures
        match tool_named(name@) {
            Some(t) => (r matches Ok(x) && x == t),
            None => (r matches Err(CoreError::General(m)) && m@ == "Method not found: "@ + name@),
        },
{
    let n = chars_of(name);
    let s = n.as_slice();
    if is_literal(s, "list_dir") || is_literal(s, "list_directory_contents") {
        Ok(ToolName::ListDirectoryContents)
    } else if is_literal(s, "get_file_metadata") {
        Ok(ToolName::GetFileMetadata)
    } else if is_literal(s, "copy_file_or_directory") {
        Ok(ToolName::CopyFileOrDirectory)
    } else if is_literal(s, "move_file_or_directory") {
        Ok(ToolName::MoveFileOrDirectory)
    } else if is_literal(s, "delete_file_or_directory") {
        Ok(ToolName::DeleteFileOrDirectory)
    } else if is_literal(s, "create_dir") || is_literal(s, "create_directory") {
        Ok(ToolName::CreateDirectory)
    } else if is_literal(s, "write_file") {
        Ok(ToolName::WriteFile)
    } else if is_literal(s, "edit_file") {
        Ok(ToolName::EditFile)
    } else if is_literal(s, "read_file") {
        Ok(ToolName::ReadFile)
    } else if is_literal(s, "search_text") || is_literal(s, "search_text_with_limit") {
        Ok(ToolName::SearchTextWithLimit)
    } else if is_literal(s, "find_files") || is_literal(s, "search_file_by_name_or_type") {
        Ok(ToolName::SearchFileByNameOrType)
    } else if is_literal(s, "filter_and_sort_matrix_columns") {
        Ok(ToolName::FilterAndSortMatrixColumns)
    } else if is_literal(s, "query_data_by_path") || is_literal(s, "query_json_by_path") {
        Ok(ToolName::QueryDataByPath)
    } else if is_literal(s, "get_system_info") || is_literal(s, "get_system_context") {
        Ok(ToolName::GetSystemInfo)
    } else if is_literal(s, "execute_command") {
        Ok(ToolName::ExecuteCommand)
    } else {
        let mut m = String::from_str("Method not found: ");
        m.append(name);
        Err(CoreError::General(m))
    }
}

/// What a JSON-RPC method asks of the server.
#[derive(Debug, PartialEq, Eq, Structural, Clone, Copy)]
pub enum RpcMethod {
    /// `initialize` or `initialized`: the handshake.
    Handshake,
    /// `tools/list`.
    ToolsList,
    /// `tools/call`.
    ToolsCall,
    /// Anything else.
    Unknown,
}

/// The method a name routes to.
pub open spec fn method_named(method: Seq<char>) -> RpcMethod {
    if method == "initialize"@ || method == "initialized"@ {
        RpcMethod::Handshake
    } else if method == "tools/list"@ {
        RpcMethod::ToolsList
    } else if method == "tools/call"@ {
        RpcMethod::ToolsCall
    } else {
        RpcMethod::Unknown
    }
}

/// Routes a JSON-RPC method name.
pub fn route_method(method: &str) -> (r: RpcMethod)
    ensures
        r == method_named(method@),
{
    let m = chars_of(method);
    let s = m.as_slice();
    if is_literal(s, "initialize") || is_literal(s, "initialized") {
        RpcMethod::Handshake
    } else if is_literal(s, "tools/list") {
        RpcMethod::ToolsList
    } else if is_literal(s, "tools/call") {
        RpcMethod::ToolsCall
    } else {
        RpcMethod::Unknown
    }
}

/// A request line holding nothing but whitespace is skipped, unanswered.
pub fn is_blank_line(line: &str) -> (r: bool)
    ensures
        r == (trim(line@).len() == 0),
{
    let lc = chars_of(line);
    trim_chars(lc.as_slice()).len() == 0
}

/// The error member of a JSON-RPC response.
#[derive(Debug)]
pub struct RpcErrorBody {
    pub code: i32,
    pub message: String,
}

fn error_body(code: i32, prefix: &str, detail: &str) -> (r: RpcErrorBody)
    ensures
        r.code == code,
        r.message@ == prefix@ + detail@,
{
    let mut m = String::from_str(prefix);
    m.append(detail);
    RpcErrorBody { code, message: m }
}

/// The answer to a line that is not valid JSON-RPC.
pub fn parse_error(detail: &str) -> (r: RpcErrorBody)
    ensures
        r.code == PARSE_ERROR,
        r.message@ == "Parse error: "@ + detail@,
{
    error_body(PARSE_ERROR, "Parse error: ", detail)
}

/// The answer to an unknown method.
pub fn method_not_found(method: &str) -> (r: RpcErrorBody)
    ensures
        r.code == METHOD_NOT_FOUND,
        r.message@ == "Method not found: "@ + method@,
{
    error_body(METHOD_NOT_FOUND, "Method not found: ", method)
}

/// The answer to a `tools/call` without parameters.
pub fn missing_params() -> (r: RpcErrorBody)
    ensures
        r.code == INVALID_PARAMS,
        r.message@ == "Missing params"@,
{
    RpcErrorBody { code: INVALID_PARAMS, message: String::from_str("Missing params") }
}

/// The answer to a `tools/call` whose parameters do not parse.
pub fn invalid_params(detail: &str) -> (r: RpcErrorBody)
    ensures
        r.code == INVALID_PARAMS,
        r.message@ == "Invalid params: "@ + detail@,
{
    error_body(INVALID_PARAMS, "Invalid params: ", detail)
}

/// The text content a tool call answers with.
#[derive(Debug)]
pub struct ToolCallContent {
    /// The tool's output, or `Error: ` and the error's message.
    pub text: String,
    /// The failure's category, when the call failed.
    pub error_type: Option<String>,
    /// Whether the call failed.
    pub is_error: bool,
}

/// Turns a tool's outcome into the content of its response: the output
/// itself on success; on failure the error's message after `Error: `, its
/// category, and the error flag.
pub fn tool_call_content(result: CoreResult<String>) -> (r: ToolCallContent)
    ensures
        match result {
            Ok(out) => r.text@ == out@ && r.error_type is None && !r.is_error,
            Err(e) => r.is_error && (r.error_type matches Some(t) && t@ == category_of(&e))
                && r.text@.len() >= 7 && r.text@.take(7) == "Error: "@ && describes(
                &e,
                r.text@.skip(7),
            ),
        },
{
    match result {
        Ok(out) => ToolCallContent { text: out, error_type: None, is_error: false },
        Err(e) => {
            let msg = e.message();
            let mut text = String::from_str("Error: ");
            proof {
                reveal_strlit("Error: ");
            }
            let ghost head = text@;
            text.append(msg.as_str());
            assert(text@.take(7) == head);
            assert(text@.skip(7) == msg@);
            ToolCallContent {
                text,
                error_type: Some(String::from_str(e.category())),
                is_error: true,
            }
        },
    }
}

} // verus!
