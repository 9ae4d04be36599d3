//! The tool catalogue that `tools/list` advertises: one entry per tool,
//! with its name, a description and the JSON Schema of its arguments.

use vstd::prelude::*;
use crate::dispatch::{advertised_name, tool_name, ToolName};
use crate::text_ops::query::{json_member_models, json_model, json_models, JsonModel, JsonValue};

verus! {

/// The number of tools the server offers.
pub const TOOL_COUNT: usize = 15;

/// The tool listed at position `i` of the catalogue.
pub open spec fn tool_at(i: int) -> ToolName {
    if i == 0 {
        ToolName::ListDirectoryContents
    } else if i == 1 {
        ToolName::GetFileMetadata
    } else if i == 2 {
        ToolName::CopyFileOrDirectory
    } else if i == 3 {
        ToolName::MoveFileOrDirectory
    } else if i == 4 {
        ToolName::DeleteFileOrDirectory
    } else if i == 5 {
        ToolName::CreateDirectory
    } else if i == 6 {
        ToolName::WriteFile
    } else if i == 7 {
        ToolName::EditFile
    } else if i == 8 {
        ToolName::ReadFile
    } else if i == 9 {
        ToolName::SearchTextWithLimit
    } else if i == 10 {
        ToolName::SearchFileByNameOrType
    } else if i == 11 {
        ToolName::FilterAndSortMatrixColumns
    } else if i == 12 {
        ToolName::QueryDataByPath
    } else if i == 13 {
        ToolName::GetSystemInfo
    } else {
        ToolName::ExecuteCommand
    }
}

/// Where a tool stands in the catalogue.
pub open spec fn tool_index(t: ToolName) -> int {
    match t {
        ToolName::ListDirectoryContents => 0,
        ToolName::GetFileMetadata => 1,
        ToolName::CopyFileOrDirectory => 2,
        ToolName::MoveFileOrDirectory => 3,
        ToolName::DeleteFileOrDirectory => 4,
        ToolName::CreateDirectory => 5,
        ToolName::WriteFile => 6,
        ToolName::EditFile => 7,
        ToolName::ReadFile => 8,
        ToolName::SearchTextWithLimit => 9,
        ToolName::SearchFileByNameOrType => 10,
        ToolName::FilterAndSortMatrixColumns => 11,
        ToolName::QueryDataByPath => 12,
        ToolName::GetSystemInfo => 13,
        ToolName::ExecuteCommand => 14,
    }
}

/// Every tool has exactly one place in the catalogue: positions and tools
/// correspond one to one.
pub proof fn law_catalogue_lists_each_tool_once()
    ensures
        forall|t: ToolName| 0 <= #[trigger] tool_index(t) < TOOL_COUNT && tool_at(tool_index(t)) == t,
        forall|i: int| 0 <= i < TOOL_COUNT ==> tool_index(#[trigger] tool_at(i)) == i,
{
}

/// The catalogue entry of `list_dir`.
pub open spec fn list_dir_entry() -> JsonModel {
    JsonModel::Object(Seq::empty()
        .push(("name"@, JsonModel::Text(advertised_name(ToolName::ListDirectoryContents))))
        .push(("description"@, JsonModel::Text("Lists contents of a directory divided into files, directories, and links."@)))
        .push(("inputSchema"@, JsonModel::Object(Seq::empty()
            .push(("type"@, JsonModel::Text("object"@)))
            .push(("properties"@, JsonModel::Object(Seq::empty()
                .push(("path"@, JsonModel::Object(Seq::empty()
                    .push(("type"@, JsonModel::Text("string"@)))
                    .push(("description"@, JsonModel::Text("Target directory path."@)))))))))))))
}

/// The catalogue entry of `get_file_metadata`.
pub open spec fn get_file_metadata_entry() -> JsonModel {
    JsonModel::Object(Seq::empty()
        .push(("name"@, JsonModel::Text(advertised_name(ToolName::GetFileMetadata))))
        .push(("description"@, JsonModel::Text("Retrieves realpath, size, permissions, and modified timestamps for a path."@)))
        .push(("inputSchema"@, JsonModel::Object(Seq::empty()
            .push(("type"@, JsonModel::Text("object"@)))
            .push(("properties"@, JsonModel::Object(Seq::empty()
                .push(("path"@, JsonModel::Object(Seq::empty()
                    .push(("type"@, JsonModel::Text("string"@)))))))))
            .push(("required"@, JsonModel::Array(Seq::empty()
                .push(JsonModel::Text("path"@)))))))))
}

/// The catalogue entry of `copy_file_or_directory`.
pub open spec fn copy_file_or_directory_entry() -> JsonModel {
    JsonModel::Object(Seq::empty()
        .push(("name"@, JsonModel::Text(advertised_name(ToolName::CopyFileOrDirectory))))
        .push(("description"@, JsonModel::Text("Copy a file or folder recursively to a destination path."@)))
        .push(("inputSchema"@, JsonModel::Object(Seq::empty()
            .push(("type"@, JsonModel::Text("object"@)))
            .push(("properties"@, JsonModel::Object(Seq::empty()
                .push(("source"@, JsonModel::Object(Seq::empty()
                    .push(("type"@, JsonModel::Text("string"@))))))
                .push(("destination"@, JsonModel::Object(Seq::empty()
                    .push(("type"@, JsonModel::Text("string"@)))))))))
            .push(("required"@, JsonModel::Array(Seq::empty()
                .push(JsonModel::Text("source"@))
                .push(JsonModel::Text("destination"@)))))))))
}

/// The catalogue entry of `move_file_or_directory`.
pub open spec fn move_file_or_directory_entry() -> JsonModel {
    JsonModel::Object(Seq::empty()
        .push(("name"@, JsonModel::Text(advertised_name(ToolName::MoveFileOrDirectory))))
        .push(("description"@, JsonModel::Text("Move a file or folder safely to a destination path."@)))
        .push(("inputSchema"@, JsonModel::Object(Seq::empty()
            .push(("type"@, JsonModel::Text("object"@)))
            .push(("properties"@, JsonModel::Object(Seq::empty()
                .push(("source"@, JsonModel::Object(Seq::empty()
                    .push(("type"@, JsonModel::Text("string"@))))))
                .push(("destination"@, JsonModel::Object(Seq::empty()
                    .push(("type"@, JsonModel::Text("string"@)))))))))
            .push(("required"@, JsonModel::Array(Seq::empty()
                .push(JsonModel::Text("source"@))
                .push(JsonModel::Text("destination"@)))))))))
}

/// The catalogue entry of `delete_file_or_directory`.
pub open spec fn delete_file_or_directory_entry() -> JsonModel {
    JsonModel::Object(Seq::empty()
        .push(("name"@, JsonModel::Text(advertised_name(ToolName::DeleteFileOrDirectory))))
        .push(("description"@, JsonModel::Text("Safely delete a file or directory with path validations."@)))
        .push(("inputSchema"@, JsonModel::Object(Seq::empty()
            .push(("type"@, JsonModel::Text("object"@)))
            .push(("properties"@, JsonModel::Object(Seq::empty()
                .push(("path"@, JsonModel::Object(Seq::empty()
                    .push(("type"@, JsonModel::Text("string"@)))))))))
            .push(("required"@, JsonModel::Array(Seq::empty()
                .push(JsonModel::Text("path"@)))))))))
}

/// The catalogue entry of `create_dir`.
pub open spec fn create_dir_entry() -> JsonModel {
    JsonModel::Object(Seq::empty()
        .push(("name"@, JsonModel::Text(advertised_name(ToolName::CreateDirectory))))
        .push(("description"@, JsonModel::Text("Creates a directory including intermediate parents (mkdir -p)."@)))
        .push(("inputSchema"@, JsonModel::Object(Seq::empty()
            .push(("type"@, JsonModel::Text("object"@)))
            .push(("properties"@, JsonModel::Object(Seq::empty()
                .push(("path"@, JsonModel::Object(Seq::empty()
                    .push(("type"@, JsonModel::Text("string"@)))))))))
            .push(("required"@, JsonModel::Array(Seq::empty()
                .push(JsonModel::Text("path"@)))))))))
}

/// The catalogue entry of `write_file`.
pub open spec fn write_file_entry() -> JsonModel {
    JsonModel::Object(Seq::empty()
        .push(("name"@, JsonModel::Text(advertised_name(ToolName::WriteFile))))
        .push(("description"@, JsonModel::Text("Writes content to a new file, creating any missing parent directories. Refuses to overwrite an existing file unless overwrite is true."@)))
        .push(("inputSchema"@, JsonModel::Object(Seq::empty()
            .push(("type"@, JsonModel::Text("object"@)))
            .push(("properties"@, JsonModel::Object(Seq::empty()
                .push(("path"@, JsonModel::Object(Seq::empty()
                    .push(("type"@, JsonModel::Text("string"@))))))
                .push(("content"@, JsonModel::Object(Seq::empty()
                    .push(("type"@, JsonModel::Text("string"@))))))
                .push(("overwrite"@, JsonModel::Object(Seq::empty()
                    .push(("type"@, JsonModel::Text("boolean"@)))
                    .push(("description"@, JsonModel::Text("Set true to replace an existing file. Defaults to false."@)))))))))
            .push(("required"@, JsonModel::Array(Seq::empty()
                .push(JsonModel::Text("path"@))
                .push(JsonModel::Text("content"@)))))))))
}

/// The catalogue entry of `edit_file`.
pub open spec fn edit_file_entry() -> JsonModel {
    JsonModel::Object(Seq::empty()
        .push(("name"@, JsonModel::Text(advertised_name(ToolName::EditFile))))
        .push(("description"@, JsonModel::Text("Applies one or more non-contiguous line-range edits to a file as a single atomic transaction. Each edit's target_content (the exact current content of start_line..end_line, without any line-number prefix) is verified before anything is written; if any edit fails verification, none are applied. A single edit is just a one-element edits array. The response's line_delta reports how many lines the file grew or shrank by, so a follow-up edit can adjust line numbers without re-reading the file."@)))
        .push(("inputSchema"@, JsonModel::Object(Seq::empty()
            .push(("type"@, JsonModel::Text("object"@)))
            .push(("properties"@, JsonModel::Object(Seq::empty()
                .push(("path"@, JsonModel::Object(Seq::empty()
                    .push(("type"@, JsonModel::Text("string"@)))
                    .push(("description"@, JsonModel::Text("The file path to edit."@))))))
                .push(("edits"@, JsonModel::Object(Seq::empty()
                    .push(("type"@, JsonModel::Text("array"@)))
                    .push(("description"@, JsonModel::Text("One or more edit chunks. A single edit is just a one-element array."@)))
                    .push(("items"@, JsonModel::Object(Seq::empty()
                        .push(("type"@, JsonModel::Text("object"@)))
                        .push(("properties"@, JsonModel::Object(Seq::empty()
                            .push(("start_line"@, JsonModel::Object(Seq::empty()
                                .push(("type"@, JsonModel::Text("integer"@)))
                                .push(("description"@, JsonModel::Text("1-indexed start line of the range to edit."@))))))
                            .push(("end_line"@, JsonModel::Object(Seq::empty()
                                .push(("type"@, JsonModel::Text("integer"@)))
                                .push(("description"@, JsonModel::Text("1-indexed end line of the range to edit (inclusive)."@))))))
                            .push(("target_content"@, JsonModel::Object(Seq::empty()
                                .push(("type"@, JsonModel::Text("string"@)))
                                .push(("description"@, JsonModel::Text("The exact content expected within the line range to prevent stale edits."@))))))
                            .push(("replacement_content"@, JsonModel::Object(Seq::empty()
                                .push(("type"@, JsonModel::Text("string"@)))
                                .push(("description"@, JsonModel::Text("The replacement content."@)))))))))
                        .push(("required"@, JsonModel::Array(Seq::empty()
                            .push(JsonModel::Text("start_line"@))
                            .push(JsonModel::Text("end_line"@))
                            .push(JsonModel::Text("target_content"@))
                            .push(JsonModel::Text("replacement_content"@))))))))))))))
            .push(("required"@, JsonModel::Array(Seq::empty()
                .push(JsonModel::Text("path"@))
                .push(JsonModel::Text("edits"@)))))))))
}

/// The catalogue entry of `read_file`.
pub open spec fn read_file_entry() -> JsonModel {
    JsonModel::Object(Seq::empty()
        .push(("name"@, JsonModel::Text(advertised_name(ToolName::ReadFile))))
        .push(("description"@, JsonModel::Text("Reads a file starting at a 1-indexed line number, annotating each returned line as '{line_number}\\t{content}'. Use the line numbers directly as start_line/end_line for edit_file, and the raw content after the tab (without the number) as target_content. If the response's status is 'truncated', pass its next_start_line back in to continue reading."@)))
        .push(("inputSchema"@, JsonModel::Object(Seq::empty()
            .push(("type"@, JsonModel::Text("object"@)))
            .push(("properties"@, JsonModel::Object(Seq::empty()
                .push(("path"@, JsonModel::Object(Seq::empty()
                    .push(("type"@, JsonModel::Text("string"@)))
                    .push(("description"@, JsonModel::Text("The file path to read."@))))))
                .push(("start_line"@, JsonModel::Object(Seq::empty()
                    .push(("type"@, JsonModel::Text("integer"@)))
                    .push(("description"@, JsonModel::Text("1-indexed line to start reading from. Defaults to 1."@)))))))))
            .push(("required"@, JsonModel::Array(Seq::empty()
                .push(JsonModel::Text("path"@)))))))))
}

/// The catalogue entry of `search_text`.
pub open spec fn search_text_entry() -> JsonModel {
    JsonModel::Object(Seq::empty()
        .push(("name"@, JsonModel::Text(advertised_name(ToolName::SearchTextWithLimit))))
        .push(("description"@, JsonModel::Text("Performs high-efficiency regex or substring search on text files under a directory."@)))
        .push(("inputSchema"@, JsonModel::Object(Seq::empty()
            .push(("type"@, JsonModel::Text("object"@)))
            .push(("properties"@, JsonModel::Object(Seq::empty()
                .push(("search_root_or_file"@, JsonModel::Object(Seq::empty()
                    .push(("type"@, JsonModel::Text("string"@))))))
                .push(("query_string"@, JsonModel::Object(Seq::empty()
                    .push(("type"@, JsonModel::Text("string"@))))))
                .push(("is_regex"@, JsonModel::Object(Seq::empty()
                    .push(("type"@, JsonModel::Text("boolean"@)))))))))
            .push(("required"@, JsonModel::Array(Seq::empty()
                .push(JsonModel::Text("search_root_or_file"@))
                .push(JsonModel::Text("query_string"@)))))))))
}

/// The catalogue entry of `find_files`.
pub open spec fn find_files_entry() -> JsonModel {
    JsonModel::Object(Seq::empty()
        .push(("name"@, JsonModel::Text(advertised_name(ToolName::SearchFileByNameOrType))))
        .push(("description"@, JsonModel::Text("Finds files or directories by name patterns or types under a root directory."@)))
        .push(("inputSchema"@, JsonModel::Object(Seq::empty()
            .push(("type"@, JsonModel::Text("object"@)))
            .push(("properties"@, JsonModel::Object(Seq::empty()
                .push(("search_root"@, JsonModel::Object(Seq::empty()
                    .push(("type"@, JsonModel::Text("string"@))))))
                .push(("name_pattern"@, JsonModel::Object(Seq::empty()
                    .push(("type"@, JsonModel::Text("string"@))))))
                .push(("file_type"@, JsonModel::Object(Seq::empty()
                    .push(("type"@, JsonModel::Text("string"@)))
                    .push(("enum"@, JsonModel::Array(Seq::empty()
                        .push(JsonModel::Text("file"@))
                        .push(JsonModel::Text("directory"@))
                        .push(JsonModel::Text("dir"@))
                        .push(JsonModel::Text("symlink"@)))))))))))))))
}

/// The catalogue entry of `filter_and_sort_matrix_columns`.
pub open spec fn filter_and_sort_matrix_columns_entry() -> JsonModel {
    JsonModel::Object(Seq::empty()
        .push(("name"@, JsonModel::Text(advertised_name(ToolName::FilterAndSortMatrixColumns))))
        .push(("description"@, JsonModel::Text("Filters, sorts, and optionally deduplicates columns from CSV/TSV data."@)))
        .push(("inputSchema"@, JsonModel::Object(Seq::empty()
            .push(("type"@, JsonModel::Text("object"@)))
            .push(("properties"@, JsonModel::Object(Seq::empty()
                .push(("path"@, JsonModel::Object(Seq::empty()
                    .push(("type"@, JsonModel::Text("string"@))))))
                .push(("columns"@, JsonModel::Object(Seq::empty()
                    .push(("type"@, JsonModel::Text("array"@)))
                    .push(("items"@, JsonModel::Object(Seq::empty()
                        .push(("type"@, JsonModel::Text("string"@)))))))))
                .push(("deduplicate"@, JsonModel::Object(Seq::empty()
                    .push(("type"@, JsonModel::Text("boolean"@)))))))))
            .push(("required"@, JsonModel::Array(Seq::empty()
                .push(JsonModel::Text("path"@))
                .push(JsonModel::Text("columns"@)))))))))
}

/// The catalogue entry of `query_data_by_path`.
pub open spec fn query_data_by_path_entry() -> JsonModel {
    JsonModel::Object(Seq::empty()
        .push(("name"@, JsonModel::Text(advertised_name(ToolName::QueryDataByPath))))
        .push(("description"@, JsonModel::Text("Queries a JSON, TOML, or YAML file (format from its extension) using a dot path with optional bracket indices (e.g. data.users[0].id)."@)))
        .push(("inputSchema"@, JsonModel::Object(Seq::empty()
            .push(("type"@, JsonModel::Text("object"@)))
            .push(("properties"@, JsonModel::Object(Seq::empty()
                .push(("path"@, JsonModel::Object(Seq::empty()
                    .push(("type"@, JsonModel::Text("string"@))))))
                .push(("data_path"@, JsonModel::Object(Seq::empty()
                    .push(("type"@, JsonModel::Text("string"@)))))))))
            .push(("required"@, JsonModel::Array(Seq::empty()
                .push(JsonModel::Text("path"@))
                .push(JsonModel::Text("data_path"@)))))))))
}

/// The catalogue entry of `get_system_info`.
pub open spec fn get_system_info_entry() -> JsonModel {
    JsonModel::Object(Seq::empty()
        .push(("name"@, JsonModel::Text(advertised_name(ToolName::GetSystemInfo))))
        .push(("description"@, JsonModel::Text("Aggregates system metadata, disk free space, user IDs, and environment parameters."@)))
        .push(("inputSchema"@, JsonModel::Object(Seq::empty()
            .push(("type"@, JsonModel::Text("object"@)))
            .push(("properties"@, JsonModel::Object(Seq::empty())))))))
}

/// The catalogue entry of `execute_command`.
pub open spec fn execute_command_entry() -> JsonModel {
    JsonModel::Object(Seq::empty()
        .push(("name"@, JsonModel::Text(advertised_name(ToolName::ExecuteCommand))))
        .push(("description"@, JsonModel::Text("Runs a shell command with a wall-clock timeout and an output-size guard. Provides no filesystem, network, CPU, or memory isolation from the host, and neither the command nor working_directory are subject to path-safety validation."@)))
        .push(("inputSchema"@, JsonModel::Object(Seq::empty()
            .push(("type"@, JsonModel::Text("object"@)))
            .push(("properties"@, JsonModel::Object(Seq::empty()
                .push(("command"@, JsonModel::Object(Seq::empty()
                    .push(("type"@, JsonModel::Text("string"@))))))
                .push(("working_directory"@, JsonModel::Object(Seq::empty()
                    .push(("type"@, JsonModel::Text("string"@)))
                    .push(("description"@, JsonModel::Text("Directory to run the command in. Defaults to AI_WORKSPACE_ROOT if set, otherwise the server's own working directory."@))))))
                .push(("timeout_seconds"@, JsonModel::Object(Seq::empty()
                    .push(("type"@, JsonModel::Text("integer"@)))
                    .push(("description"@, JsonModel::Text("Wall-clock timeout in seconds (default 30, capped at 300)."@)))))))))
            .push(("required"@, JsonModel::Array(Seq::empty()
                .push(JsonModel::Text("command"@)))))))))
}

/// The whole catalogue, in order.
pub open spec fn tool_catalogue() -> JsonModel {
    JsonModel::Array(Seq::empty()
        .push(list_dir_entry())
        .push(get_file_metadata_entry())
        .push(copy_file_or_directory_entry())
        .push(move_file_or_directory_entry())
        .push(delete_file_or_directory_entry())
        .push(create_dir_entry())
        .push(write_file_entry())
        .push(edit_file_entry())
        .push(read_file_entry())
        .push(search_text_entry())
        .push(find_files_entry())
        .push(filter_and_sort_matrix_columns_entry())
        .push(query_data_by_path_entry())
        .push(get_system_info_entry())
        .push(execute_command_entry()))
}

/// Entry `i` of the catalogue describes the tool listed at position `i`.
pub proof fn law_catalogue_entries_name_their_tools()
    ensures
        tool_catalogue() matches JsonModel::Array(items) && items.len() == TOOL_COUNT && forall|i: int|
            0 <= i < TOOL_COUNT ==> (#[trigger] items[i] matches JsonModel::Object(fs) && fs.len() == 3
                && fs[0] == ("name"@, JsonModel::Text(advertised_name(tool_at(i))))),
{
}

fn json_text(s: &str) -> (r: JsonValue)
    ensures
        json_model(r) == JsonModel::Text(s@),
{
    JsonValue::String(String::from_str(s))
}

fn add_member(fs: &mut Vec<(String, JsonValue)>, k: &str, v: JsonValue)
    ensures
        json_member_models(final(fs)@) == json_member_models(old(fs)@).push((k@, json_model(v))),
{
    let ghost before = fs@;
    let ghost mv = json_model(v);
    fs.push((String::from_str(k), v));
    assert(fs@.drop_last() =~= before);
}

fn add_item(xs: &mut Vec<JsonValue>, v: JsonValue)
    ensures
        json_models(final(xs)@) == json_models(old(xs)@).push(json_model(v)),
{
    let ghost before = xs@;
    xs.push(v);
    assert(xs@.drop_last() =~= before);
}

fn list_dir_definition() -> (r: JsonValue)
    ensures
        json_model(r) == list_dir_entry(),
{
    let mut o1: Vec<(String, JsonValue)> = Vec::new();
    add_member(&mut o1, "type", json_text("object"));
    let mut o2: Vec<(String, JsonValue)> = Vec::new();
    let mut o3: Vec<(String, JsonValue)> = Vec::new();
    add_member(&mut o3, "type", json_text("string"));
    add_member(&mut o3, "description", json_text("Target directory path."));
    add_member(&mut o2, "path", JsonValue::Object(o3));
    add_member(&mut o1, "properties", JsonValue::Object(o2));
    let mut fs: Vec<(String, JsonValue)> = Vec::new();
    add_member(&mut fs, "name", json_text(tool_name(ToolName::ListDirectoryContents)));
    add_member(&mut fs, "description", json_text("Lists contents of a directory divided into files, directories, and links."));
    add_member(&mut fs, "inputSchema", JsonValue::Object(o1));
    JsonValue::Object(fs)
}

fn get_file_metadata_definition() -> (r: JsonValue)
    ensures
        json_model(r) == get_file_metadata_entry(),
{
    let mut o1: Vec<(String, JsonValue)> = Vec::new();
    add_member(&mut o1, "type", json_text("object"));
    let mut o2: Vec<(String, JsonValue)> = Vec::new();
    let mut o3: Vec<(String, JsonValue)> = Vec::new();
    add_member(&mut o3, "type", json_text("string"));
    add_member(&mut o2, "path", JsonValue::Object(o3));
    add_member(&mut o1, "properties", JsonValue::Object(o2));
    let mut a4: Vec<JsonValue> = Vec::new();
    add_item(&mut a4, json_text("path"));
    add_member(&mut o1, "required", JsonValue::Array(a4));
    let mut fs: Vec<(String, JsonValue)> = Vec::new();
    add_member(&mut fs, "name", json_text(tool_name(ToolName::GetFileMetadata)));
    add_member(&mut fs, "description", json_text("Retrieves realpath, size, permissions, and modified timestamps for a path."));
    add_member(&mut fs, "inputSchema", JsonValue::Object(o1));
    JsonValue::Object(fs)
}

fn copy_file_or_directory_definition() -> (r: JsonValue)
    ensures
        json_model(r) == copy_file_or_directory_entry(),
{
    let mut o1: Vec<(String, JsonValue)> = Vec::new();
    add_member(&mut o1, "type", json_text("object"));
    let mut o2: Vec<(String, JsonValue)> = Vec::new();
    let mut o3: Vec<(String, JsonValue)> = Vec::new();
    add_member(&mut o3, "type", json_text("string"));
    add_member(&mut o2, "source", JsonValue::Object(o3));
    let mut o4: Vec<(String, JsonValue)> = Vec::new();
    add_member(&mut o4, "type", json_text("string"));
    add_member(&mut o2, "destination", JsonValue::Object(o4));
    add_member(&mut o1, "properties", JsonValue::Object(o2));
    let mut a5: Vec<JsonValue> = Vec::new();
    add_item(&mut a5, json_text("source"));
    add_item(&mut a5, json_text("destination"));
    add_member(&mut o1, "required", JsonValue::Array(a5));
    let mut fs: Vec<(String, JsonValue)> = Vec::new();
    add_member(&mut fs, "name", json_text(tool_name(ToolName::CopyFileOrDirectory)));
    add_member(&mut fs, "description", json_text("Copy a file or folder recursively to a destination path."));
    add_member(&mut fs, "inputSchema", JsonValue::Object(o1));
    JsonValue::Object(fs)
}

fn move_file_or_directory_definition() -> (r: JsonValue)
    ensures
        json_model(r) == move_file_or_directory_entry(),
{
    let mut o1: Vec<(String, JsonValue)> = Vec::new();
    add_member(&mut o1, "type", json_text("object"));
    let mut o2: Vec<(String, JsonValue)> = Vec::new();
    let mut o3: Vec<(String, JsonValue)> = Vec::new();
    add_member(&mut o3, "type", json_text("string"));
    add_member(&mut o2, "source", JsonValue::Object(o3));
    let mut o4: Vec<(String, JsonValue)> = Vec::new();
    add_member(&mut o4, "type", json_text("string"));
    add_member(&mut o2, "destination", JsonValue::Object(o4));
    add_member(&mut o1, "properties", JsonValue::Object(o2));
    let mut a5: Vec<JsonValue> = Vec::new();
    add_item(&mut a5, json_text("source"));
    add_item(&mut a5, json_text("destination"));
    add_member(&mut o1, "required", JsonValue::Array(a5));
    let mut fs: Vec<(String, JsonValue)> = Vec::new();
    add_member(&mut fs, "name", json_text(tool_name(ToolName::MoveFileOrDirectory)));
    add_member(&mut fs, "description", json_text("Move a file or folder safely to a destination path."));
    add_member(&mut fs, "inputSchema", JsonValue::Object(o1));
    JsonValue::Object(fs)
}

fn delete_file_or_directory_definition() -> (r: JsonValue)
    ensures
        json_model(r) == delete_file_or_directory_entry(),
{
    let mut o1: Vec<(String, JsonValue)> = Vec::new();
    add_member(&mut o1, "type", json_text("object"));
    let mut o2: Vec<(String, JsonValue)> = Vec::new();
    let mut o3: Vec<(String, JsonValue)> = Vec::new();
    add_member(&mut o3, "type", json_text("string"));
    add_member(&mut o2, "path", JsonValue::Object(o3));
    add_member(&mut o1, "properties", JsonValue::Object(o2));
    let mut a4: Vec<JsonValue> = Vec::new();
    add_item(&mut a4, json_text("path"));
    add_member(&mut o1, "required", JsonValue::Array(a4));
    let mut fs: Vec<(String, JsonValue)> = Vec::new();
    add_member(&mut fs, "name", json_text(tool_name(ToolName::DeleteFileOrDirectory)));
    add_member(&mut fs, "description", json_text("Safely delete a file or directory with path validations."));
    add_member(&mut fs, "inputSchema", JsonValue::Object(o1));
    JsonValue::Object(fs)
}

fn create_dir_definition() -> (r: JsonValue)
    ensures
        json_model(r) == create_dir_entry(),
{
    let mut o1: Vec<(String, JsonValue)> = Vec::new();
    add_member(&mut o1, "type", json_text("object"));
    let mut o2: Vec<(String, JsonValue)> = Vec::new();
    let mut o3: Vec<(String, JsonValue)> = Vec::new();
    add_member(&mut o3, "type", json_text("string"));
    add_member(&mut o2, "path", JsonValue::Object(o3));
    add_member(&mut o1, "properties", JsonValue::Object(o2));
    let mut a4: Vec<JsonValue> = Vec::new();
    add_item(&mut a4, json_text("path"));
    add_member(&mut o1, "required", JsonValue::Array(a4));
    let mut fs: Vec<(String, JsonValue)> = Vec::new();
    add_member(&mut fs, "name", json_text(tool_name(ToolName::CreateDirectory)));
    add_member(&mut fs, "description", json_text("Creates a directory including intermediate parents (mkdir -p)."));
    add_member(&mut fs, "inputSchema", JsonValue::Object(o1));
    JsonValue::Object(fs)
}

fn write_file_definition() -> (r: JsonValue)
    ensures
        json_model(r) == write_file_entry(),
{
    let mut o1: Vec<(String, JsonValue)> = Vec::new();
    add_member(&mut o1, "type", json_text("object"));
    let mut o2: Vec<(String, JsonValue)> = Vec::new();
    let mut o3: Vec<(String, JsonValue)> = Vec::new();
    add_member(&mut o3, "type", json_text("string"));
    add_member(&mut o2, "path", JsonValue::Object(o3));
    let mut o4: Vec<(String, JsonValue)> = Vec::new();
    add_member(&mut o4, "type", json_text("string"));
    add_member(&mut o2, "content", JsonValue::Object(o4));
    let mut o5: Vec<(String, JsonValue)> = Vec::new();
    add_member(&mut o5, "type", json_text("boolean"));
    add_member(&mut o5, "description", json_text("Set true to replace an existing file. Defaults to false."));
    add_member(&mut o2, "overwrite", JsonValue::Object(o5));
    add_member(&mut o1, "properties", JsonValue::Object(o2));
    let mut a6: Vec<JsonValue> = Vec::new();
    add_item(&mut a6, json_text("path"));
    add_item(&mut a6, json_text("content"));
    add_member(&mut o1, "required", JsonValue::Array(a6));
    let mut fs: Vec<(String, JsonValue)> = Vec::new();
    add_member(&mut fs, "name", json_text(tool_name(ToolName::WriteFile)));
    add_member(&mut fs, "description", json_text("Writes content to a new file, creating any missing parent directories. Refuses to overwrite an existing file unless overwrite is true."));
    add_member(&mut fs, "inputSchema", JsonValue::Object(o1));
    JsonValue::Object(fs)
}

fn edit_file_definition() -> (r: JsonValue)
    ensures
        json_model(r) == edit_file_entry(),
{
    let mut o1: Vec<(String, JsonValue)> = Vec::new();
    add_member(&mut o1, "type", json_text("object"));
    let mut o2: Vec<(String, JsonValue)> = Vec::new();
    let mut o3: Vec<(String, JsonValue)> = Vec::new();
    add_member(&mut o3, "type", json_text("string"));
    add_member(&mut o3, "description", json_text("The file path to edit."));
    add_member(&mut o2, "path", JsonValue::Object(o3));
    let mut o4: Vec<(String, JsonValue)> = Vec::new();
    add_member(&mut o4, "type", json_text("array"));
    add_member(&mut o4, "description", json_text("One or more edit chunks. A single edit is just a one-element array."));
    let mut o5: Vec<(String, JsonValue)> = Vec::new();
    add_member(&mut o5, "type", json_text("object"));
    let mut o6: Vec<(String, JsonValue)> = Vec::new();
    let mut o7: Vec<(String, JsonValue)> = Vec::new();
    add_member(&mut o7, "type", json_text("integer"));
    add_member(&mut o7, "description", json_text("1-indexed start line of the range to edit."));
    add_member(&mut o6, "start_line", JsonValue::Object(o7));
    let mut o8: Vec<(String, JsonValue)> = Vec::new();
    add_member(&mut o8, "type", json_text("integer"));
    add_member(&mut o8, "description", json_text("1-indexed end line of the range to edit (inclusive)."));
    add_member(&mut o6, "end_line", JsonValue::Object(o8));
    let mut o9: Vec<(String, JsonValue)> = Vec::new();
    add_member(&mut o9, "type", json_text("string"));
    add_member(&mut o9, "description", json_text("The exact content expected within the line range to prevent stale edits."));
    add_member(&mut o6, "target_content", JsonValue::Object(o9));
    let mut o10: Vec<(String, JsonValue)> = Vec::new();
    add_member(&mut o10, "type", json_text("string"));
    add_member(&mut o10, "description", json_text("The replacement content."));
    add_member(&mut o6, "replacement_content", JsonValue::Object(o10));
    add_member(&mut o5, "properties", JsonValue::Object(o6));
    let mut a11: Vec<JsonValue> = Vec::new();
    add_item(&mut a11, json_text("start_line"));
    add_item(&mut a11, json_text("end_line"));
    add_item(&mut a11, json_text("target_content"));
    add_item(&mut a11, json_text("replacement_content"));
    add_member(&mut o5, "required", JsonValue::Array(a11));
    add_member(&mut o4, "items", JsonValue::Object(o5));
    add_member(&mut o2, "edits", JsonValue::Object(o4));
    add_member(&mut o1, "properties", JsonValue::Object(o2));
    let mut a12: Vec<JsonValue> = Vec::new();
    add_item(&mut a12, json_text("path"));
    add_item(&mut a12, json_text("edits"));
    add_member(&mut o1, "required", JsonValue::Array(a12));
    let mut fs: Vec<(String, JsonValue)> = Vec::new();
    add_member(&mut fs, "name", json_text(tool_name(ToolName::EditFile)));
    add_member(&mut fs, "description", json_text("Applies one or more non-contiguous line-range edits to a file as a single atomic transaction. Each edit's target_content (the exact current content of start_line..end_line, without any line-number prefix) is verified before anything is written; if any edit fails verification, none are applied. A single edit is just a one-element edits array. The response's line_delta reports how many lines the file grew or shrank by, so a follow-up edit can adjust line numbers without re-reading the file."));
    add_member(&mut fs, "inputSchema", JsonValue::Object(o1));
    JsonValue::Object(fs)
}

fn read_file_definition() -> (r: JsonValue)
    ensures
        json_model(r) == read_file_entry(),
{
    let mut o1: Vec<(String, JsonValue)> = Vec::new();
    add_member(&mut o1, "type", json_text("object"));
    let mut o2: Vec<(String, JsonValue)> = Vec::new();
    let mut o3: Vec<(String, JsonValue)> = Vec::new();
    add_member(&mut o3, "type", json_text("string"));
    add_member(&mut o3, "description", json_text("The file path to read."));
    add_member(&mut o2, "path", JsonValue::Object(o3));
    let mut o4: Vec<(String, JsonValue)> = Vec::new();
    add_member(&mut o4, "type", json_text("integer"));
    add_member(&mut o4, "description", json_text("1-indexed line to start reading from. Defaults to 1."));
    add_member(&mut o2, "start_line", JsonValue::Object(o4));
    add_member(&mut o1, "properties", JsonValue::Object(o2));
    let mut a5: Vec<JsonValue> = Vec::new();
    add_item(&mut a5, json_text("path"));
    add_member(&mut o1, "required", JsonValue::Array(a5));
    let mut fs: Vec<(String, JsonValue)> = Vec::new();
    add_member(&mut fs, "name", json_text(tool_name(ToolName::ReadFile)));
    add_member(&mut fs, "description", json_text("Reads a file starting at a 1-indexed line number, annotating each returned line as '{line_number}\\t{content}'. Use the line numbers directly as start_line/end_line for edit_file, and the raw content after the tab (without the number) as target_content. If the response's status is 'truncated', pass its next_start_line back in to continue reading."));
    add_member(&mut fs, "inputSchema", JsonValue::Object(o1));
    JsonValue::Object(fs)
}

fn search_text_definition() -> (r: JsonValue)
    ensures
        json_model(r) == search_text_entry(),
{
    let mut o1: Vec<(String, JsonValue)> = Vec::new();
    add_member(&mut o1, "type", json_text("object"));
    let mut o2: Vec<(String, JsonValue)> = Vec::new();
    let mut o3: Vec<(String, JsonValue)> = Vec::new();
    add_member(&mut o3, "type", json_text("string"));
    add_member(&mut o2, "search_root_or_file", JsonValue::Object(o3));
    let mut o4: Vec<(String, JsonValue)> = Vec::new();
    add_member(&mut o4, "type", json_text("string"));
    add_member(&mut o2, "query_string", JsonValue::Object(o4));
    let mut o5: Vec<(String, JsonValue)> = Vec::new();
    add_member(&mut o5, "type", json_text("boolean"));
    add_member(&mut o2, "is_regex", JsonValue::Object(o5));
    add_member(&mut o1, "properties", JsonValue::Object(o2));
    let mut a6: Vec<JsonValue> = Vec::new();
    add_item(&mut a6, json_text("search_root_or_file"));
    add_item(&mut a6, json_text("query_string"));
    add_member(&mut o1, "required", JsonValue::Array(a6));
    let mut fs: Vec<(String, JsonValue)> = Vec::new();
    add_member(&mut fs, "name", json_text(tool_name(ToolName::SearchTextWithLimit)));
    add_member(&mut fs, "description", json_text("Performs high-efficiency regex or substring search on text files under a directory."));
    add_member(&mut fs, "inputSchema", JsonValue::Object(o1));
    JsonValue::Object(fs)
}

fn find_files_definition() -> (r: JsonValue)
    ensures
        json_model(r) == find_files_entry(),
{
    let mut o1: Vec<(String, JsonValue)> = Vec::new();
    add_member(&mut o1, "type", json_text("object"));
    let mut o2: Vec<(String, JsonValue)> = Vec::new();
    let mut o3: Vec<(String, JsonValue)> = Vec::new();
    add_member(&mut o3, "type", json_text("string"));
    add_member(&mut o2, "search_root", JsonValue::Object(o3));
    let mut o4: Vec<(String, JsonValue)> = Vec::new();
    add_member(&mut o4, "type", json_text("string"));
    add_member(&mut o2, "name_pattern", JsonValue::Object(o4));
    let mut o5: Vec<(String, JsonValue)> = Vec::new();
    add_member(&mut o5, "type", json_text("string"));
    let mut a6: Vec<JsonValue> = Vec::new();
    add_item(&mut a6, json_text("file"));
    add_item(&mut a6, json_text("directory"));
    add_item(&mut a6, json_text("dir"));
    add_item(&mut a6, json_text("symlink"));
    add_member(&mut o5, "enum", JsonValue::Array(a6));
    add_member(&mut o2, "file_type", JsonValue::Object(o5));
    add_member(&mut o1, "properties", JsonValue::Object(o2));
    let mut fs: Vec<(String, JsonValue)> = Vec::new();
    add_member(&mut fs, "name", json_text(tool_name(ToolName::SearchFileByNameOrType)));
    add_member(&mut fs, "description", json_text("Finds files or directories by name patterns or types under a root directory."));
    add_member(&mut fs, "inputSchema", JsonValue::Object(o1));
    JsonValue::Object(fs)
}

fn filter_and_sort_matrix_columns_definition() -> (r: JsonValue)
    ensures
        json_model(r) == filter_and_sort_matrix_columns_entry(),
{
    let mut o1: Vec<(String, JsonValue)> = Vec::new();
    add_member(&mut o1, "type", json_text("object"));
    let mut o2: Vec<(String, JsonValue)> = Vec::new();
    let mut o3: Vec<(String, JsonValue)> = Vec::new();
    add_member(&mut o3, "type", json_text("string"));
    add_member(&mut o2, "path", JsonValue::Object(o3));
    let mut o4: Vec<(String, JsonValue)> = Vec::new();
    add_member(&mut o4, "type", json_text("array"));
    let mut o5: Vec<(String, JsonValue)> = Vec::new();
    add_member(&mut o5, "type", json_text("string"));
    add_member(&mut o4, "items", JsonValue::Object(o5));
    add_member(&mut o2, "columns", JsonValue::Object(o4));
    let mut o6: Vec<(String, JsonValue)> = Vec::new();
    add_member(&mut o6, "type", json_text("boolean"));
    add_member(&mut o2, "deduplicate", JsonValue::Object(o6));
    add_member(&mut o1, "properties", JsonValue::Object(o2));
    let mut a7: Vec<JsonValue> = Vec::new();
    add_item(&mut a7, json_text("path"));
    add_item(&mut a7, json_text("columns"));
    add_member(&mut o1, "required", JsonValue::Array(a7));
    let mut fs: Vec<(String, JsonValue)> = Vec::new();
    add_member(&mut fs, "name", json_text(tool_name(ToolName::FilterAndSortMatrixColumns)));
    add_member(&mut fs, "description", json_text("Filters, sorts, and optionally deduplicates columns from CSV/TSV data."));
    add_member(&mut fs, "inputSchema", JsonValue::Object(o1));
    JsonValue::Object(fs)
}

fn query_data_by_path_definition() -> (r: JsonValue)
    ensures
        json_model(r) == query_data_by_path_entry(),
{
    let mut o1: Vec<(String, JsonValue)> = Vec::new();
    add_member(&mut o1, "type", json_text("object"));
    let mut o2: Vec<(String, JsonValue)> = Vec::new();
    let mut o3: Vec<(String, JsonValue)> = Vec::new();
    add_member(&mut o3, "type", json_text("string"));
    add_member(&mut o2, "path", JsonValue::Object(o3));
    let mut o4: Vec<(String, JsonValue)> = Vec::new();
    add_member(&mut o4, "type", json_text("string"));
    add_member(&mut o2, "data_path", JsonValue::Object(o4));
    add_member(&mut o1, "properties", JsonValue::Object(o2));
    let mut a5: Vec<JsonValue> = Vec::new();
    add_item(&mut a5, json_text("path"));
    add_item(&mut a5, json_text("data_path"));
    add_member(&mut o1, "required", JsonValue::Array(a5));
    let mut fs: Vec<(String, JsonValue)> = Vec::new();
    add_member(&mut fs, "name", json_text(tool_name(ToolName::QueryDataByPath)));
    add_member(&mut fs, "description", json_text("Queries a JSON, TOML, or YAML file (format from its extension) using a dot path with optional bracket indices (e.g. data.users[0].id)."));
    add_member(&mut fs, "inputSchema", JsonValue::Object(o1));
    JsonValue::Object(fs)
}

fn get_system_info_definition() -> (r: JsonValue)
    ensures
        json_model(r) == get_system_info_entry(),
{
    let mut o1: Vec<(String, JsonValue)> = Vec::new();
    add_member(&mut o1, "type", json_text("object"));
    let mut o2: Vec<(String, JsonValue)> = Vec::new();
    add_member(&mut o1, "properties", JsonValue::Object(o2));
    let mut fs: Vec<(String, JsonValue)> = Vec::new();
    add_member(&mut fs, "name", json_text(tool_name(ToolName::GetSystemInfo)));
    add_member(&mut fs, "description", json_text("Aggregates system metadata, disk free space, user IDs, and environment parameters."));
    add_member(&mut fs, "inputSchema", JsonValue::Object(o1));
    JsonValue::Object(fs)
}

fn execute_command_definition() -> (r: JsonValue)
    ensures
        json_model(r) == execute_command_entry(),
{
    let mut o1: Vec<(String, JsonValue)> = Vec::new();
    add_member(&mut o1, "type", json_text("object"));
    let mut o2: Vec<(String, JsonValue)> = Vec::new();
    let mut o3: Vec<(String, JsonValue)> = Vec::new();
    add_member(&mut o3, "type", json_text("string"));
    add_member(&mut o2, "command", JsonValue::Object(o3));
    let mut o4: Vec<(String, JsonValue)> = Vec::new();
    add_member(&mut o4, "type", json_text("string"));
    add_member(&mut o4, "description", json_text("Directory to run the command in. Defaults to AI_WORKSPACE_ROOT if set, otherwise the server's own working directory."));
    add_member(&mut o2, "working_directory", JsonValue::Object(o4));
    let mut o5: Vec<(String, JsonValue)> = Vec::new();
    add_member(&mut o5, "type", json_text("integer"));
    add_member(&mut o5, "description", json_text("Wall-clock timeout in seconds (default 30, capped at 300)."));
    add_member(&mut o2, "timeout_seconds", JsonValue::Object(o5));
    add_member(&mut o1, "properties", JsonValue::Object(o2));
    let mut a6: Vec<JsonValue> = Vec::new();
    add_item(&mut a6, json_text("command"));
    add_member(&mut o1, "required", JsonValue::Array(a6));
    let mut fs: Vec<(String, JsonValue)> = Vec::new();
    add_member(&mut fs, "name", json_text(tool_name(ToolName::ExecuteCommand)));
    add_member(&mut fs, "description", json_text("Runs a shell command with a wall-clock timeout and an output-size guard. Provides no filesystem, network, CPU, or memory isolation from the host, and neither the command nor working_directory are subject to path-safety validation."));
    add_member(&mut fs, "inputSchema", JsonValue::Object(o1));
    JsonValue::Object(fs)
}

/// The definitions `tools/list` returns: exactly the catalogue.
pub fn tool_definitions() -> (r: JsonValue)
    ensures
        json_model(r) == tool_catalogue(),
{
    let mut items: Vec<JsonValue> = Vec::new();
    add_item(&mut items, list_dir_definition());
    add_item(&mut items, get_file_metadata_definition());
    add_item(&mut items, copy_file_or_directory_definition());
    add_item(&mut items, move_file_or_directory_definition());
    add_item(&mut items, delete_file_or_directory_definition());
    add_item(&mut items, create_dir_definition());
    add_item(&mut items, write_file_definition());
    add_item(&mut items, edit_file_definition());
    add_item(&mut items, read_file_definition());
    add_item(&mut items, search_text_definition());
    add_item(&mut items, find_files_definition());
    add_item(&mut items, filter_and_sort_matrix_columns_definition());
    add_item(&mut items, query_data_by_path_definition());
    add_item(&mut items, get_system_info_definition());
    add_item(&mut items, execute_command_definition());
    JsonValue::Array(items)
}

} // verus!
