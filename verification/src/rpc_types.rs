//! The arguments each tool takes, as plain values.

use vstd::prelude::*;
use crate::file_ops::edit::EditChunk;

verus! {

/// A single path.
#[derive(Debug, Default)]
pub struct PathArgs {
    pub path: String,
}

/// An optional directory to list.
#[derive(Debug, Default)]
pub struct ListDirArgs {
    pub path: Option<String>,
}

/// A source and a destination.
#[derive(Debug, Default)]
pub struct CopyMoveArgs {
    pub source: String,
    pub destination: String,
}

/// A file to write, its content, and whether an existing file may be
/// replaced.
#[derive(Debug, Default)]
pub struct WriteFileArgs {
    pub path: String,
    pub content: String,
    pub overwrite: Option<bool>,
}

/// A file to edit and the chunks to apply.
#[derive(Debug, Default)]
pub struct EditFileArgs {
    pub path: String,
    pub edits: Vec<EditChunk>,
}

/// A file to read and the 1-indexed line to start at.
#[derive(Debug, Default)]
pub struct ReadArgs {
    pub path: String,
    pub start_line: Option<usize>,
}

/// A text search.
#[derive(Debug, Default)]
pub struct SearchTextArgs {
    pub search_root_or_file: String,
    pub query_string: String,
    pub is_regex: Option<bool>,
}

/// A file search.
#[derive(Debug, Default)]
pub struct SearchFileArgs {
    pub search_root: Option<String>,
    pub name_pattern: Option<String>,
    pub file_type: Option<String>,
}

/// A matrix filter.
#[derive(Debug, Default)]
pub struct FilterSortArgs {
    pub path: String,
    pub columns: Vec<String>,
    pub deduplicate: Option<bool>,
}

/// A structured-data query.
#[derive(Debug, Default)]
pub struct QueryJsonArgs {
    pub path: String,
    pub json_path: String,
}

/// A shell command to run.
#[derive(Debug, Default)]
pub struct ExecCmdArgs {
    pub command: String,
    pub working_directory: Option<String>,
    pub timeout_seconds: Option<u64>,
}

} // verus!
