//! Mechanical safety boundaries shared by every tool: path safety
//! validation and output truncation.

pub mod lexical;
pub mod path_safety;
pub mod truncation;

pub use path_safety::{ensure_existing_read_path, validate_path_safety, validate_read_path_safety};
pub use truncation::{truncate_output, TruncateResult};
