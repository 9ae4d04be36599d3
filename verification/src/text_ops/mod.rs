//! Line-windowed reading with line-number annotations, matrix filtering and
//! sorting, and structured-data queries by path.

pub mod formats;
pub mod matrix;
pub mod query;
pub mod read;

pub use read::ReadFileResult;
