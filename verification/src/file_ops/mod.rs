//! The decisions behind the file tools: content-addressed multi-chunk
//! editing, line-range editing, write guards and directory listings.

pub mod edit;
pub mod line_edit;
pub mod listing;

pub use edit::EditChunk;
