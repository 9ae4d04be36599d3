//! Core library of an AI-oriented utility toolkit: path guardrails, output
//! truncation, content-addressed and line-range file editing, line-windowed
//! reading, matrix filtering, structured-data queries, search, command
//! execution decisions and the server's routing, with every decision the
//! tools make stated as a contract and proved.

pub mod dispatch;
pub mod errors;
pub mod file_ops;
pub mod guardrails;
pub mod rpc_types;
pub mod search_ops;
pub mod sys_ops;
pub mod text;
pub mod text_ops;
pub mod tools;

pub use errors::{CoreError, CoreResult};
