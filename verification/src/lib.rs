//! TraceHell shows where Rust's `?` operator hands an error back: it makes an
//! instrumented copy of a Cargo workspace in which every `?` expression
//! reports the error it propagates, and runs commands in that copy.
//!
//! This library holds the program's decisions, each with its contract:
//! reading the command line (`parse`), the trace directories and their names
//! (`create`, `paths`), which files are rewritten, what a `?` becomes and how
//! the rest of the workspace is copied (`engine`), the terminal command line
//! (`configs`) and the filter that a command passes before it runs
//! (`safety`).

pub mod configs;
pub mod create;
pub mod engine;
pub mod error;
pub mod parse;
pub mod paths;
pub mod safety;
pub mod text;
