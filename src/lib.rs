//! Command-line post-processor around a source formatter for ChucK code.
//!
//! The library holds the decisions of the tool: how the argument list splits
//! into formatter options and target files, how a file list is read, which
//! formatter binary is used, which mode an invocation runs in, and the text
//! rewrites applied before and after the formatter runs.
pub mod text;
pub mod args;
pub mod transform;
pub mod driver;
