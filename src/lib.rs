//! Turns observed process executions into a compilation database: which
//! executions are compiler calls, what each one compiles, and how the
//! resulting entries merge with a database that already exists.

pub mod text;
pub mod pass;
pub mod pattern;
pub mod flags;
pub mod shell;
pub mod compiler;
pub mod call;
pub mod entry;
pub mod event;
pub mod builder;
pub mod supervisor;
