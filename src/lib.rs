//! A small line-oriented command interpreter: command classification,
//! redirection, background jobs and a bounded history, with the decisions
//! verified and the host file system left to the caller.
//!
//! `Emulator::process_command` turns a line into a `Plan`: a `Job` that is
//! either finished or names the host work it needs, and the file its result
//! goes to, if any. The host does that work and hands the outcome back to the
//! completion functions (`change_directory`, `input_result`,
//! `removal_check`, `list_directory_with_args`, `redirect_payload`).
pub mod command;
pub mod emulator;
pub mod history;
pub mod laws;
pub mod listing;
pub mod path;
pub mod sort;
pub mod text;
