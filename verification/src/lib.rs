//! Decisions of a file-opener dispatcher: which path an argument names, which
//! MIME type a detector reported, which configured command opens that type,
//! how the command is handed to a shell, and what is said when the run is
//! given up. Everything here computes on plain values; reading files and
//! running programs is left to the caller.

pub mod config;
pub mod detect;
pub mod launch;
pub mod message;
pub mod path;
pub mod pipeline;
pub mod text;
