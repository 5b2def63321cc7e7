//! Braindump: append-only capture of timestamped notes into one Markdown file.
//!
//! The library holds the rules of the tool: the file format, how notes are
//! cleaned up, how the command line is read, how the config is written and
//! read back, how a braindump file is merged into another, and the decisions
//! that setup and uninstall take. The program around it does the I/O.

pub mod cli;
pub mod config;
pub mod journal;
pub mod migration;
pub mod note;
pub mod paths;
pub mod setup;
pub mod stamp;
pub mod text;
pub mod uninstall;
