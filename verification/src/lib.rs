//! Short aliases for long shell commands: the record store, its file format,
//! and the expansion of an alias with its arguments into command-line tokens.

pub mod command;
pub mod database;
pub mod error;
pub mod format;
pub mod replace;
pub mod table;
pub mod util;
