//! Verified core of the Velr command-line shell: argument parsing, query
//! scanning, REPL command handling and result-table rendering.
//!
//! The shell around it (terminal I/O, the line editor, the database
//! driver) hands this library plain values and prints what it returns.

pub mod args;
pub mod escape;
pub mod lexer;
pub mod listing;
pub mod repl;
pub mod table;
pub mod text;
pub mod roundtrip;
