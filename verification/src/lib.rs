//! A verified interpreter for a small pipelined, tabular query language:
//! statements separated by `|`, commands such as `generate`, `eval` and
//! `where`, operating on one in-memory table of text cells.
//!
//! The crate is organised like the pipeline itself: `scanner` turns text
//! into tokens, `parser` turns tokens into a typed parse tree, `command`
//! evaluates expressions and runs the commands against the table in
//! `output`, and `interpreter` drives whole programs.
pub mod command;
pub mod errors;
pub mod interpreter;
pub mod output;
pub mod parser;
pub mod scanner;
pub mod text;
