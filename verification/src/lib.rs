//! A minimal line-oriented BASIC-style interpreter.
//!
//! One line of text at a time is parsed into a [`ast::Stmt`] and executed
//! against the interpreter state: a variable store, a registry of stored
//! program lines, and a table of built-in commands. Parsing, expression
//! evaluation and statement execution are pure computation over that state;
//! the surrounding read/print loop lives outside this crate and only moves
//! plain values in and out.

pub mod ast;
pub mod decimal;
pub mod eval;
pub mod exec;
pub mod parse_line;
pub mod store;
