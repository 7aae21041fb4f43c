//! A verified front end and execution engine for a minimal line-numbered
//! imperative language: a lexer, a recursive-descent parser, a sparse
//! line-number-addressed program store, and a tree-walking interpreter with
//! GOTO/GOSUB/RETURN control flow.
//!
//! The interpreter performs no I/O of its own: input lines arrive as data,
//! and everything the program emits is recorded as output events, so a host
//! can drive a terminal, a file store, or a test from the same verified core.

pub mod ast;
pub mod errors;
pub mod interpreter;
pub mod io;
pub mod laws;
pub mod lexer;
pub mod parser;
pub mod program;
pub mod text;
pub mod vars;
