//! A small expression calculator: a character scanner, a precedence-climbing
//! (Pratt) parser, and a tree-walking evaluator with a persistent variable
//! store.
//!
//! Numeric values are IEEE-754 double-precision numbers owned by the host of
//! the library: the library carries them as opaque 64-bit payloads (`u64` bit
//! patterns) and literal texts, and asks the host to perform each primitive
//! numeric operation through an explicit request/reply exchange. Everything
//! else — scanning, parsing, operator binding powers, evaluation order,
//! the variable store and every error decision — is verified here.

pub mod env;
pub mod errors;
pub mod interpreter;
pub mod laws;
pub mod lexer;
pub mod parser;

pub use errors::{EvalError, InterpretError, LexError, ParseError};
pub use interpreter::{interpret_to_tree_string, Interpreter, Reply, Request, RoundResult};
