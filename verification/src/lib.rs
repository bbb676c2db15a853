//! A small concatenative, stack-based scripting language: parser and
//! evaluation engine.
//!
//! Source text parses into a sequence of statements that execute left to
//! right against an explicit value stack. Blocks (`{ ... }`) are first-class
//! procedures, sequences (`[ ... ]`) are first-class lists, and words bind at
//! runtime through a definition construct.

pub mod ast;
pub mod error;
pub mod interpreter;
pub mod laws;
pub mod model;
pub mod parser;
pub mod roundtrip;
pub mod text;
pub mod value;

pub use ast::{Builtin, Expression, Literal, Procedure, Program, Statement};
pub use error::RuntimeError;
pub use parser::{bool, builtin, definition, expression, identifier, list, literal, procedure, program, statement, statements, string, ParseError, Rule};
pub use interpreter::Interpreter;
pub use value::{value_cmp, value_eq, Order, Value};
