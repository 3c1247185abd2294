//! Textual function-call expressions: a parser that turns `name(arg, ...)`
//! into a call tree, a closed value model for literal arguments, and a
//! registry that dispatches a call by name to host-defined functions.

pub mod value;
pub mod ast;
pub mod grammar;
pub mod parse;
pub mod registry;
pub mod natives;
