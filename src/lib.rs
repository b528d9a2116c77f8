//! A small scripting language: a lexer turns source text into tokens, a
//! parser turns tokens into statements, and an interpreter runs the
//! statements against an environment of text-valued variables.

pub mod ast;
pub mod fault;
pub mod interpreter;
pub mod laws;
pub mod lexer;
pub mod pipeline;
pub mod text;
