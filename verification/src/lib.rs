//! Front end for a small imperative expression language: a tokenizer that
//! turns source text into a stream of classified tokens, and a
//! recursive-descent / precedence-climbing parser that turns the token stream
//! into an abstract syntax tree while accumulating diagnostics for malformed
//! input instead of aborting.

pub mod token;
pub mod lexer;
pub mod ast;
pub mod parser;
pub mod repl;
