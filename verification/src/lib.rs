//! A small SQL-like front end: a tokenizer that turns source text into a
//! stream of typed tokens, and a precedence-aware recursive-descent parser
//! that builds a statement tree from that stream.

pub mod ast;
pub mod lexer;
pub mod parser;
