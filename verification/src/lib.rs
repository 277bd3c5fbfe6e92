//! A small front end for an SQL-like language: a lexer that turns source
//! text into a token sequence, and a precedence-climbing parser that turns
//! the token sequence into an arithmetic expression tree.
//!
//! Every executable function is verified against a mathematical model:
//! `tokenizer::spec_tokenize` for the lexer and `parser::spec_expr` for
//! the parser. The general laws of the lexer are proved in `laws`.

pub mod ast;
pub mod error;
pub mod laws;
pub mod parser;
pub mod tokenizer;
