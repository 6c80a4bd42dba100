//! Front end of a small programming language: a lexer from source text to
//! tokens and a parser from tokens to a syntax tree. Each is proved to
//! compute exactly what the lexical rules (`lexer::lex_spec`) and the
//! grammar (`grammar::file`) say.
pub mod ast;
pub mod compiler;
pub mod grammar;
pub mod laws;
pub mod lexer;
pub mod parser;
pub mod types;

