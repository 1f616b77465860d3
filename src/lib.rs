//! A small command-line interpreter: a lexer that turns a line into tokens,
//! a parser that reduces the tokens to a command tree, and an executor that
//! walks the tree one decision at a time while its caller starts the
//! processes.
pub mod ast;
pub mod error;
pub mod exec;
pub mod grammar;
pub mod lex;
pub mod parse;
pub mod pipeline;
