use vstd::prelude::*;

use crate::ast::AstModel;
use crate::error::{Error, ErrorModel};
use crate::exec::{starts, Executor};
use crate::lex::{lex_spec, Lexer};
use crate::parse::{parse_spec, Parser};

verus! {

/// The tree of a line of text, or why the line is rejected.
pub open spec fn pipeline_spec(s: Seq<char>) -> Result<AstModel, ErrorModel> {
    match lex_spec(s) {
        Err(c) => Err(ErrorModel::Lex(c)),
        Ok(ts) => match parse_spec(ts) {
            Ok(a) => Ok(a),
            Err(t) => Err(ErrorModel::Parse(t)),
        },
    }
}

/// From a line of text to the executor that runs it.
pub struct Pipeline;

impl Pipeline {
    /// Lexes and parses `input`, and readies an executor for its tree.
    /// Fails with the lexer's or the parser's error; nothing has run then.
    pub fn run(input: &str) -> (r: Result<Executor, Error>)
        ensures
            match pipeline_spec(input@) {
                Ok(a) => r is Ok && starts(&r->Ok_0, a),
                Err(e) => r is Err && r->Err_0@ == e,
            },
    {
        let tokens = match Lexer::lex(input) {
            Ok(tokens) => tokens,
            Err(e) => {
                return Err(e);
            },
        };
        let ast = match Parser::parse(tokens.as_slice()) {
            Ok(ast) => ast,
            Err(e) => {
                return Err(e);
            },
        };
        Ok(Executor::new(ast))
    }
}

} // verus!
