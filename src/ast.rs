use vstd::prelude::*;

use crate::grammar::{tokens_view, Token, TokenModel};

verus! {

/// The command structure of one line. Each node owns its children.
#[derive(Debug, PartialEq)]
pub enum Ast {
    Command { command: Token, args: Vec<Token> },
    Pipe { left: Box<Ast>, right: Box<Ast> },
    RedirectOut { left: Box<Ast>, right: Token },
    RedirectAppend { left: Box<Ast>, right: Token },
    And { left: Box<Ast>, right: Box<Ast> },
    Or { left: Box<Ast>, right: Box<Ast> },
    Sequence { left: Box<Ast>, right: Box<Ast> },
    Subshell { inner: Box<Ast> },
    Background { inner: Box<Ast> },
    /// Nothing to run, as after a trailing `;`.
    Empty,
}

/// The mathematical value of an [`Ast`].
pub enum AstModel {
    Command { command: TokenModel, args: Seq<TokenModel> },
    Pipe { left: Box<AstModel>, right: Box<AstModel> },
    RedirectOut { left: Box<AstModel>, right: TokenModel },
    RedirectAppend { left: Box<AstModel>, right: TokenModel },
    And { left: Box<AstModel>, right: Box<AstModel> },
    Or { left: Box<AstModel>, right: Box<AstModel> },
    Sequence { left: Box<AstModel>, right: Box<AstModel> },
    Subshell { inner: Box<AstModel> },
    Background { inner: Box<AstModel> },
    Empty,
}

/// The model of a tree, node by node.
pub open spec fn ast_model(a: &Ast) -> AstModel
    decreases a,
{
    match a {
        Ast::Command { command, args } => AstModel::Command {
            command: command@,
            args: tokens_view(args@),
        },
        Ast::Pipe { left, right } => AstModel::Pipe {
            left: Box::new(ast_model(left)),
            right: Box::new(ast_model(right)),
        },
        Ast::RedirectOut { left, right } => AstModel::RedirectOut {
            left: Box::new(ast_model(left)),
            right: right@,
        },
        Ast::RedirectAppend { left, right } => AstModel::RedirectAppend {
            left: Box::new(ast_model(left)),
            right: right@,
        },
        Ast::And { left, right } => AstModel::And {
            left: Box::new(ast_model(left)),
            right: Box::new(ast_model(right)),
        },
        Ast::Or { left, right } => AstModel::Or {
            left: Box::new(ast_model(left)),
            right: Box::new(ast_model(right)),
        },
        Ast::Sequence { left, right } => AstModel::Sequence {
            left: Box::new(ast_model(left)),
            right: Box::new(ast_model(right)),
        },
        Ast::Subshell { inner } => AstModel::Subshell { inner: Box::new(ast_model(inner)) },
        Ast::Background { inner } => AstModel::Background { inner: Box::new(ast_model(inner)) },
        Ast::Empty => AstModel::Empty,
    }
}

impl View for Ast {
    type V = AstModel;

    open spec fn view(&self) -> AstModel {
        ast_model(self)
    }
}

} // verus!
