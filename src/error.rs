use vstd::prelude::*;

use crate::grammar::{Token, TokenModel};

verus! {

/// Why a command line was rejected before anything ran.
#[derive(Debug, PartialEq)]
pub enum Error {
    /// An operator character written three times in a row (`|||`, `&&&`, `>>>`).
    Lex(char),
    /// A token where the command structure cannot continue; an empty literal
    /// when the line holds no command at all.
    Parse(Token),
}

/// The mathematical value of an [`Error`].
pub enum ErrorModel {
    Lex(char),
    Parse(TokenModel),
}

impl View for Error {
    type V = ErrorModel;

    open spec fn view(&self) -> ErrorModel {
        match self {
            Error::Lex(c) => ErrorModel::Lex(*c),
            Error::Parse(t) => ErrorModel::Parse(t@),
        }
    }
}

} // verus!
