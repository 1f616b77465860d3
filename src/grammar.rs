use vstd::prelude::*;

verus! {

/// A lexical unit of a command line: a literal word with its quotes and
/// escapes already resolved, or one of the fixed operator symbols.
#[derive(Debug, PartialEq)]
pub enum Token {
    Input(String),
    Pipe,
    RedirectOut,
    RedirectAppend,
    RedirectIn,
    Background,
    And,
    Or,
    Semicolon,
    OpenParenthesis,
    CloseParenthesis,
}

/// The mathematical value of a [`Token`]: a literal is its character sequence.
pub enum TokenModel {
    Input(Seq<char>),
    Pipe,
    RedirectOut,
    RedirectAppend,
    RedirectIn,
    Background,
    And,
    Or,
    Semicolon,
    OpenParenthesis,
    CloseParenthesis,
}

impl View for Token {
    type V = TokenModel;

    open spec fn view(&self) -> TokenModel {
        match self {
            Token::Input(s) => TokenModel::Input(s@),
            Token::Pipe => TokenModel::Pipe,
            Token::RedirectOut => TokenModel::RedirectOut,
            Token::RedirectAppend => TokenModel::RedirectAppend,
            Token::RedirectIn => TokenModel::RedirectIn,
            Token::Background => TokenModel::Background,
            Token::And => TokenModel::And,
            Token::Or => TokenModel::Or,
            Token::Semicolon => TokenModel::Semicolon,
            Token::OpenParenthesis => TokenModel::OpenParenthesis,
            Token::CloseParenthesis => TokenModel::CloseParenthesis,
        }
    }
}

/// The views of a sequence of tokens, element by element.
pub open spec fn tokens_view(ts: Seq<Token>) -> Seq<TokenModel> {
    ts.map_values(|t: Token| t@)
}

/// How a token is written on a command line.
pub open spec fn token_text(t: TokenModel) -> Seq<char> {
    match t {
        TokenModel::Input(s) => s,
        TokenModel::Pipe => seq!['|'],
        TokenModel::RedirectOut => seq!['>'],
        TokenModel::RedirectAppend => seq!['>', '>'],
        TokenModel::RedirectIn => seq!['<'],
        TokenModel::Background => seq!['&'],
        TokenModel::And => seq!['&', '&'],
        TokenModel::Or => seq!['|', '|'],
        TokenModel::Semicolon => seq![';'],
        TokenModel::OpenParenthesis => seq!['('],
        TokenModel::CloseParenthesis => seq![')'],
    }
}

impl Clone for Token {
    fn clone(&self) -> (r: Token)
        ensures
            r == *self,
    {
        match self {
            Token::Input(s) => Token::Input(s.clone()),
            Token::Pipe => Token::Pipe,
            Token::RedirectOut => Token::RedirectOut,
            Token::RedirectAppend => Token::RedirectAppend,
            Token::RedirectIn => Token::RedirectIn,
            Token::Background => Token::Background,
            Token::And => Token::And,
            Token::Or => Token::Or,
            Token::Semicolon => Token::Semicolon,
            Token::OpenParenthesis => Token::OpenParenthesis,
            Token::CloseParenthesis => Token::CloseParenthesis,
        }
    }
}

impl Token {
    /// The token as it is written on a command line.
    #[allow(clippy::inherent_to_string)]
    pub fn to_string(&self) -> (r: String)
        ensures
            r@ == token_text(self@),
    {
        match self {
            Token::Input(s) => s.clone(),
            Token::Pipe => {
                proof { reveal_strlit("|"); }
                String::from_str("|")
            },
            Token::RedirectOut => {
                proof { reveal_strlit(">"); }
                String::from_str(">")
            },
            Token::RedirectAppend => {
                proof { reveal_strlit(">>"); }
                String::from_str(">>")
            },
            Token::RedirectIn => {
                proof { reveal_strlit("<"); }
                String::from_str("<")
            },
            Token::Background => {
                proof { reveal_strlit("&"); }
                String::from_str("&")
            },
            Token::And => {
                proof { reveal_strlit("&&"); }
                String::from_str("&&")
            },
            Token::Or => {
                proof { reveal_strlit("||"); }
                String::from_str("||")
            },
            Token::Semicolon => {
                proof { reveal_strlit(";"); }
                String::from_str(";")
            },
            Token::OpenParenthesis => {
                proof { reveal_strlit("("); }
                String::from_str("(")
            },
            Token::CloseParenthesis => {
                proof { reveal_strlit(")"); }
                String::from_str(")")
            },
        }
    }
}

} // verus!
