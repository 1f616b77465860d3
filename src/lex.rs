use vstd::prelude::*;

use crate::error::Error;
use crate::grammar::{token_text, tokens_view, Token, TokenModel};

verus! {

/// What the lexer carries from one character to the next.
pub struct LexState {
    /// The tokens emitted so far.
    pub tokens: Seq<TokenModel>,
    /// The literal being built.
    pub buf: Seq<char>,
    /// The previous character was an unconsumed backslash.
    pub escape: bool,
    /// Inside a `"…"` span.
    pub double_quoted: bool,
    /// Inside a `'…'` span.
    pub single_quoted: bool,
}

/// The state before the first character.
pub open spec fn lex_start() -> LexState {
    LexState {
        tokens: Seq::empty(),
        buf: Seq::empty(),
        escape: false,
        double_quoted: false,
        single_quoted: false,
    }
}

pub open spec fn is_blank(c: char) -> bool {
    c == ' ' || c == '\t'
}

/// A character that stands for an operator when it is not quoted or escaped.
pub open spec fn is_operator_char(c: char) -> bool {
    c == '|' || c == '&' || c == '>' || c == '<' || c == ';' || c == '(' || c == ')'
}

/// An operator character that may be doubled: `||`, `&&`, `>>`.
pub open spec fn is_doubling_char(c: char) -> bool {
    c == '|' || c == '&' || c == '>'
}

/// The operator that an operator character stands for alone.
pub open spec fn single_operator(c: char) -> TokenModel {
    if c == '|' {
        TokenModel::Pipe
    } else if c == '&' {
        TokenModel::Background
    } else if c == '>' {
        TokenModel::RedirectOut
    } else if c == '<' {
        TokenModel::RedirectIn
    } else if c == ';' {
        TokenModel::Semicolon
    } else if c == '(' {
        TokenModel::OpenParenthesis
    } else {
        TokenModel::CloseParenthesis
    }
}

/// The operator that a doubling character stands for when written twice.
pub open spec fn double_operator(c: char) -> TokenModel {
    if c == '|' {
        TokenModel::Or
    } else if c == '&' {
        TokenModel::And
    } else {
        TokenModel::RedirectAppend
    }
}

/// The tokens with the pending literal appended, if there is one.
pub open spec fn flush(tokens: Seq<TokenModel>, buf: Seq<char>) -> Seq<TokenModel> {
    if buf.len() > 0 {
        tokens.push(TokenModel::Input(buf))
    } else {
        tokens
    }
}

/// The tokens of `s` from position `i` on, in state `st`; or the operator
/// character that was written three times in a row.
pub open spec fn lex_from(s: Seq<char>, i: int, st: LexState) -> Result<Seq<TokenModel>, char>
    decreases s.len() - i,
{
    if i >= s.len() {
        Ok(flush(st.tokens, st.buf))
    } else {
        let c = s[i];
        let quoted = st.double_quoted || st.single_quoted;
        if st.escape {
            lex_from(s, i + 1, LexState { buf: st.buf.push(c), escape: false, ..st })
        } else if c == '\\' {
            lex_from(s, i + 1, LexState { escape: true, ..st })
        } else if c == '"' && !st.single_quoted {
            if st.double_quoted {
                lex_from(
                    s,
                    i + 1,
                    LexState {
                        tokens: st.tokens.push(TokenModel::Input(st.buf)),
                        buf: Seq::empty(),
                        double_quoted: false,
                        ..st
                    },
                )
            } else {
                lex_from(s, i + 1, LexState { double_quoted: true, ..st })
            }
        } else if c == '\'' && !st.double_quoted {
            if st.single_quoted {
                lex_from(
                    s,
                    i + 1,
                    LexState {
                        tokens: st.tokens.push(TokenModel::Input(st.buf)),
                        buf: Seq::empty(),
                        single_quoted: false,
                        ..st
                    },
                )
            } else {
                lex_from(s, i + 1, LexState { single_quoted: true, ..st })
            }
        } else if quoted || !(is_blank(c) || is_operator_char(c)) {
            lex_from(s, i + 1, LexState { buf: st.buf.push(c), ..st })
        } else {
            let tokens = flush(st.tokens, st.buf);
            let next = LexState { tokens, buf: Seq::empty(), ..st };
            if is_blank(c) {
                lex_from(s, i + 1, next)
            } else if is_doubling_char(c) && i + 1 < s.len() && s[i + 1] == c {
                if i + 2 < s.len() && s[i + 2] == c {
                    Err(c)
                } else {
                    lex_from(s, i + 2, LexState { tokens: tokens.push(double_operator(c)), ..next })
                }
            } else {
                lex_from(s, i + 1, LexState { tokens: tokens.push(single_operator(c)), ..next })
            }
        }
    }
}

/// The tokens of a whole line, or the operator character written three times.
pub open spec fn lex_spec(s: Seq<char>) -> Result<Seq<TokenModel>, char> {
    lex_from(s, 0, lex_start())
}

/// Relies on `String::push`: appends the character at the end.
#[verifier::external_body]
fn push_char(s: &mut String, c: char)
    ensures
        final(s)@ == old(s)@.push(c),
{
    s.push(c)
}

proof fn lemma_tokens_view_push(ts: Seq<Token>, t: Token)
    ensures
        tokens_view(ts.push(t)) == tokens_view(ts).push(t@),
{
    assert(tokens_view(ts.push(t)) =~= tokens_view(ts).push(t@));
}

/// Appends the pending literal, if any, and empties the buffer.
fn flush_buffer(tokens: &mut Vec<Token>, buf: &mut String)
    ensures
        tokens_view(final(tokens)@) == flush(tokens_view(old(tokens)@), old(buf)@),
        final(buf)@ == Seq::<char>::empty(),
{
    let literal = take_literal(buf);
    if !literal.as_str().is_empty() {
        proof { lemma_tokens_view_push(tokens@, Token::Input(literal)); }
        tokens.push(Token::Input(literal));
    }
}

/// Hands out the pending literal and empties the buffer.
fn take_literal(buf: &mut String) -> (r: String)
    ensures
        r@ == old(buf)@,
        final(buf)@ == Seq::<char>::empty(),
{
    let mut taken = String::new();
    std::mem::swap(&mut taken, buf);
    taken
}

fn single_token(c: char) -> (t: Token)
    requires
        is_operator_char(c),
    ensures
        t@ == single_operator(c),
{
    if c == '|' {
        Token::Pipe
    } else if c == '&' {
        Token::Background
    } else if c == '>' {
        Token::RedirectOut
    } else if c == '<' {
        Token::RedirectIn
    } else if c == ';' {
        Token::Semicolon
    } else if c == '(' {
        Token::OpenParenthesis
    } else {
        Token::CloseParenthesis
    }
}

fn double_token(c: char) -> (t: Token)
    requires
        is_doubling_char(c),
    ensures
        t@ == double_operator(c),
{
    if c == '|' {
        Token::Or
    } else if c == '&' {
        Token::And
    } else {
        Token::RedirectAppend
    }
}

/// Turns a line of text into tokens.
pub struct Lexer;

impl Lexer {
    /// Splits `line` into literal words and operators, resolving quotes and
    /// backslash escapes. Fails only on an operator character written three
    /// times in a row, naming that character.
    pub fn lex(line: &str) -> (r: Result<Vec<Token>, Error>)
        ensures
            match lex_spec(line@) {
                Ok(ts) => r is Ok && tokens_view(r->Ok_0@) == ts,
                Err(c) => r is Err && r->Err_0 == Error::Lex(c),
            },
    {
        let mut chars: Vec<char> = Vec::new();
        for c in it: line.chars()
            invariant
                chars@ == it.seq().take(it.index() as int),
        {
            chars.push(c);
        }
        assert(chars@ =~= line@);
        let ghost s = line@;
        let n = chars.len();
        let mut tokens: Vec<Token> = Vec::new();
        let mut buf = String::new();
        let mut escape = false;
        let mut double_quoted = false;
        let mut single_quoted = false;
        let mut i: usize = 0;
        assert(tokens_view(tokens@) =~= Seq::<TokenModel>::empty());
        while i < n
            invariant
                s == line@,
                chars@ == s,
                n == s.len(),
                i <= n,
                lex_spec(s) == lex_from(
                    s,
                    i as int,
                    LexState {
                        tokens: tokens_view(tokens@),
                        buf: buf@,
                        escape,
                        double_quoted,
                        single_quoted,
                    },
                ),
            decreases n - i,
        {
            let c = chars[i];
            if escape {
                push_char(&mut buf, c);
                escape = false;
                i = i + 1;
            } else if c == '\\' {
                escape = true;
                i = i + 1;
            } else if c == '"' && !single_quoted {
                double_quoted = !double_quoted;
                if !double_quoted {
                    let literal = take_literal(&mut buf);
                    proof { lemma_tokens_view_push(tokens@, Token::Input(literal)); }
                    tokens.push(Token::Input(literal));
                }
                i = i + 1;
            } else if c == '\'' && !double_quoted {
                single_quoted = !single_quoted;
                if !single_quoted {
                    let literal = take_literal(&mut buf);
                    proof { lemma_tokens_view_push(tokens@, Token::Input(literal)); }
                    tokens.push(Token::Input(literal));
                }
                i = i + 1;
            } else if double_quoted || single_quoted || !(c == ' ' || c == '\t' || operator_char(c)) {
                push_char(&mut buf, c);
                i = i + 1;
            } else {
                flush_buffer(&mut tokens, &mut buf);
                if c == ' ' || c == '\t' {
                    i = i + 1;
                } else if (c == '|' || c == '&' || c == '>') && i + 1 < n && chars[i + 1] == c {
                    if i + 2 < n && chars[i + 2] == c {
                        return Err(Error::Lex(c));
                    }
                    let t = double_token(c);
                    proof { lemma_tokens_view_push(tokens@, t); }
                    tokens.push(t);
                    i = i + 2;
                } else {
                    let t = single_token(c);
                    proof { lemma_tokens_view_push(tokens@, t); }
                    tokens.push(t);
                    i = i + 1;
                }
            }
        }
        flush_buffer(&mut tokens, &mut buf);
        Ok(tokens)
    }
}

fn operator_char(c: char) -> (r: bool)
    ensures
        r == is_operator_char(c),
{
    c == '|' || c == '&' || c == '>' || c == '<' || c == ';' || c == '(' || c == ')'
}

/// Whether a token is an operator rather than a literal word.
pub fn is_operator(token: &Token) -> (r: bool)
    ensures
        r == !(token@ is Input),
{
    !matches!(token, Token::Input(_))
}

/// A character that an unquoted word may hold and that the lexer keeps as is.
pub open spec fn is_plain(c: char) -> bool {
    !is_blank(c) && !is_operator_char(c) && c != '\\' && c != '"' && c != '\''
}

/// A non-empty word of plain characters.
pub open spec fn is_plain_word(w: Seq<char>) -> bool {
    w.len() > 0 && forall|k: int| 0 <= k < w.len() ==> is_plain(#[trigger] w[k])
}

/// The words written one after the other, separated by single spaces.
pub open spec fn join_words(ws: Seq<Seq<char>>) -> Seq<char>
    decreases ws.len(),
{
    if ws.len() == 0 {
        Seq::empty()
    } else if ws.len() == 1 {
        ws[0]
    } else {
        ws[0] + seq![' '] + join_words(ws.drop_first())
    }
}

/// The literal tokens of the given words.
pub open spec fn literals(ws: Seq<Seq<char>>) -> Seq<TokenModel> {
    ws.map_values(|w: Seq<char>| TokenModel::Input(w))
}

/// The texts of the given tokens.
pub open spec fn texts(ts: Seq<TokenModel>) -> Seq<Seq<char>> {
    ts.map_values(|t: TokenModel| token_text(t))
}

/// Outside quotes, a run of plain characters only extends the pending literal.
proof fn lemma_plain_run(s: Seq<char>, i: int, j: int, st: LexState)
    requires
        0 <= i <= j <= s.len(),
        forall|k: int| i <= k < j ==> is_plain(#[trigger] s[k]),
        !st.escape,
        !st.double_quoted,
        !st.single_quoted,
    ensures
        lex_from(s, i, st) == lex_from(s, j, LexState { buf: st.buf + s.subrange(i, j), ..st }),
    decreases j - i,
{
    if i == j {
        assert(st.buf + s.subrange(i, j) =~= st.buf);
    } else {
        let next = LexState { buf: st.buf.push(s[i]), ..st };
        lemma_plain_run(s, i + 1, j, next);
        assert(next.buf + s.subrange(i + 1, j) =~= st.buf + s.subrange(i, j));
    }
}

proof fn lemma_words_from(s: Seq<char>, i: int, ws: Seq<Seq<char>>, st: LexState)
    requires
        0 <= i <= s.len(),
        s.subrange(i, s.len() as int) == join_words(ws),
        forall|k: int| 0 <= k < ws.len() ==> is_plain_word(#[trigger] ws[k]),
        st.buf.len() == 0,
        !st.escape,
        !st.double_quoted,
        !st.single_quoted,
    ensures
        lex_from(s, i, st) == Ok::<Seq<TokenModel>, char>(st.tokens + literals(ws)),
    decreases ws.len(),
{
    if ws.len() == 0 {
        assert(st.tokens + literals(ws) =~= st.tokens);
    } else {
        let w = ws[0];
        let j = i + w.len();
        assert(is_plain_word(ws[0]));
        let rest = ws.drop_first();
        if ws.len() == 1 {
            assert(s.subrange(i, s.len() as int) == w);
        } else {
            assert(s.subrange(i, s.len() as int) == w + seq![' '] + join_words(rest));
        }
        assert(s.subrange(i, j) =~= w) by {
            assert forall|k: int| 0 <= k < w.len() implies s.subrange(i, j)[k] == w[k] by {
                assert(s[i + k] == s.subrange(i, s.len() as int)[k]);
            }
        }
        assert forall|k: int| i <= k < j implies is_plain(#[trigger] s[k]) by {
            assert(s[k] == s.subrange(i, s.len() as int)[k - i]);
            assert(s[k] == w[k - i]);
        }
        lemma_plain_run(s, i, j, st);
        assert(st.buf + s.subrange(i, j) =~= w);
        let tokens = st.tokens.push(TokenModel::Input(w));
        if ws.len() == 1 {
            assert(j == s.len()) by {
                assert(s.subrange(i, s.len() as int).len() == w.len());
            }
            assert(tokens =~= st.tokens + literals(ws));
        } else {
            assert(s[j] == ' ') by {
                assert(s[j] == s.subrange(i, s.len() as int)[w.len() as int]);
            }
            assert(s.subrange(j + 1, s.len() as int) =~= join_words(rest)) by {
                let tail = s.subrange(i, s.len() as int);
                assert(tail =~= w + seq![' '] + join_words(rest));
                assert forall|k: int| 0 <= k < s.len() - (j + 1) implies
                    s.subrange(j + 1, s.len() as int)[k] == join_words(rest)[k] by {
                    assert(s[j + 1 + k] == tail[w.len() + 1 + k]);
                }
            }
            let next = LexState { tokens, buf: Seq::empty(), ..st };
            assert forall|k: int| 0 <= k < rest.len() implies is_plain_word(#[trigger] rest[k]) by {
                assert(rest[k] == ws[k + 1]);
            }
            lemma_words_from(s, j + 1, rest, next);
            assert(tokens + literals(rest) =~= st.tokens + literals(ws));
        }
    }
}

/// Lexing words of plain characters written with single spaces between
/// them gives exactly those words as literal tokens, and joining the texts
/// of those tokens with single spaces gives the line back.
pub proof fn lemma_lex_unquoted_words(ws: Seq<Seq<char>>)
    requires
        forall|k: int| 0 <= k < ws.len() ==> is_plain_word(#[trigger] ws[k]),
    ensures
        lex_spec(join_words(ws)) == Ok::<Seq<TokenModel>, char>(literals(ws)),
        join_words(texts(literals(ws))) == join_words(ws),
{
    let s = join_words(ws);
    assert(s.subrange(0, s.len() as int) =~= s);
    lemma_words_from(s, 0, ws, lex_start());
    assert(lex_start().tokens + literals(ws) =~= literals(ws));
    assert(texts(literals(ws)) =~= ws);
}

} // verus!
