use vstd::prelude::*;

use crate::ast::{Ast, AstModel};
use crate::error::{Error, ErrorModel};
use crate::grammar::{tokens_view, Token, TokenModel};
use crate::lex::is_operator;

verus! {

/// The first position at or after `k`, below `hi`, that holds an operator;
/// `hi` if there is none.
pub open spec fn words_end(t: Seq<TokenModel>, k: int, hi: int) -> int
    decreases hi - k,
{
    if k >= hi {
        hi
    } else if t[k] is Input {
        words_end(t, k + 1, hi)
    } else {
        k
    }
}

/// The position of the `)` that closes a group, scanning from `k` at nesting
/// `depth` (1 just inside the group's `(`); `hi` if the group is not closed.
pub open spec fn group_end(t: Seq<TokenModel>, k: int, hi: int, depth: int) -> int
    decreases hi - k,
{
    if k >= hi {
        hi
    } else if t[k] is CloseParenthesis {
        if depth <= 1 {
            k
        } else {
            group_end(t, k + 1, hi, depth - 1)
        }
    } else if t[k] is OpenParenthesis {
        group_end(t, k + 1, hi, depth + 1)
    } else {
        group_end(t, k + 1, hi, depth)
    }
}

/// A run of words ends within its range.
pub proof fn lemma_words_end_bounds(t: Seq<TokenModel>, k: int, hi: int)
    requires
        k <= hi,
    ensures
        k <= words_end(t, k, hi) <= hi,
    decreases hi - k,
{
    if k < hi && t[k] is Input {
        lemma_words_end_bounds(t, k + 1, hi);
    }
}

/// A group ends within its range.
pub proof fn lemma_group_end_bounds(t: Seq<TokenModel>, k: int, hi: int, depth: int)
    requires
        k <= hi,
    ensures
        k <= group_end(t, k, hi, depth) <= hi,
    decreases hi - k,
{
    if k < hi {
        if t[k] is CloseParenthesis {
            if depth > 1 {
                lemma_group_end_bounds(t, k + 1, hi, depth - 1);
            }
        } else if t[k] is OpenParenthesis {
            lemma_group_end_bounds(t, k + 1, hi, depth + 1);
        } else {
            lemma_group_end_bounds(t, k + 1, hi, depth);
        }
    }
}

/// Whether a literal word stands at position `k`, below `hi`.
pub open spec fn literal_at(t: Seq<TokenModel>, k: int, hi: int) -> bool {
    0 <= k < hi && t[k] is Input
}

/// The command whose program is the word at `k`, with the words that follow
/// it, below `hi`, as its arguments.
pub open spec fn command_at(t: Seq<TokenModel>, k: int, hi: int) -> AstModel {
    AstModel::Command { command: t[k], args: t.subrange(k + 1, words_end(t, k + 1, hi)) }
}

/// The node that a `|`, `&&`, `||` or `;` makes of its two operands.
pub open spec fn binary_node(op: TokenModel, left: AstModel, right: AstModel) -> AstModel {
    match op {
        TokenModel::Pipe => AstModel::Pipe { left: Box::new(left), right: Box::new(right) },
        TokenModel::And => AstModel::And { left: Box::new(left), right: Box::new(right) },
        TokenModel::Or => AstModel::Or { left: Box::new(left), right: Box::new(right) },
        _ => AstModel::Sequence { left: Box::new(left), right: Box::new(right) },
    }
}

/// The node that a `>` or `>>` makes of its operand and target.
pub open spec fn redirect_node(op: TokenModel, left: AstModel, target: TokenModel) -> AstModel {
    match op {
        TokenModel::RedirectOut => AstModel::RedirectOut { left: Box::new(left), right: target },
        _ => AstModel::RedirectAppend { left: Box::new(left), right: target },
    }
}

/// The stack of completed subtrees after reducing the tokens from `i` up to
/// `hi`, starting from the stack `nodes`; or the token at which the
/// structure breaks.
pub open spec fn parse_loop(t: Seq<TokenModel>, hi: int, i: int, nodes: Seq<AstModel>) -> Result<
    Seq<AstModel>,
    TokenModel,
>
    decreases hi - i, 0int,
{
    if i < 0 || i >= hi || hi > t.len() {
        Ok(nodes)
    } else {
        let tok = t[i];
        let left = nodes.last();
        let rest = nodes.drop_last();
        match tok {
            TokenModel::Input(_) => {
                proof {
                    lemma_words_end_bounds(t, i + 1, hi);
                }
                parse_loop(t, hi, words_end(t, i + 1, hi), nodes.push(command_at(t, i, hi)))
            },
            TokenModel::Pipe | TokenModel::And | TokenModel::Or => {
                if nodes.len() == 0 || !literal_at(t, i + 1, hi) {
                    Err(tok)
                } else {
                    proof {
                        lemma_words_end_bounds(t, i + 2, hi);
                    }
                    parse_loop(
                        t,
                        hi,
                        words_end(t, i + 2, hi),
                        rest.push(binary_node(tok, left, command_at(t, i + 1, hi))),
                    )
                }
            },
            TokenModel::Semicolon => {
                if nodes.len() == 0 {
                    Err(tok)
                } else if i + 1 == hi {
                    parse_loop(
                        t,
                        hi,
                        hi,
                        rest.push(
                            AstModel::Sequence { left: Box::new(left), right: Box::new(AstModel::Empty) },
                        ),
                    )
                } else if !literal_at(t, i + 1, hi) {
                    Err(tok)
                } else {
                    proof {
                        lemma_words_end_bounds(t, i + 2, hi);
                    }
                    parse_loop(
                        t,
                        hi,
                        words_end(t, i + 2, hi),
                        rest.push(binary_node(tok, left, command_at(t, i + 1, hi))),
                    )
                }
            },
            TokenModel::RedirectOut | TokenModel::RedirectAppend => {
                if nodes.len() == 0 || !literal_at(t, i + 1, hi) {
                    Err(tok)
                } else {
                    parse_loop(t, hi, i + 2, rest.push(redirect_node(tok, left, t[i + 1])))
                }
            },
            TokenModel::Background => {
                if nodes.len() == 0 {
                    Err(tok)
                } else {
                    parse_loop(t, hi, i + 1, rest.push(AstModel::Background { inner: Box::new(left) }))
                }
            },
            TokenModel::OpenParenthesis => {
                proof {
                    lemma_group_end_bounds(t, i + 1, hi, 1);
                }
                let j = group_end(t, i + 1, hi, 1);
                match parse_range(t, i + 1, j) {
                    Ok(inner) => parse_loop(
                        t,
                        hi,
                        if j < hi {
                            j + 1
                        } else {
                            hi
                        },
                        nodes.push(AstModel::Subshell { inner: Box::new(inner) }),
                    ),
                    Err(e) => Err(e),
                }
            },
            _ => Err(tok),
        }
    }
}

/// The tree of the tokens from `lo` up to `hi`: the single subtree left
/// after reducing them, or the token at which the structure breaks; an empty
/// literal when no single subtree remains.
pub open spec fn parse_range(t: Seq<TokenModel>, lo: int, hi: int) -> Result<AstModel, TokenModel>
    decreases hi - lo, 1int,
{
    match parse_loop(t, hi, lo, Seq::empty()) {
        Ok(nodes) => if nodes.len() == 1 {
            Ok(nodes[0])
        } else {
            Err(TokenModel::Input(Seq::empty()))
        },
        Err(e) => Err(e),
    }
}

/// The tree of a whole token sequence.
pub open spec fn parse_spec(t: Seq<TokenModel>) -> Result<AstModel, TokenModel> {
    parse_range(t, 0, t.len() as int)
}

/// The shape that every parsed tree has: a command's program and arguments
/// are literals, a redirection's target is a literal, the right side of `|`,
/// `&&` and `||` is a command, that of `;` a command or nothing, and no left
/// side or inner tree is empty.
pub open spec fn well_formed(a: AstModel) -> bool
    decreases a,
{
    match a {
        AstModel::Command { command, args } => command is Input && forall|k: int|
            0 <= k < args.len() ==> (#[trigger] args[k]) is Input,
        AstModel::Pipe { left, right } => well_formed(*left) && *right is Command && well_formed(
            *right,
        ),
        AstModel::And { left, right } => well_formed(*left) && *right is Command && well_formed(
            *right,
        ),
        AstModel::Or { left, right } => well_formed(*left) && *right is Command && well_formed(
            *right,
        ),
        AstModel::Sequence { left, right } => well_formed(*left) && (*right is Empty || (
        *right is Command && well_formed(*right))),
        AstModel::RedirectOut { left, right } => well_formed(*left) && right is Input,
        AstModel::RedirectAppend { left, right } => well_formed(*left) && right is Input,
        AstModel::Subshell { inner } => well_formed(*inner),
        AstModel::Background { inner } => well_formed(*inner),
        AstModel::Empty => false,
    }
}

proof fn lemma_words_end_literals(t: Seq<TokenModel>, k: int, hi: int)
    requires
        0 <= k <= hi <= t.len(),
    ensures
        forall|m: int| k <= m < words_end(t, k, hi) ==> (#[trigger] t[m]) is Input,
    decreases hi - k,
{
    if k < hi && t[k] is Input {
        lemma_words_end_literals(t, k + 1, hi);
    }
}

proof fn lemma_command_at_well_formed(t: Seq<TokenModel>, k: int, hi: int)
    requires
        literal_at(t, k, hi),
        hi <= t.len(),
    ensures
        well_formed(command_at(t, k, hi)),
{
    lemma_words_end_literals(t, k + 1, hi);
    lemma_words_end_bounds(t, k + 1, hi);
    let args = t.subrange(k + 1, words_end(t, k + 1, hi));
    assert forall|m: int| 0 <= m < args.len() implies (#[trigger] args[m]) is Input by {
        assert(args[m] == t[k + 1 + m]);
    }
}

proof fn lemma_parse_loop_well_formed(t: Seq<TokenModel>, hi: int, i: int, nodes: Seq<AstModel>)
    requires
        forall|k: int| 0 <= k < nodes.len() ==> well_formed(#[trigger] nodes[k]),
    ensures
        parse_loop(t, hi, i, nodes) is Ok ==> forall|k: int|
            0 <= k < parse_loop(t, hi, i, nodes)->Ok_0.len() ==> well_formed(
                #[trigger] parse_loop(t, hi, i, nodes)->Ok_0[k],
            ),
    decreases hi - i, 0int,
{
    if i < 0 || i >= hi || hi > t.len() {
    } else {
        let tok = t[i];
        let left = nodes.last();
        let rest = nodes.drop_last();
        if nodes.len() > 0 {
            assert(well_formed(nodes[nodes.len() - 1]));
            assert forall|k: int| 0 <= k < rest.len() implies well_formed(#[trigger] rest[k]) by {
                assert(rest[k] == nodes[k]);
            }
        }
        match tok {
            TokenModel::Input(_) => {
                lemma_words_end_bounds(t, i + 1, hi);
                lemma_command_at_well_formed(t, i, hi);
                let next = nodes.push(command_at(t, i, hi));
                assert forall|k: int| 0 <= k < next.len() implies well_formed(#[trigger] next[k]) by {
                    if k < nodes.len() {
                        assert(next[k] == nodes[k]);
                    }
                }
                lemma_parse_loop_well_formed(t, hi, words_end(t, i + 1, hi), next);
            },
            TokenModel::Pipe | TokenModel::And | TokenModel::Or | TokenModel::Semicolon => {
                if nodes.len() == 0 {
                } else if tok is Semicolon && i + 1 == hi {
                    let next = rest.push(
                        AstModel::Sequence { left: Box::new(left), right: Box::new(AstModel::Empty) },
                    );
                    assert forall|k: int| 0 <= k < next.len() implies well_formed(#[trigger] next[k]) by {
                        if k < rest.len() {
                            assert(next[k] == rest[k]);
                        }
                    }
                    lemma_parse_loop_well_formed(t, hi, hi, next);
                } else if !literal_at(t, i + 1, hi) {
                } else {
                    lemma_words_end_bounds(t, i + 2, hi);
                    lemma_command_at_well_formed(t, i + 1, hi);
                    let next = rest.push(binary_node(tok, left, command_at(t, i + 1, hi)));
                    assert forall|k: int| 0 <= k < next.len() implies well_formed(#[trigger] next[k]) by {
                        if k < rest.len() {
                            assert(next[k] == rest[k]);
                        }
                    }
                    lemma_parse_loop_well_formed(t, hi, words_end(t, i + 2, hi), next);
                }
            },
            TokenModel::RedirectOut | TokenModel::RedirectAppend => {
                if nodes.len() == 0 || !literal_at(t, i + 1, hi) {
                } else {
                    let next = rest.push(redirect_node(tok, left, t[i + 1]));
                    assert forall|k: int| 0 <= k < next.len() implies well_formed(#[trigger] next[k]) by {
                        if k < rest.len() {
                            assert(next[k] == rest[k]);
                        }
                    }
                    lemma_parse_loop_well_formed(t, hi, i + 2, next);
                }
            },
            TokenModel::Background => {
                if nodes.len() > 0 {
                    let next = rest.push(AstModel::Background { inner: Box::new(left) });
                    assert forall|k: int| 0 <= k < next.len() implies well_formed(#[trigger] next[k]) by {
                        if k < rest.len() {
                            assert(next[k] == rest[k]);
                        }
                    }
                    lemma_parse_loop_well_formed(t, hi, i + 1, next);
                }
            },
            TokenModel::OpenParenthesis => {
                lemma_group_end_bounds(t, i + 1, hi, 1);
                let j = group_end(t, i + 1, hi, 1);
                lemma_parse_range_well_formed(t, i + 1, j);
                match parse_range(t, i + 1, j) {
                    Ok(inner) => {
                        let next = nodes.push(AstModel::Subshell { inner: Box::new(inner) });
                        assert forall|k: int| 0 <= k < next.len() implies well_formed(
                            #[trigger] next[k],
                        ) by {
                            if k < nodes.len() {
                                assert(next[k] == nodes[k]);
                            }
                        }
                        lemma_parse_loop_well_formed(
                            t,
                            hi,
                            if j < hi {
                                j + 1
                            } else {
                                hi
                            },
                            next,
                        );
                    },
                    Err(_) => {},
                }
            },
            _ => {},
        }
    }
}

/// Every tree that parsing yields is well formed.
pub proof fn lemma_parse_range_well_formed(t: Seq<TokenModel>, lo: int, hi: int)
    ensures
        parse_range(t, lo, hi) is Ok ==> well_formed(parse_range(t, lo, hi)->Ok_0),
    decreases hi - lo, 1int,
{
    lemma_parse_loop_well_formed(t, hi, lo, Seq::empty());
}

/// The views of a stack of trees, element by element.
pub open spec fn asts_view(nodes: Seq<Ast>) -> Seq<AstModel> {
    nodes.map_values(|a: Ast| a@)
}

/// `r` is the executable form of the parse outcome `m`.
pub open spec fn parse_outcome(r: Result<Ast, Error>, m: Result<AstModel, TokenModel>) -> bool {
    match m {
        Ok(a) => r is Ok && r->Ok_0@ == a,
        Err(t) => r is Err && r->Err_0@ == ErrorModel::Parse(t),
    }
}

proof fn lemma_asts_view_push(nodes: Seq<Ast>, a: Ast)
    ensures
        asts_view(nodes.push(a)) == asts_view(nodes).push(a@),
{
    assert(asts_view(nodes.push(a)) =~= asts_view(nodes).push(a@));
}

proof fn lemma_asts_view_drop_last(nodes: Seq<Ast>)
    requires
        nodes.len() > 0,
    ensures
        asts_view(nodes.drop_last()) == asts_view(nodes).drop_last(),
        asts_view(nodes).last() == nodes.last()@,
{
    assert(asts_view(nodes.drop_last()) =~= asts_view(nodes).drop_last());
}

/// The command whose program is `tokens[start]`, with the literal words
/// that follow it, below `hi`, as its arguments; and the position after them.
fn parse_command(tokens: &[Token], start: usize, hi: usize) -> (r: (Ast, usize))
    requires
        start < hi <= tokens@.len(),
    ensures
        r.0@ == command_at(tokens_view(tokens@), start as int, hi as int),
        r.1 == words_end(tokens_view(tokens@), start + 1, hi as int),
{
    let ghost t = tokens_view(tokens@);
    let command = tokens[start].clone();
    let mut args: Vec<Token> = Vec::new();
    let mut k = start + 1;
    proof {
        lemma_words_end_bounds(t, k as int, hi as int);
    }
    while k < hi && !is_operator(&tokens[k])
        invariant
            t == tokens_view(tokens@),
            start < k <= hi <= tokens@.len(),
            words_end(t, start + 1, hi as int) == words_end(t, k as int, hi as int),
            tokens_view(args@) == t.subrange(start + 1, k as int),
        decreases hi - k,
    {
        let a = tokens[k].clone();
        proof {
            assert(t[k as int] == a@);
            assert(tokens_view(args@.push(a)) =~= tokens_view(args@).push(a@));
            assert(tokens_view(args@.push(a)) =~= t.subrange(start + 1, k + 1));
        }
        args.push(a);
        k = k + 1;
    }
    assert(tokens_view(args@) == t.subrange(start + 1, k as int));
    (Ast::Command { command, args }, k)
}

fn binary(op: &Token, left: Ast, right: Ast) -> (r: Ast)
    ensures
        r@ == binary_node(op@, left@, right@),
{
    match op {
        Token::Pipe => Ast::Pipe { left: Box::new(left), right: Box::new(right) },
        Token::And => Ast::And { left: Box::new(left), right: Box::new(right) },
        Token::Or => Ast::Or { left: Box::new(left), right: Box::new(right) },
        _ => Ast::Sequence { left: Box::new(left), right: Box::new(right) },
    }
}

fn redirect(op: &Token, left: Ast, target: Token) -> (r: Ast)
    ensures
        r@ == redirect_node(op@, left@, target@),
{
    match op {
        Token::RedirectOut => Ast::RedirectOut { left: Box::new(left), right: target },
        _ => Ast::RedirectAppend { left: Box::new(left), right: target },
    }
}

/// Builds command trees from tokens.
pub struct Parser;

impl Parser {
    /// Reduces `tokens` left to right to a single tree. Fails, naming the
    /// token, on an operator that lacks an operand, on a `)` that closes no
    /// group and on a `<`; fails naming an empty literal when the tokens do
    /// not reduce to exactly one tree.
    pub fn parse(tokens: &[Token]) -> (r: Result<Ast, Error>)
        ensures
            match parse_spec(tokens_view(tokens@)) {
                Ok(a) => r is Ok && r->Ok_0@ == a,
                Err(t) => r is Err && r->Err_0@ == ErrorModel::Parse(t),
            },
            r is Ok ==> well_formed(r->Ok_0@),
    {
        proof {
            lemma_parse_range_well_formed(tokens_view(tokens@), 0, tokens@.len() as int);
        }
        Self::parse_tokens(tokens, 0, tokens.len())
    }

    fn parse_tokens(tokens: &[Token], lo: usize, hi: usize) -> (r: Result<Ast, Error>)
        requires
            lo <= hi <= tokens@.len(),
        ensures
            parse_outcome(r, parse_range(tokens_view(tokens@), lo as int, hi as int)),
        decreases hi - lo, 2int,
    {
        let ghost t = tokens_view(tokens@);
        let mut nodes: Vec<Ast> = Vec::new();
        let mut i = lo;
        assert(asts_view(nodes@) =~= Seq::<AstModel>::empty());
        while i < hi
            invariant
                t == tokens_view(tokens@),
                lo <= i <= hi <= tokens@.len(),
                parse_loop(t, hi as int, lo as int, Seq::empty()) == parse_loop(
                    t,
                    hi as int,
                    i as int,
                    asts_view(nodes@),
                ),
            decreases hi - i,
        {
            let ghost before = asts_view(nodes@);
            let tok = &tokens[i];
            match tok {
                Token::Input(_) => {
                    let (command, e) = parse_command(tokens, i, hi);
                    proof {
                        lemma_asts_view_push(nodes@, command);
                        lemma_words_end_bounds(t, i + 1, hi as int);
                    }
                    nodes.push(command);
                    i = e;
                },
                Token::Pipe | Token::And | Token::Or | Token::Semicolon => {
                    if nodes.len() == 0 {
                        return Err(Error::Parse(tok.clone()));
                    }
                    proof {
                        lemma_asts_view_drop_last(nodes@);
                    }
                    if i + 1 == hi && matches!(tok, Token::Semicolon) {
                        let left = nodes.pop().unwrap();
                        let node = Ast::Sequence { left: Box::new(left), right: Box::new(Ast::Empty) };
                        proof {
                            lemma_asts_view_push(nodes@, node);
                        }
                        nodes.push(node);
                        i = hi;
                    } else if i + 1 == hi || is_operator(&tokens[i + 1]) {
                        return Err(Error::Parse(tok.clone()));
                    } else {
                        let left = nodes.pop().unwrap();
                        let (command, e) = parse_command(tokens, i + 1, hi);
                        let node = binary(tok, left, command);
                        proof {
                            lemma_asts_view_push(nodes@, node);
                            lemma_words_end_bounds(t, i + 2, hi as int);
                        }
                        nodes.push(node);
                        i = e;
                    }
                },
                Token::RedirectOut | Token::RedirectAppend => {
                    if nodes.len() == 0 || i + 1 == hi || is_operator(&tokens[i + 1]) {
                        return Err(Error::Parse(tok.clone()));
                    }
                    proof {
                        lemma_asts_view_drop_last(nodes@);
                    }
                    let left = nodes.pop().unwrap();
                    let node = redirect(tok, left, tokens[i + 1].clone());
                    proof {
                        lemma_asts_view_push(nodes@, node);
                    }
                    nodes.push(node);
                    i = i + 2;
                },
                Token::Background => {
                    if nodes.len() == 0 {
                        return Err(Error::Parse(Token::Background));
                    }
                    proof {
                        lemma_asts_view_drop_last(nodes@);
                    }
                    let left = nodes.pop().unwrap();
                    let node = Ast::Background { inner: Box::new(left) };
                    proof {
                        lemma_asts_view_push(nodes@, node);
                    }
                    nodes.push(node);
                    i = i + 1;
                },
                Token::OpenParenthesis => {
                    let (inner, j) = Self::parse_subshell(tokens, i + 1, hi);
                    let inner = match inner {
                        Ok(a) => a,
                        Err(e) => {
                            return Err(e);
                        },
                    };
                    let node = Ast::Subshell { inner: Box::new(inner) };
                    proof {
                        lemma_asts_view_push(nodes@, node);
                    }
                    nodes.push(node);
                    i = if j < hi {
                        j + 1
                    } else {
                        hi
                    };
                },
                _ => {
                    return Err(Error::Parse(tok.clone()));
                },
            }
        }
        if nodes.len() == 1 {
            proof {
                lemma_asts_view_drop_last(nodes@);
            }
            Ok(nodes.pop().unwrap())
        } else {
            Err(Error::Parse(Token::Input(String::new())))
        }
    }

    /// Parses the group that starts at `start`, just after its `(`: the
    /// tokens up to the `)` that closes it, or up to `hi` if none does.
    /// Also returns the position of that `)`, or `hi`.
    fn parse_subshell(tokens: &[Token], start: usize, hi: usize) -> (r: (Result<Ast, Error>, usize))
        requires
            1 <= start <= hi <= tokens@.len(),
        ensures
            r.1 == group_end(tokens_view(tokens@), start as int, hi as int, 1),
            parse_outcome(r.0, parse_range(tokens_view(tokens@), start as int, r.1 as int)),
        decreases hi - start + 1, 1int,
    {
        let ghost t = tokens_view(tokens@);
        let mut depth: usize = 1;
        let mut k = start;
        proof {
            lemma_group_end_bounds(t, start as int, hi as int, 1);
        }
        while k < hi && !(depth == 1 && matches!(tokens[k], Token::CloseParenthesis))
            invariant
                t == tokens_view(tokens@),
                1 <= start <= k <= hi <= tokens@.len(),
                1 <= depth <= k - start + 1,
                group_end(t, start as int, hi as int, 1) == group_end(t, k as int, hi as int, depth as int),
            decreases hi - k,
        {
            match &tokens[k] {
                Token::OpenParenthesis => {
                    depth = depth + 1;
                },
                Token::CloseParenthesis => {
                    depth = depth - 1;
                },
                _ => {},
            }
            k = k + 1;
        }
        proof {
            lemma_group_end_bounds(t, k as int, hi as int, depth as int);
        }
        (Self::parse_tokens(tokens, start, k), k)
    }
}

} // verus!
