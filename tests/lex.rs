use shell::error::Error;
use shell::grammar::Token;
use shell::lex::{is_operator, Lexer};

fn input(s: &str) -> Token {
    Token::Input(s.to_string())
}

#[test]
fn test_lex_operators() {
    let line = "|";
    let tokens = Lexer::lex(line).unwrap();
    assert_eq!(tokens, vec![Token::Pipe]);

    let line = ">";
    let tokens = Lexer::lex(line).unwrap();
    assert_eq!(tokens, vec![Token::RedirectOut]);

    let line = ">>";
    let tokens = Lexer::lex(line).unwrap();
    assert_eq!(tokens, vec![Token::RedirectAppend]);

    let line = "<";
    let tokens = Lexer::lex(line).unwrap();
    assert_eq!(tokens, vec![Token::RedirectIn]);

    let line = "&&";
    let tokens = Lexer::lex(line).unwrap();
    assert_eq!(tokens, vec![Token::And]);

    let line = "||";
    let tokens = Lexer::lex(line).unwrap();
    assert_eq!(tokens, vec![Token::Or]);

    let line = "&";
    let tokens = Lexer::lex(line).unwrap();
    assert_eq!(tokens, vec![Token::Background]);

    let line = ";";
    let tokens = Lexer::lex(line).unwrap();
    assert_eq!(tokens, vec![Token::Semicolon]);
}

#[test]
fn test_lex() {
    let line = "echo";
    let tokens = Lexer::lex(line).unwrap();
    assert_eq!(tokens, vec![input("echo")]);

    let line = "echo foo";
    let tokens = Lexer::lex(line).unwrap();
    assert_eq!(tokens, vec![input("echo"), input("foo")]);

    let line = "echo foo bar";
    let tokens = Lexer::lex(line).unwrap();
    assert_eq!(tokens, vec![input("echo"), input("foo"), input("bar")]);

    let line = "echo Hello, World!";
    let tokens = Lexer::lex(line).unwrap();
    assert_eq!(
        tokens,
        vec![input("echo"), input("Hello,"), input("World!")]
    );

    let line = "echo \"Hello, World!\"";
    let tokens = Lexer::lex(line).unwrap();
    assert_eq!(tokens, vec![input("echo"), input("Hello, World!")]);

    let line = "echo \'Hello, World!\'";
    let tokens = Lexer::lex(line).unwrap();
    assert_eq!(tokens, vec![input("echo"), input("Hello, World!")]);

    let line = "echo \'Hello,\\ World!\'";
    let tokens = Lexer::lex(line).unwrap();
    assert_eq!(tokens, vec![input("echo"), input("Hello, World!")]);

    let line = "echo Hello, World! > output.txt";
    let tokens = Lexer::lex(line).unwrap();
    assert_eq!(
        tokens,
        vec![
            input("echo"),
            input("Hello,"),
            input("World!"),
            Token::RedirectOut,
            input("output.txt")
        ]
    );

    let line = "echo Hello, World! | wc -w";
    let tokens = Lexer::lex(line).unwrap();
    assert_eq!(
        tokens,
        vec![
            input("echo"),
            input("Hello,"),
            input("World!"),
            Token::Pipe,
            input("wc"),
            input("-w")
        ]
    );
}

#[test]
fn lex_unquoted_words_round_trip() {
    let line = "ls -l src/main.rs x=1";
    let tokens = Lexer::lex(line).unwrap();
    assert_eq!(
        tokens,
        vec![input("ls"), input("-l"), input("src/main.rs"), input("x=1")]
    );
    let texts: Vec<String> = tokens.iter().map(|t| t.to_string()).collect();
    assert_eq!(texts.join(" "), line);
}

#[test]
fn lex_quotes_give_two_literals() {
    let tokens = Lexer::lex("\"a b\" 'c'").unwrap();
    assert_eq!(tokens, vec![input("a b"), input("c")]);
    assert!(tokens.iter().all(|t| !is_operator(t)));
}

#[test]
fn lex_every_operator_alone() {
    assert_eq!(Lexer::lex("(").unwrap(), vec![Token::OpenParenthesis]);
    assert_eq!(Lexer::lex(")").unwrap(), vec![Token::CloseParenthesis]);
    assert_eq!(Lexer::lex("<").unwrap(), vec![Token::RedirectIn]);
}

#[test]
fn lex_triple_operators_fail() {
    assert_eq!(Lexer::lex("|||"), Err(Error::Lex('|')));
    assert_eq!(Lexer::lex("a &&& b"), Err(Error::Lex('&')));
    assert_eq!(Lexer::lex(">>>"), Err(Error::Lex('>')));
}

#[test]
fn lex_empty_and_blank_lines() {
    assert_eq!(Lexer::lex("").unwrap(), vec![]);
    assert_eq!(Lexer::lex(" \t  ").unwrap(), vec![]);
}

#[test]
fn lex_empty_quotes_give_empty_literal() {
    assert_eq!(
        Lexer::lex("echo ''").unwrap(),
        vec![input("echo"), input("")]
    );
}

#[test]
fn lex_operators_split_words() {
    assert_eq!(
        Lexer::lex("a|b&&c;(d)>e>>f<g&").unwrap(),
        vec![
            input("a"),
            Token::Pipe,
            input("b"),
            Token::And,
            input("c"),
            Token::Semicolon,
            Token::OpenParenthesis,
            input("d"),
            Token::CloseParenthesis,
            Token::RedirectOut,
            input("e"),
            Token::RedirectAppend,
            input("f"),
            Token::RedirectIn,
            input("g"),
            Token::Background,
        ]
    );
}

#[test]
fn lex_quoted_and_escaped_operators_are_literal() {
    assert_eq!(
        Lexer::lex("echo '|' \"a;b\" \\&").unwrap(),
        vec![input("echo"), input("|"), input("a;b"), input("&")]
    );
    assert_eq!(
        Lexer::lex("echo \"it's\"").unwrap(),
        vec![input("echo"), input("it's")]
    );
}

#[test]
fn lex_unterminated_quote_flushes_at_end() {
    assert_eq!(
        Lexer::lex("echo 'abc").unwrap(),
        vec![input("echo"), input("abc")]
    );
}

#[test]
fn is_operator_tells_literals_apart() {
    assert!(!is_operator(&input("ls")));
    assert!(is_operator(&Token::Pipe));
    assert!(is_operator(&Token::CloseParenthesis));
}
