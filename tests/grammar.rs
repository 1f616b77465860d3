use shell::grammar::Token;

#[test]
fn test_token_display() {
    assert_eq!(Token::Input("foo".to_string()).to_string(), "foo");
    assert_eq!(Token::Pipe.to_string(), "|");
    assert_eq!(Token::RedirectOut.to_string(), ">");
    assert_eq!(Token::RedirectAppend.to_string(), ">>");
    assert_eq!(Token::RedirectIn.to_string(), "<");
    assert_eq!(Token::And.to_string(), "&&");
    assert_eq!(Token::Or.to_string(), "||");
    assert_eq!(Token::Background.to_string(), "&");
    assert_eq!(Token::Semicolon.to_string(), ";");
    assert_eq!(Token::OpenParenthesis.to_string(), "(");
    assert_eq!(Token::CloseParenthesis.to_string(), ")");
}

#[test]
fn token_clone_keeps_text() {
    let t = Token::Input("a b".to_string());
    assert_eq!(t.clone(), t);
    assert_eq!(Token::And.clone(), Token::And);
}
