use rush::chars::OwnedCharBuffer;
use rush::error::LexError;
use rush::lexer::Lexer;
use rush::token::Token;

fn lex_all(input: &str) -> Vec<Result<Token, LexError>> {
    let mut lexer = Lexer::new(OwnedCharBuffer::new(String::from(input)));
    let mut out = Vec::new();
    while let Some(t) = lexer.next() {
        out.push(t);
    }
    out
}

#[test]
fn lexer() {
    let input = String::from("exa -1 | grep cargo");
    let mut lexer = Lexer::new(OwnedCharBuffer::new(input));
    let expected = [
        Token::Ident(String::from("exa")),
        Token::Space,
        Token::Ident(String::from("-1")),
        Token::Space,
        Token::Pipe,
        Token::Space,
        Token::Ident(String::from("grep")),
        Token::Space,
        Token::Ident(String::from("cargo")),
    ];
    for token in expected {
        assert_eq!(Some(Ok(token)), lexer.next())
    }
}

#[test]
fn lex() {
    let input = String::from("exa -1 | grep cargo");
    let mut lexer = Lexer::new(OwnedCharBuffer::new(input));
    let expected = [
        Token::Ident(String::from("exa")),
        Token::Space,
        Token::Ident(String::from("-1")),
        Token::Space,
        Token::Pipe,
        Token::Space,
        Token::Ident(String::from("grep")),
        Token::Space,
        Token::Ident(String::from("cargo")),
    ];
    for token in expected {
        assert_eq!(Some(Ok(token)), lexer.next())
    }
}

#[test]
fn lexer_ends_with_none() {
    let mut lexer = Lexer::new(OwnedCharBuffer::new(String::from("a")));
    assert_eq!(lexer.next(), Some(Ok(Token::Ident(String::from("a")))));
    assert_eq!(lexer.next(), None);
    assert_eq!(lexer.next(), None);
}

#[test]
fn comment_takes_the_line() {
    assert_eq!(
        lex_all("space #rest-of-line\n"),
        vec![Ok(Token::Ident(String::from("space"))), Ok(Token::Comment)]
    );
    assert_eq!(
        lex_all("  #rest-of-line\nnext"),
        vec![Ok(Token::Space), Ok(Token::Comment), Ok(Token::Ident(String::from("next")))]
    );
    assert_eq!(lex_all(" #rest-of-line"), vec![Ok(Token::Comment)]);
}
