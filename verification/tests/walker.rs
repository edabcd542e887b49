use rush::error::{CmdError, LexError};
use rush::parse;
use rush::source::TokenBuffer;
use rush::token::Token;
use rush::walker::{Expand, TreeItem, Walker};

fn lit(s: &str) -> Expand {
    Expand::Literal(String::from(s))
}

fn ident(s: &str) -> Token {
    Token::Ident(String::from(s))
}

fn walk_text(input: &str) -> Vec<Result<TreeItem, CmdError>> {
    let mut walker = parse(input);
    let mut out = Vec::new();
    while let Some(item) = walker.next() {
        out.push(item);
    }
    out
}

#[test]
fn two_pipes_are_or() {
    let mut walker = Walker::new(TokenBuffer::new(vec![Token::Pipe, Token::Pipe]));
    assert_eq!(walker.next(), Some(Ok(TreeItem::Or)));
    assert_eq!(walker.next(), None);
}

#[test]
fn one_pipe_leaves_the_ident() {
    let mut walker = Walker::new(TokenBuffer::new(vec![Token::Pipe, ident("x")]));
    assert_eq!(walker.next(), Some(Ok(TreeItem::Pipe)));
    assert_eq!(walker.next(), Some(Ok(TreeItem::Word(vec![lit("x")]))));
    assert_eq!(walker.next(), None);
}

#[test]
fn amp_forms() {
    let mut walker = Walker::new(TokenBuffer::new(vec![Token::Amp, Token::Amp]));
    assert_eq!(walker.next(), Some(Ok(TreeItem::And)));
    let mut walker = Walker::new(TokenBuffer::new(vec![Token::Amp]));
    assert_eq!(walker.next(), Some(Ok(TreeItem::Background)));
    let mut walker = Walker::new(TokenBuffer::new(vec![Token::Amp, Token::Space, ident("x")]));
    assert_eq!(walker.next(), Some(Err(CmdError::BadToken(Token::Space))));
    assert_eq!(walker.next(), Some(Ok(TreeItem::Word(vec![lit("x")]))));
}

#[test]
fn arrow_forms() {
    let mut walker = Walker::new(TokenBuffer::new(vec![Token::RightArrow, Token::RightArrow]));
    assert_eq!(walker.next(), Some(Ok(TreeItem::Append)));
    let mut walker = Walker::new(TokenBuffer::new(vec![Token::RightArrow, ident("f")]));
    assert_eq!(walker.next(), Some(Ok(TreeItem::Redirect)));
    assert_eq!(walker.next(), Some(Ok(TreeItem::Word(vec![lit("f")]))));
    let mut walker = Walker::new(TokenBuffer::new(vec![Token::RightArrow]));
    assert_eq!(walker.next(), Some(Err(CmdError::UnexpectedEnd)));
    let mut walker = Walker::new(TokenBuffer::new(vec![Token::RightArrow, Token::Pipe]));
    assert_eq!(walker.next(), Some(Err(CmdError::BadToken(Token::Pipe))));
}

#[test]
fn word_before_arrow_comes_first() {
    assert_eq!(
        walk_text("a>b\n"),
        vec![
            Ok(TreeItem::Word(vec![lit("a")])),
            Ok(TreeItem::Redirect),
            Ok(TreeItem::Word(vec![lit("b")])),
            Ok(TreeItem::StatementEnd),
        ]
    );
}

#[test]
fn words_are_assembled() {
    assert_eq!(
        walk_text("echo $HOME/bin ~ 'it''s' $ x\n"),
        vec![
            Ok(TreeItem::Word(vec![lit("echo")])),
            Ok(TreeItem::Word(vec![Expand::Var(String::from("HOME/bin"))])),
            Ok(TreeItem::Word(vec![Expand::Home])),
            Ok(TreeItem::Word(vec![lit("it"), lit("s")])),
            Ok(TreeItem::Word(vec![lit("$")])),
            Ok(TreeItem::Word(vec![lit("x")])),
            Ok(TreeItem::StatementEnd),
        ]
    );
}

#[test]
fn trailing_word_is_flushed() {
    assert_eq!(
        walk_text("a b"),
        vec![Ok(TreeItem::Word(vec![lit("a")])), Ok(TreeItem::Word(vec![lit("b")]))]
    );
}

#[test]
fn word_is_kept_before_an_operator() {
    assert_eq!(
        walk_text("a|b"),
        vec![
            Ok(TreeItem::Word(vec![lit("a")])),
            Ok(TreeItem::Pipe),
            Ok(TreeItem::Word(vec![lit("b")])),
        ]
    );
}

#[test]
fn double_quotes_are_a_word_of_their_own() {
    assert_eq!(
        walk_text("foo\"bar $x\"\n"),
        vec![
            Ok(TreeItem::Word(vec![lit("foo")])),
            Ok(TreeItem::Word(vec![lit("bar"), lit(" "), Expand::Var(String::from("x"))])),
            Ok(TreeItem::StatementEnd),
        ]
    );
    assert_eq!(walk_text("\"\""), vec![]);
    assert_eq!(walk_text("\"$\""), vec![Err(CmdError::BadToken(Token::Doller))]);
    assert_eq!(
        walk_text("\"$(ls)\""),
        vec![Err(CmdError::BadToken(Token::Sub(String::from("ls"))))]
    );
}

#[test]
fn substitutions_are_fragments() {
    assert_eq!(
        walk_text("a$(ls -l)b `pwd`"),
        vec![
            Ok(TreeItem::Word(vec![lit("a"), Expand::Sub(String::from("ls -l")), lit("b")])),
            Ok(TreeItem::Word(vec![Expand::Sub(String::from("pwd"))])),
        ]
    );
}

#[test]
fn comment_and_newline_end_a_statement() {
    assert_eq!(
        walk_text("a #c\nb\n"),
        vec![
            Ok(TreeItem::Word(vec![lit("a")])),
            Ok(TreeItem::StatementEnd),
            Ok(TreeItem::Word(vec![lit("b")])),
            Ok(TreeItem::StatementEnd),
        ]
    );
}

#[test]
fn unsupported_tokens_are_errors() {
    for (text, token) in [
        (";", Token::SemiColon),
        ("<", Token::LeftArrow),
        ("(", Token::OpenParen),
        (")", Token::CloseParen),
        ("*", Token::Glob),
        ("\t", Token::Tab),
        ("{", Token::OpenBracket),
        ("}", Token::CloseBracket),
        ("#", Token::Pound),
        ("=", Token::Equal),
        ("%", Token::Percent),
        ("!", Token::Bang),
        ("?", Token::Huh),
    ] {
        assert_eq!(walk_text(text), vec![Err(CmdError::BadToken(token))]);
    }
}

#[test]
fn dollar_needs_a_name_or_a_space() {
    assert_eq!(walk_text("$"), vec![Err(CmdError::UnexpectedEnd)]);
    assert_eq!(walk_text("$\n"), vec![Err(CmdError::BadToken(Token::Newline))]);
}

#[test]
fn lex_errors_pass_through() {
    assert_eq!(
        walk_text("a 'b"),
        vec![
            Ok(TreeItem::Word(vec![lit("a")])),
            Err(CmdError::Lex(LexError::UnclosedSingleQuote)),
        ]
    );
    assert_eq!(
        walk_text("a'b"),
        vec![
            Ok(TreeItem::Word(vec![lit("a")])),
            Err(CmdError::Lex(LexError::UnclosedSingleQuote)),
        ]
    );
}

#[test]
fn try_from_refuses_the_empty_word() {
    assert_eq!(TreeItem::try_from(vec![]), Err(()));
    assert_eq!(TreeItem::try_from(vec![lit("a")]), Ok(TreeItem::Word(vec![lit("a")])));
}
