use rush::chars::OwnedCharBuffer;
use rush::error::LexError;
use rush::lexer::{
    next_token, punctuation_token, read_backtick, read_doller, read_double_quotes, read_escape,
    read_ident, read_raw_until, read_single_quotes, read_space, special, Escape, Lexer,
};
use rush::token::Token;

fn chars(s: &str) -> OwnedCharBuffer {
    OwnedCharBuffer::new(String::from(s))
}

fn rest(mut c: OwnedCharBuffer) -> String {
    let mut s = String::new();
    while let Some(x) = c.next() {
        s.push(x);
    }
    s
}

fn lex_all(input: &str) -> Vec<Result<Token, LexError>> {
    let mut lexer = Lexer::new(chars(input));
    let mut out = Vec::new();
    while let Some(t) = lexer.next() {
        out.push(t);
    }
    out
}

fn ident(s: &str) -> Token {
    Token::Ident(String::from(s))
}

fn render(tokens: &[Token]) -> String {
    let mut s = String::new();
    for t in tokens {
        s.push_str(&t.to_string());
    }
    s
}

fn round_trips(tokens: Vec<Token>) -> bool {
    let back: Vec<Result<Token, LexError>> = tokens.iter().cloned().map(Ok).collect();
    lex_all(&render(&tokens)) == back
}

#[test]
fn punctuation_is_one_token_each() {
    assert_eq!(
        lex_all("#|><!()*{}~=%&?;\t\n"),
        vec![
            Ok(Token::Pound),
            Ok(Token::Pipe),
            Ok(Token::RightArrow),
            Ok(Token::LeftArrow),
            Ok(Token::Bang),
            Ok(Token::OpenParen),
            Ok(Token::CloseParen),
            Ok(Token::Glob),
            Ok(Token::OpenBracket),
            Ok(Token::CloseBracket),
            Ok(Token::Tilde),
            Ok(Token::Equal),
            Ok(Token::Percent),
            Ok(Token::Amp),
            Ok(Token::Huh),
            Ok(Token::SemiColon),
            Ok(Token::Tab),
            Ok(Token::Newline),
        ]
    );
    assert_eq!(punctuation_token('|'), Some(Token::Pipe));
    assert_eq!(punctuation_token('a'), None);
    assert_eq!(punctuation_token(' '), None);
}

#[test]
fn ident_runs_to_the_next_special() {
    assert_eq!(lex_all("a=b#c!d"), vec![Ok(ident("a=b#c!d"))]);
    assert_eq!(lex_all("a\\"), vec![Ok(ident("a\\"))]);
    assert_eq!(lex_all("a\\ b"), vec![Ok(ident("a\\")), Ok(Token::Space), Ok(ident("b"))]);
    for c in ['<', '>', '(', ')', '$', '`', '"', '\'', '*', '\n', ' ', '&', '|', ';'] {
        assert!(special(c));
    }
    for c in ['a', '#', '=', '\\', '\t', '~', '{', '}', '!', '%', '?'] {
        assert!(!special(c));
    }
    let mut c = chars("bc d");
    assert_eq!(read_ident(&mut c, 'a'), ident("abc"));
    assert_eq!(rest(c), " d");
}

#[test]
fn space_before_pound_is_a_comment() {
    let mut c = chars("#x\ny");
    assert_eq!(read_space(&mut c), Token::Comment);
    assert_eq!(rest(c), "y");
    let mut c = chars("x#y");
    assert_eq!(read_space(&mut c), Token::Space);
    assert_eq!(rest(c), "x#y");
    let mut c = chars("");
    assert_eq!(read_space(&mut c), Token::Space);
    assert_eq!(lex_all(" #a\\\nb\nc"), vec![Ok(Token::Comment), Ok(ident("c"))]);
}

#[test]
fn dollar_forms() {
    assert_eq!(lex_all("$"), vec![Ok(Token::Doller)]);
    assert_eq!(lex_all("$x"), vec![Ok(Token::Doller), Ok(ident("x"))]);
    assert_eq!(lex_all("$(ls -l)x"), vec![Ok(Token::Sub(String::from("ls -l"))), Ok(ident("x"))]);
    assert_eq!(lex_all("$(a (b) c)"), vec![
        Ok(Token::Sub(String::from("a (b"))),
        Ok(Token::Space),
        Ok(ident("c")),
        Ok(Token::CloseParen),
    ]);
    assert_eq!(lex_all("$(a\\)b)"), vec![Ok(Token::Sub(String::from("a)b")))]);
    assert_eq!(lex_all("$(a\\xb)"), vec![Ok(Token::Sub(String::from("a\\)b")))]);
    assert_eq!(lex_all("$(abc"), vec![Err(LexError::UnclosedSub)]);
    let mut c = chars("(x)y");
    assert_eq!(read_doller(&mut c), Ok(Token::Sub(String::from("x"))));
    assert_eq!(rest(c), "y");
}

#[test]
fn backtick_forms() {
    assert_eq!(lex_all("`ls`x"), vec![Ok(Token::Sub(String::from("ls"))), Ok(ident("x"))]);
    assert_eq!(lex_all("`a\\`b`"), vec![Ok(Token::Sub(String::from("a`b")))]);
    assert_eq!(lex_all("`a\\xb`"), vec![Ok(Token::Sub(String::from("a\\`b")))]);
    assert_eq!(lex_all("`abc"), vec![Err(LexError::UnclosedSub)]);
    assert_eq!(lex_all("`abc\\"), vec![Err(LexError::UnclosedSub)]);
    let mut c = chars("x`y");
    assert_eq!(read_backtick(&mut c), Ok(Token::Sub(String::from("x"))));
    assert_eq!(rest(c), "y");
}

#[test]
fn single_quote_forms() {
    assert_eq!(lex_all("'a b'"), vec![Ok(Token::SingleQuote(String::from("a b")))]);
    assert_eq!(lex_all("'$HOME'"), vec![Ok(Token::SingleQuote(String::from("$HOME")))]);
    assert_eq!(lex_all("'a\\'b'"), vec![Ok(Token::SingleQuote(String::from("a'b")))]);
    assert_eq!(lex_all("'a\\nb'"), vec![Ok(Token::SingleQuote(String::from("a\\nb")))]);
    assert_eq!(
        lex_all("'it''s'"),
        vec![Ok(Token::SingleQuote(String::from("it"))), Ok(Token::SingleQuote(String::from("s")))]
    );
    assert_eq!(lex_all("'abc"), vec![Err(LexError::UnclosedSingleQuote)]);
    let mut c = chars("x'y");
    assert_eq!(read_single_quotes(&mut c), Ok(Token::SingleQuote(String::from("x"))));
    assert_eq!(rest(c), "y");
}

#[test]
fn double_quote_forms() {
    assert_eq!(lex_all("\"\""), vec![Ok(Token::DoubleQuote(vec![]))]);
    assert_eq!(
        lex_all("\"a b$c\\n\\\\\\x$(d)\"e"),
        vec![
            Ok(Token::DoubleQuote(vec![
                ident("a"),
                ident(" b"),
                Token::Doller,
                ident("c"),
                ident("\n"),
                ident("\\"),
                ident("\\x"),
                Token::Sub(String::from("d")),
            ])),
            Ok(ident("e")),
        ]
    );
    assert_eq!(lex_all("\"$\""), vec![Ok(Token::DoubleQuote(vec![Token::Doller]))]);
    assert_eq!(
        lex_all("\"a\\\"b\""),
        vec![Ok(Token::DoubleQuote(vec![ident("a"), ident("\\\""), ident("b")]))]
    );
    assert_eq!(lex_all("\"abc"), vec![Err(LexError::UnclosedDoubleQuote)]);
    assert_eq!(lex_all("\"abc\\"), vec![Err(LexError::UnclosedDoubleQuote)]);
    assert_eq!(lex_all("\"a$(b"), vec![Err(LexError::UnclosedSub)]);
    let mut c = chars("x\"y");
    assert_eq!(read_double_quotes(&mut c), Ok(Token::DoubleQuote(vec![ident("x")])));
    assert_eq!(rest(c), "y");
}

#[test]
fn escapes_in_double_quotes() {
    let mut c = chars("nx");
    assert_eq!(read_escape(&mut c), ident("\n"));
    assert_eq!(rest(c), "x");
    let mut c = chars("\\x");
    assert_eq!(read_escape(&mut c), ident("\\"));
    assert_eq!(rest(c), "x");
    let mut c = chars("qx");
    assert_eq!(read_escape(&mut c), ident("\\q"));
    assert_eq!(rest(c), "x");
    let mut c = chars("");
    assert_eq!(read_escape(&mut c), ident("\\"));
}

#[test]
fn raw_spans() {
    let mut c = chars("ab|cd");
    assert_eq!(read_raw_until(&mut c, '|', Escape::Keep, true), Some(String::from("ab")));
    assert_eq!(rest(c), "cd");
    let mut c = chars("a\\|b\\c|d");
    assert_eq!(read_raw_until(&mut c, '|', Escape::Keep, true), Some(String::from("a|b\\c")));
    assert_eq!(rest(c), "d");
    let mut c = chars("a\\|b\\c|d");
    assert_eq!(read_raw_until(&mut c, '|', Escape::Delimiter, true), Some(String::from("a|b\\|")));
    let mut c = chars("a\\|b\\c|d");
    assert_eq!(read_raw_until(&mut c, '|', Escape::Skip, true), Some(String::from("ab")));
    let mut c = chars("abc");
    assert_eq!(read_raw_until(&mut c, '|', Escape::Keep, true), None);
    assert_eq!(rest(c), "");
    let mut c = chars("abc\\");
    assert_eq!(read_raw_until(&mut c, '|', Escape::Keep, false), Some(String::from("abc\\")));
    let mut c = chars("");
    assert_eq!(read_raw_until(&mut c, '|', Escape::Keep, false), Some(String::new()));
}

#[test]
fn next_token_at_the_end() {
    let mut c = chars("");
    assert_eq!(next_token(&mut c), None);
    let mut c = chars("a");
    assert_eq!(next_token(&mut c), Some(Ok(ident("a"))));
    assert_eq!(next_token(&mut c), None);
}

#[test]
fn tokens_are_written_as_they_were_read() {
    assert_eq!(Token::Pipe.to_string(), "|");
    assert_eq!(Token::Comment.to_string(), " # <comment>");
    assert_eq!(Token::OpenBracket.to_string(), "{");
    assert_eq!(Token::CloseBracket.to_string(), "}");
    assert_eq!(Token::Ident(String::from("ab")).to_string(), "ab");
    assert_eq!(Token::SingleQuote(String::from("a b")).to_string(), "'a b'");
    assert_eq!(Token::Sub(String::from("ls")).to_string(), "$(ls)");
    assert_eq!(
        Token::DoubleQuote(vec![ident("a"), Token::Doller, ident("b")]).to_string(),
        "\"a$b\""
    );
    assert_eq!(
        render(&[
            Token::Amp, Token::SemiColon, Token::LeftArrow, Token::RightArrow, Token::OpenParen,
            Token::CloseParen, Token::Doller, Token::Space, Token::Tab, Token::Newline,
            Token::Glob, Token::Huh, Token::Pound, Token::Bang, Token::Tilde, Token::Equal,
            Token::Percent,
        ]),
        "&;<>()$ \t\n*?#!~=%"
    );
}

#[test]
fn canonical_sequences_round_trip() {
    assert!(round_trips(vec![
        ident("exa"),
        Token::Space,
        ident("-1"),
        Token::Space,
        Token::Pipe,
        Token::Space,
        ident("grep"),
        Token::Space,
        ident("cargo"),
    ]));
    assert!(round_trips(vec![
        Token::Pound,
        Token::Pipe,
        Token::RightArrow,
        Token::LeftArrow,
        Token::Bang,
        Token::OpenParen,
        Token::CloseParen,
        Token::Glob,
        Token::OpenBracket,
        Token::CloseBracket,
        Token::Tilde,
        Token::Equal,
        Token::Percent,
        Token::Amp,
        Token::Huh,
        Token::SemiColon,
        Token::Tab,
        Token::Newline,
        Token::Space,
        Token::Doller,
    ]));
    assert!(round_trips(vec![
        ident("a"),
        Token::SingleQuote(String::from("b c")),
        Token::Sub(String::from("d e")),
        Token::DoubleQuote(vec![ident("f"), ident(" g"), Token::Doller, ident("h")]),
        Token::Doller,
        ident("i"),
        Token::Comment,
    ]));
    assert!(round_trips(vec![]));
}

#[test]
fn sequences_that_run_together_do_not_round_trip() {
    assert!(!round_trips(vec![ident("a"), ident("b")]));
    assert!(!round_trips(vec![ident("a"), Token::Equal]));
    assert!(!round_trips(vec![Token::Space, Token::Pound]));
    assert!(!round_trips(vec![Token::Doller, Token::OpenParen, Token::CloseParen]));
    assert!(!round_trips(vec![Token::Comment, Token::Pipe]));
    assert!(!round_trips(vec![ident("")]));
    assert!(!round_trips(vec![ident("a b")]));
    assert!(!round_trips(vec![ident("|a")]));
    assert!(!round_trips(vec![Token::SingleQuote(String::from("it's"))]));
}

#[test]
fn clone_is_equal() {
    let t = Token::DoubleQuote(vec![ident("a"), Token::Doller, Token::Sub(String::from("x"))]);
    assert_eq!(t.clone(), t);
}
