use rush::chars::OwnedCharBuffer;
use rush::cmd::{Cmd, SimpleCmd};
use rush::error::{CmdError, LexError};
use rush::lexer::Lexer;
use rush::parser::{Parsed, Parser};
use rush::smap::StaticMap;
use rush::state::ShellState;
use rush::token::Token;

fn state() -> ShellState {
    let mut envs = StaticMap::new();
    envs.insert(String::from("HOME"), String::from("/home/u"));
    envs.insert(String::from("EMPTY"), String::new());
    ShellState::new(String::from("/home/u"), envs)
}

fn parser(input: &str) -> Parser<Lexer> {
    Parser::new(Lexer::new(OwnedCharBuffer::new(String::from(input))))
}

fn simple(cmd: &str, args: &[&str]) -> Cmd {
    Cmd::Simple(SimpleCmd {
        cmd: String::from(cmd),
        args: args.iter().map(|a| String::from(*a)).collect(),
        env: StaticMap::new(),
    })
}

fn command(cmd: Cmd) -> Option<Result<Parsed, CmdError>> {
    Some(Ok(Parsed::Command(cmd)))
}

#[test]
fn pipeline_nests_to_the_right() {
    let mut p = parser("a | b | c");
    assert_eq!(
        p.next(&state()),
        command(Cmd::Pipeline(
            Box::new(simple("a", &[])),
            Box::new(Cmd::Pipeline(Box::new(simple("b", &[])), Box::new(simple("c", &[])))),
        ))
    );
    assert_eq!(p.next(&state()), None);
}

#[test]
fn and_of_two_commands() {
    let mut p = parser("echo hi && echo bye\n");
    assert_eq!(
        p.next(&state()),
        command(Cmd::And(
            Box::new(simple("echo", &["hi"])),
            Box::new(simple("echo", &["bye"])),
        ))
    );
    assert_eq!(p.next(&state()), None);
}

#[test]
fn empty_line_is_empty_command() {
    let mut p = parser("\n");
    assert_eq!(p.next(&state()), command(Cmd::Empty));
    assert_eq!(p.next(&state()), None);
}

#[test]
fn no_input_no_command() {
    let mut p = parser("");
    assert_eq!(p.next(&state()), None);
}

#[test]
fn mixed_operators_nest_to_the_right() {
    let mut p = parser("a || b && c | d\n");
    assert_eq!(
        p.next(&state()),
        command(Cmd::Or(
            Box::new(simple("a", &[])),
            Box::new(Cmd::And(
                Box::new(simple("b", &[])),
                Box::new(Cmd::Pipeline(Box::new(simple("c", &[])), Box::new(simple("d", &[])))),
            )),
        ))
    );
}

#[test]
fn operator_without_left_side_has_empty_left() {
    let mut p = parser("| b\n");
    assert_eq!(
        p.next(&state()),
        command(Cmd::Pipeline(Box::new(Cmd::Empty), Box::new(simple("b", &[]))))
    );
}

#[test]
fn statements_come_one_by_one() {
    let mut p = parser("a b\nc\n");
    assert_eq!(p.next(&state()), command(simple("a", &["b"])));
    assert_eq!(p.next(&state()), command(simple("c", &[])));
    assert_eq!(p.next(&state()), None);
}

#[test]
fn variables_and_home_are_expanded() {
    let mut p = parser("echo $HOME $UNSET- ~ 'x'$EMPTY\n");
    assert_eq!(p.next(&state()), command(simple("echo", &["/home/u", "", "/home/u", "x"])));
}

#[test]
fn quoted_text_is_literal() {
    let mut p = parser("echo 'it''s' '$HOME'\n");
    assert_eq!(p.next(&state()), command(simple("echo", &["its", "$HOME"])));
}

#[test]
fn empty_first_word_is_no_name() {
    let mut p = parser("$UNSET echo\n");
    assert_eq!(p.next(&state()), command(simple("echo", &[])));
}

#[test]
fn redirection_and_background_are_refused() {
    let mut p = parser("a > f\nb\n");
    assert_eq!(p.next(&state()), Some(Err(CmdError::BadToken(Token::RightArrow))));
    assert_eq!(p.next(&state()), command(simple("b", &[])));
    let mut p = parser("a >> f");
    assert_eq!(p.next(&state()), Some(Err(CmdError::BadToken(Token::RightArrow))));
    assert_eq!(p.next(&state()), None);
    let mut p = parser("a &");
    assert_eq!(p.next(&state()), Some(Err(CmdError::BadToken(Token::Amp))));
}

#[test]
fn an_error_gives_the_statement_up() {
    let mut p = parser("rm a;b c\necho ok\n");
    assert_eq!(p.next(&state()), Some(Err(CmdError::BadToken(Token::SemiColon))));
    assert_eq!(p.next(&state()), command(simple("echo", &["ok"])));
    assert_eq!(p.next(&state()), None);
}

#[test]
fn lex_error_is_reported() {
    let mut p = parser("echo \"abc");
    assert_eq!(p.next(&state()), Some(Err(CmdError::Lex(LexError::UnclosedDoubleQuote))));
    assert_eq!(p.next(&state()), None);
    let mut p = parser("echo $(abc");
    assert_eq!(p.next(&state()), Some(Err(CmdError::Lex(LexError::UnclosedSub))));
}

#[test]
fn substitution_is_asked_for_and_taken() {
    let mut p = parser("a | echo x$(one)y`two`\nnext\n");
    let s = state();
    assert_eq!(p.next(&s), Some(Ok(Parsed::Substitution(String::from("one")))));
    assert_eq!(p.next(&s), Some(Ok(Parsed::Substitution(String::from("one")))));
    assert_eq!(p.substitute(Some(String::from("1"))), Ok(()));
    assert_eq!(p.next(&s), Some(Ok(Parsed::Substitution(String::from("two")))));
    assert_eq!(p.substitute(Some(String::from("2"))), Ok(()));
    assert_eq!(
        p.next(&s),
        command(Cmd::Pipeline(Box::new(simple("a", &[])), Box::new(simple("echo", &["x1y2"]))))
    );
    assert_eq!(p.next(&s), command(simple("next", &[])));
}

#[test]
fn failed_substitution_gives_the_statement_up() {
    let mut p = parser("rm $(false)x y\necho ok\n");
    let s = state();
    assert_eq!(p.next(&s), Some(Ok(Parsed::Substitution(String::from("false")))));
    assert_eq!(p.substitute(None), Err(CmdError::SubShell));
    assert_eq!(p.next(&s), command(simple("echo", &["ok"])));
}

#[test]
fn substitute_without_request_changes_nothing() {
    let mut p = parser("a b\n");
    assert_eq!(p.substitute(Some(String::from("zzz"))), Ok(()));
    assert_eq!(p.substitute(None), Ok(()));
    assert_eq!(p.next(&state()), command(simple("a", &["b"])));
}

#[test]
fn comment_after_command() {
    let mut p = parser("a #b c\n");
    assert_eq!(p.next(&state()), command(simple("a", &[])));
    assert_eq!(p.next(&state()), None);
}
