use rush::drive::{builtin, exit_status, Builtin, Cd, Exit, Fd, Streams};
use rush::error::ShellError;
use rush::line::{to_ascii_upper, InsertResult, Key, LineBuffer, LineEditor, PromptError, Reaction};
use rush::mode::{Args, ShellMode};
use rush::shell::{record, settle, settle_parsed, settle_spawned, Turn};
use rush::smap::StaticMap;
use rush::state::ShellState;

fn args() -> Args {
    Args { command: None, login: false, interactive: false, file: None }
}

fn state() -> ShellState {
    ShellState::new(String::from("/home/u"), StaticMap::new())
}

#[test]
fn mode_order() {
    assert_eq!(ShellMode::get(args(), Some("rush"), true), ShellMode::Interactive);
    assert_eq!(ShellMode::get(args(), Some("rush"), false), ShellMode::Eval);
    assert_eq!(ShellMode::get(args(), None, false), ShellMode::Eval);
    assert_eq!(ShellMode::get(args(), Some(""), false), ShellMode::Eval);
    assert_eq!(ShellMode::get(args(), Some("-rush"), false), ShellMode::Login);
    let all = || Args {
        command: Some(String::from("ls")),
        login: true,
        interactive: true,
        file: Some(String::from("f.sh")),
    };
    assert_eq!(ShellMode::get(all(), Some("rush"), false), ShellMode::Login);
    assert_eq!(
        ShellMode::get(Args { login: false, ..all() }, Some("rush"), false),
        ShellMode::Interactive
    );
    assert_eq!(
        ShellMode::get(Args { login: false, interactive: false, ..all() }, Some("rush"), true),
        ShellMode::Command(String::from("ls"))
    );
    assert_eq!(
        ShellMode::get(
            Args { login: false, interactive: false, command: None, ..all() },
            Some("rush"),
            true
        ),
        ShellMode::Run(String::from("f.sh"))
    );
}

#[test]
fn builtins_by_name() {
    assert_eq!(builtin("exit"), Some(Builtin::Exit));
    assert_eq!(builtin("cd"), Some(Builtin::Cd));
    assert_eq!(builtin("ls"), None);
    assert_eq!(builtin(""), None);
    assert_eq!(builtin("exit "), None);
}

#[test]
fn exit_sets_the_flag() {
    let mut s = state();
    assert_eq!(Exit::run(&vec![String::from("9")], &mut s), 0);
    assert!(s.exit_requested());
}

#[test]
fn cd_goes_home_without_argument() {
    let s = state();
    assert_eq!(Cd::target(&vec![], &s), "/home/u");
    assert_eq!(Cd::target(&vec![String::from("/tmp"), String::from("x")], &s), "/tmp");
}

#[test]
fn pipeline_streams() {
    let outer: Streams<u8> = Streams { stdin: Fd::Piped(7), stdout: Fd::Piped(8), stderr: Fd::Piped(9) };
    let (left, right) = outer.split(1, 2);
    assert!(matches!(left, Streams { stdin: Fd::Piped(7), stdout: Fd::Piped(2), stderr: Fd::Piped(9) }));
    assert!(matches!(right, Streams { stdin: Fd::Piped(1), stdout: Fd::Inherit, stderr: Fd::Inherit }));
    let plain: Streams<u8> = Streams::default();
    assert!(matches!(plain, Streams { stdin: Fd::Inherit, stdout: Fd::Inherit, stderr: Fd::Inherit }));
}

#[test]
fn exit_status_of_a_signal() {
    assert_eq!(exit_status(Some(3)), 3);
    assert_eq!(exit_status(None), -127);
}

#[test]
fn errors_stop_only_sessions_that_are_not_live() {
    let ok: Result<u8, u8> = Ok(1);
    let err: Result<u8, u8> = Err(2);
    assert_eq!(settle(ok, true, ShellError::Task), Turn::Go(1));
    assert_eq!(settle(ok, false, ShellError::Task), Turn::Go(1));
    assert_eq!(settle(err, true, ShellError::Task), Turn::Skip(2));
    assert_eq!(settle(err, false, ShellError::Task), Turn::Stop(2, ShellError::Task));
    assert_eq!(settle_parsed(err, false), Turn::Stop(2, ShellError::Parse));
    assert_eq!(settle_parsed(err, true), Turn::Skip(2));
    assert_eq!(settle_spawned(err, false), Turn::Stop(2, ShellError::Spawn));
    assert_eq!(settle_spawned(ok, false), Turn::Go(1));
}

#[test]
fn waited_status_is_recorded() {
    let mut s = state();
    let ok: Result<i32, u8> = Ok(4);
    assert_eq!(record(&mut s, ok), Ok(()));
    assert_eq!(s.last_status(), 4);
    let err: Result<i32, u8> = Err(1);
    assert_eq!(record(&mut s, err), Err(ShellError::Spawn));
    assert_eq!(s.last_status(), 4);
}

#[test]
fn line_buffer_edits_at_the_cursor() {
    let mut line = LineBuffer::new();
    assert!(line.is_empty());
    assert_eq!(line.pop(), InsertResult::Render);
    assert_eq!(line.left(), InsertResult::Idle);
    assert_eq!(line.right(), InsertResult::Idle);
    assert_eq!(line.push('a'), InsertResult::Render);
    assert_eq!(line.push('c'), InsertResult::Render);
    assert_eq!(line.left(), InsertResult::Render);
    assert!(!line.at_end());
    assert_eq!(line.push('b'), InsertResult::Render);
    assert_eq!(line.to_string(), "abc");
    assert_eq!(line.left(), InsertResult::Render);
    assert_eq!(line.left(), InsertResult::Render);
    assert_eq!(line.left(), InsertResult::Idle);
    assert_eq!(line.pop(), InsertResult::Idle);
    assert_eq!(line.right(), InsertResult::Render);
    assert_eq!(line.pop(), InsertResult::Render);
    assert_eq!(line.to_string(), "bc");
    assert_eq!(line.right(), InsertResult::Render);
    assert_eq!(line.right(), InsertResult::Render);
    assert!(line.at_end());
    assert_eq!(line.right(), InsertResult::Idle);
    assert_eq!(line.pop(), InsertResult::Render);
    assert_eq!(line.to_string(), "b");
    assert_eq!(line.enter(), InsertResult::Done);
    assert_eq!(line.to_string(), "b\n");
}

#[test]
fn line_buffer_set_keeps_the_cursor_inside() {
    let mut line = LineBuffer::new();
    line.set("hello");
    assert!(line.at_end());
    line.left();
    line.left();
    line.left();
    assert_eq!(line.set("hey"), InsertResult::Render);
    line.push('X');
    assert_eq!(line.to_string(), "heXy");
    line.set("h");
    assert!(line.at_end());
    line.push('i');
    assert_eq!(line.to_string(), "hi");
}

#[test]
fn editor_keys() {
    let mut s = state();
    s.add_history("first");
    s.add_history("second");
    let mut e = LineEditor::new();
    assert_eq!(e.key(Key::Control('d'), &s), Reaction::Eof);
    assert_eq!(e.key(Key::Char('a'), &s), Reaction::Render);
    assert_eq!(e.key(Key::Shift('b'), &s), Reaction::Render);
    assert_eq!(e.key(Key::Shift('1'), &s), Reaction::Render);
    assert_eq!(e.text(), "aB1");
    assert_eq!(e.cursor(), 3);
    assert_eq!(e.key(Key::Control('d'), &s), Reaction::Idle);
    assert_eq!(e.key(Key::Control('c'), &s), Reaction::Exit);
    assert_eq!(e.key(Key::Control('l'), &s), Reaction::Clear);
    assert_eq!(e.key(Key::Control('x'), &s), Reaction::Idle);
    assert_eq!(e.key(Key::Esc, &s), Reaction::Eof);
    assert_eq!(e.key(Key::Resize, &s), Reaction::Render);
    assert_eq!(e.key(Key::Other, &s), Reaction::Idle);
    assert_eq!(e.key(Key::Paste, &s), Reaction::Fail(PromptError::Unimplemented("paste")));
    assert_eq!(e.key(Key::Left, &s), Reaction::Render);
    assert_eq!(e.cursor(), 2);
    assert_eq!(
        e.key(Key::Enter, &s),
        Reaction::Fail(PromptError::Unimplemented("handle new line in middle of word"))
    );
    assert_eq!(e.key(Key::Backspace, &s), Reaction::Render);
    assert_eq!(e.text(), "a1");
    assert_eq!(e.key(Key::Right, &s), Reaction::Render);
    assert_eq!(e.key(Key::Right, &s), Reaction::Idle);
    assert_eq!(e.key(Key::Enter, &s), Reaction::Line);
    assert_eq!(e.text(), "a1\n");
}

#[test]
fn editor_history() {
    let mut s = state();
    s.add_history("first");
    s.add_history("second");
    let mut e = LineEditor::new();
    assert_eq!(e.key(Key::Down, &s), Reaction::Idle);
    assert_eq!(e.key(Key::Up, &s), Reaction::Render);
    assert_eq!(e.text(), "second");
    assert_eq!(e.key(Key::Up, &s), Reaction::Render);
    assert_eq!(e.text(), "first");
    assert_eq!(e.key(Key::Up, &s), Reaction::Idle);
    assert_eq!(e.text(), "first");
    assert_eq!(e.key(Key::Down, &s), Reaction::Render);
    assert_eq!(e.text(), "second");
    assert_eq!(e.key(Key::Down, &s), Reaction::Render);
    assert_eq!(e.text(), "");
    assert_eq!(e.key(Key::Down, &s), Reaction::Idle);
}

#[test]
fn upper_case_of_ascii_letters_only() {
    assert_eq!(to_ascii_upper('a'), 'A');
    assert_eq!(to_ascii_upper('z'), 'Z');
    assert_eq!(to_ascii_upper('A'), 'A');
    assert_eq!(to_ascii_upper('1'), '1');
    assert_eq!(to_ascii_upper('é'), 'é');
}

#[test]
fn prompt_error_messages() {
    assert_eq!(PromptError::Write.to_string(), "failed to write data");
    assert_eq!(PromptError::Unimplemented("paste").to_string(), "unimplemented: paste");
}
