//! Errors of the front end and of the shell around it.

use vstd::prelude::*;
use vstd::string::StringExecFns;
use crate::token::{render, Token, TokenModel};

verus! {

/// Why the lexer could not finish a token.
#[derive(Debug, Clone, Copy, PartialEq, Eq, Structural, Hash)]
pub enum LexError {
    /// A `"` span ran to the end of the input.
    UnclosedDoubleQuote,
    /// A `'` span ran to the end of the input.
    UnclosedSingleQuote,
    /// A `$(` or backtick span ran to the end of the input.
    UnclosedSub,
}

impl LexError {
    /// The message shown to the user.
    pub fn to_string(&self) -> (text: String)
        ensures
            text@ == match *self {
                LexError::UnclosedDoubleQuote => "unclosed double quotes"@,
                LexError::UnclosedSingleQuote => "unclosed single quote"@,
                LexError::UnclosedSub => "unclosed command substitution"@,
            },
    {
        match self {
            LexError::UnclosedDoubleQuote => String::from_str("unclosed double quotes"),
            LexError::UnclosedSingleQuote => String::from_str("unclosed single quote"),
            LexError::UnclosedSub => String::from_str("unclosed command substitution"),
        }
    }
}

/// A token that was asked to be something it is not.
#[derive(Debug, PartialEq, Eq)]
pub enum TokenError {
    /// The token is no identifier.
    CoerceError(Token),
}

/// Why no command could be made of the input.
#[derive(Debug, PartialEq, Eq)]
pub enum CmdError {
    /// A token stands where the grammar has no place for it.
    BadToken(Token),
    /// An operator has no command on its left.
    MissingName,
    /// A command substitution could not be evaluated.
    SubShell,
    /// The lexer could not finish a token.
    Lex(LexError),
    /// The input ended where a token had to follow.
    UnexpectedEnd,
}

/// What a [`CmdError`] is, over mathematical sequences.
pub enum CmdErrorModel {
    BadToken(TokenModel),
    MissingName,
    SubShell,
    Lex(LexError),
    UnexpectedEnd,
}

impl View for CmdError {
    type V = CmdErrorModel;

    open spec fn view(&self) -> CmdErrorModel {
        match self {
            CmdError::BadToken(token) => CmdErrorModel::BadToken(token@),
            CmdError::MissingName => CmdErrorModel::MissingName,
            CmdError::SubShell => CmdErrorModel::SubShell,
            CmdError::Lex(e) => CmdErrorModel::Lex(*e),
            CmdError::UnexpectedEnd => CmdErrorModel::UnexpectedEnd,
        }
    }
}

/// The message of a [`CmdError`].
pub open spec fn cmd_error_text(e: CmdErrorModel) -> Seq<char> {
    match e {
        CmdErrorModel::BadToken(token) => "invalid token received: "@ + render(token),
        CmdErrorModel::MissingName => "a name is needed to call it"@,
        CmdErrorModel::SubShell => "Error in subshell. This could recurse."@,
        CmdErrorModel::Lex(LexError::UnclosedDoubleQuote) => "unclosed double quotes"@,
        CmdErrorModel::Lex(LexError::UnclosedSingleQuote) => "unclosed single quote"@,
        CmdErrorModel::Lex(LexError::UnclosedSub) => "unclosed command substitution"@,
        CmdErrorModel::UnexpectedEnd => "the input ended where a word was expected"@,
    }
}

impl CmdError {
    /// The message shown to the user.
    pub fn to_string(&self) -> (text: String)
        ensures
            text@ == cmd_error_text(self@),
    {
        match self {
            CmdError::BadToken(token) => {
                let mut text = String::from_str("invalid token received: ");
                let shown = token.to_string();
                text.append(shown.as_str());
                text
            },
            CmdError::MissingName => String::from_str("a name is needed to call it"),
            CmdError::SubShell => String::from_str("Error in subshell. This could recurse."),
            CmdError::Lex(e) => e.to_string(),
            CmdError::UnexpectedEnd => String::from_str(
                "the input ended where a word was expected",
            ),
        }
    }
}

/// Why the shell stopped.
#[derive(Debug, Clone, Copy, PartialEq, Eq, Structural, Hash)]
pub enum ShellError {
    Parse,
    Spawn,
    Task,
}

impl ShellError {
    /// The message shown to the user.
    pub fn to_string(&self) -> (text: String)
        ensures
            text@ == match *self {
                ShellError::Parse => "failed to parse input"@,
                ShellError::Spawn => "failed spawn thing"@,
                ShellError::Task => "background task had a problem"@,
            },
    {
        match self {
            ShellError::Parse => String::from_str("failed to parse input"),
            ShellError::Spawn => String::from_str("failed spawn thing"),
            ShellError::Task => String::from_str("background task had a problem"),
        }
    }
}

/// Why a command could not be started.
#[derive(Debug, Clone, Copy, PartialEq, Eq, Structural, Hash)]
pub enum DriverError {
    Spawn,
    Pipe,
}

impl DriverError {
    /// The message shown to the user.
    pub fn to_string(&self) -> (text: String)
        ensures
            text@ == match *self {
                DriverError::Spawn => "failed to spawn command"@,
                DriverError::Pipe => "failed to open pipe"@,
            },
    {
        match self {
            DriverError::Spawn => String::from_str("failed to spawn command"),
            DriverError::Pipe => String::from_str("failed to open pipe"),
        }
    }
}

/// Why the exit code of a task could not be had.
#[derive(Debug, Clone, Copy, PartialEq, Eq, Structural, Hash)]
pub enum TaskError {
    Wait,
}

impl TaskError {
    /// The message shown to the user.
    pub fn to_string(&self) -> (text: String)
        ensures
            text@ == "failed to wait for process"@,
    {
        String::from_str("failed to wait for process")
    }
}

} // verus!
