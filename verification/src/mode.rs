//! How the shell was asked to run.

use vstd::prelude::*;
use vstd::string::StrSliceExecFns;

verus! {

/// The command-line arguments of the shell.
#[derive(Debug)]
pub struct Args {
    /// A command to run.
    pub command: Option<String>,
    /// Whether a login shell was asked for.
    pub login: bool,
    /// Whether an interactive shell was asked for.
    pub interactive: bool,
    /// A file to run.
    pub file: Option<String>,
}

/// How the shell runs.
#[derive(Debug, PartialEq, Eq)]
pub enum ShellMode {
    /// Run the file at this path.
    Run(String),
    /// Run what standard input holds.
    Eval,
    /// Prompt for commands.
    Interactive,
    /// Run as a login shell.
    Login,
    /// Run this command.
    Command(String),
}

/// What a [`ShellMode`] is, over mathematical sequences.
pub enum ShellModeModel {
    Run(Seq<char>),
    Eval,
    Interactive,
    Login,
    Command(Seq<char>),
}

impl View for ShellMode {
    type V = ShellModeModel;

    open spec fn view(&self) -> ShellModeModel {
        match self {
            ShellMode::Run(path) => ShellModeModel::Run(path@),
            ShellMode::Eval => ShellModeModel::Eval,
            ShellMode::Interactive => ShellModeModel::Interactive,
            ShellMode::Login => ShellModeModel::Login,
            ShellMode::Command(cmd) => ShellModeModel::Command(cmd@),
        }
    }
}

/// Whether the shell was started under a name that begins with `-`, as a
/// login shell is.
pub open spec fn dashed(name: Option<&str>) -> bool {
    match name {
        Some(n) => n@.len() > 0 && n@[0] == '-',
        None => false,
    }
}

/// The mode that the arguments ask for. A login shell comes first, then
/// an interactive one, then a command, then a file. With none of them the
/// shell prompts where standard input is a terminal, and else runs what
/// standard input holds.
pub open spec fn mode_of(args: Args, name: Option<&str>, tty: bool) -> ShellModeModel {
    if dashed(name) || args.login {
        ShellModeModel::Login
    } else if args.interactive {
        ShellModeModel::Interactive
    } else if let Some(cmd) = args.command {
        ShellModeModel::Command(cmd@)
    } else if let Some(file) = args.file {
        ShellModeModel::Run(file@)
    } else if tty {
        ShellModeModel::Interactive
    } else {
        ShellModeModel::Eval
    }
}

impl ShellMode {
    /// The mode for the arguments `value`, the name `name` under which the
    /// shell was started, and whether standard input is a terminal.
    pub fn get(value: Args, name: Option<&str>, tty: bool) -> (mode: ShellMode)
        ensures
            mode@ == mode_of(value, name, tty),
    {
        let dash = match name {
            Some(n) => n.unicode_len() > 0 && n.get_char(0) == '-',
            None => false,
        };
        if dash || value.login {
            ShellMode::Login
        } else if value.interactive {
            ShellMode::Interactive
        } else if let Some(cmd) = value.command {
            ShellMode::Command(cmd)
        } else if let Some(file) = value.file {
            ShellMode::Run(file)
        } else if tty {
            ShellMode::Interactive
        } else {
            ShellMode::Eval
        }
    }
}

} // verus!
