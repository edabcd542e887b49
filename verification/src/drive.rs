//! What a driver needs to know to run a command: which names are
//! builtins, what the builtins decide, and how the streams of a pipeline
//! are wired.
//!
//! Starting processes and opening pipes are the driver's part.

use vstd::prelude::*;
use vstd::string::StringExecFns;
use crate::state::ShellState;

verus! {

/// Where a standard stream of a command goes to or comes from. `F` is
/// what the driver holds for one end of a pipe.
#[derive(Debug)]
pub enum Fd<F> {
    /// The stream of the shell itself.
    Inherit,
    /// One end of a pipe.
    Piped(F),
}

/// The three standard streams of a command.
#[derive(Debug)]
pub struct Streams<F> {
    pub stdin: Fd<F>,
    pub stdout: Fd<F>,
    pub stderr: Fd<F>,
}

impl<F> Default for Fd<F> {
    fn default() -> (fd: Self)
        ensures
            fd == Fd::<F>::Inherit,
    {
        Fd::Inherit
    }
}

impl<F> Default for Streams<F> {
    fn default() -> (streams: Self)
        ensures
            streams == (Streams::<F> {
                stdin: Fd::Inherit,
                stdout: Fd::Inherit,
                stderr: Fd::Inherit,
            }),
    {
        Streams { stdin: Fd::Inherit, stdout: Fd::Inherit, stderr: Fd::Inherit }
    }
}

impl<F> Streams<F> {
    /// The streams of the two sides of `left | right`, where the pipeline
    /// has the streams `self` and `write` and `read` are the ends of a new
    /// pipe. The left side writes into the pipe and keeps the other
    /// streams. The right side reads from the pipe; its other streams are
    /// those of the shell.
    pub fn split(self, read: F, write: F) -> (sides: (Streams<F>, Streams<F>))
        ensures
            sides.0 == (Streams { stdin: self.stdin, stdout: Fd::Piped(write), stderr: self.stderr }),
            sides.1 == (Streams {
                stdin: Fd::Piped(read),
                stdout: Fd::Inherit,
                stderr: Fd::Inherit,
            }),
    {
        let left = Streams { stdin: self.stdin, stdout: Fd::Piped(write), stderr: self.stderr };
        let right = Streams { stdin: Fd::Piped(read), stdout: Fd::Inherit, stderr: Fd::Inherit };
        (left, right)
    }
}

/// A command that the shell runs itself.
#[derive(Debug, Clone, Copy, PartialEq, Eq, Structural)]
pub enum Builtin {
    Exit,
    Cd,
}

/// The builtin that `name` names.
pub open spec fn builtin_of(name: Seq<char>) -> Option<Builtin> {
    if name == "exit"@ {
        Some(Builtin::Exit)
    } else if name == "cd"@ {
        Some(Builtin::Cd)
    } else {
        None
    }
}

/// The builtin that `name` names: `exit` and `cd` are builtins, and no
/// other name is.
pub fn builtin(name: &str) -> (found: Option<Builtin>)
    ensures
        found == builtin_of(name@),
{
    let name = String::from_str(name);
    if name.eq(&String::from_str("exit")) {
        Some(Builtin::Exit)
    } else if name.eq(&String::from_str("cd")) {
        Some(Builtin::Cd)
    } else {
        None
    }
}

/// The builtin `exit`.
#[derive(Debug)]
pub struct Exit;

impl Exit {
    /// Asks the session to end after the current command. The arguments
    /// are not looked at, and the exit status is 0.
    pub fn run(args: &Vec<String>, state: &mut ShellState) -> (code: i32)
        ensures
            code == 0,
            final(state).exiting(),
            final(state).history() == old(state).history(),
            final(state).same_surroundings(old(state)),
    {
        state.request_exit();
        0
    }
}

/// The builtin `cd`.
#[derive(Debug)]
pub struct Cd;

impl Cd {
    /// The directory to change to: the first argument, and the home
    /// directory where there is none.
    pub fn target(args: &Vec<String>, state: &ShellState) -> (dir: String)
        ensures
            dir@ == if args@.len() > 0 {
                args@[0]@
            } else {
                state.home_dir()
            },
    {
        if args.len() > 0 {
            args[0].clone()
        } else {
            String::from_str(state.home())
        }
    }
}

/// The exit status of a process that ended: its exit code, and -127 where
/// it has none.
pub fn exit_status(code: Option<i32>) -> (status: i32)
    ensures
        status == match code {
            Some(c) => c,
            None => -127i32,
        },
{
    match code {
        Some(c) => c,
        None => -127,
    }
}

} // verus!
