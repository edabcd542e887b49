//! What the run loop of a shell decides: whether an error stops the
//! session, and when the session ends.
//!
//! Running commands and printing errors are the caller's part.

use vstd::prelude::*;
use crate::error::ShellError;
use crate::state::ShellState;

verus! {

/// What the run loop does with the outcome of a step.
#[derive(Debug, PartialEq, Eq)]
pub enum Turn<T, E> {
    /// The step succeeded: go on with its result.
    Go(T),
    /// The step failed in a live session: show the error and take the
    /// next command.
    Skip(E),
    /// The step failed in a session that is not live: show the error and
    /// end the session with the second error.
    Stop(E, ShellError),
}

/// Settles the outcome of a step of the session. A live session goes on
/// after an error; any other ends with `failure`.
pub fn settle<T, E>(outcome: Result<T, E>, live: bool, failure: ShellError) -> (turn: Turn<T, E>)
    ensures
        turn == match outcome {
            Ok(value) => Turn::<T, E>::Go(value),
            Err(e) => if live {
                Turn::<T, E>::Skip(e)
            } else {
                Turn::<T, E>::Stop(e, failure)
            },
        },
{
    match outcome {
        Ok(value) => Turn::Go(value),
        Err(e) => if live {
            Turn::Skip(e)
        } else {
            Turn::Stop(e, failure)
        },
    }
}

/// Settles the outcome of parsing a command: the failure is `Parse`.
pub fn settle_parsed<T, E>(outcome: Result<T, E>, live: bool) -> (turn: Turn<T, E>)
    ensures
        turn == match outcome {
            Ok(value) => Turn::<T, E>::Go(value),
            Err(e) => if live {
                Turn::<T, E>::Skip(e)
            } else {
                Turn::<T, E>::Stop(e, ShellError::Parse)
            },
        },
{
    settle(outcome, live, ShellError::Parse)
}

/// Settles the outcome of starting a command: the failure is `Spawn`.
pub fn settle_spawned<T, E>(outcome: Result<T, E>, live: bool) -> (turn: Turn<T, E>)
    ensures
        turn == match outcome {
            Ok(value) => Turn::<T, E>::Go(value),
            Err(e) => if live {
                Turn::<T, E>::Skip(e)
            } else {
                Turn::<T, E>::Stop(e, ShellError::Spawn)
            },
        },
{
    settle(outcome, live, ShellError::Spawn)
}

/// Records the exit status of a task that was waited for. A task that
/// could not be waited for ends the session with `Spawn`, live or not, and
/// the status of the last command stays.
pub fn record<E>(state: &mut ShellState, waited: Result<i32, E>) -> (done: Result<(), ShellError>)
    ensures
        final(state).exiting() == old(state).exiting(),
        final(state).home_dir() == old(state).home_dir(),
        final(state).history() == old(state).history(),
        forall|name: Seq<char>| final(state).variable(name) == old(state).variable(name),
        match waited {
            Ok(code) => final(state).status() == code && done is Ok,
            Err(_) => final(state).status() == old(state).status() && done == Err::<
                (),
                ShellError,
            >(ShellError::Spawn),
        },
{
    match waited {
        Ok(code) => {
            state.set_status(code);
            Ok(())
        },
        Err(_) => Err(ShellError::Spawn),
    }
}

} // verus!
