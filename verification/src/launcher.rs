//! Judging the one run of the container runtime.
//!
//! The runtime is started once and waited for; nothing is tried again. What
//! came of the run decides how the command ends.

use crate::errors::{Error, LaunchError, RuntimeExitError};
use vstd::prelude::*;

verus! {

/// What came of starting the container runtime and waiting for it.
#[derive(Clone, Copy, Debug, PartialEq, Eq, Structural)]
pub enum RunOutcome {
    /// The program could not be started.
    NotStarted,
    /// The program was started, but waiting for it failed.
    NotAwaited,
    /// The program ran and exited with this status.
    Exited { status: i32 },
    /// The program was ended from outside and left no status.
    Killed,
}

/// How a command ends after its run: well only if the runtime exited with
/// status zero.
pub open spec fn conclusion(outcome: RunOutcome) -> Result<(), Error> {
    match outcome {
        RunOutcome::NotStarted => Err(Error::Launch(LaunchError::NotStarted)),
        RunOutcome::NotAwaited => Err(Error::Launch(LaunchError::NotAwaited)),
        RunOutcome::Exited { status } => if status == 0 {
            Ok(())
        } else {
            Err(Error::RuntimeExit(RuntimeExitError::Status(status)))
        },
        RunOutcome::Killed => Err(Error::RuntimeExit(RuntimeExitError::Killed)),
    }
}

/// The exit status of the command itself: zero for success, one for any
/// failure.
pub open spec fn exit_status_of(ending: Result<(), Error>) -> int {
    if ending is Ok {
        0
    } else {
        1
    }
}

/// A command exits with zero only if every stage went well and the runtime
/// itself exited with zero; a runtime that could not be started makes it exit
/// with a status that is not zero.
pub proof fn lemma_exit_status(outcome: RunOutcome)
    ensures
        exit_status_of(conclusion(outcome)) == 0 <==> outcome == (RunOutcome::Exited { status: 0 }),
        outcome == RunOutcome::NotStarted ==> conclusion(outcome) == Err::<(), Error>(
            Error::Launch(LaunchError::NotStarted),
        ) && exit_status_of(conclusion(outcome)) != 0,
{
}

/// Judges the run.
pub fn conclude(outcome: RunOutcome) -> (ending: Result<(), Error>)
    ensures
        ending == conclusion(outcome),
{
    match outcome {
        RunOutcome::NotStarted => Err(Error::Launch(LaunchError::NotStarted)),
        RunOutcome::NotAwaited => Err(Error::Launch(LaunchError::NotAwaited)),
        RunOutcome::Exited { status } => if status == 0 {
            Ok(())
        } else {
            Err(Error::RuntimeExit(RuntimeExitError::Status(status)))
        },
        RunOutcome::Killed => Err(Error::RuntimeExit(RuntimeExitError::Killed)),
    }
}

/// The exit status that the command leaves.
pub fn exit_status(ending: &Result<(), Error>) -> (status: i32)
    ensures
        status == exit_status_of(*ending),
{
    match ending {
        Ok(_) => 0,
        Err(_) => 1,
    }
}

} // verus!
