//! The ways in which a backup or a restore can fail, and what is said of
//! each when it does.

use vstd::prelude::*;
use vstd::string::*;

verus! {

/// Why a path could not be resolved into a directory and a file name.
#[derive(Clone, Copy, Debug, PartialEq, Eq, Structural)]
pub enum PathResolutionError {
    /// The file did not exist and could not be created.
    CannotCreate,
    /// The path could not be made canonical: it does not exist, or part of it
    /// cannot be reached.
    Unresolvable,
    /// The canonical path is not text.
    NotText,
    /// The path handed in as canonical is not in canonical form: it does not
    /// start at the root, or one of its segments is empty, `.` or `..`.
    NotCanonical,
    /// The canonical path is the root itself, which has no parent.
    NoParent,
}

/// Why an archive could not be listed.
#[derive(Clone, Copy, Debug, PartialEq, Eq, Structural)]
pub enum ArchiveReadError {
    /// The archive could not be opened or read at all.
    Unreadable,
    /// The compressed stream or one of the entries in it could not be decoded,
    /// or an entry's path is not text.
    Malformed,
}

/// Why the container runtime did not run to its end.
#[derive(Clone, Copy, Debug, PartialEq, Eq, Structural)]
pub enum LaunchError {
    /// The program could not be started.
    NotStarted,
    /// The program was started, but waiting for it failed.
    NotAwaited,
}

/// How the container runtime ended when it did not end well.
#[derive(Clone, Copy, Debug, PartialEq, Eq, Structural)]
pub enum RuntimeExitError {
    /// The runtime exited with this status, which is not zero.
    Status(i32),
    /// The runtime was ended from outside and left no status.
    Killed,
}

/// Why a backup or a restore failed. Every failure ends the command.
#[derive(Clone, Copy, Debug, PartialEq, Eq, Structural)]
pub enum Error {
    /// The target or source path could not be resolved.
    PathResolution(PathResolutionError),
    /// The archive to restore from could not be listed.
    ArchiveRead(ArchiveReadError),
    /// The container runtime could not be run.
    Launch(LaunchError),
    /// The container runtime ran and reported a failure.
    RuntimeExit(RuntimeExitError),
}

/// The character of a digit.
pub open spec fn digit_char(digit: nat) -> char {
    if digit == 0 {
        '0'
    } else if digit == 1 {
        '1'
    } else if digit == 2 {
        '2'
    } else if digit == 3 {
        '3'
    } else if digit == 4 {
        '4'
    } else if digit == 5 {
        '5'
    } else if digit == 6 {
        '6'
    } else if digit == 7 {
        '7'
    } else if digit == 8 {
        '8'
    } else {
        '9'
    }
}

/// A natural number in decimal digits, without leading zeros.
pub open spec fn digits(number: nat) -> Seq<char>
    decreases number,
{
    if number < 10 {
        seq![digit_char(number)]
    } else {
        digits(number / 10).push(digit_char(number % 10))
    }
}

/// An integer in decimal digits, with a minus sign if it is negative.
pub open spec fn decimal(number: int) -> Seq<char> {
    if number < 0 {
        seq!['-'] + digits((-number) as nat)
    } else {
        digits(number as nat)
    }
}

/// What is said of a failure. `subject` is what failed: the path for a path
/// or an archive, the program for a run.
pub open spec fn description(error: Error, subject: Seq<char>) -> Seq<char> {
    match error {
        Error::PathResolution(PathResolutionError::CannotCreate) => "Failed to create file "@
            + subject,
        Error::PathResolution(PathResolutionError::Unresolvable) => "Failed to resolve path "@
            + subject,
        Error::PathResolution(PathResolutionError::NotText) => "The canonical path of "@ + subject
            + " is not text"@,
        Error::PathResolution(PathResolutionError::NotCanonical) => "The path of "@ + subject
            + " is not canonical"@,
        Error::PathResolution(PathResolutionError::NoParent) =>
            "Failed to get parent path of path "@ + subject,
        Error::ArchiveRead(ArchiveReadError::Unreadable) => "Failed to read archive "@ + subject,
        Error::ArchiveRead(ArchiveReadError::Malformed) => "Failed to decode archive "@ + subject,
        Error::Launch(LaunchError::NotStarted) => "Failed to start "@ + subject,
        Error::Launch(LaunchError::NotAwaited) => "Failed to wait for "@ + subject,
        Error::RuntimeExit(RuntimeExitError::Status(status)) => subject + " exited with status "@
            + decimal(status as int),
        Error::RuntimeExit(RuntimeExitError::Killed) => subject + " was ended before it exited"@,
    }
}

/// The text of one digit.
fn digit_text(digit: u32) -> (text: &'static str)
    requires
        digit < 10,
    ensures
        text@ == seq![digit_char(digit as nat)],
{
    proof {
        reveal_strlit("0");
        reveal_strlit("1");
        reveal_strlit("2");
        reveal_strlit("3");
        reveal_strlit("4");
        reveal_strlit("5");
        reveal_strlit("6");
        reveal_strlit("7");
        reveal_strlit("8");
        reveal_strlit("9");
    }
    let text = if digit == 0 {
        "0"
    } else if digit == 1 {
        "1"
    } else if digit == 2 {
        "2"
    } else if digit == 3 {
        "3"
    } else if digit == 4 {
        "4"
    } else if digit == 5 {
        "5"
    } else if digit == 6 {
        "6"
    } else if digit == 7 {
        "7"
    } else if digit == 8 {
        "8"
    } else {
        "9"
    };
    assert(text@ =~= seq![digit_char(digit as nat)]);
    text
}

/// Appends the decimal digits of `number`.
fn append_digits(text: &mut String, number: u32)
    ensures
        final(text)@ == old(text)@ + digits(number as nat),
    decreases number,
{
    if number >= 10 {
        append_digits(text, number / 10);
    }
    text.append(digit_text(number % 10));
    proof {
        if number >= 10 {
            assert(old(text)@ + digits(number as nat / 10) + seq![digit_char(number as nat % 10)]
                =~= old(text)@ + digits(number as nat));
        }
    }
}

/// Appends `number` in decimal.
fn append_decimal(text: &mut String, number: i32)
    ensures
        final(text)@ == old(text)@ + decimal(number as int),
{
    if number < 0 {
        proof {
            reveal_strlit("-");
            assert("-"@ =~= seq!['-']);
        }
        let magnitude: u32 = (-(number as i64)) as u32;
        text.append("-");
        append_digits(text, magnitude);
        proof {
            assert(old(text)@ + seq!['-'] + digits((-number) as nat) =~= old(text)@ + decimal(
                number as int,
            ));
        }
    } else {
        append_digits(text, number as u32);
    }
}

impl Error {
    /// Says what failed, for the user to read. `subject` is the path or the
    /// program that the failure is about.
    pub fn describe(&self, subject: &str) -> (message: String)
        ensures
            message@ == description(*self, subject@),
    {
        match self {
            Error::PathResolution(PathResolutionError::CannotCreate) => {
                "Failed to create file ".to_owned().concat(subject)
            },
            Error::PathResolution(PathResolutionError::Unresolvable) => {
                "Failed to resolve path ".to_owned().concat(subject)
            },
            Error::PathResolution(PathResolutionError::NotText) => {
                "The canonical path of ".to_owned().concat(subject).concat(" is not text")
            },
            Error::PathResolution(PathResolutionError::NotCanonical) => {
                "The path of ".to_owned().concat(subject).concat(" is not canonical")
            },
            Error::PathResolution(PathResolutionError::NoParent) => {
                "Failed to get parent path of path ".to_owned().concat(subject)
            },
            Error::ArchiveRead(ArchiveReadError::Unreadable) => {
                "Failed to read archive ".to_owned().concat(subject)
            },
            Error::ArchiveRead(ArchiveReadError::Malformed) => {
                "Failed to decode archive ".to_owned().concat(subject)
            },
            Error::Launch(LaunchError::NotStarted) => {
                "Failed to start ".to_owned().concat(subject)
            },
            Error::Launch(LaunchError::NotAwaited) => {
                "Failed to wait for ".to_owned().concat(subject)
            },
            Error::RuntimeExit(RuntimeExitError::Status(status)) => {
                let mut message = subject.to_owned();
                message.append(" exited with status ");
                append_decimal(&mut message, *status);
                message
            },
            Error::RuntimeExit(RuntimeExitError::Killed) => {
                subject.to_owned().concat(" was ended before it exited")
            },
        }
    }
}

} // verus!
