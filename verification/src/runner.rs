//! Running a submitted command line: what is to be executed for it, and what
//! becomes of the bytes that the program printed.
//!
//! A line is read as words. The first word names the program, which is
//! looked up on the search path; all the words, the first one again
//! included, are handed to the program as its arguments.

use crate::resolver::{resolve, Files};
use crate::text::string_from_utf8;
use crate::words::{split_words, words};
use vstd::prelude::*;
use vstd::utf8::{decode_utf8, valid_utf8};

verus! {

/// Why a command line gave no output.
#[derive(Clone, Copy, Debug, PartialEq, Eq, Structural)]
pub enum RunError {
    /// The line holds no word.
    EmptyCommand,
    /// The system could not start the program.
    SpawnFailed,
    /// The program printed bytes that are not UTF-8.
    InvalidOutputEncoding,
}

/// A program to execute, as texts.
pub struct Command {
    /// The path of the program.
    pub program: Seq<char>,
    /// The arguments, the name that the program was called by first.
    pub args: Seq<Seq<char>>,
}

/// A program found on the search path, with the arguments to start it with.
#[derive(Debug)]
pub struct ResolvedCommand {
    /// The path of the program.
    pub program: String,
    /// The arguments, the name that the program was called by first.
    pub args: Vec<String>,
}

impl View for ResolvedCommand {
    type V = Command;

    open spec fn view(&self) -> Command {
        Command { program: self.program@, args: self.args.deep_view() }
    }
}

/// What is to be executed for `line`: nothing but an error for a line
/// without words, nothing at all when the first word is not found on the
/// search path, and otherwise the program found, with all the words of the
/// line as its arguments.
pub open spec fn planned(line: Seq<char>, dirs: Seq<Seq<char>>, files: Files) -> Result<
    Option<Command>,
    RunError,
> {
    if words(line).len() == 0 {
        Err(RunError::EmptyCommand)
    } else {
        match resolve(dirs, words(line)[0], files) {
            None => Ok(None),
            Some(path) => Ok(Some(Command { program: path, args: words(line) })),
        }
    }
}

/// The result of a run, given what came of starting the program: `None`
/// when the system could not start it, and otherwise the bytes that it
/// printed.
pub open spec fn captured(spawned: Option<Seq<u8>>) -> Result<Seq<char>, RunError> {
    match spawned {
        None => Err(RunError::SpawnFailed),
        Some(bytes) => if valid_utf8(bytes) {
            Ok(decode_utf8(bytes))
        } else {
            Err(RunError::InvalidOutputEncoding)
        },
    }
}

/// What the transcript says of a failed run.
pub open spec fn message(error: RunError) -> Seq<char> {
    match error {
        RunError::EmptyCommand => "Running empty command"@,
        RunError::SpawnFailed => "Failed to start command"@,
        RunError::InvalidOutputEncoding => "Command output is not valid UTF-8"@,
    }
}

impl RunError {
    /// What the transcript says of this error.
    pub fn message(&self) -> (r: String)
        ensures
            r@ == message(*self),
    {
        match self {
            RunError::EmptyCommand => "Running empty command".to_owned(),
            RunError::SpawnFailed => "Failed to start command".to_owned(),
            RunError::InvalidOutputEncoding => "Command output is not valid UTF-8".to_owned(),
        }
    }
}

/// The word of `line` that names the program: its first word, if it has
/// one.
pub fn program_name(line: &str) -> (r: Option<String>)
    ensures
        match r {
            Some(name) => words(line@).len() > 0 && name@ == words(line@)[0],
            None => words(line@).len() == 0,
        },
{
    let mut found = split_words(line);
    if found.len() == 0 {
        None
    } else {
        found.truncate(1);
        found.pop()
    }
}

/// Turns what came of starting a program into the result of the run.
///
/// `spawned` is `None` when the system could not start the program, and
/// otherwise holds the bytes that the program printed. Those are returned as
/// text when they are valid UTF-8.
pub fn capture_output(spawned: Option<Vec<u8>>) -> (r: Result<String, RunError>)
    ensures
        match r {
            Ok(text) => captured(spawned.deep_view()) == Ok::<Seq<char>, RunError>(text@),
            Err(error) => captured(spawned.deep_view()) == Err::<Seq<char>, RunError>(error),
        },
{
    match spawned {
        None => Err(RunError::SpawnFailed),
        Some(bytes) => {
            assert(bytes.deep_view() =~= bytes@);
            match string_from_utf8(bytes) {
                Some(text) => Ok(text),
                None => Err(RunError::InvalidOutputEncoding),
            }
        },
    }
}

} // verus!
