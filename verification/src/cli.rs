//! What a command-line front end decides: what to do for its arguments, and
//! the exit code for the way a run ended.
use crate::vm::{InterpretError, RunFileError};
use vstd::prelude::*;

verus! {

/// Reads `exitcode::OK`. Trusted: it is 0, the code of a successful run.
#[verifier::external_body]
fn ok() -> (code: i32)
    ensures
        code == 0,
{
    exitcode::OK
}

/// Reads `exitcode::USAGE`. Trusted: it is 64, the code for a command that
/// was used incorrectly.
#[verifier::external_body]
fn usage() -> (code: i32)
    ensures
        code == 64,
{
    exitcode::USAGE
}

/// Reads `exitcode::DATAERR`. Trusted: it is 65, the code for incorrect
/// input data.
#[verifier::external_body]
fn data_error() -> (code: i32)
    ensures
        code == 65,
{
    exitcode::DATAERR
}

/// Reads `exitcode::SOFTWARE`. Trusted: it is 70, the code for an internal
/// software error.
#[verifier::external_body]
fn software() -> (code: i32)
    ensures
        code == 70,
{
    exitcode::SOFTWARE
}

/// Reads `exitcode::IOERR`. Trusted: it is 74, the code for an error during
/// input or output.
#[verifier::external_body]
fn io_error() -> (code: i32)
    ensures
        code == 74,
{
    exitcode::IOERR
}

/// What a front end is asked to do.
#[derive(Clone, Copy, Debug, PartialEq, Eq, Structural)]
pub enum Request {
    /// Nothing that it can do: it says how it is used.
    Usage,
    /// An interactive session.
    Session,
    /// The file that its first argument names.
    File,
}

/// How a run of a front end ended.
#[derive(Clone, Copy, Debug, PartialEq, Eq)]
pub enum Ending {
    /// All went well.
    Done,
    /// It was not asked for anything that it can do.
    Usage,
    /// Reading or writing failed, or the source did.
    Failed(RunFileError),
}

/// The request that `arguments` arguments make, the name of the program
/// counted as the first.
pub open spec fn request_of(arguments: nat) -> Request {
    if arguments < 1 {
        Request::Usage
    } else if arguments == 1 {
        Request::Session
    } else {
        Request::File
    }
}

/// The exit code for each ending: 0 for success, 64 for wrong usage, 74
/// where reading or writing failed, 65 for a source that does not compile,
/// 70 for one that fails when it runs.
pub open spec fn code_of(ending: Ending) -> i32 {
    match ending {
        Ending::Done => 0,
        Ending::Usage => 64,
        Ending::Failed(RunFileError::Io) => 74,
        Ending::Failed(RunFileError::Interpret(InterpretError::Compile)) => 65,
        Ending::Failed(RunFileError::Interpret(InterpretError::Runtime)) => 70,
    }
}

/// What to do for `arguments` arguments, the name of the program counted
/// as the first.
pub fn request(arguments: usize) -> (r: Request)
    ensures
        r == request_of(arguments as nat),
{
    if arguments < 1 {
        Request::Usage
    } else if arguments == 1 {
        Request::Session
    } else {
        Request::File
    }
}

/// The code to leave the process with.
pub fn exit_code(ending: Ending) -> (code: i32)
    ensures
        code == code_of(ending),
{
    match ending {
        Ending::Done => ok(),
        Ending::Usage => usage(),
        Ending::Failed(RunFileError::Io) => io_error(),
        Ending::Failed(RunFileError::Interpret(InterpretError::Compile)) => data_error(),
        Ending::Failed(RunFileError::Interpret(InterpretError::Runtime)) => software(),
    }
}

} // verus!
