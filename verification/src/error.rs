//! Error and result types used all across this crate.

use crate::text::{decimal, decimal_string};
use vstd::prelude::*;
use vstd::string::StringExecFns;

verus! {

/// Enumeration of the errors that this library reports.
#[derive(Debug)]
pub enum Error {
    /// A process command was not found.
    CommandNotFound(String),
    /// A command line process ended with a failure.
    ExitStatus(String),
    /// An invalid data annotation.
    InvalidDataAnnotation(String),
    /// A name that does not exist or is not a file.
    InvalidFilename(String),
    /// An invalid request.
    InvalidRequest(String),
    /// An invalid value.
    InvalidValue(String),
    /// A Docker action that could not be parsed.
    ParseAction(String),
}

/// Result type alias with the error type defined above.
pub type Result<T> = core::result::Result<T, Error>;

/// A text as the `Debug` formatting of std shows it: between double
/// quotes, with the characters escaped that have to be.
pub uninterp spec fn debug_quoted(s: Seq<char>) -> Seq<char>;

/// Formats a text with the `Debug` formatting of std for `str`.
#[verifier::external_body]
pub(crate) fn quote(s: &str) -> (quoted: String)
    ensures
        quoted@ == debug_quoted(s@),
{
    format!("{s:?}")
}

/// The message of an error, as a sequence of characters.
pub open spec fn message_text(error: Error) -> Seq<char> {
    match error {
        Error::CommandNotFound(command) => "command not found: "@ + command@,
        Error::ExitStatus(status) => "command failed: "@ + debug_quoted(status@),
        Error::InvalidDataAnnotation(what) => "invalid request: "@ + what@,
        Error::InvalidFilename(name) => "invalid filename (got '"@ + name@
            + "', does not exist or is not a file)"@,
        Error::InvalidRequest(what) => "invalid request: "@ + what@,
        Error::InvalidValue(what) => "invalid value: "@ + debug_quoted(what@),
        Error::ParseAction(action) => "could not parse "@ + debug_quoted(action@)
            + " in a Docker action"@,
    }
}

impl Error {
    /// The message that describes the error.
    pub fn message(&self) -> (text: String)
        ensures
            text@ == message_text(*self),
    {
        match self {
            Error::CommandNotFound(command) => {
                let mut text = "command not found: ".to_owned();
                text.append(command.as_str());
                text
            },
            Error::ExitStatus(status) => {
                let mut text = "command failed: ".to_owned();
                text.append(quote(status.as_str()).as_str());
                text
            },
            Error::InvalidDataAnnotation(what) => {
                let mut text = "invalid request: ".to_owned();
                text.append(what.as_str());
                text
            },
            Error::InvalidFilename(name) => {
                let mut text = "invalid filename (got '".to_owned();
                text.append(name.as_str());
                text.append("', does not exist or is not a file)");
                text
            },
            Error::InvalidRequest(what) => {
                let mut text = "invalid request: ".to_owned();
                text.append(what.as_str());
                text
            },
            Error::InvalidValue(what) => {
                let mut text = "invalid value: ".to_owned();
                text.append(quote(what.as_str()).as_str());
                text
            },
            Error::ParseAction(action) => {
                let mut text = "could not parse ".to_owned();
                text.append(quote(action.as_str()).as_str());
                text.append(" in a Docker action");
                text
            },
        }
    }
}

/// The decimal notation of an exit code.
pub open spec fn signed_decimal(code: int) -> Seq<char> {
    if code < 0 {
        "-"@ + decimal((-code) as nat)
    } else {
        decimal(code as nat)
    }
}

/// Tells how a process ended: `success` says whether it succeeded and
/// `code` holds its exit code, if it has one.
///
/// # Errors
///
/// If the process did not succeed.
pub fn exit_status_error(success: bool, code: Option<i32>) -> (res: Result<()>)
    ensures
        success ==> res is Ok,
        !success ==> (res matches Err(Error::ExitStatus(text)) && text@ == match code {
            Some(code) => "Process terminated with exit code: "@ + signed_decimal(code as int),
            None => "Process terminated by signal"@,
        }),
{
    if success {
        return Ok(());
    }
    match code {
        Some(code) => {
            let mut text = "Process terminated with exit code: ".to_owned();
            if code < 0 {
                text.append("-");
                let size: usize = (-(code as i64)) as usize;
                text.append(decimal_string(size).as_str());
            } else {
                text.append(decimal_string(code as usize).as_str());
            }
            Err(Error::ExitStatus(text))
        },
        None => Err(Error::ExitStatus("Process terminated by signal".to_owned())),
    }
}

} // verus!
