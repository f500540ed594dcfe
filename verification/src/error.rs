//! The error taxonomy of the scanner: errors are values, never panics.
use crate::numtext::{dec_digits, usize_to_string};
use vstd::prelude::*;
use vstd::string::*;

verus! {

/// Every failure the library can report.  Remote-read failures are
/// deliberately coarse (`PartialRead`), because the OS memory map is racy
/// and callers are expected to retry or drop the affected candidate.
#[derive(Debug, Clone, PartialEq, Eq)]
pub enum BetrayalError {
    /// A caller asked for more bytes than a request may carry.
    RequestTooBig(usize),
    /// The target PID does not exist or cannot be inspected.
    BadPid,
    /// A command line could not be tokenized or parsed.
    BadCommand(String),
    /// A remote read returned fewer bytes than requested, or failed outright.
    PartialRead,
    /// A remote write was refused by the kernel or came up short.
    BadWrite(String),
    /// The schema file could not be read, parsed or watched.
    ConfigFileError(String),
    /// The base-address script could not be evaluated.
    ScriptingError(String),
}

pub type BetrayalResult<T> = Result<T, BetrayalError>;

/// What `message` renders for each failure.
pub open spec fn message_spec(e: BetrayalError) -> Seq<char> {
    match e {
        BetrayalError::RequestTooBig(n) => "Requested impossibly large amount of bytes: "@
            + dec_digits(n as nat),
        BetrayalError::BadPid => "Unable to find a process with specified PID"@,
        BetrayalError::BadCommand(s) => "Improper command: "@ + s@,
        BetrayalError::PartialRead => "Partial read occured - aborting"@,
        BetrayalError::BadWrite(s) => "memory write resulted in an error "@ + s@,
        BetrayalError::ConfigFileError(s) => "problem with the config file :: "@ + s@,
        BetrayalError::ScriptingError(s) => "script has some error :: "@ + s@,
    }
}

impl BetrayalError {
    /// A human-readable description of the failure.
    pub fn message(&self) -> (r: String)
        ensures
            r@ == message_spec(*self),
    {
        match self {
            BetrayalError::RequestTooBig(n) => {
                let mut r = String::from_str("Requested impossibly large amount of bytes: ");
                let tail = usize_to_string(*n);
                r.append(tail.as_str());
                r
            },
            BetrayalError::BadPid => String::from_str("Unable to find a process with specified PID"),
            BetrayalError::BadCommand(s) => {
                let mut r = String::from_str("Improper command: ");
                r.append(s.as_str());
                r
            },
            BetrayalError::PartialRead => String::from_str("Partial read occured - aborting"),
            BetrayalError::BadWrite(s) => {
                let mut r = String::from_str("memory write resulted in an error ");
                r.append(s.as_str());
                r
            },
            BetrayalError::ConfigFileError(s) => {
                let mut r = String::from_str("problem with the config file :: ");
                r.append(s.as_str());
                r
            },
            BetrayalError::ScriptingError(s) => {
                let mut r = String::from_str("script has some error :: ");
                r.append(s.as_str());
                r
            },
        }
    }
}

} // verus!
