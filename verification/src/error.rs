//! The library's errors and the process exit codes they map to.
use vstd::prelude::*;

use crate::text::concat;

verus! {

/// Everything that can go wrong in the library.
#[derive(Debug)]
pub enum Error {
    /// The store refused an operation; the text says why.
    Database(String),
    /// An input or output operation failed; the text says why.
    Io(String),
    /// No scope with the requested id.
    ScopeNotFound,
    /// A scope with this id already exists.
    ScopeAlreadyExists,
    /// A file pattern does not compile; the text is the pattern error.
    InvalidPattern(String),
    /// No scope is active.
    NoActiveScope,
    /// No pending event exists for this file.
    FileNotTracked(String),
    /// The operation is not allowed; the text says why.
    PermissionDenied(String),
}

/// The exit code of each error.
pub open spec fn exit_code_of(e: Error) -> i32 {
    match e {
        Error::ScopeNotFound | Error::NoActiveScope | Error::FileNotTracked(_) => 2,
        Error::ScopeAlreadyExists => 3,
        _ => 1,
    }
}

/// The text shown for each error.
pub open spec fn message_of(e: Error) -> Seq<char> {
    match e {
        Error::Database(m) => "database error: "@ + m@,
        Error::Io(m) => "IO error: "@ + m@,
        Error::ScopeNotFound => "scope not found"@,
        Error::ScopeAlreadyExists => "scope already exists"@,
        Error::InvalidPattern(m) => "invalid pattern: "@ + m@,
        Error::NoActiveScope => "no active scope"@,
        Error::FileNotTracked(m) => "file not tracked: "@ + m@,
        Error::PermissionDenied(m) => "permission denied: "@ + m@,
    }
}

impl Error {
    /// The process exit code for this error.
    pub fn exit_code(&self) -> (c: i32)
        ensures
            c == exit_code_of(*self),
    {
        match self {
            Error::ScopeNotFound | Error::NoActiveScope | Error::FileNotTracked(_) => 2,
            Error::ScopeAlreadyExists => 3,
            _ => 1,
        }
    }

    /// The text shown for this error.
    pub fn message(&self) -> (m: String)
        ensures
            m@ == message_of(*self),
    {
        match self {
            Error::Database(m) => concat("database error: ", m.as_str()),
            Error::Io(m) => concat("IO error: ", m.as_str()),
            Error::ScopeNotFound => String::from_str("scope not found"),
            Error::ScopeAlreadyExists => String::from_str("scope already exists"),
            Error::InvalidPattern(m) => concat("invalid pattern: ", m.as_str()),
            Error::NoActiveScope => String::from_str("no active scope"),
            Error::FileNotTracked(m) => concat("file not tracked: ", m.as_str()),
            Error::PermissionDenied(m) => concat("permission denied: ", m.as_str()),
        }
    }
}

} // verus!
