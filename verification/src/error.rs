//! Unified error type.
//!
//! Errors that come from outside libraries (SSH, I/O, JSON) are carried as
//! their message (and, for I/O, their kind), so every error of the crate is a
//! plain value.

use vstd::prelude::*;
use crate::text::{push_str, to_owned_string};

verus! {

/// The kind of an I/O error (the part of `std::io::ErrorKind` the crate uses).
#[derive(Debug, Clone, Copy, PartialEq, Eq, Structural)]
pub enum IoErrorKind {
    TimedOut,
    NotFound,
    Other,
}

/// Unified error type for all commands.
#[derive(Debug)]
pub enum AppError {
    Ssh(String),
    SshKey(String),
    Io { kind: IoErrorKind, message: String },
    Json(String),
    SessionNotFound(String),
    Auth(String),
    Config(String),
    Channel(String),
    Crypto(String),
    Cancelled(String),
}

/// Convenience alias for `Result<T, AppError>`.
pub type AppResult<T> = Result<T, AppError>;

/// The text an error displays as.
pub open spec fn app_error_text(e: AppError) -> Seq<char> {
    match e {
        AppError::Ssh(m) => "SSH error: "@ + m@,
        AppError::SshKey(m) => "SSH key error: "@ + m@,
        AppError::Io { kind, message } => "IO error: "@ + message@,
        AppError::Json(m) => "JSON error: "@ + m@,
        AppError::SessionNotFound(m) => m@,
        AppError::Auth(m) => m@,
        AppError::Config(m) => m@,
        AppError::Channel(m) => m@,
        AppError::Crypto(m) => "Crypto error: "@ + m@,
        AppError::Cancelled(m) => m@,
    }
}

impl AppError {
    /// The message shown to the user (what `Display` prints).
    pub fn message(&self) -> (res: String)
        ensures
            res@ == app_error_text(*self),
    {
        match self {
            AppError::Ssh(m) => prefixed("SSH error: ", m),
            AppError::SshKey(m) => prefixed("SSH key error: ", m),
            AppError::Io { kind: _, message } => prefixed("IO error: ", message),
            AppError::Json(m) => prefixed("JSON error: ", m),
            AppError::SessionNotFound(m) => m.clone(),
            AppError::Auth(m) => m.clone(),
            AppError::Config(m) => m.clone(),
            AppError::Channel(m) => m.clone(),
            AppError::Crypto(m) => prefixed("Crypto error: ", m),
            AppError::Cancelled(m) => m.clone(),
        }
    }

    /// Whether this error reports a cancelled operation.
    pub fn is_cancelled(&self) -> (res: bool)
        ensures
            res == (*self is Cancelled),
    {
        match self {
            AppError::Cancelled(_) => true,
            _ => false,
        }
    }
}

/// `prefix` followed by `m`.
pub fn prefixed(prefix: &str, m: &String) -> (res: String)
    ensures
        res@ == prefix@ + m@,
{
    let mut s = to_owned_string(prefix);
    push_str(&mut s, m.as_str());
    s
}

} // verus!
