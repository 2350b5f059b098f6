//! What can go wrong, and how a caller over HTTP is told.

use vstd::prelude::*;
use vstd::string::*;
use crate::repo::GitError;

verus! {

/// Everything that can go wrong between a push and the store.
#[derive(Debug, Clone, PartialEq, Eq)]
pub enum Error {
    /// The repository failed.
    Git(GitError),
    /// A metadata text could not be read; the parser's message.
    Serde(String),
    /// A text broke a rule of this library.
    Custom(&'static str),
    /// The renderer could not be reached; the message.
    Reqwest(String),
    /// The store failed; the message.
    Sqlx(String),
    /// What was asked for does not exist.
    NotFound,
    /// Reading or writing failed; the message.
    Io(String),
}

/// The HTTP status that answers an error: 404 for what is missing, 400 for
/// a text that cannot be read, 502 for the renderer, and 500 for the rest.
pub open spec fn status_of(error: Error) -> u16 {
    match error {
        Error::Git(GitError::NotFound) => 404,
        Error::Git(GitError::NotExist) => 404,
        Error::Git(_) => 500,
        Error::Sqlx(_) => 500,
        Error::Reqwest(_) => 502,
        Error::NotFound => 404,
        Error::Custom(_) => 400,
        Error::Serde(_) => 400,
        Error::Io(_) => 500,
    }
}

/// What the answer to an error says: the message of what failed, but for
/// the store, reading and writing, and the renderer, of which a caller is
/// told no more than that they failed.
pub open spec fn body_of(error: Error) -> Seq<char> {
    match error {
        Error::Git(GitError::NotFound) => "blob not found"@,
        Error::Git(GitError::NotExist) => "repository not exist"@,
        Error::Git(GitError::Git2(message)) => message@,
        Error::Git(GitError::IO(message)) => message@,
        Error::Git(GitError::CommandFailed(message)) => message@,
        Error::Sqlx(_) => "Internal Server Error"@,
        Error::Reqwest(_) => "Bad Gateway"@,
        Error::NotFound => "NOT FOUND"@,
        Error::Custom(message) => message@,
        Error::Serde(message) => message@,
        Error::Io(_) => "Internal Server Error"@,
    }
}

impl Error {
    /// What the answer to the error says.
    pub fn body(&self) -> (text: String)
        ensures
            text@ == body_of(*self),
    {
        match self {
            Error::Git(GitError::NotFound) => String::from_str("blob not found"),
            Error::Git(GitError::NotExist) => String::from_str("repository not exist"),
            Error::Git(GitError::Git2(message)) => message.clone(),
            Error::Git(GitError::IO(message)) => message.clone(),
            Error::Git(GitError::CommandFailed(message)) => message.clone(),
            Error::Sqlx(_) => String::from_str("Internal Server Error"),
            Error::Reqwest(_) => String::from_str("Bad Gateway"),
            Error::NotFound => String::from_str("NOT FOUND"),
            Error::Custom(message) => String::from_str(message),
            Error::Serde(message) => message.clone(),
            Error::Io(_) => String::from_str("Internal Server Error"),
        }
    }

    /// The HTTP status that answers the error.
    pub fn status(&self) -> (code: u16)
        ensures
            code == status_of(*self),
    {
        match self {
            Error::Git(GitError::NotFound) => 404,
            Error::Git(GitError::NotExist) => 404,
            Error::Git(_) => 500,
            Error::Sqlx(_) => 500,
            Error::Reqwest(_) => 502,
            Error::NotFound => 404,
            Error::Custom(_) => 400,
            Error::Serde(_) => 400,
            Error::Io(_) => 500,
        }
    }
}

} // verus!
