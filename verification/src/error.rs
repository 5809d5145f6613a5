//! The library's error type.
use vstd::prelude::*;

verus! {

/// What went wrong, with a message for the user.
#[derive(Debug)]
pub enum Error {
    /// A failure described by its message.
    Generic(String),
    /// An input/output failure, by its message.
    IO(String),
    /// A path that cannot be used.
    InvalidPath(String),
    /// A path that could not be resolved.
    PathResolution(String),
    /// A directory that could not be created.
    DirectoryCreation(String),
}

/// Why reading or removing a file failed, as the program around the
/// library reports it.
#[derive(Debug)]
pub enum IoFailure {
    /// The file does not exist.
    NotFound,
    /// Another failure, by its message.
    Other(String),
}

impl Error {
    /// The message carried by the error.
    pub fn message(&self) -> (r: &String)
        ensures
            r == self.message_view(),
    {
        match self {
            Error::Generic(m) => m,
            Error::IO(m) => m,
            Error::InvalidPath(m) => m,
            Error::PathResolution(m) => m,
            Error::DirectoryCreation(m) => m,
        }
    }

    /// The message carried by the error.
    pub open spec fn message_view(&self) -> &String {
        match self {
            Error::Generic(m) => m,
            Error::IO(m) => m,
            Error::InvalidPath(m) => m,
            Error::PathResolution(m) => m,
            Error::DirectoryCreation(m) => m,
        }
    }
}

} // verus!
