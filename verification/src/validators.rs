//! Checks on the directories that commands are given.
use vstd::prelude::*;
use crate::error::Error;

verus! {

/// What the file system holds at a path.
#[derive(Debug, Clone, Copy, PartialEq, Eq, Structural)]
pub enum PathKind {
    /// Nothing.
    Missing,
    /// A directory.
    Directory,
    /// Something that is not a directory.
    Other,
}

/// Checks paths given on the command line.
pub struct PathValidator;

/// An `InvalidPath` error with the given message.
pub open spec fn invalid_path(r: Result<(), Error>, m: Seq<char>) -> bool {
    r matches Err(e) && e is InvalidPath && e.message_view()@ == m
}

impl PathValidator {
    /// A path where a repository can be created: not empty, a directory if
    /// something is there, else a path whose parent (if it has one) is an
    /// existing directory. An empty parent, as a relative name of one
    /// component has, is the current directory, where new directories may
    /// be created.
    pub fn validate_for_init(path: &str, kind: PathKind, parent: Option<(&str, PathKind)>) -> (r:
        Result<(), Error>)
        ensures
            path@.len() == 0 ==> invalid_path(r, "Path cannot be empty"@),
            path@.len() > 0 && kind == PathKind::Directory ==> r is Ok,
            path@.len() > 0 && kind == PathKind::Other ==> invalid_path(
                r,
                "'"@ + path@ + "' exists but is not a directory"@,
            ),
            path@.len() > 0 && kind == PathKind::Missing ==> match parent {
                None => r is Ok,
                Some((p, _)) if p@.len() == 0 => r is Ok,
                Some((p, PathKind::Missing)) => invalid_path(
                    r,
                    "Parent directory '"@ + p@ + "' does not exist"@,
                ),
                Some((p, PathKind::Other)) => invalid_path(r, "'"@ + p@ + "' is not a directory"@),
                Some((_, PathKind::Directory)) => r is Ok,
            },
    {
        if path.is_empty() {
            return Err(Error::InvalidPath("Path cannot be empty".to_owned()));
        }
        match kind {
            PathKind::Directory => {
                return Ok(());
            },
            PathKind::Other => {
                let mut m = "'".to_owned();
                crate::text::push_str(&mut m, path);
                crate::text::push_str(&mut m, "' exists but is not a directory");
                return Err(Error::InvalidPath(m));
            },
            PathKind::Missing => {},
        }
        match parent {
            Some((p, _)) if p.is_empty() => Ok(()),
            Some((p, PathKind::Missing)) => {
                let mut m = "Parent directory '".to_owned();
                crate::text::push_str(&mut m, p);
                crate::text::push_str(&mut m, "' does not exist");
                Err(Error::InvalidPath(m))
            },
            Some((p, PathKind::Other)) => {
                let mut m = "'".to_owned();
                crate::text::push_str(&mut m, p);
                crate::text::push_str(&mut m, "' is not a directory");
                Err(Error::InvalidPath(m))
            },
            _ => Ok(()),
        }
    }

    /// A path that names an existing directory.
    pub fn validate(path: &str, kind: PathKind) -> (r: Result<(), Error>)
        ensures
            path@.len() == 0 ==> invalid_path(r, "Path cannot be empty"@),
            path@.len() > 0 && kind == PathKind::Missing ==> invalid_path(
                r,
                "Path '"@ + path@ + "' does not exist"@,
            ),
            path@.len() > 0 && kind == PathKind::Other ==> invalid_path(
                r,
                "'"@ + path@ + "' is not a directory"@,
            ),
            path@.len() > 0 && kind == PathKind::Directory ==> r is Ok,
    {
        if path.is_empty() {
            return Err(Error::InvalidPath("Path cannot be empty".to_owned()));
        }
        match kind {
            PathKind::Missing => {
                let mut m = "Path '".to_owned();
                crate::text::push_str(&mut m, path);
                crate::text::push_str(&mut m, "' does not exist");
                Err(Error::InvalidPath(m))
            },
            PathKind::Other => {
                let mut m = "'".to_owned();
                crate::text::push_str(&mut m, path);
                crate::text::push_str(&mut m, "' is not a directory");
                Err(Error::InvalidPath(m))
            },
            PathKind::Directory => Ok(()),
        }
    }
}

} // verus!
