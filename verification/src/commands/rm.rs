//! Removing files: which paths a path stands for and whether removing a
//! file would lose changes.
use vstd::prelude::*;
use crate::error::Error;
use crate::text::{push_str, strings_view};

verus! {

/// The command that removes files from the index and the working tree.
pub struct RmCommand;

/// Whether a file can be removed without losing work.
#[derive(Debug, Clone, Copy, PartialEq, Eq, Structural)]
pub enum RemovalStatus {
    /// Nothing would be lost.
    Safe,
    /// The index and the working file both differ from what they follow.
    BothChanged,
    /// The index holds changes not committed.
    Uncommitted,
    /// The working file holds changes not staged.
    Unstaged,
}

impl RmCommand {
    /// The status of a file to remove, from whether its index entry differs
    /// from HEAD (`staged`) and its working file from the index
    /// (`unstaged`); `force` skips the checks, and `cached` (keeping the
    /// working file) only objects when both differ.
    pub fn removal_status(force: bool, staged: bool, unstaged: bool, cached: bool) -> (r:
        RemovalStatus)
        ensures
            r == if force {
                RemovalStatus::Safe
            } else if staged && unstaged {
                RemovalStatus::BothChanged
            } else if staged && !cached {
                RemovalStatus::Uncommitted
            } else if unstaged && !cached {
                RemovalStatus::Unstaged
            } else {
                RemovalStatus::Safe
            },
    {
        if force {
            return RemovalStatus::Safe;
        }
        if staged && unstaged {
            RemovalStatus::BothChanged
        } else if staged && !cached {
            RemovalStatus::Uncommitted
        } else if unstaged && !cached {
            RemovalStatus::Unstaged
        } else {
            RemovalStatus::Safe
        }
    }

    /// The files a path stands for: the files below it when it is a
    /// directory of the index (only with `recursive`), itself when it is a
    /// file of the index, an error otherwise.
    pub fn expand_path(
        path: &str,
        tracked_directory: bool,
        tracked_file: bool,
        children: Vec<String>,
        recursive: bool,
    ) -> (r: Result<Vec<String>, Error>)
        ensures
            tracked_directory && recursive ==> (r matches Ok(v) && v@ == children@),
            tracked_directory && !recursive ==> (r matches Err(Error::Generic(m)) && m@
                == "not removing '"@ + path@ + "' recursively without -r"@),
            !tracked_directory && tracked_file ==> (r matches Ok(v) && strings_view(v@) == seq![
                path@,
            ]),
            !tracked_directory && !tracked_file ==> (r matches Err(Error::Generic(m)) && m@
                == "pathspec '"@ + path@ + "' did not match any files"@),
    {
        if tracked_directory {
            if recursive {
                return Ok(children);
            } else {
                let mut m = String::new();
                push_str(&mut m, "not removing '");
                push_str(&mut m, path);
                push_str(&mut m, "' recursively without -r");
                return Err(Error::Generic(m));
            }
        }
        if tracked_file {
            let mut v: Vec<String> = Vec::new();
            v.push(path.to_owned());
            assert(strings_view(v@) =~= seq![path@]);
            Ok(v)
        } else {
            let mut m = String::new();
            push_str(&mut m, "pathspec '");
            push_str(&mut m, path);
            push_str(&mut m, "' did not match any files");
            Err(Error::Generic(m))
        }
    }
}

} // verus!
