//! A merge, cherry-pick or revert that waits for its commit.
//!
//! The program around the library reads, writes and removes the files; the
//! library names them and decides what their presence and contents mean.
use vstd::prelude::*;
use crate::error::{Error, IoFailure};
use crate::path_filter::{joined, path_join};
use crate::text::{chars_of, push_str, string_from_chars, trim, trim_chars};

verus! {

/// The kind of commit that is pending.
#[derive(Debug, PartialEq, Eq, Structural, Clone, Copy)]
pub enum PendingCommitType {
    Merge,
    CherryPick,
    Revert,
}

/// The name of the file that holds the pending commit's object id.
pub open spec fn head_name(t: PendingCommitType) -> Seq<char> {
    match t {
        PendingCommitType::Merge => "MERGE_HEAD"@,
        PendingCommitType::CherryPick => "CHERRY_PICK_HEAD"@,
        PendingCommitType::Revert => "REVERT_HEAD"@,
    }
}

/// The files of a pending commit in a repository's metadata directory.
#[derive(Debug)]
pub struct PendingCommit {
    pathname: String,
    pub message_path: String,
}

impl PendingCommit {
    /// The metadata directory.
    pub closed spec fn path_view(&self) -> Seq<char> {
        self.pathname@
    }

    /// The file that holds the pending message.
    pub closed spec fn message_view(&self) -> Seq<char> {
        self.message_path@
    }

    /// The pending commits of a metadata directory; the message is kept in
    /// `MERGE_MSG`.
    pub fn new(pathname: &str) -> (r: PendingCommit)
        ensures
            r.path_view() == pathname@,
            r.message_view() == joined(pathname@, "MERGE_MSG"@),
    {
        PendingCommit { pathname: pathname.to_owned(), message_path: path_join(pathname, "MERGE_MSG") }
    }

    /// The file that holds a pending commit's object id.
    pub fn head_path(&self, kind: PendingCommitType) -> (r: String)
        ensures
            r@ == joined(self.path_view(), head_name(kind)),
    {
        let name = match kind {
            PendingCommitType::Merge => "MERGE_HEAD",
            PendingCommitType::CherryPick => "CHERRY_PICK_HEAD",
            PendingCommitType::Revert => "REVERT_HEAD",
        };
        path_join(self.pathname.as_str(), name)
    }

    /// The kind of commit pending, from which head files exist: a merge
    /// first, then a cherry-pick, then a revert.
    pub fn merge_type(&self, merge_exists: bool, cherry_pick_exists: bool, revert_exists: bool) -> (r:
        Option<PendingCommitType>)
        ensures
            r == if merge_exists {
                Some(PendingCommitType::Merge)
            } else if cherry_pick_exists {
                Some(PendingCommitType::CherryPick)
            } else if revert_exists {
                Some(PendingCommitType::Revert)
            } else {
                None
            },
    {
        if merge_exists {
            Some(PendingCommitType::Merge)
        } else if cherry_pick_exists {
            Some(PendingCommitType::CherryPick)
        } else if revert_exists {
            Some(PendingCommitType::Revert)
        } else {
            None
        }
    }

    /// The pending commit's object id from what reading its head file gave:
    /// the content trimmed; for a missing file, that no such commit is in
    /// progress.
    pub fn merge_oid(&self, kind: PendingCommitType, read: Result<String, IoFailure>) -> (r: Result<
        String,
        Error,
    >)
        ensures
            match read {
                Ok(c) => r matches Ok(s) && s@ == trim(c@),
                Err(IoFailure::NotFound) => r matches Err(e) && e is Generic && e.message_view()@
                    == "No "@ + head_name(kind) + " in progress"@,
                Err(IoFailure::Other(m)) => r matches Err(e) && e is Generic && e.message_view()@
                    == "Failed to read merge head file: "@ + m@,
            },
    {
        match read {
            Ok(c) => {
                let cc = chars_of(c.as_str());
                let t = trim_chars(cc.as_slice());
                Ok(string_from_chars(t.as_slice()))
            },
            Err(IoFailure::NotFound) => {
                let name = match kind {
                    PendingCommitType::Merge => "MERGE_HEAD",
                    PendingCommitType::CherryPick => "CHERRY_PICK_HEAD",
                    PendingCommitType::Revert => "REVERT_HEAD",
                };
                let mut m = "No ".to_owned();
                push_str(&mut m, name);
                push_str(&mut m, " in progress");
                Err(Error::Generic(m))
            },
            Err(IoFailure::Other(e)) => {
                let mut m = "Failed to read merge head file: ".to_owned();
                push_str(&mut m, e.as_str());
                Err(Error::Generic(m))
            },
        }
    }

    /// The pending message from what reading its file gave: empty when the
    /// file is missing.
    pub fn merge_message(&self, read: Result<String, IoFailure>) -> (r: Result<String, Error>)
        ensures
            match read {
                Ok(c) => r matches Ok(s) && s@ == c@,
                Err(IoFailure::NotFound) => r matches Ok(s) && s@.len() == 0,
                Err(IoFailure::Other(m)) => r matches Err(e) && e is Generic && e.message_view()@
                    == "Failed to read merge message: "@ + m@,
            },
    {
        match read {
            Ok(c) => Ok(c),
            Err(IoFailure::NotFound) => Ok(String::new()),
            Err(IoFailure::Other(e)) => {
                let mut m = "Failed to read merge message: ".to_owned();
                push_str(&mut m, e.as_str());
                Err(Error::Generic(m))
            },
        }
    }

    /// The error for a head file that could not be removed while clearing a
    /// pending commit: no merge to abort where it is missing.
    pub fn handle_no_merge_to_abort(&self, kind: PendingCommitType, err: IoFailure) -> (r: Error)
        ensures
            r is Generic,
            match err {
                IoFailure::NotFound => r.message_view()@ == "No merge to abort ("@ + head_name(kind)
                    + ")"@,
                IoFailure::Other(m) => r.message_view()@ == "Failed to remove merge head file: "@
                    + m@,
            },
    {
        match err {
            IoFailure::NotFound => {
                let name = match kind {
                    PendingCommitType::Merge => "MERGE_HEAD",
                    PendingCommitType::CherryPick => "CHERRY_PICK_HEAD",
                    PendingCommitType::Revert => "REVERT_HEAD",
                };
                let mut m = "No merge to abort (".to_owned();
                push_str(&mut m, name);
                push_str(&mut m, ")");
                Error::Generic(m)
            },
            IoFailure::Other(e) => {
                let mut m = "Failed to remove merge head file: ".to_owned();
                push_str(&mut m, e.as_str());
                Error::Generic(m)
            },
        }
    }
}

} // verus!
