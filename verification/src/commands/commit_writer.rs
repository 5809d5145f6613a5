//! Writing commits: where the message is edited, what the file being
//! edited starts with, and the line shown once a commit is written.
use vstd::prelude::*;
use crate::editor::{Editor, noted};
use crate::error::Error;
use crate::path_filter::{joined, path_join};
use crate::refs::short_name_of;
use crate::repository::pending_commit::{PendingCommit, PendingCommitType};
use crate::text::{
    byte_prefix, byte_prefix_view, chars_of, cuts_at, lines, lines_of, push_str, slice_chars,
    starts_with, string_from_chars, strings_view, trim, trim_chars,
};

verus! {

/// What the file for a commit message explains.
pub const COMMIT_NOTES: &'static str = "Please enter the commit message for your changes. Lines starting with
'#' will be ignored, and an empty message aborts the commit.";

/// What the file for a merge commit's message adds.
pub const MERGE_NOTES: &'static str = "It looks like you may be committing a merge.
If this is not correct, please remove the file
\t.ash/MERGE_HEAD
and try again.";

/// What the file for a cherry-pick commit's message adds.
pub const CHERRY_PICK_NOTES: &'static str = "It looks like you may be committing a cherry-pick.
If this is not correct, please remove the file
\t.ash/CHERRY_PICK_HEAD
and try again.";

/// What is shown when the index still has conflicts.
pub const CONFLICT_MESSAGE: &'static str = "hint: Fix them up in the work tree, and then use 'ash add <file>'
hint: as appropriate to mark resolution and make a commit.
fatal: Exiting because of an unresolved conflict.";

/// Writes commits of a repository.
pub struct CommitWriter {
    pub root_path: String,
    pub git_path: String,
    pub pending_commit: PendingCommit,
}

/// The first line of a message, or nothing.
pub open spec fn title_line(message: Seq<char>) -> Seq<char> {
    if lines(message).len() > 0 {
        lines(message)[0]
    } else {
        seq![]
    }
}

/// The line shown for a written commit: `[<where> <id>] <title>`, where is
/// the branch HEAD's value names (without `refs/heads/`) or
/// `detached HEAD`, marked `(root-commit)` for a commit without parent.
pub open spec fn summary_text(head: Option<Seq<char>>, root: bool, oid: &str, message: Seq<char>) -> Seq<
    char,
> {
    let h = match head {
        Some(v) => v,
        None => seq![],
    };
    let place = if h.len() == 0 {
        "detached HEAD"@
    } else {
        short_name_of(h)
    };
    "["@ + place + if root {
        " (root-commit)"@
    } else {
        seq![]
    } + " "@ + byte_prefix_view(oid@, 7) + "] "@ + title_line(message)
}

impl CommitWriter {
    /// A writer for the repository at `root_path` with its metadata in
    /// `git_path`.
    pub fn new(root_path: &str, git_path: &str) -> (r: CommitWriter)
        ensures
            r.root_path@ == root_path@,
            r.git_path@ == git_path@,
            r.pending_commit.path_view() == git_path@,
    {
        CommitWriter {
            root_path: root_path.to_owned(),
            git_path: git_path.to_owned(),
            pending_commit: PendingCommit::new(git_path),
        }
    }

    /// The file in which a commit message is edited.
    pub fn commit_message_path(&self) -> (r: String)
        ensures
            r@ == joined(self.git_path@, "COMMIT_EDITMSG"@),
    {
        path_join(self.git_path.as_str(), "COMMIT_EDITMSG")
    }

    /// What the file for a commit message starts with: the message given,
    /// a blank line and the notes.
    pub fn compose_text(initial: Option<&str>) -> (r: String)
        ensures
            r@ == match initial {
                Some(m) => m@ + "\n"@,
                None => seq![],
            } + "\n"@ + noted(lines(COMMIT_NOTES@)),
    {
        let mut r = String::new();
        match initial {
            Some(m) => {
                push_str(&mut r, m);
                push_str(&mut r, "\n");
            },
            None => {},
        }
        push_str(&mut r, "\n");
        let n = Editor::note_text(COMMIT_NOTES);
        push_str(&mut r, n.as_str());
        r
    }

    /// What the file for a merge, cherry-pick or revert commit's message
    /// starts with: the pending message, the notes of the kind, a blank
    /// line and the commit notes.
    pub fn compose_merge_text(initial: &str, notes: Option<&str>) -> (r: String)
        ensures
            r@ == initial@ + "\n"@ + match notes {
                Some(n) => noted(lines(n@)),
                None => seq![],
            } + "\n"@ + noted(lines(COMMIT_NOTES@)),
    {
        let mut r = String::new();
        push_str(&mut r, initial);
        push_str(&mut r, "\n");
        match notes {
            Some(n) => {
                let t = Editor::note_text(n);
                push_str(&mut r, t.as_str());
            },
            None => {},
        }
        push_str(&mut r, "\n");
        let c = Editor::note_text(COMMIT_NOTES);
        push_str(&mut r, c.as_str());
        r
    }

    /// The notes for resuming a pending commit of a kind.
    pub fn notes_for(kind: PendingCommitType) -> (r: Option<&'static str>)
        ensures
            r == match kind {
                PendingCommitType::Merge => Some(MERGE_NOTES),
                PendingCommitType::CherryPick => Some(CHERRY_PICK_NOTES),
                PendingCommitType::Revert => None::<&str>,
            },
    {
        match kind {
            PendingCommitType::Merge => Some(MERGE_NOTES),
            PendingCommitType::CherryPick => Some(CHERRY_PICK_NOTES),
            PendingCommitType::Revert => None,
        }
    }

    /// Committing with conflicts in the index is refused.
    pub fn handle_conflicted_index(has_conflict: bool) -> (r: Result<(), Error>)
        ensures
            !has_conflict ==> r is Ok,
            has_conflict ==> (r matches Err(Error::Generic(m)) && m@
                == "Unresolved conflicts exist in the index"@),
    {
        if !has_conflict {
            return Ok(());
        }
        Err(Error::Generic("Unresolved conflicts exist in the index".to_owned()))
    }

    /// The line shown for a written commit, given what HEAD reads as.
    pub fn summary_line(head: Option<&str>, root: bool, oid: &str, message: &str) -> (r: String)
        requires
            cuts_at(oid, 7),
        ensures
            r@ == summary_text(
                match head {
                    Some(h) => Some(h@),
                    None => None,
                },
                root,
                oid,
                message@,
            ),
    {
        let h = match head {
            Some(v) => chars_of(v),
            None => Vec::new(),
        };
        let mut r = String::new();
        push_str(&mut r, "[");
        if h.len() == 0 {
            push_str(&mut r, "detached HEAD");
        } else {
            let pre = chars_of("refs/heads/");
            proof {
                reveal_strlit("refs/heads/");
            }
            if starts_with(h.as_slice(), pre.as_slice()) {
                let rest = slice_chars(h.as_slice(), 11, h.len());
                push_str(&mut r, string_from_chars(rest.as_slice()).as_str());
            } else {
                push_str(&mut r, string_from_chars(h.as_slice()).as_str());
            }
        }
        if root {
            push_str(&mut r, " (root-commit)");
        }
        push_str(&mut r, " ");
        push_str(&mut r, byte_prefix(oid, 7));
        push_str(&mut r, "] ");
        let ls = lines_of(chars_of(message).as_slice());
        if ls.len() > 0 {
            assert(strings_view(ls@)[0] == ls@[0]@);
            push_str(&mut r, ls[0].as_str());
        }
        r
    }

    /// Before a commit is written: refused when the message is only
    /// whitespace; else the parent it records, the first one given.
    pub fn commit_parent(parents: &Vec<String>, message: &str) -> (r: Result<Option<String>, Error>)
        ensures
            trim(message@).len() == 0 ==> (r matches Err(Error::Generic(m)) && m@
                == "Aborting commit due to empty commit message"@),
            trim(message@).len() > 0 ==> (r matches Ok(p) && match p {
                Some(x) => parents@.len() > 0 && x@ == parents@[0]@,
                None => parents@.len() == 0,
            }),
    {
        let t = trim_chars(chars_of(message).as_slice());
        if t.len() == 0 {
            return Err(Error::Generic("Aborting commit due to empty commit message".to_owned()));
        }
        if parents.len() == 0 {
            Ok(None)
        } else {
            Ok(Some(parents[0].clone()))
        }
    }

    /// The commit that an amend rewrites: HEAD's, or an error without one.
    pub fn amend_target(head: Option<&str>) -> (r: Result<String, Error>)
        ensures
            match head {
                Some(h) => r matches Ok(x) && x@ == h@,
                None => r matches Err(Error::Generic(m)) && m@ == "No commit to amend"@,
            },
    {
        match head {
            Some(h) => Ok(h.to_owned()),
            None => Err(Error::Generic("No commit to amend".to_owned())),
        }
    }

    /// The message the editor gave back for an amend (no kind) or for
    /// resuming a merge, cherry-pick or revert; an empty edit aborts with
    /// the error of its kind.
    pub fn edited_message(kind: Option<PendingCommitType>, edited: Option<String>) -> (r: Result<
        String,
        Error,
    >)
        ensures
            match edited {
                Some(m) => r matches Ok(x) && x@ == m@,
                None => r matches Err(Error::Generic(e)) && e@ == match kind {
                    None => "Aborting commit due to empty commit message"@,
                    Some(PendingCommitType::Merge) => "Aborting merge commit due to empty message"@,
                    Some(PendingCommitType::CherryPick) => "Aborting cherry-pick commit due to empty message"@,
                    Some(PendingCommitType::Revert) => "Aborting revert commit due to empty message"@,
                },
            },
    {
        match edited {
            Some(m) => Ok(m),
            None => {
                let e = match kind {
                    None => "Aborting commit due to empty commit message",
                    Some(PendingCommitType::Merge) => "Aborting merge commit due to empty message",
                    Some(PendingCommitType::CherryPick) => "Aborting cherry-pick commit due to empty message",
                    Some(PendingCommitType::Revert) => "Aborting revert commit due to empty message",
                };
                Err(Error::Generic(e.to_owned()))
            },
        }
    }

}

} // verus!
