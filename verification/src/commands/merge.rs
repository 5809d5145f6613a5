//! Merging a branch: the message of the merge commit and how a
//! fast-forward is announced.
use vstd::prelude::*;
use crate::error::Error;
use crate::text::{byte_prefix, byte_prefix_view, cuts_at, push_str, str_eq, strings_view};

verus! {

/// The command that merges a branch into the current one.
pub struct MergeCommand;

/// How a merge goes once it may go ahead.
#[derive(Debug, Clone, Copy, PartialEq, Eq, Structural)]
pub enum MergePlan {
    /// The other commit is already merged: nothing to do.
    AlreadyUpToDate,
    /// The current commit is the merge base: move to the other commit.
    FastForward,
    /// Merge the trees against the base and write a merge commit.
    ThreeWay,
}

/// The plan for merge bases, the other commit and HEAD.
pub open spec fn plan_of(bases: Seq<Seq<char>>, right: Seq<char>, head: Seq<char>) -> MergePlan {
    if only(bases, right) {
        MergePlan::AlreadyUpToDate
    } else if only(bases, head) {
        MergePlan::FastForward
    } else {
        MergePlan::ThreeWay
    }
}

/// A list that is exactly the one id.
pub open spec fn only(v: Seq<Seq<char>>, x: Seq<char>) -> bool {
    v.len() == 1 && v[0] == x
}

impl MergeCommand {
    /// The message of a merge commit: the one given, or
    /// `Merge branch '<revision>' into <current>`; then a blank line and
    /// the second parent.
    pub fn commit_message(revision: &str, left_name: &str, message: Option<&str>, right_oid: &str) -> (r:
        String)
        ensures
            r@ == match message {
                Some(m) => m@,
                None => "Merge branch '"@ + revision@ + "' into "@ + left_name@,
            } + "\n\nMerge-Parent: "@ + right_oid@,
    {
        let mut r = String::new();
        match message {
            Some(m) => push_str(&mut r, m),
            None => {
                push_str(&mut r, "Merge branch '");
                push_str(&mut r, revision);
                push_str(&mut r, "' into ");
                push_str(&mut r, left_name);
            },
        }
        push_str(&mut r, "\n\nMerge-Parent: ");
        push_str(&mut r, right_oid);
        r
    }

    /// The line announcing a fast-forward: `Updating <a>..<b>`, each id
    /// cut to eight bytes.
    pub fn fast_forward_line(current_oid: &str, target_oid: &str) -> (r: String)
        requires
            cuts_at(current_oid, 8),
            cuts_at(target_oid, 8),
        ensures
            r@ == "Updating "@ + byte_prefix_view(current_oid@, 8) + ".."@ + byte_prefix_view(
                target_oid@,
                8,
            ),
    {
        let mut r = String::new();
        push_str(&mut r, "Updating ");
        push_str(&mut r, byte_prefix(current_oid, 8));
        push_str(&mut r, "..");
        push_str(&mut r, byte_prefix(target_oid, 8));
        r
    }

    /// Whether a list of ids is exactly the one id.
    fn is_only(v: &Vec<String>, x: &str) -> (r: bool)
        ensures
            r == only(strings_view(v@), x@),
    {
        v.len() == 1 && str_eq(v[0].as_str(), x)
    }

    /// How a merge of the commit `right_oid` into HEAD goes: refused while
    /// the index has conflicts or without a HEAD commit; nothing to do when
    /// the merge bases are just the other commit; a fast-forward when they
    /// are just HEAD; else a three-way merge.
    pub fn merge_plan(has_conflict: bool, head: Option<&str>, right_oid: &str, bases: &Vec<String>) -> (r:
        Result<MergePlan, Error>)
        ensures
            has_conflict ==> (r matches Err(Error::Generic(m)) && m@
                == "Cannot merge with conflicts. Fix conflicts and commit first."@),
            !has_conflict && head is None ==> (r matches Err(Error::Generic(m)) && m@
                == "No HEAD commit found. Create an initial commit first."@),
            !has_conflict && head is Some ==> (r matches Ok(p) && p == plan_of(
                strings_view(bases@),
                right_oid@,
                head->0@,
            )),
    {
        if has_conflict {
            return Err(Error::Generic("Cannot merge with conflicts. Fix conflicts and commit first.".to_owned()));
        }
        match head {
            None => Err(Error::Generic("No HEAD commit found. Create an initial commit first.".to_owned())),
            Some(h) => {
                if Self::is_only(bases, right_oid) {
                    Ok(MergePlan::AlreadyUpToDate)
                } else if Self::is_only(bases, h) {
                    Ok(MergePlan::FastForward)
                } else {
                    Ok(MergePlan::ThreeWay)
                }
            },
        }
    }

    /// The author of a merge commit: the given name and e-mail, or
    /// `Default Author` and `author@example.com` where missing.
    pub fn author_identity(name: Option<&str>, email: Option<&str>) -> (r: (String, String))
        ensures
            r.0@ == match name {
                Some(n) => n@,
                None => "Default Author"@,
            },
            r.1@ == match email {
                Some(e) => e@,
                None => "author@example.com"@,
            },
    {
        let n = match name {
            Some(n) => n.to_owned(),
            None => "Default Author".to_owned(),
        };
        let e = match email {
            Some(e) => e.to_owned(),
            None => "author@example.com".to_owned(),
        };
        (n, e)
    }
}

} // verus!
