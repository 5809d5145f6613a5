//! Recording a commit: which task it belongs to, whether its message will
//! do, and how the task is updated.
use vstd::prelude::*;
use crate::commands::merge_tool::before;
use crate::error::Error;
use crate::metadata::commit::{TaskMetadata, TaskStatus};
use crate::repository::pending_commit::PendingCommitType;
use crate::revision::{decimal_digit, is_decimal_digit};
use crate::text::{
    chars_of, find_from, find_pattern, matches_at, occurs_at, slice_chars, string_from_chars, trim,
    trim_chars, strings_view,
};

verus! {

/// The command that records the index as a commit.
pub struct CommitCommand;

/// What a commit does next.
#[derive(Debug)]
pub enum CommitStep {
    /// Finish the pending merge, cherry-pick or revert instead.
    ResumePending(PendingCommitType),
    /// Rewrite the last commit instead.
    Amend,
    /// Read the message of this revision, then go on with `after_reuse`.
    ReadReused(String),
    /// Let the user edit the message (starting from this one), then go on
    /// with `after_edit`.
    Edit(Option<String>),
    /// Write the commit with this message.
    Write(String),
}

/// A commit step as values: its tag, and its message or revision.
pub open spec fn step_view(s: CommitStep) -> (int, Option<Seq<char>>) {
    match s {
        CommitStep::ResumePending(_) => (0, None),
        CommitStep::Amend => (1, None),
        CommitStep::ReadReused(r) => (2, Some(r@)),
        CommitStep::Edit(m) => (
            3,
            match m {
                Some(x) => Some(x@),
                None => None,
            },
        ),
        CommitStep::Write(m) => (4, Some(m@)),
    }
}

/// A final message: written unless it is only whitespace.
pub open spec fn finish_spec(m: Seq<char>) -> Result<(int, Option<Seq<char>>), Seq<char>> {
    if trim(m).len() == 0 {
        Err("Aborting commit due to empty commit message"@)
    } else {
        Ok((4, Some(m)))
    }
}

/// The first step of a commit: refused without staged entries; a pending
/// merge, cherry-pick or revert is finished instead; an amend rewrites the
/// last commit; a message given is written (edited first when asked); else
/// a revision's message is reused, or the user writes one.
pub open spec fn plan_spec(
    has_entries: bool,
    pending: bool,
    amend: bool,
    message: Seq<char>,
    reuse: Option<Seq<char>>,
    edit: bool,
) -> Result<(int, Option<Seq<char>>), Seq<char>> {
    if !has_entries {
        Err("No changes staged for commit. Use 'ash add' to add files."@)
    } else if pending {
        Ok((0, None))
    } else if amend {
        Ok((1, None))
    } else if message.len() > 0 {
        if edit {
            Ok((3, Some(message)))
        } else {
            finish_spec(message)
        }
    } else {
        match reuse {
            Some(r) => Ok((2, Some(r))),
            None => Ok((3, None)),
        }
    }
}

/// A step result against its values.
pub open spec fn step_result(r: Result<CommitStep, Error>, v: Result<(int, Option<Seq<char>>), Seq<char>>) -> bool {
    match v {
        Ok(x) => r matches Ok(s) && step_view(s) == x,
        Err(m) => r matches Err(Error::Generic(e)) && e@ == m,
    }
}

/// The end of the run of decimal digits that starts at `i`.
pub open spec fn digit_run(s: Seq<char>, i: int) -> int
    decreases s.len() - i,
{
    if 0 <= i < s.len() && is_decimal_digit(s[i]) {
        digit_run(s, i + 1)
    } else {
        i
    }
}

/// `TASK-` or `TEST-` followed by a decimal digit starts at `i`.
pub open spec fn task_tag_at(s: Seq<char>, i: int) -> bool {
    &&& occurs_at(s, "TASK-"@, i) || occurs_at(s, "TEST-"@, i)
    &&& i + 5 < s.len()
    &&& is_decimal_digit(s[i + 5])
}

/// The first position at or after `i` where such a tag starts.
pub open spec fn first_task_tag(s: Seq<char>, i: int) -> Option<int>
    decreases s.len() - i,
{
    if i < 0 || i >= s.len() {
        None
    } else if task_tag_at(s, i) {
        Some(i)
    } else {
        first_task_tag(s, i + 1)
    }
}

/// The first task id in a message: `TASK-` or `TEST-` and the digits that
/// follow, as the pattern `((?:TASK|TEST)-\d+)` finds it.
pub open spec fn task_in_message(s: Seq<char>) -> Option<Seq<char>> {
    match first_task_tag(s, 0) {
        Some(i) => Some(s.subrange(i, digit_run(s, i + 5))),
        None => None,
    }
}

/// The task id in a branch name: what follows the first `-task-`, up to
/// the next one.
pub open spec fn task_in_branch(b: Seq<char>) -> Option<Seq<char>> {
    match find_from(b, "-task-"@, 0) {
        Some(k) => Some(before(b.subrange(k + 6, b.len() as int), "-task-"@)),
        None => None,
    }
}

/// The task a commit belongs to: from the branch, else from a non-empty
/// message.
pub open spec fn commit_task(branch: Seq<char>, message: Seq<char>) -> Option<Seq<char>> {
    match task_in_branch(branch) {
        Some(t) => Some(t),
        None => if message.len() > 0 {
            task_in_message(message)
        } else {
            None
        },
    }
}

proof fn lemma_digit_run(s: Seq<char>, i: int)
    requires
        0 <= i <= s.len(),
    ensures
        i <= digit_run(s, i) <= s.len(),
    decreases s.len() - i,
{
    if i < s.len() && is_decimal_digit(s[i]) {
        lemma_digit_run(s, i + 1);
    }
}

proof fn lemma_digit_run_digits(s: Seq<char>, i: int)
    requires
        0 <= i <= s.len(),
    ensures
        forall|j: int| i <= j < digit_run(s, i) ==> is_decimal_digit(#[trigger] s[j]),
        digit_run(s, i) < s.len() ==> !is_decimal_digit(s[digit_run(s, i)]),
    decreases s.len() - i,
{
    if i < s.len() && is_decimal_digit(s[i]) {
        lemma_digit_run_digits(s, i + 1);
    }
}

proof fn lemma_first_task_tag(s: Seq<char>, i: int)
    requires
        0 <= i,
    ensures
        first_task_tag(s, i) matches Some(k) ==> i <= k < s.len() && task_tag_at(s, k) && forall|
            j: int,
        | i <= j < k ==> !#[trigger] task_tag_at(s, j),
        first_task_tag(s, i) is None ==> forall|j: int|
            i <= j < s.len() ==> !#[trigger] task_tag_at(s, j),
    decreases s.len() - i,
{
    if i < s.len() && !task_tag_at(s, i) {
        lemma_first_task_tag(s, i + 1);
    }
}

/// The task id a message names is the leftmost `TASK-` or `TEST-` followed
/// by digits, with all the digits that follow: it stands in the message at
/// the first place such a tag starts, its sixth character on are digits,
/// and no digit follows it. A message with no such tag names none.
pub proof fn lemma_task_in_message_leftmost(s: Seq<char>)
    ensures
        task_in_message(s) is None <==> forall|j: int| 0 <= j < s.len() ==> !#[trigger] task_tag_at(s, j),
        task_in_message(s) matches Some(t) ==> exists|i: int|
            0 <= i && i + t.len() <= s.len() && s.subrange(i, i + t.len()) == t && #[trigger] task_tag_at(s, i)
                && (forall|j: int| 0 <= j < i ==> !#[trigger] task_tag_at(s, j)) && t.len() >= 6 && (
            forall|j: int| 5 <= j < t.len() ==> is_decimal_digit(#[trigger] t[j])) && (i + t.len()
                == s.len() || !is_decimal_digit(s[i + t.len()])),
{
    lemma_first_task_tag(s, 0);
    if let Some(i) = first_task_tag(s, 0) {
        lemma_digit_run(s, i + 5);
        lemma_digit_run_digits(s, i + 5);
        let e = digit_run(s, i + 5);
        let t = s.subrange(i, e);
        assert(e >= i + 6) by {
            assert(is_decimal_digit(s[i + 5]));
            assert(digit_run(s, i + 5) == digit_run(s, i + 6));
            lemma_digit_run(s, i + 6);
        }
        assert forall|j: int| 5 <= j < t.len() implies is_decimal_digit(#[trigger] t[j]) by {
            assert(t[j] == s[i + j]);
        }
        assert(s.subrange(i, i + t.len()) =~= t);
        assert(task_tag_at(s, i));
    }
}

impl CommitCommand {
    /// The task id in a branch name, if it has one.
    pub fn task_from_branch(branch: &str) -> (r: Option<String>)
        ensures
            match r {
                Some(t) => task_in_branch(branch@) == Some(t@),
                None => task_in_branch(branch@) is None,
            },
    {
        let b = chars_of(branch);
        let sep = chars_of("-task-");
        proof {
            reveal_strlit("-task-");
        }
        match find_pattern(b.as_slice(), sep.as_slice()) {
            Some(k) => {
                let bl = b.len();
                assert(k + 6 <= bl);
                let after = slice_chars(b.as_slice(), k + 6, bl);
                let part = crate::commands::merge_tool::before_pattern(after.as_slice(), sep.as_slice());
                Some(string_from_chars(part.as_slice()))
            },
            None => None,
        }
    }

    /// The first task id in a message, if it has one.
    pub fn task_from_message(message: &str) -> (r: Option<String>)
        ensures
            match r {
                Some(t) => task_in_message(message@) == Some(t@),
                None => task_in_message(message@) is None,
            },
    {
        let s = chars_of(message);
        let task = chars_of("TASK-");
        let test = chars_of("TEST-");
        proof {
            reveal_strlit("TASK-");
            reveal_strlit("TEST-");
        }
        let mut i: usize = 0;
        while i < s.len()
            invariant
                i <= s.len(),
                s@ == message@,
                task@ == "TASK-"@,
                test@ == "TEST-"@,
                first_task_tag(s@, 0) == first_task_tag(s@, i as int),
            decreases s.len() - i,
        {
            let at = (matches_at(s.as_slice(), task.as_slice(), i) || matches_at(
                s.as_slice(),
                test.as_slice(),
                i,
            )) && 5 < s.len() - i && decimal_digit(s[i + 5]);
            if at {
                let mut j: usize = i + 5;
                proof {
                    lemma_digit_run(s@, j as int);
                }
                while j < s.len() && decimal_digit(s[j])
                    invariant
                        i + 5 <= j <= s.len(),
                        digit_run(s@, j as int) == digit_run(s@, i + 5),
                    decreases s.len() - j,
                {
                    j += 1;
                }
                let id = slice_chars(s.as_slice(), i, j);
                return Some(string_from_chars(id.as_slice()));
            }
            i += 1;
        }
        None
    }

    /// The task a commit on a branch with a message belongs to.
    pub fn task_for(branch: &str, message: &str) -> (r: Option<String>)
        ensures
            match r {
                Some(t) => commit_task(branch@, message@) == Some(t@),
                None => commit_task(branch@, message@) is None,
            },
    {
        match Self::task_from_branch(branch) {
            Some(t) => Some(t),
            None => {
                let m = chars_of(message);
                if m.len() > 0 {
                    Self::task_from_message(message)
                } else {
                    None
                }
            },
        }
    }

    /// A message made only of whitespace aborts the commit.
    pub fn check_message(message: &str) -> (r: Result<(), Error>)
        ensures
            trim(message@).len() == 0 ==> (r matches Err(Error::Generic(m)) && m@
                == "Aborting commit due to empty commit message"@),
            trim(message@).len() > 0 ==> r is Ok,
    {
        let t = trim_chars(chars_of(message).as_slice());
        if t.len() == 0 {
            Err(Error::Generic("Aborting commit due to empty commit message".to_owned()))
        } else {
            Ok(())
        }
    }

    /// Records a commit made for a task: a task still to do is started
    /// (at `now`, unless it has a start already), and the commit is added to
    /// its list. Whether the task was started is returned.
    pub fn record_task_commit(task: &mut TaskMetadata, oid: String, now: u64) -> (r: bool)
        ensures
            r == (old(task).status == TaskStatus::Todo),
            final(task).status == if r {
                TaskStatus::InProgress
            } else {
                old(task).status
            },
            final(task).started_at == if r && old(task).started_at is None {
                Some(now)
            } else {
                old(task).started_at
            },
            final(task).commit_ids@ == old(task).commit_ids@.push(oid),
            final(task).id == old(task).id,
            final(task).description == old(task).description,
            final(task).story_points == old(task).story_points,
            final(task).created_at == old(task).created_at,
            final(task).completed_at == old(task).completed_at,
    {
        let started = task.status == TaskStatus::Todo;
        if started {
            task.status = TaskStatus::InProgress;
            if task.started_at.is_none() {
                task.started_at = Some(now);
            }
        }
        task.commit_ids.push(oid);
        started
    }

    /// A final message: written unless it is only whitespace.
    fn finish(m: String) -> (r: Result<CommitStep, Error>)
        ensures
            step_result(r, finish_spec(m@)),
    {
        let t = trim_chars(chars_of(m.as_str()).as_slice());
        if t.len() == 0 {
            Err(Error::Generic("Aborting commit due to empty commit message".to_owned()))
        } else {
            Ok(CommitStep::Write(m))
        }
    }

    /// The first step of a commit.
    pub fn commit_plan(
        has_entries: bool,
        pending: Option<PendingCommitType>,
        amend: bool,
        message: &str,
        reuse: Option<&str>,
        edit: bool,
    ) -> (r: Result<CommitStep, Error>)
        ensures
            step_result(
                r,
                plan_spec(
                    has_entries,
                    pending is Some,
                    amend,
                    message@,
                    match reuse {
                        Some(x) => Some(x@),
                        None => None,
                    },
                    edit,
                ),
            ),
            has_entries && pending is Some ==> (r matches Ok(CommitStep::ResumePending(k2)) && k2
                == pending->0),
    {
        if !has_entries {
            return Err(Error::Generic("No changes staged for commit. Use 'ash add' to add files.".to_owned()));
        }
        match pending {
            Some(k) => return Ok(CommitStep::ResumePending(k)),
            None => {},
        }
        if amend {
            return Ok(CommitStep::Amend);
        }
        if chars_of(message).len() > 0 {
            if edit {
                return Ok(CommitStep::Edit(Some(message.to_owned())));
            }
            return Self::finish(message.to_owned());
        }
        match reuse {
            Some(rev) => Ok(CommitStep::ReadReused(rev.to_owned())),
            None => Ok(CommitStep::Edit(None)),
        }
    }

    /// After reading a revision's message: an error when there is none;
    /// else it is edited first when asked, or written.
    pub fn after_reuse(rev: &str, reused: Option<&str>, edit: bool) -> (r: Result<CommitStep, Error>)
        ensures
            reused is None ==> (r matches Err(Error::Generic(m)) && m@ == "Could not get message for revision: "@
                + rev@),
            reused matches Some(x) ==> step_result(
                r,
                if edit {
                    Ok((3int, Some(x@)))
                } else {
                    finish_spec(x@)
                },
            ),
    {
        match reused {
            None => {
                let mut m = String::new();
                crate::text::push_str(&mut m, "Could not get message for revision: ");
                crate::text::push_str(&mut m, rev);
                Err(Error::Generic(m))
            },
            Some(x) => if edit {
                Ok(CommitStep::Edit(Some(x.to_owned())))
            } else {
                Self::finish(x.to_owned())
            },
        }
    }

    /// After the editor: an empty edit aborts; else the edited message is
    /// written unless it is only whitespace.
    pub fn after_edit(edited: Option<&str>) -> (r: Result<CommitStep, Error>)
        ensures
            edited is None ==> (r matches Err(Error::Generic(m)) && m@
                == "Aborting commit due to empty commit message"@),
            edited matches Some(x) ==> step_result(r, finish_spec(x@)),
    {
        match edited {
            None => Err(Error::Generic("Aborting commit due to empty commit message".to_owned())),
            Some(x) => Self::finish(x.to_owned()),
        }
    }
}

} // verus!
