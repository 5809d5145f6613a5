//! Tasks of a sprint: completing one, and the report of where one stands.
use vstd::prelude::*;
use crate::error::Error;
use crate::metadata::branch::{sprint_branch_name, utc_date_text, zero_padded, SprintMetadata};
use crate::metadata::commit::{TaskMetadata, TaskStatus};
use crate::text::{decimal, push_decimal, push_str, str_eq};

verus! {

/// The text chrono's `NaiveDateTime` shows for a timestamp (the epoch when
/// the timestamp is out of its range).
pub uninterp spec fn naive_datetime_text(secs: u64) -> Seq<char>;

/// A timestamp as `YYYY-MM-DD HH:MM:SS` of the Gregorian calendar.
pub open spec fn utc_seconds_text(secs: nat) -> Seq<char> {
    utc_date_text(secs) + ":"@ + zero_padded(secs % 60, 2)
}

/// A timestamp as a task report shows it.
pub open spec fn shown_datetime(secs: u64) -> Seq<char> {
    if secs < 253402300800 {
        utc_seconds_text(secs as nat)
    } else {
        naive_datetime_text(secs)
    }
}

/// `chrono::NaiveDateTime::from_timestamp_opt(secs, 0)`, or the default
/// when out of range, shown with `Display`. Before the year 10000 chrono
/// shows the proleptic Gregorian date with a four-digit year, then the time
/// in two digits each, with no fraction for whole seconds; from then on
/// (where the year takes a sign) only the name is stated.
#[verifier::external_body]
fn naive_datetime(secs: u64) -> (r: String)
    ensures
        r@ == naive_datetime_text(secs),
        secs < 253402300800 ==> r@ == utc_seconds_text(secs as nat),
{
    #[allow(deprecated)]
    let t = chrono::NaiveDateTime::from_timestamp_opt(secs as i64, 0).unwrap_or_default();
    t.to_string()
}

/// The name a status is shown by.
pub open spec fn status_label(s: TaskStatus) -> Seq<char> {
    match s {
        TaskStatus::Todo => "Todo"@,
        TaskStatus::InProgress => "InProgress"@,
        TaskStatus::Done => "Done"@,
    }
}

/// The lines listing a task's commits, numbered from one.
pub open spec fn commit_lines(ids: Seq<Seq<char>>, first: nat) -> Seq<char>
    decreases ids.len(),
{
    if ids.len() == 0 {
        seq![]
    } else {
        "    "@ + decimal(first) + ": "@ + ids[0] + "\n"@ + commit_lines(ids.drop_first(), first + 1)
    }
}

/// The duration text of a task.
pub open spec fn duration_text(t: TaskMetadata) -> Seq<char> {
    match (t.started_at, t.completed_at) {
        (Some(s), Some(e)) => decimal(((e - s) / 3600) as nat) + "h "@ + decimal(
            (((e - s) % 3600) / 60) as nat,
        ) + "m"@,
        _ => "Not completed"@,
    }
}

/// The first lines of the report on a task: its id, description, points,
/// status and creation date.
pub open spec fn report_head(id: Seq<char>, t: TaskMetadata) -> Seq<char> {
    "Task "@ + id + " Status:\n  ID: "@ + t.id@ + "\n  Description: "@ + t.description@
        + "\n  Story Points: "@ + decimal(
        match t.story_points {
            Some(p) => p as nat,
            None => 0,
        },
    ) + "\n  Status: "@ + status_label(t.status) + "\n  Created: "@ + shown_datetime(
        t.created_at,
    ) + "\n"@
}

/// The lines of the report with the start and completion dates, where
/// known.
pub open spec fn report_dates(t: TaskMetadata) -> Seq<char> {
    (match t.started_at {
        Some(s) => "  Started: "@ + shown_datetime(s) + "\n"@,
        None => seq![],
    }) + (match t.completed_at {
        Some(c) => "  Completed: "@ + shown_datetime(c) + "\n"@,
        None => seq![],
    })
}

/// The lines of the report listing the commits, if there are any.
pub open spec fn report_commits(t: TaskMetadata) -> Seq<char> {
    if t.commit_ids@.len() > 0 {
        "  Commits: "@ + decimal(t.commit_ids@.len()) + "\n"@ + commit_lines(
            t.commit_ids@.map_values(|c: String| c@),
            1,
        )
    } else {
        seq![]
    }
}

/// The report on a task.
pub open spec fn status_report(id: Seq<char>, t: TaskMetadata) -> Seq<char> {
    report_head(id, t) + report_dates(t) + report_commits(t) + "  Duration: "@ + duration_text(t)
        + "\n"@
}


/// Where completing a task stands, with the sprint's branch once known.
pub enum CompleteState {
    /// Nothing looked up yet.
    Start,
    /// The sprint is known; its entry for the task is awaited.
    SprintFound(String),
    /// The sprint does not list the task; the task's record is awaited.
    RecordLookup(String),
    /// The task may be completed; the current branch is awaited.
    TaskReady(String),
    /// The task is being recorded as done.
    Recording(String),
    /// The sprint's branch is being checked out.
    Switching(String),
    /// The task's branch is being merged.
    Merging,
    /// Nothing is left to do.
    Finished,
}

/// What the outside world answered.
pub enum CompleteEvent {
    /// The active sprint, if any.
    ActiveSprint(Option<SprintMetadata>),
    /// The status the sprint's task list gives the task, if it lists it.
    SprintTask(Option<TaskStatus>),
    /// The status the task's record gives, if there is a record.
    TaskRecord(Option<TaskStatus>),
    /// The short name of the branch HEAD is on (empty when detached).
    CurrentBranch(String),
    /// The task was recorded as done and the sprint saved.
    Recorded,
    /// The sprint's branch was checked out.
    CheckedOut,
    /// The task's branch was merged.
    Merged,
}

/// What to do next.
pub enum CompleteAction {
    /// Read the task list of the sprint on this branch.
    LoadSprintTask(String),
    /// Read the task's record.
    LoadTaskRecord,
    /// Find the branch HEAD is on.
    ReadCurrentBranch,
    /// Show the note when there is one, mark the task done in the sprint and
    /// its record, save them and report.
    Record(Option<String>),
    /// Check out this branch.
    Checkout(String),
    /// Merge the task's branch with this message.
    Merge(String, String),
    /// Show this text; the work is done.
    Done(String),
}

/// Which event each state waits for.
pub open spec fn expects(state: CompleteState, event: CompleteEvent) -> bool {
    match state {
        CompleteState::Start => event is ActiveSprint,
        CompleteState::SprintFound(_) => event is SprintTask,
        CompleteState::RecordLookup(_) => event is TaskRecord,
        CompleteState::TaskReady(_) => event is CurrentBranch,
        CompleteState::Recording(_) => event is Recorded,
        CompleteState::Switching(_) => event is CheckedOut,
        CompleteState::Merging => event is Merged,
        CompleteState::Finished => false,
    }
}

/// The error for a task that is not in progress.
pub open spec fn not_in_progress(id: Seq<char>) -> Seq<char> {
    "Task "@ + id + " is not in progress. Cannot complete a task that hasn't been started."@
}

/// The text shown when the task's branch is left unmerged.
pub open spec fn merge_hint(task_branch: Seq<char>) -> Seq<char> {
    "Task branch was not automatically merged.\nTo merge the task branch manually:\n  ash merge "@
        + task_branch
}

/// An error with a message.
pub open spec fn fails_with(r: Result<(CompleteState, CompleteAction), Error>, m: Seq<char>) -> bool {
    r matches Err(Error::Generic(e)) && e@ == m
}

/// One step of completing task `id`: how the state and event determine the
/// next state and action, or the error.
pub open spec fn complete_next(
    id: Seq<char>,
    auto_merge: bool,
    state: CompleteState,
    event: CompleteEvent,
    r: Result<(CompleteState, CompleteAction), Error>,
) -> bool {
    match (state, event) {
        (CompleteState::Start, CompleteEvent::ActiveSprint(None)) => fails_with(
            r,
            "No active sprint found. Start a sprint first with 'ash sprint start'."@,
        ),
        (CompleteState::Start, CompleteEvent::ActiveSprint(Some(sm))) => r matches Ok(
            (CompleteState::SprintFound(b), CompleteAction::LoadSprintTask(b2)),
        ) && b@ == sprint_branch_name(sm.name@) && b2@ == b@,
        (CompleteState::SprintFound(b), CompleteEvent::SprintTask(None)) => r matches Ok(
            (CompleteState::RecordLookup(b2), CompleteAction::LoadTaskRecord),
        ) && b2@ == b@,
        (CompleteState::SprintFound(b), CompleteEvent::SprintTask(Some(st)))
        | (CompleteState::RecordLookup(b), CompleteEvent::TaskRecord(Some(st))) => if st
            == TaskStatus::InProgress {
            r matches Ok((CompleteState::TaskReady(b2), CompleteAction::ReadCurrentBranch)) && b2@
                == b@
        } else {
            fails_with(r, not_in_progress(id))
        },
        (CompleteState::RecordLookup(_), CompleteEvent::TaskRecord(None)) => fails_with(
            r,
            "Task with ID "@ + id + " not found in current sprint"@,
        ),
        (CompleteState::TaskReady(b), CompleteEvent::CurrentBranch(c)) => r matches Ok(
            (CompleteState::Recording(b2), CompleteAction::Record(note)),
        ) && b2@ == b@ && if c@ == b@ + "-task-"@ + id {
            note is None
        } else {
            note matches Some(n) && n@ == "Note: You are not on the task branch '"@ + b@ + "-task-"@
                + id + "'. The task will still be completed."@
        },
        (CompleteState::Recording(b), CompleteEvent::Recorded) => r matches Ok(
            (CompleteState::Switching(b2), CompleteAction::Checkout(b3)),
        ) && b2@ == b@ && b3@ == b@,
        (CompleteState::Switching(b), CompleteEvent::CheckedOut) => if auto_merge {
            r matches Ok((CompleteState::Merging, CompleteAction::Merge(tb, m))) && tb@ == b@
                + "-task-"@ + id && m@ == "Merge task/"@ + id + " into "@ + b@
        } else {
            r matches Ok((CompleteState::Finished, CompleteAction::Done(t))) && t@ == merge_hint(
                b@ + "-task-"@ + id,
            )
        },
        (CompleteState::Merging, CompleteEvent::Merged) => r matches Ok(
            (CompleteState::Finished, CompleteAction::Done(t)),
        ) && t@ == "Successfully merged task branch into sprint branch"@,
        _ => false,
    }
}

/// The command that marks a task of the active sprint as done.
pub struct TaskCompleteCommand;

/// The command that reports on a task.
pub struct TaskStatusCommand;

impl TaskCompleteCommand {
    /// The branch of a task: the sprint's branch, `-task-` and the id.
    pub fn task_branch(sprint_branch: &str, id: &str) -> (r: String)
        ensures
            r@ == sprint_branch@ + "-task-"@ + id@,
    {
        let mut r = String::new();
        push_str(&mut r, sprint_branch);
        push_str(&mut r, "-task-");
        push_str(&mut r, id);
        r
    }

    /// Only a task in progress can be completed.
    pub fn check_in_progress(id: &str, status: TaskStatus) -> (r: Result<(), Error>)
        ensures
            status == TaskStatus::InProgress ==> r is Ok,
            status != TaskStatus::InProgress ==> (r matches Err(Error::Generic(m)) && m@ == "Task "@
                + id@ + " is not in progress. Cannot complete a task that hasn't been started."@),
    {
        if status == TaskStatus::InProgress {
            return Ok(());
        }
        let mut m = String::new();
        push_str(&mut m, "Task ");
        push_str(&mut m, id);
        push_str(&mut m, " is not in progress. Cannot complete a task that hasn't been started.");
        Err(Error::Generic(m))
    }

    /// The error for a task that neither the sprint nor the task records
    /// know.
    pub fn not_found(id: &str) -> (r: Error)
        ensures
            r matches Error::Generic(m) && m@ == "Task with ID "@ + id@ + " not found in current sprint"@,
    {
        let mut m = String::new();
        push_str(&mut m, "Task with ID ");
        push_str(&mut m, id);
        push_str(&mut m, " not found in current sprint");
        Error::Generic(m)
    }

    /// The error when no sprint is active.
    pub fn no_active_sprint() -> (r: Error)
        ensures
            r matches Error::Generic(m) && m@
                == "No active sprint found. Start a sprint first with 'ash sprint start'."@,
    {
        Error::Generic("No active sprint found. Start a sprint first with 'ash sprint start'.".to_owned())
    }

    /// The note shown when the work is not on the task's branch.
    pub fn branch_note(current_branch: &str, task_branch: &str) -> (r: Option<String>)
        ensures
            current_branch@ == task_branch@ ==> r is None,
            current_branch@ != task_branch@ ==> (r matches Some(m) && m@
                == "Note: You are not on the task branch '"@ + task_branch@
                + "'. The task will still be completed."@),
    {
        if str_eq(current_branch, task_branch) {
            return None;
        }
        let mut m = String::new();
        push_str(&mut m, "Note: You are not on the task branch '");
        push_str(&mut m, task_branch);
        push_str(&mut m, "'. The task will still be completed.");
        Some(m)
    }

    /// Marks a task done at a time; a task still to do is started at that
    /// time first. Whether it had to be started is returned.
    pub fn complete(task: &mut TaskMetadata, now: u64) -> (r: bool)
        ensures
            r == (old(task).status == TaskStatus::Todo),
            final(task).status == TaskStatus::Done,
            final(task).completed_at == Some(now),
            final(task).started_at == if r {
                Some(now)
            } else {
                old(task).started_at
            },
            final(task).id == old(task).id,
            final(task).description == old(task).description,
            final(task).story_points == old(task).story_points,
            final(task).created_at == old(task).created_at,
            final(task).commit_ids == old(task).commit_ids,
    {
        let started = task.status == TaskStatus::Todo;
        if started {
            task.status = TaskStatus::InProgress;
            task.started_at = Some(now);
        }
        task.status = TaskStatus::Done;
        task.completed_at = Some(now);
        started
    }

    /// The message of the commit that merges a task's branch into the
    /// sprint's.
    pub fn merge_message(id: &str, branch: &str) -> (r: String)
        ensures
            r@ == "Merge task/"@ + id@ + " into "@ + branch@,
    {
        let mut r = String::new();
        push_str(&mut r, "Merge task/");
        push_str(&mut r, id);
        push_str(&mut r, " into ");
        push_str(&mut r, branch);
        r
    }
    /// One step of completing task `id`: from where the work stands and
    /// what the outside world answered, the next state and what to do, or
    /// the error that ends it.
    pub fn complete_step(id: &str, auto_merge: bool, state: CompleteState, event: CompleteEvent) -> (r:
        Result<(CompleteState, CompleteAction), Error>)
        requires
            expects(state, event),
        ensures
            complete_next(id@, auto_merge, state, event, r),
    {
        match state {
            CompleteState::Start => match event {
                CompleteEvent::ActiveSprint(None) => Err(Self::no_active_sprint()),
                CompleteEvent::ActiveSprint(Some(sm)) => {
                    let b = sm.to_branch_name();
                    let b2 = b.clone();
                    Ok((CompleteState::SprintFound(b), CompleteAction::LoadSprintTask(b2)))
                },
                _ => Err(Self::no_active_sprint()),
            },
            CompleteState::SprintFound(b) => match event {
                CompleteEvent::SprintTask(None) => Ok(
                    (CompleteState::RecordLookup(b), CompleteAction::LoadTaskRecord),
                ),
                CompleteEvent::SprintTask(Some(st)) => match Self::check_in_progress(id, st) {
                    Ok(()) => Ok((CompleteState::TaskReady(b), CompleteAction::ReadCurrentBranch)),
                    Err(e) => Err(e),
                },
                _ => Err(Self::no_active_sprint()),
            },
            CompleteState::RecordLookup(b) => match event {
                CompleteEvent::TaskRecord(None) => Err(Self::not_found(id)),
                CompleteEvent::TaskRecord(Some(st)) => match Self::check_in_progress(id, st) {
                    Ok(()) => Ok((CompleteState::TaskReady(b), CompleteAction::ReadCurrentBranch)),
                    Err(e) => Err(e),
                },
                _ => Err(Self::no_active_sprint()),
            },
            CompleteState::TaskReady(b) => match event {
                CompleteEvent::CurrentBranch(c) => {
                    let tb = Self::task_branch(b.as_str(), id);
                    let note = Self::branch_note(c.as_str(), tb.as_str());
                    proof {
                        if let Some(n) = &note {
                            assert(n@ =~= "Note: You are not on the task branch '"@ + b@ + "-task-"@
                                + id@ + "'. The task will still be completed."@);
                        }
                    }
                    Ok((CompleteState::Recording(b), CompleteAction::Record(note)))
                },
                _ => Err(Self::no_active_sprint()),
            },
            CompleteState::Recording(b) => {
                let b2 = b.clone();
                Ok((CompleteState::Switching(b), CompleteAction::Checkout(b2)))
            },
            CompleteState::Switching(b) => {
                let tb = Self::task_branch(b.as_str(), id);
                if auto_merge {
                    let m = Self::merge_message(id, b.as_str());
                    Ok((CompleteState::Merging, CompleteAction::Merge(tb, m)))
                } else {
                    let mut t = String::new();
                    push_str(
                        &mut t,
                        "Task branch was not automatically merged.\nTo merge the task branch manually:\n  ash merge ",
                    );
                    push_str(&mut t, tb.as_str());
                    Ok((CompleteState::Finished, CompleteAction::Done(t)))
                }
            },
            CompleteState::Merging => Ok(
                (
                    CompleteState::Finished,
                    CompleteAction::Done(
                        "Successfully merged task branch into sprint branch".to_owned(),
                    ),
                ),
            ),
            CompleteState::Finished => Err(Self::no_active_sprint()),
        }
    }

}

/// Appends the numbered lines of commit ids.
fn push_commit_lines(r: &mut String, ids: &Vec<String>)
    requires
        ids.len() < u64::MAX,
    ensures
        final(r)@ == old(r)@ + commit_lines(ids@.map_values(|c: String| c@), 1),
{
    let ghost iv = ids@.map_values(|c: String| c@);
    let ghost r0 = r@;
    let mut i: usize = 0;
    assert(iv.skip(0) =~= iv);
    while i < ids.len()
        invariant
            i <= ids.len(),
            ids.len() < u64::MAX,
            iv == ids@.map_values(|c: String| c@),
            r0 + commit_lines(iv, 1) == r@ + commit_lines(iv.skip(i as int), (i + 1) as nat),
        decreases ids.len() - i,
    {
        let ghost before = r@;
        assert(iv.skip(i as int).drop_first() =~= iv.skip(i + 1));
        assert(iv.skip(i as int)[0] == ids@[i as int]@);
        push_str(r, "    ");
        push_decimal(r, (i + 1) as u64);
        push_str(r, ": ");
        push_str(r, ids[i].as_str());
        push_str(r, "\n");
        assert(r@ =~= before + ("    "@ + decimal((i + 1) as nat) + ": "@ + iv.skip(i as int)[0]
            + "\n"@));
        i += 1;
    }
    assert(iv.skip(i as int) =~= Seq::<Seq<char>>::empty());
}

impl TaskStatusCommand {
    /// The error for a task the records do not know.
    pub fn not_found(id: &str) -> (r: Error)
        ensures
            r matches Error::Generic(m) && m@ == "Task with ID "@ + id@ + " not found"@,
    {
        let mut m = String::new();
        push_str(&mut m, "Task with ID ");
        push_str(&mut m, id);
        push_str(&mut m, " not found");
        Error::Generic(m)
    }

    /// The report on a task: its fields, dates, commits and duration.
    pub fn report(id: &str, task: &TaskMetadata) -> (r: String)
        requires
            (task.started_at, task.completed_at) matches (Some(s), Some(e)) ==> s <= e,
            task.commit_ids.len() < u64::MAX,
        ensures
            r@ == status_report(id@, *task),
    {
        let mut r = Self::head(id, task);
        let d = Self::dates(task);
        push_str(&mut r, d.as_str());
        let c = Self::commits(task);
        push_str(&mut r, c.as_str());
        push_str(&mut r, "  Duration: ");
        let t = task.format_duration();
        push_str(&mut r, t.as_str());
        push_str(&mut r, "\n");
        r
    }

    fn head(id: &str, task: &TaskMetadata) -> (r: String)
        ensures
            r@ == report_head(id@, *task),
    {
        let mut r = String::new();
        push_str(&mut r, "Task ");
        push_str(&mut r, id);
        push_str(&mut r, " Status:\n  ID: ");
        push_str(&mut r, task.id.as_str());
        push_str(&mut r, "\n  Description: ");
        push_str(&mut r, task.description.as_str());
        push_str(&mut r, "\n  Story Points: ");
        match task.story_points {
            Some(p) => push_decimal(&mut r, p as u64),
            None => push_decimal(&mut r, 0),
        }
        push_str(&mut r, "\n  Status: ");
        match task.status {
            TaskStatus::Todo => push_str(&mut r, "Todo"),
            TaskStatus::InProgress => push_str(&mut r, "InProgress"),
            TaskStatus::Done => push_str(&mut r, "Done"),
        }
        push_str(&mut r, "\n  Created: ");
        let c = naive_datetime(task.created_at);
        push_str(&mut r, c.as_str());
        push_str(&mut r, "\n");
        r
    }

    fn dates(task: &TaskMetadata) -> (r: String)
        ensures
            r@ == report_dates(*task),
    {
        let mut r = String::new();
        match task.started_at {
            Some(s) => {
                push_str(&mut r, "  Started: ");
                let t = naive_datetime(s);
                push_str(&mut r, t.as_str());
                push_str(&mut r, "\n");
            },
            None => {},
        }
        match task.completed_at {
            Some(c) => {
                push_str(&mut r, "  Completed: ");
                let t = naive_datetime(c);
                push_str(&mut r, t.as_str());
                push_str(&mut r, "\n");
            },
            None => {},
        }
        r
    }

    fn commits(task: &TaskMetadata) -> (r: String)
        requires
            task.commit_ids.len() < u64::MAX,
        ensures
            r@ == report_commits(*task),
    {
        let mut r = String::new();
        if task.commit_ids.len() > 0 {
            push_str(&mut r, "  Commits: ");
            push_decimal(&mut r, task.commit_ids.len() as u64);
            push_str(&mut r, "\n");
            push_commit_lines(&mut r, &task.commit_ids);
        }
        r
    }
}

} // verus!
