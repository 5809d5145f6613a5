//! Sprints: starting one, and the information shown on the active one.
use vstd::prelude::*;
use crate::error::Error;
use crate::metadata::branch::{shown_date, sprint_branch_name, SprintMetadata};
use crate::text::{
    chars_of, contains_chars, contains_seq, decimal, lowercase, push_decimal, push_str, str_eq,
    string_from_chars, to_lowercase, trim, trim_chars,
};

verus! {

/// The command that starts a sprint.
pub struct SprintStartCommand;

/// The command that shows the active sprint.
pub struct SprintInfoCommand;

/// The start and end dates of a sprint, one line each.
pub open spec fn date_lines(m: SprintMetadata) -> Seq<char> {
    "  Start date: "@ + shown_date(m.start_timestamp) + "\n  End date: "@ + shown_date(
        (m.start_timestamp + m.duration_days * 86400) as u64,
    ) + "\n"@
}

/// What is shown of a sprint being started.
pub open spec fn start_info(m: SprintMetadata) -> Seq<char> {
    "Sprint information:\n  Name: "@ + m.name@ + "\n"@ + date_lines(m) + "  Branch: "@
        + sprint_branch_name(m.name@) + "\n"@
}

/// What is shown of the active sprint, up to its points.
pub open spec fn active_info(
    m: SprintMetadata,
    branch: Seq<char>,
    tasks: nat,
    total: nat,
    completed: nat,
) -> Seq<char> {
    "\nActive Sprint Information:\n  Name: "@ + m.name@ + "\n"@ + date_lines(m) + "  Branch: "@
        + branch + "\n  Tasks count: "@ + decimal(tasks) + "\n  Total Story Points: "@ + decimal(
        total,
    ) + "\n  Completed Story Points: "@ + decimal(completed) + "\n"@
}

/// Appends the date lines of a sprint.
fn push_date_lines(r: &mut String, m: &SprintMetadata)
    requires
        m.start_timestamp + m.duration_days * 86400 <= u64::MAX,
    ensures
        final(r)@ == old(r)@ + date_lines(*m),
{
    push_str(r, "  Start date: ");
    let s = SprintMetadata::format_date(m.start_timestamp);
    push_str(r, s.as_str());
    push_str(r, "\n  End date: ");
    let e = SprintMetadata::format_date(m.end_timestamp());
    push_str(r, e.as_str());
    push_str(r, "\n");
}

impl SprintStartCommand {
    /// The first line shown: the sprint's name and length.
    pub fn start_line(name: &str, duration: u32) -> (r: String)
        ensures
            r@ == "Starting new sprint: "@ + name@ + " (Duration: "@ + decimal(duration as nat)
                + " days)"@,
    {
        let mut r = String::new();
        push_str(&mut r, "Starting new sprint: ");
        push_str(&mut r, name);
        push_str(&mut r, " (Duration: ");
        push_decimal(&mut r, duration as u64);
        push_str(&mut r, " days)");
        r
    }

    /// A sprint starts only when no other is active.
    pub fn check_no_active(active: Option<&SprintMetadata>) -> (r: Result<(), Error>)
        ensures
            active is None ==> r is Ok,
            active matches Some(m) ==> (r matches Err(Error::Generic(e)) && e@
                == "There is already an active sprint '"@ + m.name@
                + "'. Complete or cancel it before starting a new one."@),
    {
        match active {
            None => Ok(()),
            Some(m) => {
                let mut e = String::new();
                push_str(&mut e, "There is already an active sprint '");
                push_str(&mut e, m.name.as_str());
                push_str(&mut e, "'. Complete or cancel it before starting a new one.");
                Err(Error::Generic(e))
            },
        }
    }

    /// What is shown of the sprint being started: its name, dates and
    /// branch.
    pub fn info_text(m: &SprintMetadata) -> (r: String)
        requires
            m.start_timestamp + m.duration_days * 86400 <= u64::MAX,
        ensures
            r@ == start_info(*m),
    {
        let mut r = String::new();
        push_str(&mut r, "Sprint information:\n  Name: ");
        push_str(&mut r, m.name.as_str());
        push_str(&mut r, "\n");
        push_date_lines(&mut r, m);
        push_str(&mut r, "  Branch: ");
        let b = m.to_branch_name();
        push_str(&mut r, b.as_str());
        push_str(&mut r, "\n");
        r
    }

    /// Whether a failure to create the sprint's branch still lets the
    /// sprint start: the branch exists already.
    pub fn keeps_existing_branch(error_text: &str) -> (r: bool)
        ensures
            r == contains_seq(error_text@, "already exists"@),
    {
        let t = chars_of(error_text);
        let p = chars_of("already exists");
        contains_chars(t.as_slice(), p.as_slice())
    }
}

impl SprintInfoCommand {
    /// Whether an answer asks to switch to the sprint's branch: empty,
    /// `y` or `yes`, trimmed and in any case.
    pub fn wants_switch(input: &str) -> (r: bool)
        ensures
            r == ({
                let a = lowercase(trim(input@));
                a.len() == 0 || a == "y"@ || a == "yes"@
            }),
    {
        let t = string_from_chars(trim_chars(chars_of(input).as_slice()).as_slice());
        let a = to_lowercase(t.as_str());
        let n = chars_of(a.as_str());
        n.len() == 0 || str_eq(a.as_str(), "y") || str_eq(a.as_str(), "yes")
    }

    /// What is shown of the active sprint: its name, dates, branch, number
    /// of tasks and points (the progress and current branch follow).
    pub fn info_text(m: &SprintMetadata, branch: &str, tasks: usize, total: u32, completed: u32) -> (r:
        String)
        requires
            m.start_timestamp + m.duration_days * 86400 <= u64::MAX,
        ensures
            r@ == active_info(*m, branch@, tasks as nat, total as nat, completed as nat),
    {
        let mut r = String::new();
        push_str(&mut r, "\nActive Sprint Information:\n  Name: ");
        push_str(&mut r, m.name.as_str());
        push_str(&mut r, "\n");
        push_date_lines(&mut r, m);
        push_str(&mut r, "  Branch: ");
        push_str(&mut r, branch);
        push_str(&mut r, "\n  Tasks count: ");
        push_decimal(&mut r, tasks as u64);
        push_str(&mut r, "\n  Total Story Points: ");
        push_decimal(&mut r, total as u64);
        push_str(&mut r, "\n  Completed Story Points: ");
        push_decimal(&mut r, completed as u64);
        push_str(&mut r, "\n");
        r
    }
}

} // verus!
