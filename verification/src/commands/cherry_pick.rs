//! Cherry-picking commits: what a run does and the options it records.
use vstd::prelude::*;
use crate::text::{decimal, decimal_string, strings_view};

verus! {

/// The command that applies the changes of chosen commits.
pub struct CherryPickCommand;

/// What a cherry-pick run does.
#[derive(Debug, Clone, Copy, PartialEq, Eq, Structural)]
pub enum PickStep {
    /// Go on with the commands left.
    Continue,
    /// Give up and go back to where the run started.
    Abort,
    /// Stop, keeping what was done.
    Quit,
    /// Start a run over the given commits.
    Start,
}

impl CherryPickCommand {
    /// What a run does: `--continue` before `--abort` before `--quit`, and
    /// a new run otherwise.
    pub fn step(continue_op: bool, abort: bool, quit: bool) -> (r: PickStep)
        ensures
            r == if continue_op {
                PickStep::Continue
            } else if abort {
                PickStep::Abort
            } else if quit {
                PickStep::Quit
            } else {
                PickStep::Start
            },
    {
        if continue_op {
            PickStep::Continue
        } else if abort {
            PickStep::Abort
        } else if quit {
            PickStep::Quit
        } else {
            PickStep::Start
        }
    }

    /// The options a run records: `mainline` when one was given.
    pub fn options(mainline: Option<u32>) -> (r: Vec<(String, String)>)
        ensures
            r@.len() == if mainline is Some {
                1int
            } else {
                0int
            },
            mainline matches Some(m) ==> r@[0].0@ == "mainline"@ && r@[0].1@ == decimal(m as nat),
    {
        let mut r: Vec<(String, String)> = Vec::new();
        match mainline {
            Some(m) => r.push(("mainline".to_owned(), decimal_string(m as u64))),
            None => {},
        }
        r
    }
}

} // verus!
