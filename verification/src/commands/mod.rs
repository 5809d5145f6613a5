//! The decisions and texts behind the user-facing commands.
pub mod merge_tool;
pub mod add;
pub mod checkout;
pub mod reset;
pub mod rm;
pub mod revert;
pub mod branch;
pub mod log;
pub mod commit;
pub mod diff;
pub mod commit_writer;
pub mod merge;
pub mod cherry_pick;
pub mod task;
pub mod sprint;
