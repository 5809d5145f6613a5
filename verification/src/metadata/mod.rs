//! Sprint and task metadata kept beside the commit history.
pub mod branch;
pub mod commit;
