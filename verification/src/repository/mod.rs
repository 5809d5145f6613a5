//! State kept in the repository between commands: pending merges,
//! cherry-picks and reverts, and the sequence of commits still to apply.
pub mod pending_commit;
pub mod sequencer;
pub mod inspector;
pub mod migration;
