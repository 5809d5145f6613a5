//! Resetting HEAD and the index: how a commit id is shortened in messages.
use vstd::prelude::*;
use crate::text::{byte_prefix, byte_prefix_view, cuts_at};

verus! {

/// The command that moves HEAD and resets the index or working tree.
pub struct ResetCommand;

impl ResetCommand {
    /// A commit id shortened for messages: its first seven bytes, or all
    /// of it when shorter.
    pub fn short_oid(oid: &str) -> (r: String)
        requires
            cuts_at(oid, 7),
        ensures
            r@ == byte_prefix_view(oid@, 7),
    {
        byte_prefix(oid, 7).to_owned()
    }
}

} // verus!
