//! Switching branches: whether HEAD is detached and how a commit is named
//! when its position is shown.
use vstd::prelude::*;
use crate::refs::{RefTarget, Reference};
use crate::text::{byte_prefix, byte_prefix_view, cuts_at, str_eq};

verus! {

/// The command that switches the working tree to another revision.
pub struct CheckoutCommand;

impl CheckoutCommand {
    /// Whether HEAD, as read, is detached: it holds an object id, or names
    /// itself.
    pub fn is_detached_head(reference: &Reference) -> (r: bool)
        ensures
            r == match reference@ {
                RefTarget::Direct(_) => true,
                RefTarget::Symbolic(p) => p == "HEAD"@,
            },
    {
        match reference {
            Reference::Direct(_) => true,
            Reference::Symbolic(path) => str_eq(path.as_str(), "HEAD"),
        }
    }

    /// A commit id as shown beside HEAD's position: its first eight bytes,
    /// or all of it when shorter.
    pub fn position_oid(oid: &str) -> (r: &str)
        requires
            cuts_at(oid, 8),
        ensures
            r@ == byte_prefix_view(oid@, 8),
    {
        byte_prefix(oid, 8)
    }
}

} // verus!
