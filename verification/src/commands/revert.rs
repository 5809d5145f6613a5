//! Reverting commits: the message of a revert commit.
use vstd::prelude::*;
use crate::error::Error;
use crate::text::{chars_of, parse_unsigned, parse_unsigned_chars, push_chars, push_str, trim, trim_chars};

verus! {

/// The command that records commits undoing earlier ones.
pub struct RevertCommand;

impl RevertCommand {
    /// The message of the commit that reverts a commit with the given
    /// title line and id.
    pub fn revert_commit_message(title: &str, oid: &str) -> (r: String)
        ensures
            r@ == "Revert \""@ + trim(title@) + "\"\n\nThis reverts commit "@ + oid@ + ".\n"@,
    {
        let mut r = String::new();
        push_str(&mut r, "Revert \"");
        let t = trim_chars(chars_of(title).as_slice());
        push_chars(&mut r, t.as_slice());
        push_str(&mut r, "\"\n\nThis reverts commit ");
        push_str(&mut r, oid);
        push_str(&mut r, ".\n");
        r
    }

    /// The parent a commit is reverted against: its parent; an error for a
    /// commit without one, and for a `mainline` option that reads as a
    /// number (merges are not handled).
    pub fn select_parent(mainline: Option<&str>, parent: Option<&str>, oid: &str) -> (r: Result<
        String,
        Error,
    >)
        ensures
            parent is None ==> (r matches Err(Error::Generic(m)) && m@ == "error: commit "@ + oid@
                + " has no parent"@),
            parent is Some && (mainline matches Some(v) && parse_unsigned(v@, 10, usize::MAX as nat) is Some)
                ==> (r matches Err(Error::Generic(m)) && m@
                == "error: mainline was specified but commit "@ + oid@
                + " is not properly handled as a merge yet"@),
            parent is Some && !(mainline matches Some(v) && parse_unsigned(
                v@,
                10,
                usize::MAX as nat,
            ) is Some) ==> (r matches Ok(s) && s@ == parent->0@),
    {
        let numbered = match mainline {
            Some(v) => parse_unsigned_chars(chars_of(v).as_slice(), 10, usize::MAX as u64).is_some(),
            None => false,
        };
        match parent {
            None => {
                let mut m = String::new();
                push_str(&mut m, "error: commit ");
                push_str(&mut m, oid);
                push_str(&mut m, " has no parent");
                Err(Error::Generic(m))
            },
            Some(p) => {
                if numbered {
                    let mut m = String::new();
                    push_str(&mut m, "error: mainline was specified but commit ");
                    push_str(&mut m, oid);
                    push_str(&mut m, " is not properly handled as a merge yet");
                    Err(Error::Generic(m))
                } else {
                    Ok(p.to_owned())
                }
            },
        }
    }
}

} // verus!
