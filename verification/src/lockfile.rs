//! Lock files: a file is changed by writing `<name>.lock` and renaming it.
//!
//! The program around the library creates, writes, renames and removes the
//! files; the lock here keeps the state and decides what each outcome
//! means.
use vstd::prelude::*;
use crate::text::push_str;

verus! {

/// Why a lock could not be taken or used.
#[derive(Debug)]
pub enum LockError {
    MissingParent(String),
    NoPermission(String),
    StaleLock(String),
    LockDenied(String),
}

/// What trying to take a lock gave: the lock file made, or why not.
#[derive(Debug)]
pub enum LockAttempt {
    /// The lock file was created.
    Created,
    /// The lock file exists already.
    Exists,
    /// Creating the lock file was not permitted.
    Denied,
    /// Creating the lock file failed otherwise, with the reason.
    Failed(String),
    /// Creating the directory was not permitted.
    DirDenied(String),
    /// Creating the directory failed otherwise: the directory and reason.
    DirFailed(String, String),
}

/// The path with its extension replaced by `lock`, as
/// `Path::with_extension` gives it.
pub uninterp spec fn lock_path_of(path: Seq<char>) -> Seq<char>;

/// `std::path::Path::with_extension("lock")`, as text.
#[verifier::external_body]
pub(crate) fn with_lock_extension(path: &str) -> (r: String)
    ensures
        r@ == lock_path_of(path@),
{
    std::path::Path::new(path).with_extension("lock").to_string_lossy().to_string()
}

/// A lock on a file.
pub struct Lockfile {
    file_path: String,
    lock_path: String,
    held: bool,
}

impl Lockfile {
    /// Whether the lock is held.
    pub closed spec fn held_view(&self) -> bool {
        self.held
    }

    /// The path of the file under the lock.
    pub closed spec fn file_path_view(&self) -> Seq<char> {
        self.file_path@
    }

    /// The path of the lock file.
    pub closed spec fn lock_path_view(&self) -> Seq<char> {
        self.lock_path@
    }

    /// A lock, not held, on the file at a path.
    pub fn new(path: &str) -> (r: Lockfile)
        ensures
            r.file_path_view() == path@,
            r.lock_path_view() == lock_path_of(path@),
            !r.held_view(),
    {
        Lockfile { file_path: path.to_owned(), lock_path: with_lock_extension(path), held: false }
    }

    /// Whether the lock is held.
    pub fn is_held(&self) -> (r: bool)
        ensures
            r == self.held_view(),
    {
        self.held
    }

    /// Takes the lock, given what trying to create the lock file gave (no
    /// attempt is needed while the lock is held).
    pub fn hold_for_update(&mut self, attempt: LockAttempt) -> (r: Result<bool, LockError>)
        ensures
            final(self).file_path_view() == old(self).file_path_view(),
            final(self).lock_path_view() == old(self).lock_path_view(),
            old(self).held_view() ==> (r matches Ok(true) && final(self).held_view()),
            !old(self).held_view() ==> match attempt {
                LockAttempt::Created => (r matches Ok(true) && final(self).held_view()),
                LockAttempt::Exists => (r matches Err(LockError::LockDenied(m)) && m@
                    == "Unable to create '"@ + old(self).lock_path_view()
                    + "': File exists.\nAnother process seems to be running in this repository.\nIf it still fails, a process may have crashed in this repository earlier:\nremove the file manually to continue."@)
                    && !final(self).held_view(),
                LockAttempt::Denied => (r matches Err(LockError::NoPermission(m)) && m@
                    == "Permission denied when creating lock file '"@ + old(self).lock_path_view()
                    + "'"@) && !final(self).held_view(),
                LockAttempt::Failed(e) => (r matches Err(LockError::MissingParent(m)) && m@
                    == "Failed to create lock file '"@ + old(self).lock_path_view() + "': "@ + e@)
                    && !final(self).held_view(),
                LockAttempt::DirDenied(d) => (r matches Err(LockError::NoPermission(m)) && m@
                    == "Cannot create directory '"@ + d@ + "': Permission denied"@)
                    && !final(self).held_view(),
                LockAttempt::DirFailed(d, e) => (r matches Err(LockError::MissingParent(m)) && m@
                    == "Failed to create directory '"@ + d@ + "': "@ + e@)
                    && !final(self).held_view(),
            },
    {
        if self.held {
            return Ok(true);
        }
        match attempt {
            LockAttempt::Created => {
                self.held = true;
                Ok(true)
            },
            LockAttempt::Exists => {
                let mut m = String::new();
                push_str(&mut m, "Unable to create '");
                push_str(&mut m, self.lock_path.as_str());
                push_str(
                    &mut m,
                    "': File exists.\nAnother process seems to be running in this repository.\nIf it still fails, a process may have crashed in this repository earlier:\nremove the file manually to continue.",
                );
                Err(LockError::LockDenied(m))
            },
            LockAttempt::Denied => {
                let mut m = String::new();
                push_str(&mut m, "Permission denied when creating lock file '");
                push_str(&mut m, self.lock_path.as_str());
                push_str(&mut m, "'");
                Err(LockError::NoPermission(m))
            },
            LockAttempt::Failed(e) => {
                let mut m = String::new();
                push_str(&mut m, "Failed to create lock file '");
                push_str(&mut m, self.lock_path.as_str());
                push_str(&mut m, "': ");
                push_str(&mut m, e.as_str());
                Err(LockError::MissingParent(m))
            },
            LockAttempt::DirDenied(d) => {
                let mut m = String::new();
                push_str(&mut m, "Cannot create directory '");
                push_str(&mut m, d.as_str());
                push_str(&mut m, "': Permission denied");
                Err(LockError::NoPermission(m))
            },
            LockAttempt::DirFailed(d, e) => {
                let mut m = String::new();
                push_str(&mut m, "Failed to create directory '");
                push_str(&mut m, d.as_str());
                push_str(&mut m, "': ");
                push_str(&mut m, e.as_str());
                Err(LockError::MissingParent(m))
            },
        }
    }

    /// Writing through the lock needs the lock held.
    pub fn check_held(&self) -> (r: Result<(), LockError>)
        ensures
            self.held_view() ==> r is Ok,
            !self.held_view() ==> (r matches Err(LockError::StaleLock(m)) && m@
                == "Not holding lock on file '"@ + self.file_path_view() + "'"@),
    {
        if self.held {
            return Ok(());
        }
        let mut m = String::new();
        push_str(&mut m, "Not holding lock on file '");
        push_str(&mut m, self.file_path.as_str());
        push_str(&mut m, "'");
        Err(LockError::StaleLock(m))
    }

    /// Gives up the lock; whether there was a lock file to remove.
    pub fn rollback(&mut self) -> (r: bool)
        ensures
            r == old(self).held_view(),
            !final(self).held_view(),
            final(self).file_path_view() == old(self).file_path_view(),
            final(self).lock_path_view() == old(self).lock_path_view(),
    {
        let was = self.held;
        self.held = false;
        was
    }

    /// Ends the lock so that the lock file can replace the file; refused
    /// when the lock is not held.
    pub fn commit_ref(&mut self) -> (r: Result<(), LockError>)
        ensures
            old(self).held_view() ==> r is Ok,
            !old(self).held_view() ==> (r matches Err(LockError::StaleLock(m)) && m@
                == "Not holding lock on file '"@ + old(self).file_path_view() + "'"@),
            !final(self).held_view(),
            final(self).file_path_view() == old(self).file_path_view(),
            final(self).lock_path_view() == old(self).lock_path_view(),
    {
        let r = self.check_held();
        self.held = false;
        r
    }
}

} // verus!
