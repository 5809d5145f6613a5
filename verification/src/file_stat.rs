//! Stand-in file metadata for index entries made without a file to stat.
use vstd::prelude::*;
use crate::clock::unix_now_secs;

verus! {

/// Types that can give a default value of themselves.
pub trait MetadataExt: Sized {
    fn default() -> Self;
}

/// File metadata with default values: an empty regular file, modified and
/// created at the time it was made (seconds since the epoch).
#[derive(Debug, Clone)]
pub struct DefaultMetadata {
    pub size: u64,
    pub modified: u64,
    pub created: u64,
    pub is_dir: bool,
    pub is_file: bool,
}

impl DefaultMetadata {
    /// The metadata of an empty regular file, modified and created now.
    pub fn new() -> (r: DefaultMetadata)
        ensures
            r.size == 0,
            !r.is_dir,
            r.is_file,
    {
        let modified = unix_now_secs();
        let created = unix_now_secs();
        DefaultMetadata { size: 0, modified, created, is_dir: false, is_file: true }
    }
}

impl Default for DefaultMetadata {
    fn default() -> (r: DefaultMetadata)
        ensures
            r.size == 0,
            !r.is_dir,
            r.is_file,
    {
        DefaultMetadata::new()
    }
}

/// The default metadata used for index entries.
pub fn default_metadata() -> (r: DefaultMetadata)
    ensures
        r.size == 0,
        !r.is_dir,
        r.is_file,
{
    DefaultMetadata::default()
}

} // verus!
