//! The index: the files staged for the next commit.
pub mod entry;
pub mod checksum;
