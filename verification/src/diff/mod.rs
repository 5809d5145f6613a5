//! Line diffs: computing edit scripts, formatting them as hunks, and the
//! helpers that show a file's changes.
pub mod myers;
pub mod diff;
