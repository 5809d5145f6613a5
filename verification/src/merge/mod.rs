//! Three-way merging: of texts line by line, and of versions in the history.
pub mod diff3;
pub mod resolve;
pub mod common_ancestors;
pub mod bases;
