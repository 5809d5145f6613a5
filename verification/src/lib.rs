//! A small version-control library: object encoding, diffs, three-way merges,
//! references, command-line parsing and sprint/task metadata.
#![allow(unused_imports)]

pub mod text;
pub mod codec;
pub mod error;
pub mod color;
pub mod clock;
pub mod refs;
pub mod metadata;
pub mod file_mode;
pub mod file_stat;
pub mod diff;
pub mod cli;
pub mod merge;
pub mod database;
pub mod index;
pub mod revision;
pub mod path_filter;
pub mod editor;
pub mod validators;
pub mod repository;
pub mod commands;
pub mod workspace;
pub mod lockfile;
pub mod revlist;
pub mod revwalk;
pub mod pager;
