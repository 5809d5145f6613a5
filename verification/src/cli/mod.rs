//! The command line: its commands and how they are read.
pub mod args;
pub mod parser;
