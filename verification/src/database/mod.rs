//! The object database: stored objects, their encoding and their ids.
pub mod objects;
pub mod database;
