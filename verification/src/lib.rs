//! Platform asset ejection: copies a bundled tree of template files
//! ("android" and "ios" scaffolding) into a user-chosen project directory,
//! skipping entries that already exist unless a force flag is set.
//!
//! The library works on in-memory file trees ([`tree::FsTree`]); reading the
//! real file system into such a tree and writing a tree back out is left to
//! the surrounding command-line program.

pub mod eject;
pub mod laws;
pub mod locate;
pub mod model;
pub mod tree;
