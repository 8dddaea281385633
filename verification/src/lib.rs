//! A file system of tags over a flat directory of backing files.
//!
//! Every directory stands for a set of tags and shows the backing files
//! that carry all of them; a subdirectory adds one tag.  The library holds
//! the index of tags and inodes and decides what each request means for the
//! index and for the backing files.  Reading and changing the backing files
//! and keeping the index on disk is left to the caller.

pub mod attr;
pub mod database;
pub mod entry;
pub mod error;
pub mod filesystem;
pub mod index;
pub mod listing;
pub mod tag;

pub use database::TagsFsDb;
pub use filesystem::TagsFs;

use vstd::prelude::*;

verus! {

/// The name of a tag.
pub type Tag = String;

} // verus!
