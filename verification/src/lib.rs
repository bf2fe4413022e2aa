//! Keeps the objects of an S3 bucket in a local backing store for programs
//! that open them through a preloaded hook.

use vstd::prelude::*;

pub mod backing_file;
pub mod bucket;
pub mod config;
pub mod protocol;
pub mod store;
pub mod table;

verus! {
} // verus!
