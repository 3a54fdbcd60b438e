//! Whole-file deduplication for btrfs.
//!
//! The library holds the logic of the deduplication pipeline: the ioctl
//! request codes and record layouts, the walk and size grouping of candidate
//! files, the aggregation of content digests into match groups, the decisions
//! of the same-extent driver loop and the extent-map comparison. The calls into
//! the kernel, the file system and the thread pool are made by the program
//! around it.

use std::sync::Arc;
use vstd::prelude::*;

pub mod ioctl;
pub mod btrfs;
pub mod hash_check;
pub mod size_check;
pub mod fiemap;
pub mod filehasher;
pub mod config;

pub use ioctl::{ioc, iowr, request_code};

verus! {

/// A file's path as the bytes the system names it by, shared among the
/// stages of the pipeline.
pub type SharedPath = Arc<Vec<u8>>;

/// Relies on `Arc::clone`: the new handle points to the same path.
#[verifier::external_body]
pub(crate) fn share(p: &SharedPath) -> (r: SharedPath)
    ensures
        r == *p,
{
    Arc::clone(p)
}

} // verus!
