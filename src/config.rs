//! The run's settings, as the command line gives them.
use vstd::prelude::*;
use crate::SharedPath;

verus! {

/// Btrfs cannot deduplicate files smaller than this, in bytes.
pub const MIN_FILE_SIZE: u64 = 4096;

/// Hashing workers when none are asked for.
pub const DEFAULT_WORKER_COUNT: usize = 4;

/// The settings of a run.
pub struct Configuration {
    /// The directories to deduplicate, all on one btrfs file system.
    pub base_dirs: Vec<SharedPath>,
    pub worker_count: usize,
    /// Files smaller than this are not considered.
    pub min_file_size: u64,
}

/// The minimum file size to use when `requested` is asked for: smaller
/// requests are raised to the smallest size btrfs can deduplicate.
pub fn effective_min_file_size(requested: u64) -> (r: u64)
    ensures
        r == if requested >= MIN_FILE_SIZE {
            requested
        } else {
            MIN_FILE_SIZE
        },
{
    if requested >= MIN_FILE_SIZE {
        requested
    } else {
        MIN_FILE_SIZE
    }
}

impl Configuration {
    /// The settings for the given directories, worker count and requested
    /// minimum file size.
    pub fn new(base_dirs: Vec<SharedPath>, worker_count: usize, requested_min_file_size: u64) -> (r:
        Configuration)
        ensures
            r.base_dirs@ == base_dirs@,
            r.worker_count == worker_count,
            r.min_file_size == if requested_min_file_size >= MIN_FILE_SIZE {
                requested_min_file_size
            } else {
                MIN_FILE_SIZE
            },
    {
        Configuration {
            base_dirs,
            worker_count,
            min_file_size: effective_min_file_size(requested_min_file_size),
        }
    }
}

} // verus!
