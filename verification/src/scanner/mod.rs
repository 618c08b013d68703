//! Scanner - directory scanning with caching

pub mod cache;

use vstd::prelude::*;
use std::time::Duration;
use crate::error::FileManagerError;

verus! {

/// Scanner for recursive directory traversal
pub struct Scanner {
    pub capacity: usize,
    pub ttl: Duration,
    pub threshold: usize,
}

impl Scanner {
    pub fn new(capacity: usize, ttl: Duration, threshold: usize) -> (s: Self)
        ensures
            s.capacity == capacity,
            s.ttl == ttl,
            s.threshold == threshold,
    {
        Scanner { capacity, ttl, threshold }
    }

}

/// The checks before scanning (or copying) a directory `path`: it must exist
/// and be a directory.
pub fn check_directory(path: &str, exists: bool, is_dir: bool) -> (r: Result<(), FileManagerError>)
    ensures
        !exists ==> (r matches Err(FileManagerError::NotFound(p)) && p@ == path@),
        exists && !is_dir ==> (r matches Err(FileManagerError::NotDirectory(p)) && p@ == path@),
        exists && is_dir ==> r is Ok,
{
    if !exists {
        return Err(FileManagerError::NotFound(path.to_owned()));
    }
    if !is_dir {
        return Err(FileManagerError::NotDirectory(path.to_owned()));
    }
    Ok(())
}

} // verus!
