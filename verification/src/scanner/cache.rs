//! Scanner cache

use vstd::prelude::*;
use std::time::Duration;

verus! {

/// Directory cache
pub struct SharedDirectoryCache {
    ttl: Duration,
}

impl SharedDirectoryCache {
    /// A cache whose entries live for `ttl` (the capacity is not used).
    pub fn new(_capacity: usize, ttl: Duration) -> (c: Self)
        ensures
            c.ttl() == ttl,
    {
        SharedDirectoryCache { ttl }
    }

    /// How long entries live.
    pub closed spec fn ttl(&self) -> Duration {
        self.ttl
    }
}

} // verus!
