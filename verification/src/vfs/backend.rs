//! VFS backends.

use vstd::prelude::*;

verus! {

/// Local filesystem backend
#[derive(Debug, Clone, Copy, PartialEq, Eq, Structural)]
pub struct LocalVfsBackend;

impl LocalVfsBackend {
    pub fn new() -> (b: Self)
        ensures
            b == LocalVfsBackend,
    {
        LocalVfsBackend
    }
}

} // verus!
