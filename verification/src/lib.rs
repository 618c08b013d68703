//! A file manager's core: paths, navigation history, listing order, bookmarks,
//! tabs, thumbnails and the decisions around file operations, with their contracts.

pub mod error;
pub mod gui;
pub mod logging;
pub mod operations;
pub mod path;
pub mod places;
pub mod scanner;
pub mod text;
pub mod thumbnails;
pub mod vfs;
pub mod watcher;

use vstd::prelude::*;
use crate::error::FileManagerError;

verus! {

/// Run the file manager library: it needs no setup and always succeeds.
pub fn run() -> (r: Result<(), FileManagerError>)
    ensures
        r is Ok,
{
    Ok(())
}

} // verus!
