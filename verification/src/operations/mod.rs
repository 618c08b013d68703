//! File operations module

pub mod copy;

use vstd::prelude::*;

verus! {

/// Copy options
#[derive(Debug, Clone, Copy, PartialEq, Eq, Structural)]
pub struct CopyOptions {
    pub overwrite: bool,
}

impl Default for CopyOptions {
    fn default() -> (r: Self)
        ensures
            !r.overwrite,
    {
        CopyOptions { overwrite: false }
    }
}

/// Operation progress
#[derive(Debug)]
pub struct OperationProgress {
    pub current_file: Option<String>,
    pub total_bytes: Option<u64>,
    pub processed_bytes: u64,
    pub files_processed: usize,
    pub total_files: usize,
}

impl OperationProgress {
    /// Progress of an operation over `total` files, nothing done yet.
    pub fn new(total: usize) -> (p: Self)
        ensures
            p.current_file is None,
            p.total_bytes is None,
            p.processed_bytes == 0,
            p.files_processed == 0,
            p.total_files == total,
    {
        OperationProgress {
            current_file: None,
            total_bytes: None,
            processed_bytes: 0,
            files_processed: 0,
            total_files: total,
        }
    }
}

impl Default for OperationProgress {
    fn default() -> (p: Self)
        ensures
            p.current_file is None,
            p.total_bytes is None,
            p.processed_bytes == 0,
            p.files_processed == 0,
            p.total_files == 0,
    {
        OperationProgress::new(0)
    }
}

/// Progress tracker trait
pub trait ProgressTracker {
    fn report_progress(&self, progress: &OperationProgress);
}

/// Batch result
#[derive(Debug)]
pub struct BatchResult<T> {
    pub items: Vec<T>,
}

impl<T> Default for BatchResult<T> {
    fn default() -> (r: Self)
        ensures
            r.items@ == Seq::<T>::empty(),
    {
        BatchResult { items: Vec::new() }
    }
}

/// Delete options
#[derive(Debug, Clone, Copy, PartialEq, Eq, Structural)]
pub struct DeleteOptions {
    pub recursive: bool,
    pub force: bool,
}

impl Default for DeleteOptions {
    fn default() -> (r: Self)
        ensures
            !r.recursive,
            !r.force,
    {
        DeleteOptions { recursive: false, force: false }
    }
}

} // verus!
