//! Copy options and the checks that come before copying.

use vstd::prelude::*;
use crate::error::FileManagerError;

verus! {

/// Copy options
#[derive(Debug, Clone, Copy, PartialEq, Eq, Structural)]
pub struct CopyOptions {
    pub overwrite: bool,
    pub buffer_size: usize,
}

impl Default for CopyOptions {
    fn default() -> (r: Self)
        ensures
            !r.overwrite,
            r.buffer_size == 0,
    {
        CopyOptions { overwrite: false, buffer_size: 0 }
    }
}

impl CopyOptions {
    /// No overwriting, a 64 KiB buffer.
    pub fn new() -> (r: Self)
        ensures
            !r.overwrite,
            r.buffer_size == 64 * 1024,
    {
        CopyOptions { overwrite: false, buffer_size: 64 * 1024 }
    }

    pub fn with_overwrite(self, overwrite: bool) -> (r: Self)
        ensures
            r.overwrite == overwrite,
            r.buffer_size == self.buffer_size,
    {
        CopyOptions { overwrite, ..self }
    }

    pub fn with_buffer_size(self, size: usize) -> (r: Self)
        ensures
            r.overwrite == self.overwrite,
            r.buffer_size == size,
    {
        CopyOptions { buffer_size: size, ..self }
    }
}

/// The checks before copying a file: the source must exist and be a file,
/// and the destination must not exist unless overwriting is allowed.
pub fn check_copy_file(
    src: &str,
    src_exists: bool,
    src_is_file: bool,
    dst: &str,
    dst_exists: bool,
    options: &CopyOptions,
) -> (r: Result<(), FileManagerError>)
    ensures
        !src_exists ==> (r matches Err(FileManagerError::NotFound(p)) && p@ == src@),
        src_exists && !src_is_file ==> (r matches Err(FileManagerError::NotFile(p)) && p@ == src@),
        src_exists && src_is_file && dst_exists && !options.overwrite ==> (r matches Err(
            FileManagerError::AlreadyExists(p),
        ) && p@ == dst@),
        src_exists && src_is_file && (!dst_exists || options.overwrite) ==> r is Ok,
{
    if !src_exists {
        return Err(FileManagerError::NotFound(src.to_owned()));
    }
    if !src_is_file {
        return Err(FileManagerError::NotFile(src.to_owned()));
    }
    if dst_exists && !options.overwrite {
        return Err(FileManagerError::AlreadyExists(dst.to_owned()));
    }
    Ok(())
}

/// The check before the asynchronous copy: the source must exist.
pub fn check_copy_source(src: &str, src_exists: bool) -> (r: Result<(), FileManagerError>)
    ensures
        !src_exists ==> (r matches Err(FileManagerError::NotFound(p)) && p@ == src@),
        src_exists ==> r is Ok,
{
    if !src_exists {
        return Err(FileManagerError::NotFound(src.to_owned()));
    }
    Ok(())
}

/// The options each file of a directory copy is copied with: the same.
pub fn file_options(options: &CopyOptions) -> (r: CopyOptions)
    ensures
        r == *options,
{
    CopyOptions { overwrite: options.overwrite, buffer_size: options.buffer_size }
}

} // verus!
