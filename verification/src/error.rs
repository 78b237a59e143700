use vstd::prelude::*;

verus! {

/// Failures that operations on handles report to their caller.
#[derive(Clone, Copy, Debug, PartialEq, Eq, Structural)]
pub enum Error {
    /// The handle names no open file or directory.
    InvalidHandle(u64),
    /// A write reaches past the upload limit, or a file opened for writing
    /// could not be admitted to the disk cache.
    FileTooLarge,
    /// A file was opened for writing while the disk cache is disabled.
    WriteWithoutCache,
    /// A streaming read did not start where the previous one ended.
    NonsequentialRead { current_pos: u64, try_offset: u64 },
    /// The download stopped before the requested bytes arrived.
    UnexpectedEndOfDownload { current_pos: u64, file_size: u64 },
    /// The cached file changed on the remote side.
    Invalidated,
    /// No handle could be allocated.
    PoolFull,
}

} // verus!
