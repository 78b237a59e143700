//! The decisions of a download producer: which range to request next, and
//! whether to try again after a failure.

use vstd::prelude::*;

verus! {

/// What the producer does next.
#[derive(Clone, Copy, Debug, PartialEq, Eq, Structural)]
pub enum DownloadStep {
    /// Request the bytes from `range_start` to the end of the file.
    Request { range_start: u64 },
    /// Every byte has been passed on.
    Finished,
}

/// The progress of one download: `pos` bytes of `file_size` were passed on,
/// and the request in flight has failed `tries` times.
#[derive(Clone, Copy, Debug, PartialEq, Eq, Structural)]
pub struct Download {
    pub file_size: u64,
    pub max_retry: u64,
    pub pos: u64,
    pub tries: u64,
}

impl Download {
    /// Nothing was passed on beyond the file, and no failure beyond the
    /// allowed ones was forgiven.
    pub open spec fn wf(&self) -> bool {
        self.pos <= self.file_size && self.tries <= self.max_retry
    }

    /// A download of `file_size` bytes that has not begun.
    pub fn new(file_size: u64, max_retry: u64) -> (download: Self)
        ensures
            download == (Download { file_size, max_retry, pos: 0, tries: 0 }),
            download.wf(),
    {
        Download { file_size, max_retry, pos: 0, tries: 0 }
    }

    /// The request to make now: the rest of the file, while any is missing.
    pub fn next_step(&self) -> (step: DownloadStep)
        ensures
            step == (if self.pos < self.file_size {
                DownloadStep::Request { range_start: self.pos }
            } else {
                DownloadStep::Finished
            }),
    {
        if self.pos < self.file_size {
            DownloadStep::Request { range_start: self.pos }
        } else {
            DownloadStep::Finished
        }
    }

    /// A request was answered with the partial content asked for: failures
    /// are counted anew.
    pub fn on_response(&mut self)
        ensures
            *final(self) == (Download { tries: 0, ..*old(self) }),
    {
        self.tries = 0;
    }

    /// A request failed, or was answered with anything but partial content.
    /// Returns whether to try again after the retry delay: `max_retry`
    /// failures are forgiven, the next one ends the download.
    pub fn on_failure(&mut self) -> (retry: bool)
        requires
            old(self).wf(),
        ensures
            retry == (old(self).tries < old(self).max_retry),
            retry ==> *final(self) == (Download { tries: (old(self).tries + 1) as u64, ..*old(self) }),
            !retry ==> *final(self) == *old(self),
            final(self).wf(),
    {
        if self.tries < self.max_retry {
            self.tries = self.tries + 1;
            true
        } else {
            false
        }
    }

    /// The bytes that are still missing.
    pub fn remaining(&self) -> (left: u64)
        requires
            self.wf(),
        ensures
            left == self.file_size - self.pos,
    {
        self.file_size - self.pos
    }

    /// A chunk of `len` bytes arrived and is passed on. The remote side must
    /// not send more than the file holds.
    pub fn on_chunk(&mut self, len: u64)
        requires
            old(self).wf(),
            len <= old(self).file_size - old(self).pos,
        ensures
            *final(self) == (Download { pos: (old(self).pos + len) as u64, ..*old(self) }),
            final(self).wf(),
    {
        self.pos = self.pos + len;
    }
}

} // verus!
