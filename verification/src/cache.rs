//! The state of one cached file: how far its download has come, whether it
//! holds changes that the remote side has not seen, and whether the remote
//! side has moved on without it.

use crate::error::Error;
use vstd::prelude::*;

verus! {

#[derive(Clone, Copy, Debug, PartialEq, Eq, Structural)]
pub enum Status {
    /// The content is still arriving.
    Downloading,
    /// The content is complete and equal to the remote side's.
    Available,
    /// The content was written to locally; the token names the last write.
    Dirty(u64),
    /// The remote side changed. Nothing leads out of this state.
    Invalidated,
}

/// Whether the first `end` bytes of a cached file can be used.
#[derive(Clone, Copy, Debug, PartialEq, Eq, Structural)]
pub enum Availability {
    Ready,
    /// The download has not come that far yet.
    Pending,
    Invalidated,
}

/// What a write did to the size of the file.
#[derive(Clone, Copy, Debug, PartialEq, Eq, Structural)]
pub struct Written {
    /// The size of the file after the write.
    pub size: u64,
    /// By how much the file grew.
    pub grown_by: u64,
}

/// Whether the first `end` bytes can be used in the given state: always
/// once the file is complete, never once it is invalidated, and otherwise
/// when the download has come that far.
pub open spec fn availability(status: Status, available_size: u64, end: u64) -> Availability {
    match status {
        Status::Available | Status::Dirty(_) => Availability::Ready,
        Status::Invalidated => Availability::Invalidated,
        Status::Downloading => if end <= available_size {
            Availability::Ready
        } else {
            Availability::Pending
        },
    }
}

/// The bytes of a file from `start` up to `end`.
#[derive(Clone, Copy, Debug, PartialEq, Eq, Structural)]
pub struct Span {
    pub start: u64,
    pub end: u64,
}

/// The bytes that a read of `size` bytes at `offset` covers in a file of
/// `file_size` bytes; `None` where it covers none.
pub open spec fn read_span(file_size: u64, offset: u64, size: usize) -> Option<Span> {
    if file_size <= offset || size == 0 {
        None
    } else if offset + size <= file_size {
        Some(Span { start: offset, end: (offset + size) as u64 })
    } else {
        Some(Span { start: offset, end: file_size })
    }
}

/// The status after the download reached `available_size` bytes.
pub open spec fn status_after_chunk(status: Status, available_size: u64, file_size: u64) -> Status {
    if status == Status::Downloading && available_size == file_size {
        Status::Available
    } else {
        status
    }
}

/// The status after the upload that the write `token` asked for succeeded.
pub open spec fn status_after_upload(status: Status, token: u64) -> Status {
    if status == Status::Dirty(token) {
        Status::Available
    } else {
        status
    }
}

/// What a write of `len` bytes at `offset` answers in the given state.
pub open spec fn write_outcome(
    status: Status,
    available_size: u64,
    file_size: u64,
    offset: u64,
    len: usize,
    max_size: u64,
) -> Result<Written, Error> {
    if offset + len > max_size {
        Err(Error::FileTooLarge)
    } else {
        match status {
            Status::Invalidated => Err(Error::Invalidated),
            Status::Downloading => Err(
                Error::UnexpectedEndOfDownload { current_pos: available_size, file_size },
            ),
            _ => if offset + len > file_size {
                Ok(Written { size: (offset + len) as u64, grown_by: (offset + len - file_size) as u64 })
            } else {
                Ok(Written { size: file_size, grown_by: 0 })
            },
        }
    }
}

/// One cached file: the item it belongs to, the entity tag of the content
/// it was downloaded from or uploaded as, and how far it has come.
pub struct FileCache {
    pub item_id: String,
    pub c_tag: String,
    pub status: Status,
    pub file_size: u64,
    pub available_size: u64,
}

impl FileCache {
    /// A file of `file_size` bytes whose download is about to start.
    pub fn new(item_id: String, file_size: u64, c_tag: String) -> (cache: Self)
        ensures
            cache.item_id == item_id,
            cache.c_tag == c_tag,
            cache.status == Status::Downloading,
            cache.file_size == file_size,
            cache.available_size == 0,
    {
        FileCache { item_id, c_tag, status: Status::Downloading, file_size, available_size: 0 }
    }

    /// A chunk of `len` bytes was stored behind the bytes that were there.
    /// A download that thereby holds the whole file becomes available.
    /// Returns whether the file is complete, so that storing ends.
    pub fn chunk_written(&mut self, len: u64) -> (complete: bool)
        requires
            old(self).available_size + len <= u64::MAX,
        ensures
            final(self).available_size == old(self).available_size + len,
            final(self).status == status_after_chunk(
                old(self).status,
                final(self).available_size,
                old(self).file_size,
            ),
            final(self).file_size == old(self).file_size,
            final(self).item_id == old(self).item_id,
            final(self).c_tag == old(self).c_tag,
            complete == (final(self).available_size == old(self).file_size),
    {
        self.available_size = self.available_size + len;
        if self.available_size == self.file_size {
            match self.status {
                Status::Downloading => {
                    self.status = Status::Available;
                },
                _ => {},
            }
            true
        } else {
            false
        }
    }

    /// Whether the first `end` bytes can be used now, must be waited for, or
    /// will never come.
    pub fn poll_available(&self, end: u64) -> (state: Availability)
        ensures
            state == availability(self.status, self.available_size, end),
    {
        match self.status {
            Status::Available | Status::Dirty(_) => Availability::Ready,
            Status::Invalidated => Availability::Invalidated,
            Status::Downloading => if end <= self.available_size {
                Availability::Ready
            } else {
                Availability::Pending
            },
        }
    }

    /// The verdict once waiting is over: a download that still lacks some of
    /// the first `end` bytes has stopped short.
    pub fn check_available(&self, end: u64) -> (res: Result<(), Error>)
        ensures
            res == (match availability(self.status, self.available_size, end) {
                Availability::Ready => Ok::<(), Error>(()),
                Availability::Invalidated => Err(Error::Invalidated),
                Availability::Pending => Err(
                    Error::UnexpectedEndOfDownload {
                        current_pos: self.available_size,
                        file_size: self.file_size,
                    },
                ),
            }),
    {
        match self.poll_available(end) {
            Availability::Ready => Ok(()),
            Availability::Invalidated => Err(Error::Invalidated),
            Availability::Pending => Err(
                Error::UnexpectedEndOfDownload {
                    current_pos: self.available_size,
                    file_size: self.file_size,
                },
            ),
        }
    }

    /// The bytes to wait for and then to read, for a read of `size` bytes at
    /// `offset`: the request cut off at the end of the file.
    pub fn read_range(&self, offset: u64, size: usize) -> (span: Option<Span>)
        ensures
            span == read_span(self.file_size, offset, size),
    {
        if self.file_size <= offset || size == 0 {
            None
        } else if size as u64 <= self.file_size - offset {
            Some(Span { start: offset, end: offset + size as u64 })
        } else {
            Some(Span { start: offset, end: self.file_size })
        }
    }

    /// Records a write of `len` bytes at `offset`, named by `token`, after
    /// the wait for the whole download is over. The file becomes dirty and
    /// grows to hold the write; an upload for `token` is then due. A write
    /// that reaches past `max_size` is refused before anything else is
    /// looked at.
    pub fn write(&mut self, offset: u64, len: usize, max_size: u64, token: u64) -> (res: Result<
        Written,
        Error,
    >)
        requires
            old(self).status == Status::Downloading ==> old(self).available_size < old(self).file_size,
        ensures
            res == write_outcome(
                old(self).status,
                old(self).available_size,
                old(self).file_size,
                offset,
                len,
                max_size,
            ),
            final(self).item_id == old(self).item_id,
            final(self).c_tag == old(self).c_tag,
            final(self).available_size == old(self).available_size,
            match res {
                Ok(written) => final(self).status == Status::Dirty(token) && final(self).file_size
                    == written.size,
                Err(_) => final(self).status == old(self).status && final(self).file_size == old(self).file_size,
            },
    {
        if len as u64 > max_size || offset > max_size - len as u64 {
            return Err(Error::FileTooLarge);
        }
        match self.status {
            Status::Invalidated => Err(Error::Invalidated),
            Status::Downloading => Err(
                Error::UnexpectedEndOfDownload {
                    current_pos: self.available_size,
                    file_size: self.file_size,
                },
            ),
            _ => {
                self.status = Status::Dirty(token);
                let end = offset + len as u64;
                if end > self.file_size {
                    let grown_by = end - self.file_size;
                    self.file_size = end;
                    Ok(Written { size: end, grown_by })
                } else {
                    Ok(Written { size: self.file_size, grown_by: 0 })
                }
            },
        }
    }

    /// Whether the upload that the write `token` asked for is still wanted:
    /// only while no later write and no remote change has come.
    pub fn upload_ready(&self, token: u64) -> (ready: bool)
        ensures
            ready == (self.status == Status::Dirty(token)),
    {
        match self.status {
            Status::Dirty(t) => t == token,
            _ => false,
        }
    }

    /// The upload for the write `token` succeeded and the remote side now
    /// holds the content under `c_tag`. The file is clean again unless it
    /// was written to or invalidated in the meantime.
    pub fn upload_done(&mut self, token: u64, c_tag: String)
        ensures
            final(self).c_tag == c_tag,
            final(self).status == status_after_upload(old(self).status, token),
            final(self).item_id == old(self).item_id,
            final(self).file_size == old(self).file_size,
            final(self).available_size == old(self).available_size,
    {
        self.c_tag = c_tag;
        if self.upload_ready(token) {
            self.status = Status::Available;
        }
    }

    /// The remote side changed.
    pub fn invalidate(&mut self)
        ensures
            final(self).status == Status::Invalidated,
            final(self).item_id == old(self).item_id,
            final(self).c_tag == old(self).c_tag,
            final(self).file_size == old(self).file_size,
            final(self).available_size == old(self).available_size,
    {
        self.status = Status::Invalidated;
    }
}

/// After a write the file holds the written range, and a read of that range
/// need not wait and covers exactly it.
pub proof fn lemma_write_then_read(
    status: Status,
    available_size: u64,
    file_size: u64,
    offset: u64,
    len: usize,
    max_size: u64,
    token: u64,
)
    requires
        len > 0,
        write_outcome(status, available_size, file_size, offset, len, max_size) is Ok,
    ensures
        ({
            let written = write_outcome(
                status,
                available_size,
                file_size,
                offset,
                len,
                max_size,
            ).unwrap();
            &&& written.size >= offset + len
            &&& written.size >= file_size
            &&& written.size == file_size + written.grown_by
            &&& read_span(written.size, offset, len) == Some(
                Span { start: offset, end: (offset + len) as u64 },
            )
            &&& availability(Status::Dirty(token), available_size, (offset + len) as u64)
                == Availability::Ready
        }),
{
}

/// An invalidated file stays so, whatever arrives, and answers every wait
/// and every write that is within the size limit with `Invalidated`.
pub proof fn lemma_invalidated_is_final(
    available_size: u64,
    file_size: u64,
    end: u64,
    offset: u64,
    len: usize,
    max_size: u64,
    token: u64,
)
    ensures
        availability(Status::Invalidated, available_size, end) == Availability::Invalidated,
        offset + len <= max_size ==> write_outcome(
            Status::Invalidated,
            available_size,
            file_size,
            offset,
            len,
            max_size,
        ) == Err::<Written, Error>(Error::Invalidated),
        status_after_chunk(Status::Invalidated, available_size, file_size) == Status::Invalidated,
        status_after_upload(Status::Invalidated, token) == Status::Invalidated,
{
}

/// Of two uploads asked for by different writes, at most one is still
/// wanted; and an upload that finds a later write's token leaves the file
/// dirty for that write's upload.
pub proof fn lemma_one_upload_wanted(status: Status, first: u64, second: u64)
    requires
        first != second,
    ensures
        !(status == Status::Dirty(first) && status == Status::Dirty(second)),
        status == Status::Dirty(second) ==> status_after_upload(status, first) == Status::Dirty(
            second,
        ),
        status_after_upload(Status::Dirty(first), first) == Status::Available,
{
}

} // verus!
