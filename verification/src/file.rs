//! The file pool: open files by handle, each one either streamed from the
//! remote side or kept in the disk cache.

use crate::cache::read_span;
use crate::cache::write_outcome;
use crate::cache::Span;
use crate::cache::Status;
use crate::disk::admission;
use crate::disk::lemma_synced_len;
use crate::disk::filled;
use crate::disk::released;
use crate::disk::uploaded;
use crate::disk::retained;
use crate::disk::synced;
use crate::disk::written_to;
use crate::disk::Admission;
use crate::disk::DiskCache;
use crate::disk::RemoteItem;
use crate::error::Error;
use crate::lru::lookup;
use crate::lru::touched;
use crate::slab::handle_entries;
use crate::slab::handles_get;
use crate::slab::handles_insert;
use crate::slab::handles_new;
use crate::slab::handles_remove;
use crate::slab::HandleTable;
use vstd::prelude::*;

verus! {

/// Settings of the download producers. Times are in seconds.
#[derive(Clone, Copy, Debug)]
pub struct DownloadConfig {
    pub max_retry: u64,
    pub retry_delay: u64,
    pub stream_buffer_chunks: usize,
}

/// Settings of the disk cache.
#[derive(Clone, Debug)]
pub struct DiskCacheConfig {
    pub enable: bool,
    pub path: String,
    pub max_cached_file_size: u64,
    pub max_files: usize,
    pub max_total_size: u64,
}

/// Settings of the uploads. Times are in seconds.
#[derive(Clone, Copy, Debug)]
pub struct UploadConfig {
    pub max_size: u64,
    pub flush_delay: u64,
    pub retry_delay: u64,
}

/// Settings of the file pool.
#[derive(Clone, Debug)]
pub struct Config {
    pub disk_cache: DiskCacheConfig,
    pub download: DownloadConfig,
    pub upload: UploadConfig,
}

/// The attributes of a file after a write or an upload.
#[derive(Clone, Debug)]
pub struct UpdatedFileAttr {
    pub item_id: String,
    pub size: u64,
    pub mtime: u64,
    /// `None` while the remote side has not confirmed the content.
    pub c_tag: Option<String>,
}

/// What a handle reads.
#[derive(Clone, Copy, Debug, PartialEq, Eq, Structural)]
pub enum OpenFile {
    /// A download of `file_size` bytes, read in sequence.
    Streaming { file_size: u64 },
    /// The cached file in `slot`.
    Cached { slot: u64 },
}

/// What `FilePool::open` asks of its caller.
#[derive(Clone, Copy, Debug, PartialEq, Eq, Structural)]
pub enum OpenStep {
    /// The item is cached and a handle was opened over it.
    Opened { fh: u64, slot: u64 },
    /// Size and tag of the item must be fetched; `FilePool::open_fetched`
    /// takes them.
    FetchMeta,
}

/// A handle that `FilePool::open_fetched` opened.
#[derive(Clone, Copy, Debug, PartialEq, Eq, Structural)]
pub enum Opened {
    /// Over the cached file in `slot`, whose download must be started
    /// where `download` is set.
    Cached { fh: u64, slot: u64, download: bool },
    /// Over a download that must be started.
    Streaming { fh: u64, file_size: u64 },
}

/// How a read is served.
#[derive(Clone, Copy, Debug, PartialEq, Eq, Structural)]
pub enum ReadPlan {
    /// In sequence from the download of `file_size` bytes.
    Stream { file_size: u64 },
    /// From the cached file in `slot`: the bytes of `span`, once they are
    /// available; nothing where there is no span.
    Cached { slot: u64, span: Option<Span> },
}

/// The open file handles, what each of them reads, and the disk cache.
pub struct FilePool {
    handles: HandleTable,
    files: Vec<OpenFile>,
    disk_cache: DiskCache,
    config: Config,
}

impl FilePool {
    /// The disk cache is well formed and has the limits of the settings,
    /// and every cached handle knows a slot of it.
    pub closed spec fn wf(&self) -> bool {
        &&& self.disk_cache.wf()
        &&& self.config.disk_cache.enable ==> {
            &&& self.disk_cache.max_cached_file_size() == self.config.disk_cache.max_cached_file_size
            &&& self.disk_cache.max_total_size() == self.config.disk_cache.max_total_size
            &&& self.disk_cache.max_files() == self.config.disk_cache.max_files
        }
        &&& forall|k: usize|
            handle_entries(self.handles).contains_key(k) ==> #[trigger] handle_entries(
                self.handles,
            )[k] < self.files.len()
        &&& forall|i: int|
            0 <= i < self.files.len() ==> (#[trigger] self.files@[i] matches OpenFile::Cached {
                slot,
            } ==> slot < self.disk_cache.slots().len())
    }

    /// The settings that the pool was made with.
    pub closed spec fn config(&self) -> Config {
        self.config
    }

    /// Whether files are cached on disk.
    pub open spec fn enabled(&self) -> bool {
        self.config().disk_cache.enable
    }

    /// The disk cache; it stays empty while caching is disabled.
    pub closed spec fn disk(&self) -> DiskCache {
        self.disk_cache
    }

    /// What the handle `fh` reads.
    pub closed spec fn handle(&self, fh: u64) -> Option<OpenFile> {
        if fh <= usize::MAX && handle_entries(self.handles).contains_key(fh as usize) {
            Some(self.files@[handle_entries(self.handles)[fh as usize] as int])
        } else {
            None
        }
    }

    /// The handles of `self` are those of `before`, and `fh` besides, which
    /// reads `file`.
    pub open spec fn opened_over(&self, before: &FilePool, fh: u64, file: OpenFile) -> bool {
        &&& before.handle(fh) is None
        &&& self.handle(fh) == Some(file)
        &&& forall|f: u64| f != fh ==> self.handle(f) == before.handle(f)
    }

    /// The handles of `self` are those of `before`.
    pub open spec fn same_handles(&self, before: &FilePool) -> bool {
        forall|f: u64| self.handle(f) == before.handle(f)
    }

    /// The disk cache of `self` is that of `before`.
    pub open spec fn same_disk(&self, before: &FilePool) -> bool {
        &&& self.disk().entries() == before.disk().entries()
        &&& self.disk().slots() == before.disk().slots()
    }

    /// A cached handle knows a slot of the disk cache, and the byte count
    /// of the disk cache is the sum over the files that exist.
    pub proof fn lemma_cached_slot(&self, fh: u64)
        requires
            self.wf(),
        ensures
            self.disk().wf(),
            self.handle(fh) matches Some(OpenFile::Cached { slot }) ==> slot
                < self.disk().slots().len(),
    {
    }

    /// A pool with no handle and an empty disk cache. The size limits of
    /// an enabled disk cache must fit each other.
    pub fn new(config: Config) -> (pool: Self)
        requires
            config.disk_cache.enable ==> config.disk_cache.max_cached_file_size
                <= config.disk_cache.max_total_size,
        ensures
            pool.wf(),
            pool.config() == config,
            forall|fh: u64| pool.handle(fh) is None,
            pool.disk().entries().len() == 0,
            pool.disk().slots().len() == 0,
    {
        let disk_cache = if config.disk_cache.enable {
            DiskCache::new(
                config.disk_cache.max_cached_file_size,
                config.disk_cache.max_total_size,
                config.disk_cache.max_files,
            )
        } else {
            DiskCache::new(0, 0, 0)
        };
        FilePool { handles: handles_new(), files: Vec::new(), disk_cache, config }
    }

    /// The disk cache, to look at.
    pub fn disk_cache(&self) -> (cache: &DiskCache)
        ensures
            *cache == self.disk(),
    {
        &self.disk_cache
    }

    /// Allocates a handle that reads `file`.
    fn open_handle(&mut self, file: OpenFile) -> (res: Result<u64, Error>)
        requires
            old(self).wf(),
            file matches OpenFile::Cached { slot } ==> slot < old(self).disk().slots().len(),
        ensures
            final(self).wf(),
            final(self).config() == old(self).config(),
            final(self).disk() == old(self).disk(),
            match res {
                Ok(fh) => final(self).opened_over(old(self), fh, file),
                Err(e) => e == Error::PoolFull && final(self).same_handles(old(self)),
            },
    {
        let index = self.files.len() as u64;
        match handles_insert(&mut self.handles, index) {
            Some(key) => {
                self.files.push(file);
                let fh = key as u64;
                assert(fh as usize == key);
                assert forall|f: u64| f != fh implies self.handle(f) == old(self).handle(f) by {
                    if f <= usize::MAX {
                        assert(f as usize != key);
                    }
                }
                Ok(fh)
            },
            None => Err(Error::PoolFull),
        }
    }

    /// Opens a handle over the cached file in slot `s`, which it then holds.
    fn open_cached(&mut self, s: u64) -> (res: Result<u64, Error>)
        requires
            old(self).wf(),
            s < old(self).disk().slots().len(),
        ensures
            final(self).wf(),
            final(self).config() == old(self).config(),
            final(self).disk().entries() == old(self).disk().entries(),
            retained(old(self).disk().slots()[s as int]) == old(self).disk().slots()[s as int]
                ==> res is Err,
            match res {
                Ok(fh) => {
                    &&& final(self).opened_over(old(self), fh, OpenFile::Cached { slot: s })
                    &&& final(self).disk().slots() == old(self).disk().slots().update(
                        s as int,
                        retained(old(self).disk().slots()[s as int]),
                    )
                },
                Err(e) => {
                    &&& e == Error::PoolFull
                    &&& final(self).same_handles(old(self))
                    &&& final(self).disk().slots() == old(self).disk().slots()
                },
            },
    {
        let slot = self.disk_cache.file(s);
        if !slot.live || slot.holders == u64::MAX {
            return Err(Error::PoolFull);
        }
        match self.open_handle(OpenFile::Cached { slot: s }) {
            Ok(fh) => {
                self.disk_cache.retain(s);
                Ok(fh)
            },
            Err(e) => Err(e),
        }
    }

    /// Opens the item `item_id`. An item that is cached is opened at once.
    /// Without a disk cache nothing can be opened for writing. Otherwise
    /// the caller is told to fetch the item's size and tag.
    pub fn open(&mut self, item_id: &String, write_mode: bool) -> (res: Result<OpenStep, Error>)
        requires
            old(self).wf(),
        ensures
            final(self).wf(),
            final(self).config() == old(self).config(),
            if !old(self).enabled() {
                &&& final(self).same_handles(old(self))
                &&& final(self).same_disk(old(self))
                &&& res == (if write_mode {
                    Err::<OpenStep, Error>(Error::WriteWithoutCache)
                } else {
                    Ok::<OpenStep, Error>(OpenStep::FetchMeta)
                })
            } else {
                &&& final(self).disk().entries() == touched(old(self).disk().entries(), item_id@)
                &&& match lookup(old(self).disk().entries(), item_id@) {
                    None => {
                        &&& res == Ok::<OpenStep, Error>(OpenStep::FetchMeta)
                        &&& final(self).same_handles(old(self))
                        &&& final(self).disk().slots() == old(self).disk().slots()
                    },
                    Some(s) => {
                        &&& s < old(self).disk().slots().len()
                        &&& retained(old(self).disk().slots()[s as int]) == old(self).disk().slots()[s as int] ==> res is Err
                        &&& match res {
                            Ok(OpenStep::Opened { fh, slot }) => {
                                &&& slot == s
                                &&& final(self).opened_over(
                                    old(self),
                                    fh,
                                    OpenFile::Cached { slot: s },
                                )
                                &&& final(self).disk().slots() == old(self).disk().slots().update(
                                    s as int,
                                    retained(old(self).disk().slots()[s as int]),
                                )
                            },
                            Ok(OpenStep::FetchMeta) => false,
                            Err(e) => {
                                &&& e == Error::PoolFull
                                &&& final(self).same_handles(old(self))
                                &&& final(self).disk().slots() == old(self).disk().slots()
                            },
                        }
                    },
                }
            },
    {
        if !self.config.disk_cache.enable {
            if write_mode {
                return Err(Error::WriteWithoutCache);
            }
            return Ok(OpenStep::FetchMeta);
        }
        match self.disk_cache.get(item_id) {
            None => Ok(OpenStep::FetchMeta),
            Some(s) => match self.open_cached(s) {
                Ok(fh) => Ok(OpenStep::Opened { fh, slot: s }),
                Err(e) => Err(e),
            },
        }
    }

    /// Opens the item `item_id`, whose size and tag were fetched. With a
    /// disk cache the item is admitted if it can be, and opened over its
    /// cached file, which the handle then holds. An item that is not
    /// admitted cannot be written to; it is opened for reading as a stream.
    pub fn open_fetched(&mut self, item_id: &String, write_mode: bool, file_size: u64, c_tag: String) -> (res:
        Result<Opened, Error>)
        requires
            old(self).wf(),
        ensures
            final(self).wf(),
            final(self).config() == old(self).config(),
            ({
                let verdict = if old(self).enabled() {
                    admission(
                        old(self).disk().entries(),
                        old(self).disk().slots(),
                        old(self).disk().max_cached_file_size(),
                        old(self).disk().max_total_size(),
                        old(self).disk().max_files(),
                        *item_id,
                        file_size,
                        c_tag,
                    )
                } else {
                    (Admission::Rejected, old(self).disk().entries(), old(self).disk().slots())
                };
                &&& final(self).disk().entries() == verdict.1
                &&& match verdict.0 {
                    Admission::Rejected => {
                        &&& final(self).disk().slots() == verdict.2
                        &&& if write_mode {
                            &&& final(self).same_handles(old(self))
                            &&& res == Err::<Opened, Error>(
                                if old(self).enabled() {
                                    Error::FileTooLarge
                                } else {
                                    Error::WriteWithoutCache
                                },
                            )
                        } else {
                            match res {
                                Ok(Opened::Streaming { fh, file_size: size }) => size == file_size
                                    && final(self).opened_over(
                                    old(self),
                                    fh,
                                    OpenFile::Streaming { file_size },
                                ),
                                Ok(Opened::Cached { .. }) => false,
                                Err(e) => e == Error::PoolFull && final(self).same_handles(
                                    old(self),
                                ),
                            }
                        }
                    },
                    Admission::Existing(s) => {
                        &&& s < verdict.2.len()
                        &&& retained(verdict.2[s as int]) == verdict.2[s as int] ==> res is Err
                        &&& match res {
                            Ok(Opened::Cached { fh, slot, download }) => {
                                &&& slot == s
                                &&& !download
                                &&& final(self).opened_over(
                                    old(self),
                                    fh,
                                    OpenFile::Cached { slot: s },
                                )
                                &&& final(self).disk().slots() == verdict.2.update(
                                    s as int,
                                    retained(verdict.2[s as int]),
                                )
                            },
                            Ok(Opened::Streaming { .. }) => false,
                            Err(e) => {
                                &&& e == Error::PoolFull
                                &&& final(self).same_handles(old(self))
                                &&& final(self).disk().slots() == verdict.2
                            },
                        }
                    },
                    Admission::Admitted(s) => {
                        &&& s < verdict.2.len()
                        &&& match res {
                            Ok(Opened::Cached { fh, slot, download }) => {
                                &&& slot == s
                                &&& download
                                &&& final(self).opened_over(
                                    old(self),
                                    fh,
                                    OpenFile::Cached { slot: s },
                                )
                                &&& final(self).disk().slots() == verdict.2
                            },
                            Ok(Opened::Streaming { .. }) => false,
                            Err(e) => {
                                &&& e == Error::PoolFull
                                &&& final(self).same_handles(old(self))
                                &&& final(self).disk().slots() == verdict.2.update(
                                    s as int,
                                    released(verdict.2[s as int]),
                                )
                            },
                        }
                    },
                }
            }),
    {
        if self.config.disk_cache.enable {
            match self.disk_cache.try_alloc_and_fetch(item_id, file_size, c_tag) {
                Admission::Existing(s) => {
                    return match self.open_cached(s) {
                        Ok(fh) => Ok(Opened::Cached { fh, slot: s, download: false }),
                        Err(e) => Err(e),
                    };
                },
                Admission::Admitted(s) => {
                    return match self.open_handle(OpenFile::Cached { slot: s }) {
                        Ok(fh) => Ok(Opened::Cached { fh, slot: s, download: true }),
                        Err(e) => {
                            self.disk_cache.release(s);
                            Err(e)
                        },
                    };
                },
                Admission::Rejected => {
                    if write_mode {
                        return Err(Error::FileTooLarge);
                    }
                },
            }
        } else if write_mode {
            return Err(Error::WriteWithoutCache);
        }
        match self.open_handle(OpenFile::Streaming { file_size }) {
            Ok(fh) => Ok(Opened::Streaming { fh, file_size }),
            Err(e) => Err(e),
        }
    }

    /// Closes the handle `fh`. A cached file loses a holder with it.
    pub fn close(&mut self, fh: u64) -> (res: Result<(), Error>)
        requires
            old(self).wf(),
        ensures
            final(self).wf(),
            final(self).config() == old(self).config(),
            final(self).disk().entries() == old(self).disk().entries(),
            forall|f: u64| f != fh ==> final(self).handle(f) == old(self).handle(f),
            final(self).handle(fh) is None,
            match old(self).handle(fh) {
                None => res == Err::<(), Error>(Error::InvalidHandle(fh)) && final(self).disk().slots() == old(self).disk().slots(),
                Some(OpenFile::Streaming { .. }) => res is Ok && final(self).disk().slots() == old(self).disk().slots(),
                Some(OpenFile::Cached { slot }) => res is Ok && slot < old(self).disk().slots().len() && final(self).disk().slots() == old(self).disk().slots().update(
                    slot as int,
                    released(old(self).disk().slots()[slot as int]),
                ),
            },
    {
        if fh > usize::MAX as u64 {
            return Err(Error::InvalidHandle(fh));
        }
        let key = fh as usize;
        match handles_get(&self.handles, key) {
            None => Err(Error::InvalidHandle(fh)),
            Some(index) => {
                let file = self.files[index as usize];
                handles_remove(&mut self.handles, key);
                assert forall|f: u64| f != fh implies self.handle(f) == old(self).handle(f) by {
                    if f <= usize::MAX {
                        assert(f as usize != key);
                    }
                }
                match file {
                    OpenFile::Cached { slot } => {
                        self.disk_cache.release(slot);
                    },
                    OpenFile::Streaming { .. } => {},
                }
                Ok(())
            },
        }
    }

    /// Says how a read of `size` bytes at `offset` through the handle `fh`
    /// is served.
    pub fn read(&self, fh: u64, offset: u64, size: usize) -> (res: Result<ReadPlan, Error>)
        requires
            self.wf(),
        ensures
            res == (match self.handle(fh) {
                None => Err::<ReadPlan, Error>(Error::InvalidHandle(fh)),
                Some(OpenFile::Streaming { file_size }) => Ok(ReadPlan::Stream { file_size }),
                Some(OpenFile::Cached { slot }) => Ok(
                    ReadPlan::Cached {
                        slot,
                        span: read_span(
                            self.disk().slots()[slot as int].cache.file_size,
                            offset,
                            size,
                        ),
                    },
                ),
            }),
    {
        if fh > usize::MAX as u64 {
            return Err(Error::InvalidHandle(fh));
        }
        match handles_get(&self.handles, fh as usize) {
            None => Err(Error::InvalidHandle(fh)),
            Some(index) => match self.files[index as usize] {
                OpenFile::Streaming { file_size } => Ok(ReadPlan::Stream { file_size }),
                OpenFile::Cached { slot } => {
                    let span = self.disk_cache.file(slot).cache.read_range(offset, size);
                    Ok(ReadPlan::Cached { slot, span })
                },
            },
        }
    }

    /// Records a write of `len` bytes at `offset` through the handle `fh`,
    /// named by `token` and made at the time `mtime`, once the wait for the
    /// download of the file is over. Only cached files are written to. The
    /// attributes carry no tag: the remote side has not seen the content.
    pub fn write(&mut self, fh: u64, offset: u64, len: usize, token: u64, mtime: u64) -> (res:
        Result<UpdatedFileAttr, Error>)
        requires
            old(self).wf(),
            !(old(self).handle(fh) matches Some(OpenFile::Streaming { .. })),
            old(self).handle(fh) matches Some(OpenFile::Cached { slot }) ==> {
                let cache = old(self).disk().slots()[slot as int].cache;
                cache.status == Status::Downloading ==> cache.available_size < cache.file_size
            },
        ensures
            final(self).wf(),
            final(self).config() == old(self).config(),
            final(self).same_handles(old(self)),
            final(self).disk().entries() == old(self).disk().entries(),
            match old(self).handle(fh) {
                Some(OpenFile::Cached { slot }) => {
                    let before = old(self).disk().slots()[slot as int];
                    let outcome = write_outcome(
                        before.cache.status,
                        before.cache.available_size,
                        before.cache.file_size,
                        offset,
                        len,
                        old(self).config().upload.max_size,
                    );
                    &&& final(self).disk().slots() == old(self).disk().slots().update(
                        slot as int,
                        written_to(before, offset, len, old(self).config().upload.max_size, token),
                    )
                    &&& match outcome {
                        Ok(written) => {
                            &&& res matches Ok(attr)
                            &&& attr.item_id == before.cache.item_id
                            &&& attr.size == written.size
                            &&& attr.mtime == mtime
                            &&& attr.c_tag is None
                        },
                        Err(e) => res matches Err(err) && err == e,
                    }
                },
                _ => {
                    &&& final(self).disk().slots() == old(self).disk().slots()
                    &&& res matches Err(err)
                    &&& err == Error::InvalidHandle(fh)
                },
            },
    {
        if fh > usize::MAX as u64 {
            return Err(Error::InvalidHandle(fh));
        }
        match handles_get(&self.handles, fh as usize) {
            None => Err(Error::InvalidHandle(fh)),
            Some(index) => match self.files[index as usize] {
                OpenFile::Streaming { .. } => Err(Error::InvalidHandle(fh)),
                OpenFile::Cached { slot } => {
                    match self.disk_cache.write(slot, offset, len, self.config.upload.max_size, token) {
                        Ok(written) => Ok(
                            UpdatedFileAttr {
                                item_id: self.disk_cache.file(slot).cache.item_id.clone(),
                                size: written.size,
                                mtime,
                                c_tag: None,
                            },
                        ),
                        Err(e) => Err(e),
                    }
                },
            },
        }
    }

    /// Records that `len` more bytes of the download of the cached file in
    /// `slot` were stored. Returns whether the file is complete.
    pub fn chunk_written(&mut self, slot: u64, len: u64) -> (complete: bool)
        requires
            old(self).wf(),
            slot < old(self).disk().slots().len(),
            old(self).disk().slots()[slot as int].cache.available_size + len <= u64::MAX,
        ensures
            final(self).wf(),
            final(self).config() == old(self).config(),
            final(self).same_handles(old(self)),
            final(self).disk().entries() == old(self).disk().entries(),
            final(self).disk().slots() == old(self).disk().slots().update(
                slot as int,
                filled(old(self).disk().slots()[slot as int], len),
            ),
            complete == (old(self).disk().slots()[slot as int].cache.available_size + len == old(self).disk().slots()[slot as int].cache.file_size),
    {
        self.disk_cache.chunk_written(slot, len)
    }

    /// Counts an upload that is due as a holder of the cached file in
    /// `slot`, and tells whether it did.
    pub fn hold(&mut self, slot: u64) -> (held: bool)
        requires
            old(self).wf(),
            slot < old(self).disk().slots().len(),
        ensures
            final(self).wf(),
            final(self).config() == old(self).config(),
            final(self).same_handles(old(self)),
            final(self).disk().entries() == old(self).disk().entries(),
            final(self).disk().slots() == old(self).disk().slots().update(
                slot as int,
                retained(old(self).disk().slots()[slot as int]),
            ),
            held == (retained(old(self).disk().slots()[slot as int]) != old(self).disk().slots()[slot as int]),
    {
        self.disk_cache.retain(slot)
    }

    /// An upload lets go of the cached file in `slot`.
    pub fn unhold(&mut self, slot: u64)
        requires
            old(self).wf(),
            slot < old(self).disk().slots().len(),
        ensures
            final(self).wf(),
            final(self).config() == old(self).config(),
            final(self).same_handles(old(self)),
            final(self).disk().entries() == old(self).disk().entries(),
            final(self).disk().slots() == old(self).disk().slots().update(
                slot as int,
                released(old(self).disk().slots()[slot as int]),
            ),
    {
        self.disk_cache.release(slot)
    }

    /// Records that the upload for the write `token` to the cached file in
    /// `slot` succeeded and that the remote side holds the content under
    /// `c_tag`.
    pub fn upload_done(&mut self, slot: u64, token: u64, c_tag: String)
        requires
            old(self).wf(),
            slot < old(self).disk().slots().len(),
        ensures
            final(self).wf(),
            final(self).config() == old(self).config(),
            final(self).same_handles(old(self)),
            final(self).disk().entries() == old(self).disk().entries(),
            final(self).disk().slots() == old(self).disk().slots().update(
                slot as int,
                uploaded(old(self).disk().slots()[slot as int], token, c_tag),
            ),
    {
        self.disk_cache.upload_done(slot, token, c_tag)
    }

    /// Takes in a batch of remote items from the change synchronizer: a
    /// cached file whose tag differs from the remote one is invalidated.
    pub fn sync_items(&mut self, items: &Vec<RemoteItem>)
        requires
            old(self).wf(),
        ensures
            final(self).wf(),
            final(self).config() == old(self).config(),
            final(self).same_handles(old(self)),
            if old(self).enabled() {
                (final(self).disk().entries(), final(self).disk().slots()) == synced(
                    old(self).disk().entries(),
                    old(self).disk().slots(),
                    items@,
                )
            } else {
                final(self).same_disk(old(self))
            },
    {
        if self.config.disk_cache.enable {
            self.disk_cache.sync_items(items);
            proof {
                lemma_synced_len(old(self).disk().entries(), old(self).disk().slots(), items@);
            }
        }
    }
}

} // verus!
