//! The directory pool: snapshots of remote directories, cached per inode for
//! a bounded time and revalidated against the remote entity tag.

use crate::error::Error;
use crate::lru::inode_capacity;
use crate::lru::inode_entries;
use crate::lru::inode_lru_new;
use crate::lru::inode_lru_store;
use crate::lru::inode_lru_touch;
use crate::lru::lemma_lookup_found;
use crate::lru::lemma_stored;
use crate::lru::lemma_touched;
use crate::lru::lookup;
use crate::lru::stored;
use crate::lru::touched;
use crate::slab::handle_entries;
use crate::slab::handles_get;
use crate::slab::handles_insert;
use crate::slab::handles_new;
use crate::slab::handles_remove;
use crate::slab::HandleTable;
use lru_cache::LruCache;
use vstd::prelude::*;

verus! {

/// Attributes of an inode, as the remote side reports them.
#[derive(Clone, Copy, Debug, PartialEq, Eq, Structural)]
pub struct InodeAttr {
    pub size: u64,
    pub mtime: u64,
    pub crtime: u64,
    pub is_directory: bool,
}

/// One child of a directory.
#[derive(Debug)]
pub struct DirEntry {
    pub item_id: String,
    pub name: String,
    pub attr: InodeAttr,
}

impl Clone for DirEntry {
    fn clone(&self) -> (copy: Self)
        ensures
            copy == *self,
    {
        DirEntry { item_id: self.item_id.clone(), name: self.name.clone(), attr: self.attr }
    }
}

/// Settings of the directory pool. Times are in seconds.
#[derive(Clone, Copy, Debug)]
pub struct Config {
    pub lru_cache_size: usize,
    pub cache_ttl: u64,
}

/// The content of a directory at one point in time. It never changes.
pub struct DirSnapshot {
    c_tag: String,
    entries: Vec<DirEntry>,
}

impl DirSnapshot {
    /// The entity tag under which the content was fetched.
    pub closed spec fn tag(&self) -> Seq<char> {
        self.c_tag@
    }

    /// The children, in the order in which the remote side listed them.
    pub closed spec fn listing(&self) -> Seq<DirEntry> {
        self.entries@
    }
}

/// What the remote side answered to a directory fetch.
pub enum Fetched {
    /// The content still carries the entity tag that was sent along.
    NotModified,
    /// The current content and its entity tag.
    Listing { c_tag: String, entries: Vec<DirEntry> },
}

/// What `DirPool::open` asks of its caller.
pub enum OpenStep {
    /// A handle was opened over the cached snapshot.
    Opened(u64),
    /// The directory must be fetched, conditionally on `if_none_match` where
    /// an outdated snapshot, `previous`, is at hand; `DirPool::finish_open`
    /// takes the answer.
    Fetch { previous: Option<u64>, if_none_match: Option<String> },
}

/// The time that passed from `since` to `now`; none if the clock went back.
pub open spec fn elapsed(since: u64, now: u64) -> nat {
    if now >= since {
        (now - since) as nat
    } else {
        0
    }
}

/// A snapshot checked at `checked_at` may be served at `now` without asking
/// the remote side.
pub open spec fn is_fresh(checked_at: u64, now: u64, ttl: u64) -> bool {
    elapsed(checked_at, now) < ttl
}

/// The position of the last entry called `name`.
pub open spec fn find_name(entries: Seq<DirEntry>, name: Seq<char>) -> Option<int>
    decreases entries.len(),
{
    if entries.len() == 0 {
        None
    } else if entries.last().name@ == name {
        Some(entries.len() - 1)
    } else {
        find_name(entries.drop_last(), name)
    }
}

/// The entries from `offset` on; none when `offset` is past the end.
pub open spec fn listing_from(entries: Seq<DirEntry>, offset: u64) -> Seq<DirEntry> {
    if offset <= entries.len() {
        entries.skip(offset as int)
    } else {
        Seq::empty()
    }
}

/// Copies the entries from `offset` on.
fn entries_from(entries: &Vec<DirEntry>, offset: u64) -> (out: Vec<DirEntry>)
    ensures
        out@ == listing_from(entries@, offset),
{
    let mut out: Vec<DirEntry> = Vec::new();
    if offset > entries.len() as u64 {
        return out;
    }
    let start = offset as usize;
    let mut i: usize = start;
    while i < entries.len()
        invariant
            start <= i <= entries.len(),
            out@ == entries@.subrange(start as int, i as int),
        decreases entries.len() - i,
    {
        out.push(entries[i].clone());
        assert(out@ =~= entries@.subrange(start as int, i + 1));
        i += 1;
    }
    assert(out@ =~= entries@.skip(start as int));
    out
}

/// Finds the last entry called `name`.
fn position_of(entries: &Vec<DirEntry>, name: &String) -> (found: Option<usize>)
    ensures
        match found {
            Some(i) => find_name(entries@, name@) == Some(i as int) && i < entries.len(),
            None => find_name(entries@, name@) is None,
        },
{
    let mut i: usize = entries.len();
    assert(entries@.take(i as int) =~= entries@);
    while i > 0
        invariant
            i <= entries.len(),
            find_name(entries@, name@) == find_name(entries@.take(i as int), name@),
        decreases i,
    {
        let ghost head = entries@.take(i as int);
        assert(head.last() == entries@[i - 1]);
        assert(head.drop_last() =~= entries@.take(i - 1));
        if entries[i - 1].name == *name {
            return Some(i - 1);
        }
        i -= 1;
    }
    assert(entries@.take(0).len() == 0);
    None
}

/// The open directory handles, the snapshots they read, and the cache
/// that finds the snapshot of an inode.
pub struct DirPool {
    opened_handles: HandleTable,
    /// Inode to snapshot and the time at which it was last checked.
    lru_cache: LruCache<u64, (u64, u64)>,
    snapshots: Vec<DirSnapshot>,
    config: Config,
}

impl DirPool {
    /// Every snapshot that the cache or a handle names exists.
    pub closed spec fn wf(&self) -> bool {
        &&& inode_capacity(self.lru_cache) == self.config.lru_cache_size
        &&& forall|i: int|
            0 <= i < inode_entries(self.lru_cache).len() ==> (#[trigger] inode_entries(
                self.lru_cache,
            )[i]).1.0 < self.snapshots.len()
        &&& forall|k: usize|
            handle_entries(self.opened_handles).contains_key(k) ==> #[trigger] handle_entries(
                self.opened_handles,
            )[k] < self.snapshots.len()
    }

    /// For how long a snapshot is served without asking the remote side.
    pub closed spec fn ttl(&self) -> u64 {
        self.config.cache_ttl
    }

    /// The number of inodes whose snapshot the cache can find.
    pub closed spec fn capacity(&self) -> usize {
        self.config.lru_cache_size
    }

    /// All snapshots taken so far; a snapshot keeps its position.
    pub closed spec fn snapshots(&self) -> Seq<DirSnapshot> {
        self.snapshots@
    }

    /// The cached inodes, least recently used first, each with its snapshot
    /// and the time of its last check.
    pub closed spec fn order(&self) -> Seq<(u64, (u64, u64))> {
        inode_entries(self.lru_cache)
    }

    /// The snapshot cached for `ino` and the time of its last check.
    pub open spec fn cached(&self, ino: u64) -> Option<(u64, u64)> {
        lookup(self.order(), ino)
    }

    /// The snapshot that the handle `fh` reads.
    pub closed spec fn handle(&self, fh: u64) -> Option<u64> {
        if fh <= usize::MAX && handle_entries(self.opened_handles).contains_key(fh as usize) {
            Some(handle_entries(self.opened_handles)[fh as usize])
        } else {
            None
        }
    }

    /// The handles of `self` are those of `before`, and `fh` besides, which
    /// reads snapshot `id`.
    pub open spec fn opened_over(&self, before: &DirPool, fh: u64, id: u64) -> bool {
        &&& before.handle(fh) is None
        &&& self.handle(fh) == Some(id)
        &&& forall|f: u64| f != fh ==> self.handle(f) == before.handle(f)
    }

    /// The handles of `self` are those of `before`.
    pub open spec fn same_handles(&self, before: &DirPool) -> bool {
        forall|f: u64| self.handle(f) == before.handle(f)
    }

    /// Every snapshot of `before` is still there, unchanged.
    pub open spec fn keeps_snapshots(&self, before: &DirPool) -> bool {
        &&& before.snapshots().len() <= self.snapshots().len()
        &&& forall|i: int|
            0 <= i < before.snapshots().len() ==> self.snapshots()[i] == before.snapshots()[i]
    }

    /// A pool with no snapshot and no handle.
    pub fn new(config: Config) -> (pool: Self)
        ensures
            pool.wf(),
            pool.ttl() == config.cache_ttl,
            pool.capacity() == config.lru_cache_size,
            pool.snapshots().len() == 0,
            pool.order().len() == 0,
            forall|fh: u64| pool.handle(fh) is None,
    {
        DirPool {
            opened_handles: handles_new(),
            lru_cache: inode_lru_new(config.lru_cache_size),
            snapshots: Vec::new(),
            config,
        }
    }

    /// Allocates a handle over snapshot `id`.
    fn open_handle(&mut self, id: u64) -> (res: Result<u64, Error>)
        requires
            old(self).wf(),
            id < old(self).snapshots().len(),
        ensures
            final(self).wf(),
            final(self).snapshots() == old(self).snapshots(),
            final(self).ttl() == old(self).ttl(),
            final(self).capacity() == old(self).capacity(),
            final(self).order() == old(self).order(),
            match res {
                Ok(fh) => final(self).opened_over(old(self), fh, id),
                Err(e) => e == Error::PoolFull && final(self).same_handles(old(self)),
            },
    {
        match handles_insert(&mut self.opened_handles, id) {
            Some(key) => {
                let fh = key as u64;
                assert(fh as usize == key);
                assert forall|f: u64| f != fh implies self.handle(f) == old(self).handle(f) by {
                    if f <= usize::MAX {
                        assert(f as usize != key);
                    }
                }
                Ok(fh)
            },
            None => Err(Error::PoolFull),
        }
    }

    /// Opens the directory `ino` at time `now`. While the cached snapshot is
    /// fresh the handle is opened over it and the remote side is not asked;
    /// otherwise the caller is told to fetch, and nothing changes.
    pub fn open(&mut self, ino: u64, now: u64) -> (res: Result<OpenStep, Error>)
        requires
            old(self).wf(),
        ensures
            final(self).wf(),
            final(self).snapshots() == old(self).snapshots(),
            final(self).ttl() == old(self).ttl(),
            final(self).capacity() == old(self).capacity(),
            final(self).order() == touched(old(self).order(), ino),
            forall|i: u64| final(self).cached(i) == old(self).cached(i),
            match old(self).cached(ino) {
                Some((id, checked_at)) => if is_fresh(checked_at, now, old(self).ttl()) {
                    match res {
                        Ok(OpenStep::Opened(fh)) => final(self).opened_over(old(self), fh, id),
                        Ok(OpenStep::Fetch { .. }) => false,
                        Err(e) => e == Error::PoolFull && final(self).same_handles(old(self)),
                    }
                } else {
                    &&& final(self).same_handles(old(self))
                    &&& res matches Ok(OpenStep::Fetch { previous, if_none_match })
                    &&& previous == Some(id)
                    &&& id < old(self).snapshots().len()
                    &&& if_none_match matches Some(tag)
                    &&& tag@ == old(self).snapshots()[id as int].tag()
                },
                None => {
                    &&& final(self).same_handles(old(self))
                    &&& res matches Ok(OpenStep::Fetch { previous, if_none_match })
                    &&& previous is None
                    &&& if_none_match is None
                },
            },
    {
        proof {
            lemma_touched(inode_entries(self.lru_cache), ino);
            lemma_lookup_found(inode_entries(self.lru_cache), ino);
        }
        match inode_lru_touch(&mut self.lru_cache, ino) {
            Some((id, checked_at)) => {
                let age: u64 = if now >= checked_at {
                    now - checked_at
                } else {
                    0
                };
                if age < self.config.cache_ttl {
                    match self.open_handle(id) {
                        Ok(fh) => Ok(OpenStep::Opened(fh)),
                        Err(e) => Err(e),
                    }
                } else {
                    let tag = self.snapshots[id as usize].c_tag.clone();
                    Ok(OpenStep::Fetch { previous: Some(id), if_none_match: Some(tag) })
                }
            },
            None => Ok(OpenStep::Fetch { previous: None, if_none_match: None }),
        }
    }

    /// Takes the answer to the fetch that `open` asked for, made at time
    /// `now`, and opens the handle. An unchanged directory keeps the snapshot
    /// `previous` and is marked as checked at `now`; a listing becomes a new
    /// snapshot. Either way the snapshot is cached for `ino`.
    pub fn finish_open(&mut self, ino: u64, previous: Option<u64>, fetched: Fetched, now: u64) -> (res:
        Result<u64, Error>)
        requires
            old(self).wf(),
            fetched is NotModified ==> previous is Some && previous.unwrap() < old(self).snapshots().len(),
        ensures
            final(self).wf(),
            final(self).keeps_snapshots(old(self)),
            final(self).ttl() == old(self).ttl(),
            final(self).capacity() == old(self).capacity(),
            ({
                let id = match fetched {
                    Fetched::NotModified => previous.unwrap(),
                    Fetched::Listing { .. } => old(self).snapshots().len() as u64,
                };
                &&& match fetched {
                    Fetched::NotModified => final(self).snapshots() == old(self).snapshots(),
                    Fetched::Listing { c_tag, entries } => {
                        &&& final(self).snapshots().len() == old(self).snapshots().len() + 1
                        &&& final(self).snapshots()[id as int].tag() == c_tag@
                        &&& final(self).snapshots()[id as int].listing() == entries@
                    },
                }
                &&& final(self).order() == stored(
                    old(self).order(),
                    old(self).capacity(),
                    ino,
                    (id, now),
                )
                &&& old(self).capacity() >= 1 ==> final(self).cached(ino) == Some((id, now))
                &&& forall|i: u64|
                    i != ino && final(self).cached(i) is Some ==> #[trigger] final(self).cached(i)
                        == old(self).cached(i)
                &&& match res {
                    Ok(fh) => final(self).opened_over(old(self), fh, id),
                    Err(e) => e == Error::PoolFull && final(self).same_handles(old(self)),
                }
            }),
    {
        let id: u64 = match fetched {
            Fetched::NotModified => previous.unwrap(),
            Fetched::Listing { c_tag, entries } => {
                let id = self.snapshots.len() as u64;
                self.snapshots.push(DirSnapshot { c_tag, entries });
                id
            },
        };
        proof {
            lemma_stored(
                inode_entries(self.lru_cache),
                inode_capacity(self.lru_cache),
                ino,
                (id, now),
            );
        }
        let ghost before = inode_entries(self.lru_cache);
        inode_lru_store(&mut self.lru_cache, ino, (id, now));
        proof {
            let after = inode_entries(self.lru_cache);
            assert forall|i: int| 0 <= i < after.len() implies (#[trigger] after[i]).1.0
                < self.snapshots.len() by {
                if after[i] != (ino, (id, now)) {
                    assert(before.contains(after[i]));
                }
            }
        }
        self.open_handle(id)
    }

    /// Releases the handle `fh`; the snapshot it read stays.
    pub fn free(&mut self, fh: u64) -> (res: Result<(), Error>)
        requires
            old(self).wf(),
        ensures
            final(self).wf(),
            final(self).snapshots() == old(self).snapshots(),
            final(self).ttl() == old(self).ttl(),
            final(self).capacity() == old(self).capacity(),
            final(self).order() == old(self).order(),
            forall|f: u64| f != fh ==> final(self).handle(f) == old(self).handle(f),
            final(self).handle(fh) is None,
            match res {
                Ok(_) => old(self).handle(fh) is Some,
                Err(e) => old(self).handle(fh) is None && e == Error::InvalidHandle(fh),
            },
    {
        if fh > usize::MAX as u64 {
            return Err(Error::InvalidHandle(fh));
        }
        let key = fh as usize;
        if handles_remove(&mut self.opened_handles, key) {
            assert forall|f: u64| f != fh implies self.handle(f) == old(self).handle(f) by {
                if f <= usize::MAX {
                    assert(f as usize != key);
                }
            }
            Ok(())
        } else {
            Err(Error::InvalidHandle(fh))
        }
    }

    /// The entries that the handle `fh` reads, from position `offset` on, in
    /// the order of the remote listing.
    pub fn read(&self, fh: u64, offset: u64) -> (res: Result<Vec<DirEntry>, Error>)
        requires
            self.wf(),
        ensures
            match res {
                Ok(entries) => self.handle(fh) matches Some(id) && entries@ == listing_from(
                    self.snapshots()[id as int].listing(),
                    offset,
                ),
                Err(e) => self.handle(fh) is None && e == Error::InvalidHandle(fh),
            },
    {
        if fh > usize::MAX as u64 {
            return Err(Error::InvalidHandle(fh));
        }
        match handles_get(&self.opened_handles, fh as usize) {
            None => Err(Error::InvalidHandle(fh)),
            Some(id) => {
                Ok(entries_from(&self.snapshots[id as usize].entries, offset))
            },
        }
    }

    /// Looks `name` up in the directory `parent_ino` at time `now`, without
    /// asking the remote side. `None`: no fresh snapshot is cached, the
    /// caller has to open and read. `Some(None)`: the fresh snapshot holds no
    /// such name. Otherwise the entry, and for how long it stays fresh.
    pub fn lookup(&mut self, parent_ino: u64, name: &String, now: u64) -> (res: Option<
        Option<(DirEntry, u64)>,
    >)
        requires
            old(self).wf(),
        ensures
            final(self).wf(),
            final(self).snapshots() == old(self).snapshots(),
            final(self).ttl() == old(self).ttl(),
            final(self).capacity() == old(self).capacity(),
            final(self).same_handles(old(self)),
            final(self).order() == touched(old(self).order(), parent_ino),
            forall|i: u64| final(self).cached(i) == old(self).cached(i),
            match old(self).cached(parent_ino) {
                Some((id, checked_at)) => if is_fresh(checked_at, now, old(self).ttl()) {
                    let listing = old(self).snapshots()[id as int].listing();
                    match find_name(listing, name@) {
                        Some(i) => res == Some(
                            Some(
                                (
                                    listing[i],
                                    (old(self).ttl() - elapsed(checked_at, now)) as u64,
                                ),
                            ),
                        ),
                        None => res == Some(None::<(DirEntry, u64)>),
                    }
                } else {
                    res is None
                },
                None => res is None,
            },
    {
        proof {
            lemma_touched(inode_entries(self.lru_cache), parent_ino);
            lemma_lookup_found(inode_entries(self.lru_cache), parent_ino);
        }
        match inode_lru_touch(&mut self.lru_cache, parent_ino) {
            Some((id, checked_at)) => {
                let age: u64 = if now >= checked_at {
                    now - checked_at
                } else {
                    0
                };
                if age < self.config.cache_ttl {
                    let snapshot = &self.snapshots[id as usize];
                    let ttl = self.config.cache_ttl - age;
                    match position_of(&snapshot.entries, name) {
                        Some(i) => Some(Some((snapshot.entries[i].clone(), ttl))),
                        None => Some(None),
                    }
                } else {
                    None
                }
            },
            None => None,
        }
    }
}

} // verus!
