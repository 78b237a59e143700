//! The disk cache: which files are cached, which of them may be evicted,
//! and how many bytes they take up together.

use crate::cache::status_after_chunk;
use crate::cache::status_after_upload;
use crate::cache::write_outcome;
use crate::cache::FileCache;
use crate::cache::Status;
use crate::cache::Written;
use crate::error::Error;
use crate::lru::item_capacity;
use crate::lru::item_entries;
use crate::lru::item_lru_evict;
use crate::lru::item_lru_len;
use crate::lru::item_lru_new;
use crate::lru::item_lru_remove;
use crate::lru::item_lru_store;
use crate::lru::item_lru_touch;
use crate::lru::distinct_keys;
use crate::lru::lemma_distinct_drop_first;
use crate::lru::lemma_distinct_keys;
use crate::lru::lemma_distinct_touched;
use crate::lru::lemma_distinct_without;
use crate::lru::lemma_drop_first_lookup;
use crate::lru::lemma_drop_first_other;
use crate::lru::lemma_lookup_found;
use crate::lru::lemma_stored;
use crate::lru::lemma_touched;
use crate::lru::lemma_without;
use crate::lru::lemma_without_absent;
use crate::lru::lemma_without_touched;
use crate::lru::lookup;
use crate::lru::touched;
use crate::lru::without;
use lru_cache::LruCache;
use vstd::prelude::*;

verus! {

/// A cached file and who keeps it.
pub struct Slot {
    pub cache: FileCache,
    /// The open handles and pending uploads that use the file.
    pub holders: u64,
    /// Whether the file can still be found by its item identifier.
    pub cached: bool,
    /// Whether the file still exists: it does while it is cached or held.
    pub live: bool,
}

/// What a remote item looks like to the change synchronizer.
pub struct RemoteItem {
    pub id: String,
    pub c_tag: String,
    pub is_folder: bool,
}

/// The answer to a request for admission.
#[derive(Clone, Copy, Debug, PartialEq, Eq, Structural)]
pub enum Admission {
    /// The item was cached before, in this slot.
    Existing(u64),
    /// The item was admitted to this slot and must now be downloaded.
    Admitted(u64),
    /// The item is too large, or the room it needs is taken by files that
    /// are in use.
    Rejected,
}

/// A file that can be found exists, and a file that exists can be found or
/// is held.
pub open spec fn slot_ok(slot: Slot) -> bool {
    &&& slot.cached ==> slot.live
    &&& slot.live ==> slot.cached || slot.holders > 0
}

/// The bytes that a slot counts for.
pub open spec fn slot_bytes(slot: Slot) -> nat {
    if slot.live {
        slot.cache.file_size as nat
    } else {
        0
    }
}

/// The bytes of all files that exist.
pub open spec fn live_bytes(slots: Seq<Slot>) -> nat
    decreases slots.len(),
{
    if slots.len() == 0 {
        0
    } else {
        live_bytes(slots.drop_last()) + slot_bytes(slots.last())
    }
}

/// A slot after its file can no longer be found: the file goes unless it
/// is held.
pub open spec fn dropped(slot: Slot) -> Slot {
    Slot { cached: false, live: slot.live && slot.holders > 0, ..slot }
}

/// A slot after its file changed on the remote side.
pub open spec fn outdated(slot: Slot) -> Slot {
    let gone = dropped(slot);
    Slot { cache: FileCache { status: Status::Invalidated, ..gone.cache }, ..gone }
}

/// A slot after one holder let go.
pub open spec fn released(slot: Slot) -> Slot {
    if slot.holders == 0 {
        slot
    } else {
        Slot {
            holders: (slot.holders - 1) as u64,
            live: slot.live && (slot.cached || slot.holders > 1),
            ..slot
        }
    }
}

/// A slot after one more holder took the file; a file that is gone, or
/// held as often as can be counted, takes no holder.
pub open spec fn retained(slot: Slot) -> Slot {
    if slot.live && slot.holders < u64::MAX {
        Slot { holders: (slot.holders + 1) as u64, ..slot }
    } else {
        slot
    }
}

/// A slot after a write of `len` bytes at `offset` was recorded.
pub open spec fn written_to(slot: Slot, offset: u64, len: usize, max_size: u64, token: u64) -> Slot {
    match write_outcome(
        slot.cache.status,
        slot.cache.available_size,
        slot.cache.file_size,
        offset,
        len,
        max_size,
    ) {
        Ok(written) => Slot {
            cache: FileCache { status: Status::Dirty(token), file_size: written.size, ..slot.cache },
            ..slot
        },
        Err(_) => slot,
    }
}

/// A slot after `len` more bytes of its download were stored.
pub open spec fn filled(slot: Slot, len: u64) -> Slot {
    let available_size = (slot.cache.available_size + len) as u64;
    Slot {
        cache: FileCache {
            available_size,
            status: status_after_chunk(slot.cache.status, available_size, slot.cache.file_size),
            ..slot.cache
        },
        ..slot
    }
}

/// A slot after the upload for the write `token` succeeded.
pub open spec fn uploaded(slot: Slot, token: u64, c_tag: String) -> Slot {
    Slot {
        cache: FileCache {
            c_tag,
            status: status_after_upload(slot.cache.status, token),
            ..slot.cache
        },
        ..slot
    }
}

/// The slots after the file in slot `s` can no longer be found.
pub open spec fn drop_at(slots: Seq<Slot>, s: u64) -> Seq<Slot> {
    if s < slots.len() {
        slots.update(s as int, dropped(slots[s as int]))
    } else {
        slots
    }
}

/// The cache after least recently used files were evicted, one by one,
/// until `file_size` more bytes fit under `max_total` or none is left.
pub open spec fn make_room(
    entries: Seq<(Seq<char>, u64)>,
    slots: Seq<Slot>,
    file_size: u64,
    max_total: u64,
) -> (Seq<(Seq<char>, u64)>, Seq<Slot>)
    decreases entries.len(),
{
    if live_bytes(slots) + file_size <= max_total || entries.len() == 0 {
        (entries, slots)
    } else {
        make_room(entries.drop_first(), drop_at(slots, entries[0].1), file_size, max_total)
    }
}

/// The cache after least recently used files were evicted until fewer than
/// `max_files` can be found.
pub open spec fn trimmed(entries: Seq<(Seq<char>, u64)>, slots: Seq<Slot>, max_files: usize) -> (
    Seq<(Seq<char>, u64)>,
    Seq<Slot>,
)
    decreases entries.len(),
{
    if entries.len() < max_files || entries.len() == 0 {
        (entries, slots)
    } else {
        trimmed(entries.drop_first(), drop_at(slots, entries[0].1), max_files)
    }
}

/// The slot of a file that was just admitted; who asked for it holds it.
pub open spec fn fresh_slot(item_id: String, file_size: u64, c_tag: String, cached: bool) -> Slot {
    Slot {
        cache: FileCache {
            item_id,
            c_tag,
            status: Status::Downloading,
            file_size,
            available_size: 0,
        },
        holders: 1,
        cached,
        live: true,
    }
}

/// The answer to a request for admission of the item `item_id` of
/// `file_size` bytes, and the cache after it. An item that is cached keeps
/// its slot and becomes the most recently used one. Otherwise room is made
/// for the file; when it fits it takes the next slot, downloading and held
/// by who asked, and can be found unless no file may be.
pub open spec fn admission(
    entries: Seq<(Seq<char>, u64)>,
    slots: Seq<Slot>,
    max_cached_file_size: u64,
    max_total_size: u64,
    max_files: usize,
    item_id: String,
    file_size: u64,
    c_tag: String,
) -> (Admission, Seq<(Seq<char>, u64)>, Seq<Slot>) {
    let room = make_room(entries, slots, file_size, max_total_size);
    let trim = trimmed(room.0, room.1, max_files);
    let s = slots.len() as u64;
    if max_cached_file_size < file_size {
        (Admission::Rejected, entries, slots)
    } else if lookup(entries, item_id@) is Some {
        (Admission::Existing(lookup(entries, item_id@).unwrap()), touched(entries, item_id@), slots)
    } else if live_bytes(room.1) + file_size > max_total_size {
        (Admission::Rejected, room.0, room.1)
    } else {
        (
            Admission::Admitted(s),
            if max_files > 0 {
                trim.0.push((item_id@, s))
            } else {
                trim.0
            },
            trim.1.push(fresh_slot(item_id, file_size, c_tag, max_files > 0)),
        )
    }
}

/// The cache after the synchronizer reported that `id` now has `c_tag`: a
/// cached file with another tag is outdated and can no longer be found.
pub open spec fn synced_one(
    entries: Seq<(Seq<char>, u64)>,
    slots: Seq<Slot>,
    id: Seq<char>,
    c_tag: Seq<char>,
) -> (Seq<(Seq<char>, u64)>, Seq<Slot>) {
    match lookup(entries, id) {
        Some(s) => if s < slots.len() && slots[s as int].cache.c_tag@ != c_tag {
            (without(entries, id), slots.update(s as int, outdated(slots[s as int])))
        } else {
            (touched(entries, id), slots)
        },
        None => (entries, slots),
    }
}

/// The cache after the synchronizer reported `items`, in their order.
/// Folders are passed over.
pub open spec fn synced(entries: Seq<(Seq<char>, u64)>, slots: Seq<Slot>, items: Seq<RemoteItem>) -> (
    Seq<(Seq<char>, u64)>,
    Seq<Slot>,
)
    decreases items.len(),
{
    if items.len() == 0 {
        (entries, slots)
    } else {
        let first = items[0];
        let next = if first.is_folder {
            (entries, slots)
        } else {
            synced_one(entries, slots, first.id@, first.c_tag@)
        };
        synced(next.0, next.1, items.drop_first())
    }
}

/// Taking in remote items hands out no slot and takes none back.
pub proof fn lemma_synced_len(entries: Seq<(Seq<char>, u64)>, slots: Seq<Slot>, items: Seq<RemoteItem>)
    ensures
        synced(entries, slots, items).1.len() == slots.len(),
    decreases items.len(),
{
    if items.len() > 0 {
        let first = items[0];
        let next = if first.is_folder {
            (entries, slots)
        } else {
            synced_one(entries, slots, first.id@, first.c_tag@)
        };
        lemma_synced_len(next.0, next.1, items.drop_first());
    }
}

/// Changing one slot changes the sum by what that slot counts for.
pub proof fn lemma_live_bytes_update(slots: Seq<Slot>, i: int, slot: Slot)
    requires
        0 <= i < slots.len(),
    ensures
        live_bytes(slots.update(i, slot)) == live_bytes(slots) - slot_bytes(slots[i]) + slot_bytes(
            slot,
        ),
    decreases slots.len(),
{
    let changed = slots.update(i, slot);
    if i == slots.len() - 1 {
        assert(changed.drop_last() =~= slots.drop_last());
    } else {
        lemma_live_bytes_update(slots.drop_last(), i, slot);
        assert(changed.drop_last() =~= slots.drop_last().update(i, slot));
    }
}

/// No file counts for more than a size can say.
pub proof fn lemma_live_bytes_bound(slots: Seq<Slot>)
    ensures
        live_bytes(slots) <= slots.len() * 0xffff_ffff_ffff_ffff,
    decreases slots.len(),
{
    if slots.len() > 0 {
        lemma_live_bytes_bound(slots.drop_last());
    }
}

/// The entry names a slot that holds the file of that item and is marked as
/// one that can be found.
pub open spec fn entry_ok(entry: (Seq<char>, u64), slots: Seq<Slot>) -> bool {
    &&& entry.1 < slots.len()
    &&& slots[entry.1 as int].cached
    &&& slots[entry.1 as int].cache.item_id@ == entry.0
}

/// No item can be found twice, what can be found is in its slot, and a
/// slot marked as one that can be found is found under its item.
pub open spec fn well_linked(entries: Seq<(Seq<char>, u64)>, slots: Seq<Slot>) -> bool {
    &&& distinct_keys(entries)
    &&& forall|i: int| 0 <= i < entries.len() ==> entry_ok(#[trigger] entries[i], slots)
    &&& forall|s: u64|
        s < slots.len() && (#[trigger] slots[s as int]).cached ==> lookup(
            entries,
            slots[s as int].cache.item_id@,
        ) == Some(s)
}

/// What is found is in its slot.
pub proof fn lemma_found_ok(entries: Seq<(Seq<char>, u64)>, slots: Seq<Slot>, id: Seq<char>)
    requires
        well_linked(entries, slots),
    ensures
        lookup(entries, id) matches Some(s) ==> entry_ok((id, s), slots),
{
    lemma_lookup_found(entries, id);
    if lookup(entries, id) is Some {
        let e = (id, lookup(entries, id).unwrap());
        assert(entries.contains(e));
        let j = choose|j: int| 0 <= j < entries.len() && entries[j] == e;
        assert(entry_ok(entries[j], slots));
    }
}

/// The links hold while every slot keeps its item and its mark.
pub proof fn lemma_links_kept(entries: Seq<(Seq<char>, u64)>, before: Seq<Slot>, after: Seq<Slot>)
    requires
        well_linked(entries, before),
        before.len() == after.len(),
        forall|s: int|
            0 <= s < before.len() ==> (#[trigger] after[s]).cached == before[s].cached
                && after[s].cache.item_id == before[s].cache.item_id,
    ensures
        well_linked(entries, after),
{
    assert forall|i: int| 0 <= i < entries.len() implies entry_ok(#[trigger] entries[i], after) by {
        assert(entry_ok(entries[i], before));
        assert(after[entries[i].1 as int].cached == before[entries[i].1 as int].cached);
    }
    assert forall|s: u64| s < after.len() && (#[trigger] after[s as int]).cached implies lookup(
        entries,
        after[s as int].cache.item_id@,
    ) == Some(s) by {
        assert(before[s as int].cached);
    }
}

/// The links hold when an item is used.
pub proof fn lemma_links_touched(entries: Seq<(Seq<char>, u64)>, slots: Seq<Slot>, id: Seq<char>)
    requires
        well_linked(entries, slots),
    ensures
        well_linked(touched(entries, id), slots),
{
    lemma_touched(entries, id);
    lemma_distinct_touched(entries, id);
    let after = touched(entries, id);
    assert forall|i: int| 0 <= i < after.len() implies entry_ok(#[trigger] after[i], slots) by {
        assert(entries.contains(after[i]));
        let j = choose|j: int| 0 <= j < entries.len() && entries[j] == after[i];
        assert(entry_ok(entries[j], slots));
    }
    assert forall|s: u64| s < slots.len() && (#[trigger] slots[s as int]).cached implies lookup(
        after,
        slots[s as int].cache.item_id@,
    ) == Some(s) by {
        let id = slots[s as int].cache.item_id@;
        assert(lookup(after, id) == lookup(entries, id));
    }
}

/// The links hold when the least recently used file is evicted.
pub proof fn lemma_links_evicted(entries: Seq<(Seq<char>, u64)>, slots: Seq<Slot>)
    requires
        entries.len() > 0,
        well_linked(entries, slots),
    ensures
        well_linked(entries.drop_first(), drop_at(slots, entries[0].1)),
{
    lemma_distinct_drop_first(entries);
    let rest = entries.drop_first();
    let after = drop_at(slots, entries[0].1);
    assert(entry_ok(entries[0], slots));
    lemma_distinct_keys(entries, 0, 0);
    assert forall|i: int| 0 <= i < rest.len() implies entry_ok(#[trigger] rest[i], after) by {
        assert(rest[i] == entries[i + 1]);
        assert(entry_ok(entries[i + 1], slots));
        lemma_distinct_keys(entries, 0, i + 1);
    }
    assert forall|s: u64| s < after.len() && (#[trigger] after[s as int]).cached implies lookup(
        rest,
        after[s as int].cache.item_id@,
    ) == Some(s) by {
        assert(s != entries[0].1);
        assert(after[s as int] == slots[s as int]);
        assert(slots[s as int].cached);
        let id = slots[s as int].cache.item_id@;
        assert(lookup(entries, id) == Some(s));
        assert(lookup(entries, entries[0].0) == Some(entries[0].1));
        lemma_drop_first_other(entries, id);
    }
}

/// The links hold when an item is taken out and its slot loses the mark.
pub proof fn lemma_links_removed(
    entries: Seq<(Seq<char>, u64)>,
    slots: Seq<Slot>,
    id: Seq<char>,
    slot: Slot,
)
    requires
        well_linked(entries, slots),
        lookup(entries, id) is Some,
        !slot.cached,
    ensures
        lookup(entries, id).unwrap() < slots.len(),
        well_linked(
            without(entries, id),
            slots.update(lookup(entries, id).unwrap() as int, slot),
        ),
{
    let s0 = lookup(entries, id).unwrap();
    lemma_found_ok(entries, slots, id);
    lemma_distinct_without(entries, id);
    lemma_without(entries, id);
    let rest = without(entries, id);
    let after = slots.update(s0 as int, slot);
    lemma_lookup_found(rest, id);
    assert forall|i: int| 0 <= i < rest.len() implies entry_ok(#[trigger] rest[i], after) by {
        assert(entries.contains(rest[i]));
        let j = choose|j: int| 0 <= j < entries.len() && entries[j] == rest[i];
        assert(entry_ok(entries[j], slots));
    }
    assert forall|s: u64| s < after.len() && (#[trigger] after[s as int]).cached implies lookup(
        rest,
        after[s as int].cache.item_id@,
    ) == Some(s) by {
        assert(s != s0);
        assert(after[s as int] == slots[s as int]);
        assert(slots[s as int].cached);
        let other = slots[s as int].cache.item_id@;
        assert(lookup(entries, other) == Some(s));
        assert(other != id);
        assert(lookup(rest, other) == lookup(entries, other));
    }
}

/// The links hold when a file is admitted under an item that could not be
/// found.
pub proof fn lemma_links_admitted(
    entries: Seq<(Seq<char>, u64)>,
    slots: Seq<Slot>,
    id: Seq<char>,
    slot: Slot,
)
    requires
        well_linked(entries, slots),
        lookup(entries, id) is None,
        slot.cache.item_id@ == id,
        slots.len() < u64::MAX,
    ensures
        slot.cached ==> well_linked(
            entries.push((id, slots.len() as u64)),
            slots.push(slot),
        ),
        !slot.cached ==> well_linked(entries, slots.push(slot)),
{
    let n = slots.len() as u64;
    let after = slots.push(slot);
    let grown = entries.push((id, n));
    assert(grown.drop_last() =~= entries);
    assert forall|i: int| 0 <= i < entries.len() implies entry_ok(#[trigger] entries[i], after) by {
        assert(entry_ok(entries[i], slots));
    }
    if slot.cached {
        assert forall|i: int| 0 <= i < grown.len() implies entry_ok(#[trigger] grown[i], after) by {
            if i < entries.len() {
                assert(grown[i] == entries[i]);
            }
        }
        assert(grown.last() == (id, n));
        assert forall|s: u64| s < after.len() && (#[trigger] after[s as int]).cached implies lookup(
            grown,
            after[s as int].cache.item_id@,
        ) == Some(s) by {
            if s < slots.len() {
                assert(after[s as int] == slots[s as int]);
                assert(slots[s as int].cached);
                assert(lookup(entries, slots[s as int].cache.item_id@) == Some(s));
            }
        }
    } else {
        assert forall|s: u64| s < after.len() && (#[trigger] after[s as int]).cached implies lookup(
            entries,
            after[s as int].cache.item_id@,
        ) == Some(s) by {
            assert(after[s as int] == slots[s as int]);
            assert(slots[s as int].cached);
        }
    }
}

/// The files of the disk cache, each in a slot of its own, the items under
/// which they can be found, and the bytes that they take up together.
pub struct DiskCache {
    lru: LruCache<String, u64>,
    slots: Vec<Slot>,
    total_size: u128,
    max_cached_file_size: u64,
    max_total_size: u64,
    max_files: usize,
}

impl DiskCache {
    /// The byte count is the sum over the files that exist, and every file
    /// that exists can be found or is held.
    closed spec fn counted(&self) -> bool {
        &&& self.total_size == live_bytes(self.slots@)
        &&& forall|s: int| 0 <= s < self.slots@.len() ==> slot_ok(#[trigger] self.slots@[s])
        &&& item_capacity(self.lru) == self.max_files
        &&& self.max_cached_file_size <= self.max_total_size
    }

    /// What can be found and the slots agree.
    closed spec fn linked(&self) -> bool {
        well_linked(item_entries(self.lru), self.slots@)
    }

    /// The byte count is the sum over the files that exist, every file that
    /// exists can be found or is held, and every item that can be found is
    /// found once, in the slot that holds its file.
    pub closed spec fn wf(&self) -> bool {
        self.counted() && self.linked()
    }

    /// The files that can be found, least recently used first, each with
    /// its slot.
    pub closed spec fn entries(&self) -> Seq<(Seq<char>, u64)> {
        item_entries(self.lru)
    }

    /// All slots handed out so far; a file keeps its slot.
    pub closed spec fn slots(&self) -> Seq<Slot> {
        self.slots@
    }

    /// The aggregate byte count.
    pub closed spec fn total(&self) -> nat {
        self.total_size as nat
    }

    /// The largest file that is admitted.
    pub closed spec fn max_cached_file_size(&self) -> u64 {
        self.max_cached_file_size
    }

    /// The byte count under which admissions keep the cache.
    pub closed spec fn max_total_size(&self) -> u64 {
        self.max_total_size
    }

    /// The number of files that can be found at a time.
    pub closed spec fn max_files(&self) -> usize {
        self.max_files
    }

    /// The limits of `self` are those of `before`.
    pub open spec fn same_limits(&self, before: &DiskCache) -> bool {
        &&& self.max_cached_file_size() == before.max_cached_file_size()
        &&& self.max_total_size() == before.max_total_size()
        &&& self.max_files() == before.max_files()
    }

    /// The aggregate byte count is the sum of the sizes of the files that
    /// exist; a file exists exactly while it can be found or is held; and
    /// every item that can be found is found once, in the slot of its file.
    pub proof fn lemma_accounting(&self)
        requires
            self.wf(),
        ensures
            self.total() == live_bytes(self.slots()),
            forall|s: int|
                0 <= s < self.slots().len() ==> ((#[trigger] self.slots()[s]).live <==> (
                self.slots()[s].cached || (self.slots()[s].live && self.slots()[s].holders > 0))),
            well_linked(self.entries(), self.slots()),
            forall|id: Seq<char>|
                lookup(self.entries(), id) is Some ==> entry_ok(
                    (id, #[trigger] lookup(self.entries(), id).unwrap()),
                    self.slots(),
                ),
    {
        assert forall|id: Seq<char>| lookup(self.entries(), id) is Some implies entry_ok(
            (id, #[trigger] lookup(self.entries(), id).unwrap()),
            self.slots(),
        ) by {
            lemma_found_ok(self.entries(), self.slots(), id);
        }
    }

    /// An empty cache with the given limits.
    pub fn new(max_cached_file_size: u64, max_total_size: u64, max_files: usize) -> (cache: Self)
        requires
            max_cached_file_size <= max_total_size,
        ensures
            cache.wf(),
            cache.entries().len() == 0,
            cache.slots().len() == 0,
            cache.total() == 0,
            cache.max_cached_file_size() == max_cached_file_size,
            cache.max_total_size() == max_total_size,
            cache.max_files() == max_files,
    {
        DiskCache {
            lru: item_lru_new(max_files),
            slots: Vec::new(),
            total_size: 0,
            max_cached_file_size,
            max_total_size,
            max_files,
        }
    }

    /// The aggregate byte count.
    pub fn total_size(&self) -> (total: u128)
        ensures
            total == self.total(),
    {
        self.total_size
    }

    /// The file in `slot`.
    pub fn file(&self, slot: u64) -> (file: &Slot)
        requires
            slot < self.slots().len(),
        ensures
            *file == self.slots()[slot as int],
    {
        assert(self.slots@.len() == self.slots.len());
        &self.slots[slot as usize]
    }

    /// Whether `slot` was handed out.
    pub fn has_slot(&self, slot: u64) -> (valid: bool)
        ensures
            valid == (slot < self.slots().len()),
    {
        slot < self.slots.len() as u64
    }

    /// Puts `slot` in place of what slot `s` holds, and keeps the count.
    fn replace_slot(&mut self, s: u64, slot: Slot)
        requires
            old(self).counted(),
            s < old(self).slots().len(),
            slot_ok(slot),
        ensures
            final(self).counted(),
            final(self).same_limits(old(self)),
            final(self).entries() == old(self).entries(),
            final(self).slots() == old(self).slots().update(s as int, slot),
    {
        proof {
            assert(self.slots@.len() == self.slots.len());
            lemma_live_bytes_update(self.slots@, s as int, slot);
            lemma_live_bytes_update(self.slots@, s as int, Slot { live: false, ..slot });
            lemma_live_bytes_bound(self.slots@.update(s as int, slot));
            lemma_live_bytes_bound(self.slots@);
        }
        let before: u128 = if self.slots[s as usize].live {
            self.slots[s as usize].cache.file_size as u128
        } else {
            0
        };
        let after: u128 = if slot.live {
            slot.cache.file_size as u128
        } else {
            0
        };
        self.total_size = self.total_size - before + after;
        self.slots[s as usize] = slot;
    }

    /// Takes what slot `s` holds out, to be put back changed.
    fn take_slot(&mut self, s: u64) -> (slot: Slot)
        requires
            old(self).counted(),
            s < old(self).slots().len(),
        ensures
            slot == old(self).slots()[s as int],
            final(self).counted(),
            final(self).same_limits(old(self)),
            final(self).entries() == old(self).entries(),
            final(self).slots().len() == old(self).slots().len(),
            forall|i: int|
                0 <= i < old(self).slots().len() && i != s ==> final(self).slots()[i] == old(self).slots()[i],
    {
        let empty = Slot {
            cache: FileCache::new(String::new(), 0, String::new()),
            holders: 0,
            cached: false,
            live: false,
        };
        let mut slot = empty;
        proof {
            assert(self.slots@.len() == self.slots.len());
            lemma_live_bytes_update(self.slots@, s as int, slot);
            lemma_live_bytes_bound(self.slots@);
        }
        let before: u128 = if self.slots[s as usize].live {
            self.slots[s as usize].cache.file_size as u128
        } else {
            0
        };
        self.total_size = self.total_size - before;
        std::mem::swap(&mut slot, &mut self.slots[s as usize]);
        slot
    }

    /// The file in slot `s` can no longer be found.
    fn drop_slot(&mut self, s: u64)
        requires
            old(self).counted(),
            s < old(self).slots().len(),
        ensures
            final(self).counted(),
            final(self).same_limits(old(self)),
            final(self).entries() == old(self).entries(),
            final(self).slots() == drop_at(old(self).slots(), s),
    {
        let mut slot = self.take_slot(s);
        slot.cached = false;
        slot.live = slot.live && slot.holders > 0;
        self.replace_slot(s, slot);
        assert(self.slots@ =~= drop_at(old(self).slots(), s));
    }

    /// The slot of the cached file for `item_id`, which thereby becomes the
    /// most recently used one.
    pub fn get(&mut self, item_id: &String) -> (slot: Option<u64>)
        requires
            old(self).wf(),
        ensures
            final(self).wf(),
            final(self).same_limits(old(self)),
            slot == lookup(old(self).entries(), item_id@),
            final(self).entries() == touched(old(self).entries(), item_id@),
            final(self).slots() == old(self).slots(),
            final(self).total() == old(self).total(),
            slot matches Some(s) ==> entry_ok((item_id@, s), old(self).slots()),
    {
        let ghost before = item_entries(self.lru);
        let slot = item_lru_touch(&mut self.lru, item_id);
        proof {
            lemma_links_touched(before, self.slots@, item_id@);
            lemma_found_ok(before, self.slots@, item_id@);
        }
        slot
    }

    /// Asks for a place for the item `item_id` of `file_size` bytes. An item
    /// that is cached keeps its slot. Otherwise least recently used files
    /// are evicted until the new one fits under the total limit; if it
    /// still does not fit when none is left to evict, or if it is larger
    /// than a cached file may be, it is rejected. An admitted file is
    /// downloading, held by the caller, and the most recently used one.
    pub fn try_alloc_and_fetch(&mut self, item_id: &String, file_size: u64, c_tag: String) -> (res:
        Admission)
        requires
            old(self).wf(),
        ensures
            final(self).wf(),
            final(self).same_limits(old(self)),
            (res, final(self).entries(), final(self).slots()) == admission(
                old(self).entries(),
                old(self).slots(),
                old(self).max_cached_file_size(),
                old(self).max_total_size(),
                old(self).max_files(),
                *item_id,
                file_size,
                c_tag,
            ),
            res is Admitted ==> final(self).total() <= old(self).max_total_size(),
            res is Rejected && file_size <= old(self).max_cached_file_size() ==> final(self).entries().len() == 0 && final(self).total() + file_size > old(self).max_total_size(),
            res matches Admission::Existing(s) ==> s < old(self).slots().len(),
            res matches Admission::Admitted(s) ==> s == old(self).slots().len() && final(self).slots().len() == s + 1,
            !(res is Admitted) ==> final(self).slots().len() == old(self).slots().len(),
    {
        if self.max_cached_file_size < file_size {
            return Admission::Rejected;
        }
        let ghost before = item_entries(self.lru);
        let found = item_lru_touch(&mut self.lru, item_id);
        proof {
            lemma_links_touched(before, self.slots@, item_id@);
            lemma_found_ok(before, self.slots@, item_id@);
        }
        match found {
            Some(s) => {
                return Admission::Existing(s);
            },
            None => {},
        }
        assert(item_entries(self.lru) == before);
        // Evict until the new file fits.
        loop
            invariant
                self.wf(),
                self.same_limits(old(self)),
                self.slots@.len() == old(self).slots().len(),
                lookup(item_entries(self.lru), item_id@) is None,
                file_size <= self.max_cached_file_size,
                lookup(before, item_id@) is None,
                before == old(self).entries(),
                make_room(item_entries(self.lru), self.slots@, file_size, self.max_total_size)
                    == make_room(before, old(self).slots(), file_size, self.max_total_size),
            ensures
                self.total_size + file_size <= self.max_total_size,
            decreases item_entries(self.lru).len(),
        {
            proof {
                assert(self.slots@.len() == self.slots.len());
                lemma_live_bytes_bound(self.slots@);
            }
            if self.total_size + file_size as u128 <= self.max_total_size as u128 {
                break ;
            }
            let ghost entries = item_entries(self.lru);
            match item_lru_evict(&mut self.lru) {
                None => {
                    proof {
                        assert(make_room(entries, self.slots@, file_size, self.max_total_size) == (
                            entries,
                            self.slots@,
                        ));
                    }
                    return Admission::Rejected;
                },
                Some(s) => {
                    let ghost slots = self.slots@;
                    proof {
                        lemma_drop_first_lookup(entries, item_id@);
                        assert(entry_ok(entries[0], slots));
                    }
                    self.drop_slot(s);
                    proof {
                        lemma_links_evicted(entries, slots);
                    }
                },
            }
        }
        let ghost room = (item_entries(self.lru), self.slots@);
        // Keep the number of files that can be found under its limit.
        loop
            invariant
                self.wf(),
                self.same_limits(old(self)),
                self.slots@.len() == old(self).slots().len(),
                lookup(item_entries(self.lru), item_id@) is None,
                self.total_size + file_size <= self.max_total_size,
                file_size <= self.max_cached_file_size,
                lookup(before, item_id@) is None,
                before == old(self).entries(),
                room == make_room(before, old(self).slots(), file_size, self.max_total_size),
                live_bytes(room.1) + file_size <= self.max_total_size,
                trimmed(item_entries(self.lru), self.slots@, self.max_files) == trimmed(
                    room.0,
                    room.1,
                    self.max_files,
                ),
            ensures
                item_entries(self.lru).len() < self.max_files || item_entries(self.lru).len() == 0,
            decreases item_entries(self.lru).len(),
        {
            if item_lru_len(&self.lru) < self.max_files {
                break ;
            }
            let ghost entries = item_entries(self.lru);
            match item_lru_evict(&mut self.lru) {
                None => {
                    break ;
                },
                Some(s) => {
                    let ghost slots = self.slots@;
                    proof {
                        lemma_drop_first_lookup(entries, item_id@);
                        assert(entry_ok(entries[0], slots));
                        lemma_live_bytes_update(slots, s as int, dropped(slots[s as int]));
                    }
                    self.drop_slot(s);
                    proof {
                        lemma_links_evicted(entries, slots);
                    }
                },
            }
        }
        let s = self.slots.len() as u64;
        let cached = self.max_files > 0;
        let ghost trim = (item_entries(self.lru), self.slots@);
        let slot = Slot {
            cache: FileCache::new(item_id.clone(), file_size, c_tag),
            holders: 1,
            cached,
            live: true,
        };
        proof {
            assert(self.slots@.push(slot).drop_last() =~= self.slots@);
            lemma_stored(trim.0, self.max_files, item_id@, s);
            lemma_without_absent(trim.0, item_id@);
            lemma_without(trim.0, item_id@);
        }
        self.slots.push(slot);
        self.total_size = self.total_size + file_size as u128;
        if cached {
            item_lru_store(&mut self.lru, item_id.clone(), s);
        }
        assert(self.slots@ =~= trim.1.push(fresh_slot(*item_id, file_size, c_tag, cached)));
        proof {
            assert(trim.1.len() < self.slots.len());
            lemma_links_admitted(trim.0, trim.1, item_id@, slot);
            if cached {
                assert(item_entries(self.lru) =~= trim.0.push((item_id@, s)));
            }
        }
        Admission::Admitted(s)
    }

    /// Counts one more holder of the file in slot `s`, and tells whether it
    /// did: a file that is gone cannot be held.
    pub fn retain(&mut self, s: u64) -> (held: bool)
        requires
            old(self).wf(),
            s < old(self).slots().len(),
        ensures
            final(self).wf(),
            final(self).same_limits(old(self)),
            final(self).entries() == old(self).entries(),
            final(self).total() == old(self).total(),
            final(self).slots() == old(self).slots().update(
                s as int,
                retained(old(self).slots()[s as int]),
            ),
            held == (old(self).slots()[s as int].live && old(self).slots()[s as int].holders
                < u64::MAX),
    {
        let mut slot = self.take_slot(s);
        let held = slot.live && slot.holders < u64::MAX;
        if held {
            slot.holders = slot.holders + 1;
        }
        proof {
            lemma_live_bytes_update(old(self).slots(), s as int, slot);
        }
        self.replace_slot(s, slot);
        assert(self.slots@ =~= old(self).slots().update(s as int, slot));
        proof {
            lemma_links_kept(item_entries(self.lru), old(self).slots(), self.slots@);
        }
        held
    }

    /// A holder of the file in slot `s` lets go. The file goes with its
    /// last holder if it can no longer be found, and the byte count with it.
    pub fn release(&mut self, s: u64)
        requires
            old(self).wf(),
            s < old(self).slots().len(),
        ensures
            final(self).wf(),
            final(self).same_limits(old(self)),
            final(self).entries() == old(self).entries(),
            final(self).slots() == old(self).slots().update(
                s as int,
                released(old(self).slots()[s as int]),
            ),
    {
        let mut slot = self.take_slot(s);
        if slot.holders > 0 {
            slot.live = slot.live && (slot.cached || slot.holders > 1);
            slot.holders = slot.holders - 1;
        }
        self.replace_slot(s, slot);
        assert(self.slots@ =~= old(self).slots().update(s as int, slot));
        proof {
            lemma_links_kept(item_entries(self.lru), old(self).slots(), self.slots@);
        }
    }

    /// Records a write to the file in slot `s`, as `FileCache::write` does,
    /// and adds what the file grew by to the byte count.
    pub fn write(&mut self, s: u64, offset: u64, len: usize, max_size: u64, token: u64) -> (res:
        Result<Written, Error>)
        requires
            old(self).wf(),
            s < old(self).slots().len(),
            old(self).slots()[s as int].cache.status == Status::Downloading ==> old(self).slots()[s as int].cache.available_size < old(self).slots()[s as int].cache.file_size,
        ensures
            final(self).wf(),
            final(self).same_limits(old(self)),
            final(self).entries() == old(self).entries(),
            res == write_outcome(
                old(self).slots()[s as int].cache.status,
                old(self).slots()[s as int].cache.available_size,
                old(self).slots()[s as int].cache.file_size,
                offset,
                len,
                max_size,
            ),
            final(self).slots() == old(self).slots().update(
                s as int,
                written_to(old(self).slots()[s as int], offset, len, max_size, token),
            ),
            final(self).total() == old(self).total() + (match res {
                Ok(written) => if old(self).slots()[s as int].live {
                    written.grown_by as nat
                } else {
                    0
                },
                Err(_) => 0,
            }),
    {
        let mut slot = self.take_slot(s);
        let res = slot.cache.write(offset, len, max_size, token);
        proof {
            lemma_live_bytes_update(old(self).slots(), s as int, slot);
        }
        self.replace_slot(s, slot);
        assert(self.slots@ =~= old(self).slots().update(s as int, slot));
        proof {
            lemma_links_kept(item_entries(self.lru), old(self).slots(), self.slots@);
        }
        res
    }

    /// Records that `len` more bytes of the download of the file in slot
    /// `s` were stored, as `FileCache::chunk_written` does.
    pub fn chunk_written(&mut self, s: u64, len: u64) -> (complete: bool)
        requires
            old(self).wf(),
            s < old(self).slots().len(),
            old(self).slots()[s as int].cache.available_size + len <= u64::MAX,
        ensures
            final(self).wf(),
            final(self).same_limits(old(self)),
            final(self).entries() == old(self).entries(),
            final(self).total() == old(self).total(),
            final(self).slots() == old(self).slots().update(
                s as int,
                filled(old(self).slots()[s as int], len),
            ),
            complete == (old(self).slots()[s as int].cache.available_size + len == old(self).slots()[s as int].cache.file_size),
    {
        let mut slot = self.take_slot(s);
        let complete = slot.cache.chunk_written(len);
        proof {
            lemma_live_bytes_update(old(self).slots(), s as int, slot);
        }
        self.replace_slot(s, slot);
        assert(self.slots@ =~= old(self).slots().update(s as int, slot));
        proof {
            lemma_links_kept(item_entries(self.lru), old(self).slots(), self.slots@);
        }
        complete
    }

    /// Records that the upload for the write `token` to the file in slot
    /// `s` succeeded, as `FileCache::upload_done` does.
    pub fn upload_done(&mut self, s: u64, token: u64, c_tag: String)
        requires
            old(self).wf(),
            s < old(self).slots().len(),
        ensures
            final(self).wf(),
            final(self).same_limits(old(self)),
            final(self).entries() == old(self).entries(),
            final(self).total() == old(self).total(),
            final(self).slots() == old(self).slots().update(
                s as int,
                uploaded(old(self).slots()[s as int], token, c_tag),
            ),
    {
        let mut slot = self.take_slot(s);
        slot.cache.upload_done(token, c_tag);
        proof {
            lemma_live_bytes_update(old(self).slots(), s as int, slot);
        }
        self.replace_slot(s, slot);
        assert(self.slots@ =~= old(self).slots().update(s as int, slot));
        proof {
            lemma_links_kept(item_entries(self.lru), old(self).slots(), self.slots@);
        }
    }

    /// Takes in that the remote item `id` now has the tag `c_tag`. A cached
    /// file with that tag stays, as the most recently used one; one with
    /// another tag is invalidated and can no longer be found.
    pub fn sync_item(&mut self, id: &String, c_tag: &String)
        requires
            old(self).wf(),
        ensures
            final(self).wf(),
            final(self).same_limits(old(self)),
            (final(self).entries(), final(self).slots()) == synced_one(
                old(self).entries(),
                old(self).slots(),
                id@,
                c_tag@,
            ),
    {
        match self.get(id) {
            None => {},
            Some(s) => {
                assert(self.slots@.len() == self.slots.len());
                if self.slots[s as usize].cache.c_tag != *c_tag {
                    let ghost entries = item_entries(self.lru);
                    proof {
                        lemma_without(entries, id@);
                        lemma_without(old(self).entries(), id@);
                        lemma_touched(old(self).entries(), id@);
                        lemma_lookup_found(old(self).entries(), id@);
                        lemma_without_touched(old(self).entries(), id@);
                    }
                    item_lru_remove(&mut self.lru, id);
                    let mut slot = self.take_slot(s);
                    slot.cached = false;
                    slot.live = slot.live && slot.holders > 0;
                    slot.cache.invalidate();
                    self.replace_slot(s, slot);
                    assert(self.slots@ =~= old(self).slots().update(
                        s as int,
                        outdated(old(self).slots()[s as int]),
                    ));
                    proof {
                        lemma_links_removed(entries, old(self).slots(), id@, slot);
                    }
                }
            },
        }
    }

    /// Takes in a batch of remote items from the change synchronizer, one
    /// after the other; folders are passed over.
    pub fn sync_items(&mut self, items: &Vec<RemoteItem>)
        requires
            old(self).wf(),
        ensures
            final(self).wf(),
            final(self).same_limits(old(self)),
            (final(self).entries(), final(self).slots()) == synced(
                old(self).entries(),
                old(self).slots(),
                items@,
            ),
    {
        let mut i: usize = 0;
        assert(items@.skip(0) =~= items@);
        while i < items.len()
            invariant
                i <= items.len(),
                self.wf(),
                self.same_limits(old(self)),
                synced(item_entries(self.lru), self.slots@, items@.skip(i as int)) == synced(
                    old(self).entries(),
                    old(self).slots(),
                    items@,
                ),
            decreases items.len() - i,
        {
            let ghost rest = items@.skip(i as int);
            assert(rest[0] == items@[i as int]);
            assert(rest.drop_first() =~= items@.skip(i + 1));
            if !items[i].is_folder {
                self.sync_item(&items[i].id, &items[i].c_tag);
            }
            i += 1;
        }
        assert(items@.skip(items@.len() as int).len() == 0);
    }
}

} // verus!
