//! Least-recently-used maps, kept in `lru_cache::LruCache`, and the model
//! that the pools reason about: the entries as a sequence from least to most
//! recently used.

use lru_cache::LruCache;
use std::hash::BuildHasher;
use std::hash::Hash;
use vstd::prelude::*;

verus! {

/// `lru_cache::LruCache`, opaque: what it holds is known only through the
/// entries and the capacity named below.
#[verifier::external_type_specification]
#[verifier::external_body]
#[verifier::reject_recursive_types(K)]
#[verifier::reject_recursive_types(V)]
#[verifier::reject_recursive_types(S)]
pub struct ExLruCache<K: Eq + Hash, V, S: BuildHasher>(LruCache<K, V, S>);

/// The value stored under `key`, if any.
pub open spec fn lookup<K, V>(entries: Seq<(K, V)>, key: K) -> Option<V>
    decreases entries.len(),
{
    if entries.len() == 0 {
        None
    } else if entries.last().0 == key {
        Some(entries.last().1)
    } else {
        lookup(entries.drop_last(), key)
    }
}

/// The entries whose key is not `key`, in their order.
pub open spec fn without<K, V>(entries: Seq<(K, V)>, key: K) -> Seq<(K, V)>
    decreases entries.len(),
{
    if entries.len() == 0 {
        entries
    } else if entries.last().0 == key {
        without(entries.drop_last(), key)
    } else {
        without(entries.drop_last(), key).push(entries.last())
    }
}

/// The entries after `key` was used: it moves to the most recent end.
pub open spec fn touched<K, V>(entries: Seq<(K, V)>, key: K) -> Seq<(K, V)> {
    match lookup(entries, key) {
        Some(v) => without(entries, key).push((key, v)),
        None => entries,
    }
}

/// The entries after `key` was stored with `value` in a map that holds at
/// most `capacity` of them: the least recently used one leaves when the map
/// would overflow.
pub open spec fn stored<K, V>(entries: Seq<(K, V)>, capacity: usize, key: K, value: V) -> Seq<
    (K, V),
> {
    let grown = without(entries, key).push((key, value));
    if grown.len() > capacity {
        grown.drop_first()
    } else {
        grown
    }
}

/// What `lookup` finds is an entry, and what it misses is no entry's key.
pub proof fn lemma_lookup_found<K, V>(entries: Seq<(K, V)>, key: K)
    ensures
        lookup(entries, key) is Some ==> entries.contains((key, lookup(entries, key).unwrap())),
        lookup(entries, key) is None ==> forall|i: int|
            0 <= i < entries.len() ==> (#[trigger] entries[i]).0 != key,
    decreases entries.len(),
{
    if entries.len() > 0 {
        let front = entries.drop_last();
        lemma_lookup_found(front, key);
        if entries.last().0 == key {
            assert(entries[entries.len() - 1] == (key, lookup(entries, key).unwrap()));
        } else if lookup(entries, key) is Some {
            let e = (key, lookup(front, key).unwrap());
            assert(front.contains(e));
            let i = choose|i: int| 0 <= i < front.len() && front[i] == e;
            assert(entries[i] == front[i]);
        } else {
            assert forall|i: int| 0 <= i < entries.len() implies (#[trigger] entries[i]).0
                != key by {
                if i < front.len() {
                    assert(entries[i] == front[i]);
                }
            }
        }
    }
}

/// Taking a key out keeps the other entries, and only them.
pub proof fn lemma_without<K, V>(entries: Seq<(K, V)>, key: K)
    ensures
        without(entries, key).len() <= entries.len(),
        forall|i: int|
            0 <= i < without(entries, key).len() ==> entries.contains(
                #[trigger] without(entries, key)[i],
            ),
        forall|k: K|
            #[trigger] lookup(without(entries, key), k) == (if k == key {
                None
            } else {
                lookup(entries, k)
            }),
    decreases entries.len(),
{
    if entries.len() > 0 {
        let front = entries.drop_last();
        lemma_without(front, key);
        let w = without(entries, key);
        assert forall|i: int| 0 <= i < w.len() implies entries.contains(#[trigger] w[i]) by {
            if i < without(front, key).len() {
                assert(w[i] == without(front, key)[i]);
                assert(front.contains(without(front, key)[i]));
                let j = choose|j: int| 0 <= j < front.len() && front[j] == without(front, key)[i];
                assert(entries[j] == front[j]);
            } else {
                assert(entries[entries.len() - 1] == w[i]);
            }
        }
        assert forall|k: K|
            #[trigger] lookup(w, k) == (if k == key {
                None
            } else {
                lookup(entries, k)
            }) by {
            let inner = without(front, key);
            assert(lookup(inner, k) == (if k == key {
                None
            } else {
                lookup(front, k)
            }));
            if entries.last().0 != key {
                assert(w.drop_last() =~= inner);
                assert(w.last() == entries.last());
            }
        }
    }
}

/// Using a key changes no lookup, and brings no new entry.
pub proof fn lemma_touched<K, V>(entries: Seq<(K, V)>, key: K)
    ensures
        forall|i: int|
            0 <= i < touched(entries, key).len() ==> entries.contains(
                #[trigger] touched(entries, key)[i],
            ),
        forall|k: K| #[trigger] lookup(touched(entries, key), k) == lookup(entries, k),
{
    lemma_without(entries, key);
    lemma_lookup_found(entries, key);
    let t = touched(entries, key);
    if lookup(entries, key) is Some {
        let w = without(entries, key);
        assert(t.drop_last() =~= w);
        assert(t.last() == (key, lookup(entries, key).unwrap()));
        assert forall|i: int| 0 <= i < t.len() implies entries.contains(#[trigger] t[i]) by {
            if i < w.len() {
                assert(t[i] == w[i]);
            }
        }
        assert forall|k: K| #[trigger] lookup(t, k) == lookup(entries, k) by {
            assert(lookup(w, k) == (if k == key {
                None
            } else {
                lookup(entries, k)
            }));
        }
    } else {
        assert forall|i: int| 0 <= i < t.len() implies entries.contains(#[trigger] t[i]) by {
            assert(entries[i] == t[i]);
        }
    }
}

/// Storing under a key brings no entry but the stored one, and the stored
/// one is found unless the map holds nothing at all.
pub proof fn lemma_stored<K, V>(entries: Seq<(K, V)>, capacity: usize, key: K, value: V)
    ensures
        forall|i: int|
            0 <= i < stored(entries, capacity, key, value).len() ==> {
                let e = #[trigger] stored(entries, capacity, key, value)[i];
                e == (key, value) || entries.contains(e)
            },
        capacity >= 1 ==> lookup(stored(entries, capacity, key, value), key) == Some(value),
        forall|k: K|
            k != key && lookup(stored(entries, capacity, key, value), k) is Some
                ==> #[trigger] lookup(stored(entries, capacity, key, value), k) == lookup(
                entries,
                k,
            ),
{
    lemma_without(entries, key);
    let w = without(entries, key);
    let grown = w.push((key, value));
    let s = stored(entries, capacity, key, value);
    assert(grown.drop_last() =~= w);
    assert(grown.last() == (key, value));
    assert forall|i: int| 0 <= i < s.len() implies {
        let e = #[trigger] s[i];
        e == (key, value) || entries.contains(e)
    } by {
        let j = if grown.len() > capacity { i + 1 } else { i };
        assert(s[i] == grown[j]);
        if j < w.len() {
            assert(grown[j] == w[j]);
        }
    }
    if grown.len() > capacity && capacity >= 1 {
        assert(s.last() == (key, value));
    }
    assert forall|k: K| k != key && lookup(s, k) is Some implies #[trigger] lookup(s, k)
        == lookup(entries, k) by {
        assert(lookup(w, k) == lookup(entries, k));
        assert(lookup(grown, k) == lookup(w, k));
        if grown.len() > capacity {
            lemma_drop_first_lookup(grown, k);
        }
    }
}

/// What is found after the least recently used entry left was found before.
pub proof fn lemma_drop_first_lookup<K, V>(entries: Seq<(K, V)>, key: K)
    requires
        entries.len() > 0,
    ensures
        lookup(entries.drop_first(), key) is Some ==> lookup(entries.drop_first(), key) == lookup(
            entries,
            key,
        ),
    decreases entries.len(),
{
    let rest = entries.drop_first();
    if rest.len() > 0 {
        assert(rest.last() == entries.last());
        assert(rest.drop_last() =~= entries.drop_last().drop_first());
        if entries.last().0 != key {
            lemma_drop_first_lookup(entries.drop_last(), key);
        }
    }
}

/// The entries of an inode-keyed map, least recently used first.
pub uninterp spec fn inode_entries(cache: LruCache<u64, (u64, u64)>) -> Seq<(u64, (u64, u64))>;

/// The number of entries that an inode-keyed map was made to hold.
pub uninterp spec fn inode_capacity(cache: LruCache<u64, (u64, u64)>) -> usize;

/// `LruCache::new`: an empty map with the given capacity.
#[verifier::external_body]
pub(crate) fn inode_lru_new(capacity: usize) -> (cache: LruCache<u64, (u64, u64)>)
    ensures
        inode_entries(cache) == Seq::<(u64, (u64, u64))>::empty(),
        inode_capacity(cache) == capacity,
{
    LruCache::new(capacity)
}

/// `LruCache::get_mut`: returns a copy of the value under `key` and marks the
/// entry as the most recently used one.
#[verifier::external_body]
pub(crate) fn inode_lru_touch(cache: &mut LruCache<u64, (u64, u64)>, key: u64) -> (value: Option<(u64, u64)>)
    ensures
        value == lookup(inode_entries(*old(cache)), key),
        inode_entries(*final(cache)) == touched(inode_entries(*old(cache)), key),
        inode_capacity(*final(cache)) == inode_capacity(*old(cache)),
{
    cache.get_mut(&key).map(|v| *v)
}

/// `LruCache::insert`: stores the value as the most recently used entry,
/// returns the value it replaces, and drops the least recently used entry
/// when the map then holds more than its capacity.
#[verifier::external_body]
pub(crate) fn inode_lru_store(cache: &mut LruCache<u64, (u64, u64)>, key: u64, value: (u64, u64)) -> (previous:
    Option<(u64, u64)>)
    ensures
        previous == lookup(inode_entries(*old(cache)), key),
        inode_entries(*final(cache)) == stored(
            inode_entries(*old(cache)),
            inode_capacity(*old(cache)),
            key,
            value,
        ),
        inode_capacity(*final(cache)) == inode_capacity(*old(cache)),
{
    cache.insert(key, value)
}

/// Taking a key out after using it is taking it out.
pub proof fn lemma_without_touched<K, V>(entries: Seq<(K, V)>, key: K)
    ensures
        without(touched(entries, key), key) == without(entries, key),
{
    if lookup(entries, key) is Some {
        let w = without(entries, key);
        let t = touched(entries, key);
        lemma_without(entries, key);
        assert(t.drop_last() =~= w);
        assert(lookup(w, key) is None);
        lemma_without_absent(w, key);
    }
}

/// No key occurs twice.
pub open spec fn distinct_keys<K, V>(entries: Seq<(K, V)>) -> bool
    decreases entries.len(),
{
    entries.len() == 0 || (lookup(entries.drop_last(), entries.last().0) is None && distinct_keys(
        entries.drop_last(),
    ))
}

/// Where no key occurs twice, entries at different places differ in their
/// keys, and each entry is the one that its key finds.
pub proof fn lemma_distinct_keys<K, V>(entries: Seq<(K, V)>, i: int, j: int)
    requires
        distinct_keys(entries),
        0 <= i < entries.len(),
        0 <= j < entries.len(),
    ensures
        i != j ==> entries[i].0 != entries[j].0,
        lookup(entries, entries[i].0) == Some(entries[i].1),
    decreases entries.len(),
{
    let front = entries.drop_last();
    let last = entries.len() - 1;
    lemma_lookup_found(front, entries.last().0);
    if i < last {
        assert(front[i] == entries[i]);
        if j < last {
            assert(front[j] == entries[j]);
            lemma_distinct_keys(front, i, j);
        } else {
            lemma_distinct_keys(front, i, i);
        }
    } else if j < last {
        assert(front[j] == entries[j]);
    }
}

/// Taking a key out brings no key twice.
pub proof fn lemma_distinct_without<K, V>(entries: Seq<(K, V)>, key: K)
    requires
        distinct_keys(entries),
    ensures
        distinct_keys(without(entries, key)),
    decreases entries.len(),
{
    if entries.len() > 0 {
        let front = entries.drop_last();
        lemma_distinct_without(front, key);
        lemma_without(front, key);
        if entries.last().0 != key {
            let w = without(entries, key);
            assert(w.drop_last() =~= without(front, key));
            assert(w.last() == entries.last());
            assert(lookup(without(front, key), entries.last().0) == lookup(
                front,
                entries.last().0,
            ));
        }
    }
}

/// Dropping the least recently used entry brings no key twice.
pub proof fn lemma_distinct_drop_first<K, V>(entries: Seq<(K, V)>)
    requires
        distinct_keys(entries),
        entries.len() > 0,
    ensures
        distinct_keys(entries.drop_first()),
    decreases entries.len(),
{
    let rest = entries.drop_first();
    if rest.len() > 0 {
        let front = entries.drop_last();
        lemma_distinct_drop_first(front);
        assert(rest.drop_last() =~= front.drop_first());
        assert(rest.last() == entries.last());
        lemma_drop_first_lookup(front, entries.last().0);
    }
}

/// The least recently used entry hides no other key.
pub proof fn lemma_drop_first_other<K, V>(entries: Seq<(K, V)>, key: K)
    requires
        entries.len() > 0,
        key != entries[0].0,
    ensures
        lookup(entries.drop_first(), key) == lookup(entries, key),
    decreases entries.len(),
{
    let rest = entries.drop_first();
    let front = entries.drop_last();
    if entries.len() == 1 {
        assert(entries.last() == entries[0]);
    } else {
        assert(rest.last() == entries.last());
        assert(rest.drop_last() =~= front.drop_first());
        assert(front[0] == entries[0]);
        if entries.last().0 != key {
            lemma_drop_first_other(front, key);
        }
    }
}

/// Using a key brings no key twice.
pub proof fn lemma_distinct_touched<K, V>(entries: Seq<(K, V)>, key: K)
    requires
        distinct_keys(entries),
    ensures
        distinct_keys(touched(entries, key)),
{
    if lookup(entries, key) is Some {
        lemma_distinct_without(entries, key);
        lemma_without(entries, key);
        let w = without(entries, key);
        let t = touched(entries, key);
        assert(t.drop_last() =~= w);
        assert(t.last().0 == key);
        assert(lookup(w, key) is None);
    }
}

/// Taking out a key that is not there changes nothing.
pub proof fn lemma_without_absent<K, V>(entries: Seq<(K, V)>, key: K)
    requires
        lookup(entries, key) is None,
    ensures
        without(entries, key) == entries,
    decreases entries.len(),
{
    if entries.len() > 0 {
        lemma_without_absent(entries.drop_last(), key);
        assert(entries.drop_last().push(entries.last()) =~= entries);
    }
}

/// The entries of a map keyed by item identifier, least recently used first.
pub uninterp spec fn item_entries(cache: LruCache<String, u64>) -> Seq<(Seq<char>, u64)>;

/// The number of entries that a map keyed by item identifier was made to hold.
pub uninterp spec fn item_capacity(cache: LruCache<String, u64>) -> usize;

/// `LruCache::new`: an empty map with the given capacity.
#[verifier::external_body]
pub(crate) fn item_lru_new(capacity: usize) -> (cache: LruCache<String, u64>)
    ensures
        item_entries(cache) == Seq::<(Seq<char>, u64)>::empty(),
        item_capacity(cache) == capacity,
{
    LruCache::new(capacity)
}

/// `LruCache::get_mut`: returns a copy of the value under `key` and marks the
/// entry as the most recently used one.
#[verifier::external_body]
pub(crate) fn item_lru_touch(cache: &mut LruCache<String, u64>, key: &String) -> (value: Option<
    u64,
>)
    ensures
        value == lookup(item_entries(*old(cache)), key@),
        item_entries(*final(cache)) == touched(item_entries(*old(cache)), key@),
        item_capacity(*final(cache)) == item_capacity(*old(cache)),
{
    cache.get_mut(key).map(|v| *v)
}

/// `LruCache::insert`: stores the value as the most recently used entry,
/// returns the value it replaces, and drops the least recently used entry
/// when the map then holds more than its capacity.
#[verifier::external_body]
pub(crate) fn item_lru_store(cache: &mut LruCache<String, u64>, key: String, value: u64) -> (previous:
    Option<u64>)
    ensures
        previous == lookup(item_entries(*old(cache)), key@),
        item_entries(*final(cache)) == stored(
            item_entries(*old(cache)),
            item_capacity(*old(cache)),
            key@,
            value,
        ),
        item_capacity(*final(cache)) == item_capacity(*old(cache)),
{
    cache.insert(key, value)
}

/// `LruCache::len`: the number of entries.
#[verifier::external_body]
pub(crate) fn item_lru_len(cache: &LruCache<String, u64>) -> (len: usize)
    ensures
        len == item_entries(*cache).len(),
{
    cache.len()
}

/// `LruCache::remove`: takes the entry under `key` out and returns its value.
#[verifier::external_body]
pub(crate) fn item_lru_remove(cache: &mut LruCache<String, u64>, key: &String) -> (value: Option<
    u64,
>)
    ensures
        value == lookup(item_entries(*old(cache)), key@),
        item_entries(*final(cache)) == without(item_entries(*old(cache)), key@),
        item_capacity(*final(cache)) == item_capacity(*old(cache)),
{
    cache.remove(key)
}

/// `LruCache::remove_lru`: takes the least recently used entry out and
/// returns its value; `None` when the map is empty.
#[verifier::external_body]
pub(crate) fn item_lru_evict(cache: &mut LruCache<String, u64>) -> (value: Option<u64>)
    ensures
        item_capacity(*final(cache)) == item_capacity(*old(cache)),
        item_entries(*old(cache)).len() == 0 ==> value is None && item_entries(*final(cache))
            == item_entries(*old(cache)),
        item_entries(*old(cache)).len() > 0 ==> value == Some(item_entries(*old(cache))[0].1)
            && item_entries(*final(cache)) == item_entries(*old(cache)).drop_first(),
{
    cache.remove_lru().map(|e| e.1)
}

} // verus!
