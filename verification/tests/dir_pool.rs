use onedrive_vfs::dir::Config;
use onedrive_vfs::dir::DirEntry;
use onedrive_vfs::dir::DirPool;
use onedrive_vfs::dir::Fetched;
use onedrive_vfs::dir::InodeAttr;
use onedrive_vfs::dir::OpenStep;
use onedrive_vfs::error::Error;

fn entry(id: &str, name: &str, size: u64) -> DirEntry {
    DirEntry {
        item_id: id.to_string(),
        name: name.to_string(),
        attr: InodeAttr { size, mtime: 1, crtime: 1, is_directory: false },
    }
}

fn names(entries: &[DirEntry]) -> Vec<String> {
    entries.iter().map(|e| e.name.clone()).collect()
}

fn pool(size: usize, ttl: u64) -> DirPool {
    DirPool::new(Config { lru_cache_size: size, cache_ttl: ttl })
}

fn fetch_listing(pool: &mut DirPool, ino: u64, now: u64, tag: &str, entries: Vec<DirEntry>) -> u64 {
    let previous = match pool.open(ino, now).unwrap() {
        OpenStep::Fetch { previous, .. } => previous,
        OpenStep::Opened(_) => panic!("served from the cache"),
    };
    pool.finish_open(ino, previous, Fetched::Listing { c_tag: tag.to_string(), entries }, now)
        .unwrap()
}

#[test]
fn directory_is_fetched_once_within_ttl_and_revalidated_after() {
    let mut pool = pool(8, 10);
    match pool.open(7, 0).unwrap() {
        OpenStep::Fetch { previous, if_none_match } => {
            assert_eq!(previous, None);
            assert_eq!(if_none_match, None);
        }
        OpenStep::Opened(_) => panic!("nothing is cached yet"),
    }
    let listing = vec![entry("a", "one", 1), entry("b", "two", 2), entry("c", "three", 3)];
    let fh0 = pool
        .finish_open(7, None, Fetched::Listing { c_tag: "A".to_string(), entries: listing }, 0)
        .unwrap();
    assert_eq!(names(&pool.read(fh0, 0).unwrap()), vec!["one", "two", "three"]);

    let fh1 = match pool.open(7, 5).unwrap() {
        OpenStep::Opened(fh) => fh,
        OpenStep::Fetch { .. } => panic!("a fresh snapshot must be served"),
    };
    assert_ne!(fh0, fh1);
    assert_eq!(names(&pool.read(fh1, 0).unwrap()), vec!["one", "two", "three"]);

    let previous = match pool.open(7, 11).unwrap() {
        OpenStep::Fetch { previous, if_none_match } => {
            assert_eq!(if_none_match, Some("A".to_string()));
            assert!(previous.is_some());
            previous
        }
        OpenStep::Opened(_) => panic!("the snapshot is outdated"),
    };
    let fh2 = pool.finish_open(7, previous, Fetched::NotModified, 11).unwrap();
    assert_eq!(names(&pool.read(fh2, 0).unwrap()), vec!["one", "two", "three"]);
    assert!(matches!(pool.open(7, 20).unwrap(), OpenStep::Opened(_)));

    let previous = match pool.open(7, 22).unwrap() {
        OpenStep::Fetch { previous, if_none_match } => {
            assert_eq!(if_none_match, Some("A".to_string()));
            previous
        }
        OpenStep::Opened(_) => panic!("the snapshot is outdated"),
    };
    let listing = vec![
        entry("a", "one", 1),
        entry("c", "three", 3),
        entry("d", "four", 4),
        entry("e", "five", 5),
    ];
    let fh3 = pool
        .finish_open(7, previous, Fetched::Listing { c_tag: "B".to_string(), entries: listing }, 22)
        .unwrap();
    assert_eq!(pool.read(fh3, 0).unwrap().len(), 4);
    assert!(matches!(pool.lookup(7, &"two".to_string(), 22), Some(None)));
    // The handle opened before the change still reads what it was opened over.
    assert_eq!(names(&pool.read(fh0, 0).unwrap()), vec!["one", "two", "three"]);
    match pool.open(7, 40).unwrap() {
        OpenStep::Fetch { if_none_match, .. } => assert_eq!(if_none_match, Some("B".to_string())),
        OpenStep::Opened(_) => panic!("the snapshot is outdated"),
    }
}

#[test]
fn lookup_has_three_answers_and_reports_the_remaining_time() {
    let mut pool = pool(8, 10);
    assert!(pool.lookup(3, &"x".to_string(), 0).is_none());
    fetch_listing(&mut pool, 3, 100, "T", vec![entry("i1", "x", 11), entry("i2", "y", 22)]);
    match pool.lookup(3, &"y".to_string(), 103) {
        Some(Some((found, ttl))) => {
            assert_eq!(found.item_id, "i2");
            assert_eq!(found.attr.size, 22);
            assert_eq!(ttl, 7);
        }
        _ => panic!("the name is in the fresh snapshot"),
    }
    assert!(matches!(pool.lookup(3, &"z".to_string(), 103), Some(None)));
    match pool.lookup(3, &"x".to_string(), 109) {
        Some(Some((_, ttl))) => assert_eq!(ttl, 1),
        _ => panic!("still fresh"),
    }
    assert!(pool.lookup(3, &"x".to_string(), 110).is_none());
    assert!(pool.lookup(3, &"x".to_string(), 500).is_none());
    // A clock that went back counts as no time passed.
    match pool.lookup(3, &"x".to_string(), 50) {
        Some(Some((_, ttl))) => assert_eq!(ttl, 10),
        _ => panic!("fresh"),
    }
}

#[test]
fn lookup_of_a_repeated_name_finds_the_last_entry() {
    let mut pool = pool(8, 10);
    fetch_listing(&mut pool, 1, 0, "T", vec![entry("first", "n", 1), entry("second", "n", 2)]);
    match pool.lookup(1, &"n".to_string(), 1) {
        Some(Some((found, _))) => assert_eq!(found.item_id, "second"),
        _ => panic!("found"),
    }
}

#[test]
fn read_starts_at_the_offset_and_keeps_the_remote_order() {
    let mut pool = pool(8, 10);
    let fh = fetch_listing(
        &mut pool,
        1,
        0,
        "T",
        vec![entry("3", "c", 0), entry("1", "a", 0), entry("2", "b", 0)],
    );
    assert_eq!(names(&pool.read(fh, 0).unwrap()), vec!["c", "a", "b"]);
    assert_eq!(names(&pool.read(fh, 1).unwrap()), vec!["a", "b"]);
    assert_eq!(names(&pool.read(fh, 3).unwrap()), Vec::<String>::new());
    assert_eq!(names(&pool.read(fh, 9).unwrap()), Vec::<String>::new());
}

#[test]
fn unknown_directory_handles_are_refused() {
    let mut pool = pool(8, 10);
    assert_eq!(pool.read(5, 0).err(), Some(Error::InvalidHandle(5)));
    assert_eq!(pool.free(5), Err(Error::InvalidHandle(5)));
    let fh = fetch_listing(&mut pool, 1, 0, "T", vec![entry("1", "a", 0)]);
    assert_eq!(pool.free(fh), Ok(()));
    assert_eq!(pool.free(fh), Err(Error::InvalidHandle(fh)));
    assert_eq!(pool.read(fh, 0).err(), Some(Error::InvalidHandle(fh)));
    // The snapshot outlives the handle.
    assert!(matches!(pool.open(1, 1).unwrap(), OpenStep::Opened(_)));
}

#[test]
fn least_recently_used_directory_leaves_a_full_cache() {
    let mut pool = pool(2, 100);
    fetch_listing(&mut pool, 1, 0, "T1", vec![entry("1", "a", 0)]);
    fetch_listing(&mut pool, 2, 0, "T2", vec![entry("2", "b", 0)]);
    // Using inode 1 makes inode 2 the least recently used one.
    assert!(matches!(pool.lookup(1, &"a".to_string(), 1), Some(Some(_))));
    fetch_listing(&mut pool, 3, 1, "T3", vec![entry("3", "c", 0)]);
    assert!(pool.lookup(2, &"b".to_string(), 2).is_none());
    assert!(matches!(pool.lookup(1, &"a".to_string(), 2), Some(Some(_))));
    assert!(matches!(pool.lookup(3, &"c".to_string(), 2), Some(Some(_))));
}

#[test]
fn cache_without_room_keeps_no_directory() {
    let mut pool = pool(0, 100);
    let fh = fetch_listing(&mut pool, 1, 0, "T1", vec![entry("1", "a", 0)]);
    assert_eq!(pool.read(fh, 0).unwrap().len(), 1);
    assert!(matches!(pool.open(1, 1).unwrap(), OpenStep::Fetch { previous: None, .. }));
}
