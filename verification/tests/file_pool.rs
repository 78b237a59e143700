use onedrive_vfs::cache::Availability;
use onedrive_vfs::cache::Span;
use onedrive_vfs::cache::Status;
use onedrive_vfs::disk::Admission;
use onedrive_vfs::disk::DiskCache;
use onedrive_vfs::disk::RemoteItem;
use onedrive_vfs::error::Error;
use onedrive_vfs::file::Config;
use onedrive_vfs::file::DiskCacheConfig;
use onedrive_vfs::file::DownloadConfig;
use onedrive_vfs::file::FilePool;
use onedrive_vfs::file::OpenStep;
use onedrive_vfs::file::Opened;
use onedrive_vfs::file::ReadPlan;
use onedrive_vfs::file::UploadConfig;

fn id(s: &str) -> String {
    s.to_string()
}

fn config(enable: bool, max_cached: u64, max_files: usize, max_total: u64) -> Config {
    Config {
        disk_cache: DiskCacheConfig {
            enable,
            path: "cache".to_string(),
            max_cached_file_size: max_cached,
            max_files,
            max_total_size: max_total,
        },
        download: DownloadConfig { max_retry: 3, retry_delay: 1, stream_buffer_chunks: 4 },
        upload: UploadConfig { max_size: 4096, flush_delay: 5, retry_delay: 1 },
    }
}

fn remote(item: &str, tag: &str, is_folder: bool) -> RemoteItem {
    RemoteItem { id: id(item), c_tag: id(tag), is_folder }
}

#[test]
fn admission_evicts_the_least_recently_used_files() {
    let mut cache = DiskCache::new(100, 250, 10);
    assert_eq!(cache.try_alloc_and_fetch(&id("a"), 100, id("t")), Admission::Admitted(0));
    assert_eq!(cache.file(0).holders, 1);
    cache.release(0);
    assert_eq!(cache.try_alloc_and_fetch(&id("b"), 100, id("t")), Admission::Admitted(1));
    cache.release(1);
    assert_eq!(cache.total_size(), 200);
    assert_eq!(cache.try_alloc_and_fetch(&id("a"), 100, id("t")), Admission::Existing(0));
    // "b" is now the least recently used file and makes room for "c".
    assert_eq!(cache.try_alloc_and_fetch(&id("c"), 60, id("t")), Admission::Admitted(2));
    assert_eq!(cache.total_size(), 160);
    assert_eq!(cache.get(&id("b")), None);
    assert_eq!(cache.get(&id("a")), Some(0));
    assert_eq!(cache.get(&id("c")), Some(2));
    assert!(!cache.file(1).live);
    assert!(!cache.file(1).cached);
    assert!(cache.file(0).live);
    assert_eq!(cache.file(2).cache.status, Status::Downloading);
    assert_eq!(cache.file(2).cache.file_size, 60);
    assert_eq!(cache.file(2).cache.item_id, "c");
}

#[test]
fn file_too_large_for_the_cache_is_rejected() {
    let mut cache = DiskCache::new(1000, 5000, 10);
    assert_eq!(cache.try_alloc_and_fetch(&id("x"), 2048, id("t")), Admission::Rejected);
    assert_eq!(cache.try_alloc_and_fetch(&id("x"), 1001, id("t")), Admission::Rejected);
    assert_eq!(cache.total_size(), 0);
    assert_eq!(cache.try_alloc_and_fetch(&id("x"), 1000, id("t")), Admission::Admitted(0));
    assert_eq!(cache.total_size(), 1000);
}

#[test]
fn held_files_keep_their_bytes_until_released() {
    let mut cache = DiskCache::new(100, 150, 10);
    assert_eq!(cache.try_alloc_and_fetch(&id("a"), 100, id("t")), Admission::Admitted(0));
    assert!(cache.retain(0));
    cache.release(0);
    assert_eq!(cache.file(0).holders, 1);
    // "a" is evicted but held: its bytes stay, and "b" finds no room.
    assert_eq!(cache.try_alloc_and_fetch(&id("b"), 100, id("t")), Admission::Rejected);
    assert_eq!(cache.total_size(), 100);
    assert_eq!(cache.get(&id("a")), None);
    assert!(cache.file(0).live);
    assert!(!cache.file(0).cached);
    cache.release(0);
    assert!(!cache.file(0).live);
    assert_eq!(cache.total_size(), 0);
    assert!(!cache.retain(0));
    assert_eq!(cache.try_alloc_and_fetch(&id("b"), 100, id("t")), Admission::Admitted(1));
    assert_eq!(cache.total_size(), 100);
}

#[test]
fn number_of_cached_files_is_bounded() {
    let mut cache = DiskCache::new(10, 1000, 2);
    assert_eq!(cache.try_alloc_and_fetch(&id("a"), 10, id("t")), Admission::Admitted(0));
    cache.release(0);
    assert_eq!(cache.try_alloc_and_fetch(&id("b"), 10, id("t")), Admission::Admitted(1));
    cache.release(1);
    assert_eq!(cache.try_alloc_and_fetch(&id("c"), 10, id("t")), Admission::Admitted(2));
    assert_eq!(cache.get(&id("a")), None);
    assert_eq!(cache.get(&id("b")), Some(1));
    assert_eq!(cache.get(&id("c")), Some(2));
    assert_eq!(cache.total_size(), 20);
    let mut none = DiskCache::new(10, 1000, 0);
    assert_eq!(none.try_alloc_and_fetch(&id("a"), 10, id("t")), Admission::Admitted(0));
    assert_eq!(none.get(&id("a")), None);
    assert!(!none.file(0).cached);
    assert!(none.file(0).live);
    none.release(0);
    assert!(!none.file(0).live);
    assert_eq!(none.total_size(), 0);
}

#[test]
fn write_that_grows_a_file_grows_the_byte_count() {
    let mut cache = DiskCache::new(100, 1000, 10);
    cache.try_alloc_and_fetch(&id("a"), 100, id("t"));
    assert!(cache.chunk_written(0, 100));
    assert_eq!(cache.write(0, 90, 20, 4096, 1).unwrap().size, 110);
    assert_eq!(cache.total_size(), 110);
    assert_eq!(cache.write(0, 0, 5, 4096, 2).unwrap().grown_by, 0);
    assert_eq!(cache.total_size(), 110);
    assert_eq!(cache.write(0, 4096, 1, 4096, 3), Err(Error::FileTooLarge));
    assert_eq!(cache.total_size(), 110);
    cache.upload_done(0, 2, id("t2"));
    assert_eq!(cache.file(0).cache.status, Status::Available);
    assert_eq!(cache.file(0).cache.c_tag, "t2");
}

#[test]
fn changed_remote_tag_invalidates_the_cached_file() {
    let mut cache = DiskCache::new(100, 1000, 10);
    cache.try_alloc_and_fetch(&id("a"), 100, id("t1"));
    cache.try_alloc_and_fetch(&id("b"), 100, id("t1"));
    cache.try_alloc_and_fetch(&id("c"), 100, id("t1"));
    cache.release(0);
    cache.release(2);
    let items = vec![
        remote("a", "t1", false),
        remote("b", "t2", false),
        remote("c", "t2", true),
        remote("d", "t2", false),
    ];
    cache.sync_items(&items);
    assert_eq!(cache.file(0).cache.status, Status::Downloading);
    assert_eq!(cache.file(1).cache.status, Status::Invalidated);
    assert_eq!(cache.file(2).cache.status, Status::Downloading);
    assert_eq!(cache.file(1).cache.poll_available(1), Availability::Invalidated);
    assert_eq!(cache.get(&id("b")), None);
    assert_eq!(cache.get(&id("a")), Some(0));
    // The invalidated file is held, so its bytes still count.
    assert_eq!(cache.total_size(), 300);
    cache.release(1);
    assert_eq!(cache.total_size(), 200);
    cache.sync_item(&id("c"), &id("t9"));
    assert_eq!(cache.total_size(), 100);
    assert!(!cache.file(2).live);
}

#[test]
fn large_item_is_streamed_and_cannot_be_written() {
    let mut pool = FilePool::new(config(true, 1000, 10, 5000));
    assert_eq!(pool.open(&id("X"), false), Ok(OpenStep::FetchMeta));
    let fh = match pool.open_fetched(&id("X"), false, 2048, id("t")).unwrap() {
        Opened::Streaming { fh, file_size } => {
            assert_eq!(file_size, 2048);
            fh
        }
        Opened::Cached { .. } => panic!("too large to be cached"),
    };
    assert_eq!(pool.read(fh, 0, 10), Ok(ReadPlan::Stream { file_size: 2048 }));
    assert_eq!(pool.open(&id("X"), true), Ok(OpenStep::FetchMeta));
    assert_eq!(pool.open_fetched(&id("X"), true, 2048, id("t")).err(), Some(Error::FileTooLarge));
    assert_eq!(pool.close(fh), Ok(()));
    assert_eq!(pool.close(fh), Err(Error::InvalidHandle(fh)));
    assert_eq!(pool.read(fh, 0, 10), Err(Error::InvalidHandle(fh)));
}

#[test]
fn nothing_is_written_without_a_disk_cache() {
    let mut pool = FilePool::new(config(false, 1000, 10, 5000));
    assert_eq!(pool.open(&id("X"), true), Err(Error::WriteWithoutCache));
    assert_eq!(pool.open_fetched(&id("X"), true, 10, id("t")).err(), Some(Error::WriteWithoutCache));
    assert_eq!(pool.open(&id("X"), false), Ok(OpenStep::FetchMeta));
    assert!(matches!(
        pool.open_fetched(&id("X"), false, 10, id("t")),
        Ok(Opened::Streaming { file_size: 10, .. })
    ));
    pool.sync_items(&vec![remote("X", "t2", false)]);
    assert_eq!(pool.disk_cache().total_size(), 0);
}

#[test]
fn cached_item_is_opened_read_and_written_through_its_handle() {
    let mut pool = FilePool::new(config(true, 1000, 10, 5000));
    let (fh, slot) = match pool.open_fetched(&id("Y"), true, 100, id("t")).unwrap() {
        Opened::Cached { fh, slot, download } => {
            assert!(download);
            (fh, slot)
        }
        Opened::Streaming { .. } => panic!("small enough to be cached"),
    };
    assert_eq!(pool.disk_cache().file(slot).holders, 1);
    // A second open finds the file and starts no download.
    let fh2 = match pool.open(&id("Y"), false).unwrap() {
        OpenStep::Opened { fh, slot: found } => {
            assert_eq!(found, slot);
            fh
        }
        OpenStep::FetchMeta => panic!("the item is cached"),
    };
    assert_ne!(fh, fh2);
    assert_eq!(pool.disk_cache().file(slot).holders, 2);
    assert_eq!(
        pool.read(fh, 90, 20),
        Ok(ReadPlan::Cached { slot, span: Some(Span { start: 90, end: 100 }) })
    );
    assert_eq!(pool.read(fh, 100, 20), Ok(ReadPlan::Cached { slot, span: None }));
    let attr = pool.write(fh, 50, 5, 1, 1234).unwrap_err();
    assert_eq!(attr, Error::UnexpectedEndOfDownload { current_pos: 0, file_size: 100 });
    assert_eq!(pool.write(99, 50, 5, 1, 1234).err(), Some(Error::InvalidHandle(99)));
    assert_eq!(pool.close(fh2), Ok(()));
    assert_eq!(pool.close(fh), Ok(()));
    assert_eq!(pool.disk_cache().file(slot).holders, 0);
    assert!(pool.disk_cache().file(slot).live);
    assert_eq!(pool.disk_cache().total_size(), 100);
}

#[test]
fn write_to_a_cached_file_reports_attributes_without_a_tag() {
    let mut pool = FilePool::new(config(true, 1000, 10, 5000));
    let (fh, slot) = match pool.open_fetched(&id("Y"), true, 100, id("t")).unwrap() {
        Opened::Cached { fh, slot, .. } => (fh, slot),
        Opened::Streaming { .. } => panic!("small enough to be cached"),
    };
    assert!(!pool.chunk_written(slot, 60));
    assert!(pool.chunk_written(slot, 40));
    assert_eq!(pool.disk_cache().file(slot).cache.status, Status::Available);
    let attr = pool.write(fh, 50, 5, 1, 1234).unwrap();
    assert_eq!(attr.item_id, "Y");
    assert_eq!(attr.size, 100);
    assert_eq!(attr.mtime, 1234);
    assert_eq!(attr.c_tag, None);
    assert_eq!(pool.disk_cache().file(slot).cache.status, Status::Dirty(1));
    assert!(pool.hold(slot));
    assert_eq!(pool.disk_cache().file(slot).holders, 2);
    // The upload that the write asked for goes through.
    assert!(pool.disk_cache().file(slot).cache.upload_ready(1));
    pool.upload_done(slot, 1, id("t2"));
    pool.unhold(slot);
    assert_eq!(pool.disk_cache().file(slot).cache.status, Status::Available);
    assert_eq!(pool.disk_cache().file(slot).cache.c_tag, "t2");
    assert_eq!(pool.disk_cache().file(slot).holders, 1);
    assert_eq!(pool.disk_cache().total_size(), 100);
}

#[test]
fn later_write_leaves_the_earlier_upload_nothing_to_do() {
    let mut pool = FilePool::new(config(true, 1000, 10, 5000));
    let (fh, slot) = match pool.open_fetched(&id("W"), true, 10, id("t")).unwrap() {
        Opened::Cached { fh, slot, .. } => (fh, slot),
        Opened::Streaming { .. } => panic!("small enough to be cached"),
    };
    assert!(pool.chunk_written(slot, 10));
    assert_eq!(pool.write(fh, 0, 4, 1, 50).unwrap().size, 10);
    assert_eq!(pool.write(fh, 8, 4, 2, 51).unwrap().size, 12);
    assert_eq!(pool.disk_cache().total_size(), 12);
    assert!(!pool.disk_cache().file(slot).cache.upload_ready(1));
    assert!(pool.disk_cache().file(slot).cache.upload_ready(2));
    pool.upload_done(slot, 2, id("t2"));
    assert_eq!(pool.disk_cache().file(slot).cache.status, Status::Available);
}

#[test]
fn invalidated_file_fails_every_wait_and_write() {
    let mut pool = FilePool::new(config(true, 1000, 10, 5000));
    let (fh, slot) = match pool.open_fetched(&id("W"), true, 10, id("t")).unwrap() {
        Opened::Cached { fh, slot, .. } => (fh, slot),
        Opened::Streaming { .. } => panic!("small enough to be cached"),
    };
    pool.sync_items(&vec![remote("W", "t", false)]);
    assert_eq!(pool.disk_cache().file(slot).cache.status, Status::Downloading);
    pool.sync_items(&vec![remote("W", "t2", false)]);
    assert_eq!(pool.disk_cache().file(slot).cache.status, Status::Invalidated);
    assert_eq!(pool.disk_cache().file(slot).cache.check_available(1), Err(Error::Invalidated));
    assert_eq!(pool.write(fh, 0, 5, 1, 77).err(), Some(Error::Invalidated));
    assert_eq!(pool.write(fh, 4096, 1, 1, 77).err(), Some(Error::FileTooLarge));
    // The item is no longer found, but the handle keeps the file.
    assert_eq!(pool.open(&id("W"), false), Ok(OpenStep::FetchMeta));
    assert!(pool.disk_cache().file(slot).live);
    assert_eq!(pool.close(fh), Ok(()));
    assert!(!pool.disk_cache().file(slot).live);
    assert_eq!(pool.disk_cache().total_size(), 0);
}
