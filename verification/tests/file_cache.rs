use onedrive_vfs::cache::Availability;
use onedrive_vfs::cache::FileCache;
use onedrive_vfs::cache::Span;
use onedrive_vfs::cache::Status;
use onedrive_vfs::cache::Written;
use onedrive_vfs::error::Error;

fn available(size: u64) -> FileCache {
    let mut cache = FileCache::new("Y".to_string(), size, "v1".to_string());
    if size > 0 {
        assert!(cache.chunk_written(size));
    }
    cache
}

#[test]
fn download_makes_the_file_available_when_complete() {
    let mut cache = FileCache::new("Z".to_string(), 100, "v1".to_string());
    assert_eq!(cache.status, Status::Downloading);
    assert_eq!(cache.poll_available(0), Availability::Ready);
    assert_eq!(cache.poll_available(40), Availability::Pending);
    assert!(!cache.chunk_written(40));
    assert_eq!(cache.available_size, 40);
    assert_eq!(cache.poll_available(40), Availability::Ready);
    assert_eq!(cache.poll_available(41), Availability::Pending);
    assert_eq!(cache.check_available(40), Ok(()));
    assert_eq!(
        cache.check_available(41),
        Err(Error::UnexpectedEndOfDownload { current_pos: 40, file_size: 100 })
    );
    assert!(cache.chunk_written(60));
    assert_eq!(cache.status, Status::Available);
    assert_eq!(cache.poll_available(100), Availability::Ready);
}

#[test]
fn read_is_cut_off_at_the_end_of_the_file() {
    let cache = available(100);
    assert_eq!(cache.read_range(0, 10), Some(Span { start: 0, end: 10 }));
    assert_eq!(cache.read_range(90, 10), Some(Span { start: 90, end: 100 }));
    assert_eq!(cache.read_range(95, 10), Some(Span { start: 95, end: 100 }));
    assert_eq!(cache.read_range(100, 10), None);
    assert_eq!(cache.read_range(200, 10), None);
    assert_eq!(cache.read_range(5, 0), None);
    assert_eq!(cache.read_range(u64::MAX - 1, usize::MAX), None);
    assert_eq!(cache.read_range(1, usize::MAX), Some(Span { start: 1, end: 100 }));
}

#[test]
fn write_dirties_the_file_and_upload_cleans_it() {
    let mut cache = available(100);
    assert_eq!(cache.write(50, 5, 1000, 1), Ok(Written { size: 100, grown_by: 0 }));
    assert_eq!(cache.status, Status::Dirty(1));
    assert_eq!(cache.file_size, 100);
    assert!(cache.upload_ready(1));
    cache.upload_done(1, "v2".to_string());
    assert_eq!(cache.status, Status::Available);
    assert_eq!(cache.c_tag, "v2");
    assert_eq!(cache.read_range(50, 5), Some(Span { start: 50, end: 55 }));
}

#[test]
fn second_write_takes_the_upload_over() {
    let mut cache = available(100);
    cache.write(0, 10, 1000, 1).unwrap();
    assert_eq!(cache.write(95, 10, 1000, 2), Ok(Written { size: 105, grown_by: 5 }));
    assert_eq!(cache.status, Status::Dirty(2));
    assert_eq!(cache.file_size, 105);
    assert!(!cache.upload_ready(1));
    assert!(cache.upload_ready(2));
    // An upload of the first write that still ends leaves the file dirty.
    cache.upload_done(1, "v2".to_string());
    assert_eq!(cache.status, Status::Dirty(2));
    cache.upload_done(2, "v3".to_string());
    assert_eq!(cache.status, Status::Available);
    assert_eq!(cache.c_tag, "v3");
}

#[test]
fn write_past_the_upload_limit_is_refused() {
    let mut cache = available(100);
    assert_eq!(cache.write(990, 11, 1000, 1), Err(Error::FileTooLarge));
    assert_eq!(cache.write(u64::MAX, 1, 1000, 1), Err(Error::FileTooLarge));
    assert_eq!(cache.write(0, usize::MAX, 1000, 1), Err(Error::FileTooLarge));
    assert_eq!(cache.status, Status::Available);
    assert_eq!(cache.file_size, 100);
    assert_eq!(cache.write(990, 10, 1000, 1), Ok(Written { size: 1000, grown_by: 900 }));
}

#[test]
fn write_to_an_unfinished_download_fails() {
    let mut cache = FileCache::new("Z".to_string(), 100, "v1".to_string());
    cache.chunk_written(30);
    assert_eq!(
        cache.write(0, 1, 1000, 1),
        Err(Error::UnexpectedEndOfDownload { current_pos: 30, file_size: 100 })
    );
    assert_eq!(cache.status, Status::Downloading);
}

#[test]
fn invalidated_file_stays_invalidated() {
    let mut cache = available(100);
    cache.write(0, 1, 1000, 7).unwrap();
    cache.invalidate();
    assert_eq!(cache.status, Status::Invalidated);
    assert_eq!(cache.poll_available(0), Availability::Invalidated);
    assert_eq!(cache.check_available(10), Err(Error::Invalidated));
    assert_eq!(cache.write(0, 1, 1000, 8), Err(Error::Invalidated));
    assert!(!cache.upload_ready(7));
    cache.upload_done(7, "v2".to_string());
    assert_eq!(cache.status, Status::Invalidated);
    let mut downloading = FileCache::new("Z".to_string(), 10, "v1".to_string());
    downloading.invalidate();
    assert!(downloading.chunk_written(10));
    assert_eq!(downloading.status, Status::Invalidated);
}
