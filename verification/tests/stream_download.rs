use onedrive_vfs::download::Download;
use onedrive_vfs::download::DownloadStep;
use onedrive_vfs::error::Error;
use onedrive_vfs::stream::StreamState;

fn source(len: usize) -> Vec<u8> {
    (0..len).map(|i| (i * 7 % 251) as u8).collect()
}

/// Reads `size` bytes at `offset`, taking chunks from `chunks` as needed.
fn read(
    state: &mut StreamState,
    chunks: &mut std::collections::VecDeque<Vec<u8>>,
    file_size: u64,
    offset: u64,
    size: usize,
) -> Result<Vec<u8>, Error> {
    state.begin_read(offset, size)?;
    while state.needs_chunk() {
        match chunks.pop_front() {
            Some(chunk) => state.accept_chunk(&chunk),
            None => break,
        }
    }
    state.end_read(file_size)
}

#[test]
fn stream_reads_in_sequence_and_refuses_a_jump() {
    let data = source(3000);
    let mut chunks: std::collections::VecDeque<Vec<u8>> =
        data.chunks(700).map(|c| c.to_vec()).collect();
    let mut state = StreamState::new();
    assert_eq!(read(&mut state, &mut chunks, 3000, 0, 1000).unwrap(), data[..1000].to_vec());
    assert_eq!(state.current_pos(), 1000);
    assert_eq!(
        read(&mut state, &mut chunks, 3000, 2000, 1000),
        Err(Error::NonsequentialRead { current_pos: 1000, try_offset: 2000 })
    );
    assert_eq!(state.current_pos(), 1000);
    assert_eq!(read(&mut state, &mut chunks, 3000, 1000, 2000).unwrap(), data[1000..].to_vec());
    assert_eq!(state.current_pos(), 3000);
}

#[test]
fn sequential_reads_put_together_give_the_source() {
    let data = source(1234);
    let mut chunks: std::collections::VecDeque<Vec<u8>> =
        data.chunks(100).map(|c| c.to_vec()).collect();
    let mut state = StreamState::new();
    let mut all = Vec::new();
    let mut pos = 0u64;
    for size in [1usize, 99, 100, 250, 0, 784] {
        let part = read(&mut state, &mut chunks, 1234, pos, size).unwrap();
        assert_eq!(part.len(), size);
        pos += size as u64;
        all.extend(part);
    }
    assert_eq!(all, data);
}

#[test]
fn stream_that_ends_early_fails_the_read() {
    let data = source(500);
    let mut chunks: std::collections::VecDeque<Vec<u8>> =
        data.chunks(200).map(|c| c.to_vec()).collect();
    let mut state = StreamState::new();
    assert_eq!(read(&mut state, &mut chunks, 1000, 0, 300).unwrap(), data[..300].to_vec());
    assert_eq!(
        read(&mut state, &mut chunks, 1000, 300, 400),
        Err(Error::UnexpectedEndOfDownload { current_pos: 500, file_size: 1000 })
    );
    assert_eq!(state.current_pos(), 500);
}

#[test]
fn read_of_nothing_takes_no_chunk() {
    let mut state = StreamState::new();
    state.begin_read(0, 0).unwrap();
    assert!(!state.needs_chunk());
    assert_eq!(state.end_read(10).unwrap(), Vec::<u8>::new());
    assert_eq!(state.current_pos(), 0);
}

#[test]
fn chunk_handed_in_between_reads_is_kept() {
    let mut state = StreamState::new();
    state.accept_chunk(&[1, 2, 3]);
    state.accept_chunk(&[4]);
    state.begin_read(0, 2).unwrap();
    assert!(!state.needs_chunk());
    assert_eq!(state.end_read(4).unwrap(), vec![1, 2]);
    state.begin_read(2, 2).unwrap();
    assert_eq!(state.end_read(4).unwrap(), vec![3, 4]);
}

#[test]
fn download_asks_for_the_rest_until_all_has_come() {
    let mut download = Download::new(1000, 3);
    assert_eq!(download.next_step(), DownloadStep::Request { range_start: 0 });
    download.on_response();
    download.on_chunk(400);
    assert_eq!(download.remaining(), 600);
    assert_eq!(download.next_step(), DownloadStep::Request { range_start: 400 });
    download.on_chunk(600);
    assert_eq!(download.pos, 1000);
    assert_eq!(download.next_step(), DownloadStep::Finished);
    assert_eq!(Download::new(0, 3).next_step(), DownloadStep::Finished);
}

#[test]
fn download_gives_up_after_the_allowed_failures() {
    let mut download = Download::new(10, 2);
    assert!(download.on_failure());
    assert!(download.on_failure());
    assert_eq!(download.tries, 2);
    assert!(!download.on_failure());
    assert_eq!(download.tries, 2);
    // An answer forgives the failures before it.
    download.on_response();
    assert_eq!(download.tries, 0);
    assert!(download.on_failure());
    let mut none = Download::new(10, 0);
    assert!(!none.on_failure());
}
