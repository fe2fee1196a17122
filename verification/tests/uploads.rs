use indexd::chunked::{ChunkError, ChunkSessions, IdCounter};
use indexd::node::options::{NativeDownloadOptions, NativeUploadOptions, ResolvedUploadOptions};
use indexd::node::packed::NativePackedUpload;
use indexd::node::streaming::{ChannelReader, NativeStreamingUpload, Received};
use indexd::progress::{slab_data_size, total_upload_shards, Progress, UploadProgress};
use indexd::rhp::div_ceil;
use indexd::stream::ReadPoll;
use indexd::wasm::streaming::{
    poll_queue, Push, ReaderState, StreamingReaders, StreamingUpload,
};

const SECTOR: u64 = 4 * 1024 * 1024;

fn shards(data_shards: u32) -> NativeUploadOptions {
    NativeUploadOptions { data_shards: Some(data_shards), parity_shards: None, max_inflight: None }
}

#[test]
fn division_rounds_up() {
    assert_eq!(div_ceil(0, 5), 0);
    assert_eq!(div_ceil(10, 5), 2);
    assert_eq!(div_ceil(11, 5), 3);
    assert_eq!(div_ceil(u64::MAX, 1), u64::MAX);
    assert_eq!(div_ceil(u64::MAX, u64::MAX), 1);
}

#[test]
fn upload_options_have_defaults() {
    let none =
        NativeUploadOptions { data_shards: None, parity_shards: None, max_inflight: None };
    assert_eq!(
        none.resolve(),
        ResolvedUploadOptions { data_shards: 10, parity_shards: 20, max_inflight: 10 }
    );
    let some = NativeUploadOptions {
        data_shards: Some(257),
        parity_shards: Some(5),
        max_inflight: Some(3),
    };
    assert_eq!(
        some.resolve(),
        ResolvedUploadOptions { data_shards: 1, parity_shards: 5, max_inflight: 3 }
    );
}

#[test]
fn download_options_have_defaults() {
    let whole = NativeDownloadOptions { max_inflight: None }.whole();
    assert_eq!((whole.max_inflight, whole.offset, whole.length), (10, 0, None));
    let ranged = NativeDownloadOptions { max_inflight: Some(4) }.ranged(7, 8);
    assert_eq!((ranged.max_inflight, ranged.offset, ranged.length), (4, 7, Some(8)));
}

#[test]
fn progress_counts() {
    let mut progress = Progress::new(3);
    assert_eq!(progress.advance(), (1, 3));
    assert_eq!(progress.advance(), (2, 3));
}

#[test]
fn upload_progress_in_bytes() {
    let mut progress = UploadProgress::new(1, 2);
    assert_eq!(progress.advance(), (SECTOR, 3 * SECTOR));
    assert_eq!(progress.advance(), (2 * SECTOR, 3 * SECTOR));
    assert_eq!(progress.advance(), (3 * SECTOR, 3 * SECTOR));
    assert_eq!(progress.advance(), (4 * SECTOR, 6 * SECTOR));
}

#[test]
fn shards_of_an_upload() {
    assert_eq!(slab_data_size(10), 41_943_040);
    assert_eq!(slab_data_size(0), 0);
    assert_eq!(total_upload_shards(0, 0, 20), 0);
    assert_eq!(total_upload_shards(1, 10, 20), 30);
    assert_eq!(total_upload_shards(41_943_040, 10, 20), 30);
    assert_eq!(total_upload_shards(41_943_041, 10, 20), 60);
}

#[test]
fn packed_upload_fills_slabs() {
    let mut upload = NativePackedUpload::new(&shards(1));
    assert_eq!((upload.length(), upload.remaining(), upload.slabs()), (0, SECTOR, 0));
    for size in [1, SECTOR - 1, SECTOR, 5, 3 * SECTOR] {
        assert_eq!(upload.add(), Ok(()));
        upload.added(size);
        assert_eq!(upload.length() + upload.remaining(), upload.slabs() * SECTOR);
        assert!(upload.remaining() < SECTOR);
    }
    assert_eq!(upload.length(), 5 * SECTOR + 5);
    assert_eq!(upload.slabs(), 6);
    upload.added(u64::MAX);
    assert_eq!(upload.length(), 5 * SECTOR + 4);
}

#[test]
fn closed_packed_upload_refuses() {
    let closed = Err("packed upload is closed".to_string());
    let mut upload = NativePackedUpload::new(&shards(2));
    assert_eq!(upload.finalize(), Ok(()));
    assert_eq!(upload.add(), closed);
    assert_eq!(upload.finalize(), closed);
    assert_eq!(upload.cancel(), closed);
    let mut upload = NativePackedUpload::new(&shards(2));
    assert_eq!(upload.cancel(), Ok(()));
    assert_eq!(upload.add(), closed);
    assert_eq!(upload.finalize(), closed);
    assert_eq!(upload.cancel(), closed);
}

#[test]
fn chunks_are_joined() {
    let mut ids = IdCounter::new();
    let mut sessions = ChunkSessions::new();
    let a = sessions.start_chunked_upload(&mut ids, 5);
    let b = sessions.start_chunked_upload(&mut ids, 2);
    assert_eq!((a, b), (1, 2));
    assert_eq!(sessions.upload_chunk(a, &[1, 2]), Ok(2));
    assert_eq!(sessions.upload_chunk(b, &[9, 9]), Ok(2));
    assert_eq!(sessions.upload_chunk(a, &[]), Ok(2));
    assert_eq!(sessions.upload_chunk(a, &[3, 4, 5, 6]), Err(ChunkError::ExceedsTotal));
    assert_eq!(sessions.upload_chunk(a, &[3, 4, 5]), Ok(5));
    assert_eq!(sessions.finalize_chunked_upload(a), Ok(vec![1, 2, 3, 4, 5]));
    assert_eq!(sessions.finalize_chunked_upload(a), Err(ChunkError::NotOpen));
    assert_eq!(sessions.finalize_chunked_upload(b), Ok(vec![9, 9]));
    let c = sessions.start_chunked_upload(&mut ids, 0);
    assert_eq!(c, 3);
    assert_eq!(sessions.finalize_chunked_upload(c), Ok(vec![]));
}

#[test]
fn incomplete_session_is_dropped() {
    let mut ids = IdCounter::new();
    let mut sessions = ChunkSessions::new();
    let id = sessions.start_chunked_upload(&mut ids, 10);
    assert_eq!(sessions.upload_chunk(id, &[0; 4]), Ok(4));
    let error = ChunkError::Incomplete { expected: 10, got: 4 };
    assert_eq!(sessions.finalize_chunked_upload(id), Err(error));
    assert_eq!(error.message(), "Incomplete upload: expected 10 bytes, got 4 bytes");
    assert_eq!(sessions.upload_chunk(id, &[0; 4]), Err(ChunkError::UnknownSession));
}

#[test]
fn chunk_errors_have_their_messages() {
    assert_eq!(
        ChunkError::UnknownSession.message(),
        "Invalid session ID. Call startChunkedUpload first."
    );
    assert_eq!(ChunkError::ExceedsTotal.message(), "Chunk exceeds total size");
    assert_eq!(
        ChunkError::NotOpen.message(),
        "Invalid session ID or session already finalized"
    );
}

#[test]
fn reader_keeps_what_does_not_fit() {
    let mut reader = ChannelReader::new();
    assert_eq!(reader.read_buffered(8), None);
    assert_eq!(reader.receive(vec![1, 2, 3, 4, 5], 2), vec![1, 2]);
    assert_eq!(reader.read_buffered(0), Some(vec![]));
    assert_eq!(reader.read_buffered(2), Some(vec![3, 4]));
    assert_eq!(reader.read_buffered(2), Some(vec![5]));
    assert_eq!(reader.read_buffered(2), None);
    assert_eq!(reader.receive(vec![6], 1), vec![6]);
    assert_eq!(reader.read_buffered(2), None);
    assert_eq!(reader.receive(vec![], 4), Vec::<u8>::new());
    assert_eq!(reader.read_buffered(2), None);
}

#[test]
fn channel_is_read_chunk_by_chunk() {
    let mut reader = ChannelReader::new();
    assert_eq!(reader.poll_received(Received::Empty, 4), ReadPoll::Pending);
    let chunk = Received::Chunk(vec![1, 2, 3]);
    assert_eq!(reader.poll_received(chunk, 2), ReadPoll::Ready(vec![1, 2]));
    // what is kept of a chunk is not joined with the next one
    assert_eq!(reader.read_buffered(9), Some(vec![3]));
    assert_eq!(reader.poll_received(Received::Chunk(vec![]), 9), ReadPoll::Ready(vec![]));
    assert_eq!(reader.poll_received(Received::Chunk(vec![4]), 9), ReadPoll::Ready(vec![4]));
    assert_eq!(reader.poll_received(Received::Closed, 9), ReadPoll::Ready(vec![]));
}

#[test]
fn queue_is_read_as_it_was_pushed() {
    let mut reader = ChannelReader::new();
    let mut queue = ReaderState::new();
    let chunks = vec![vec![1u8, 2, 3], vec![4], vec![5, 6, 7, 8], vec![9, 10]];
    let mut read = Vec::new();
    assert_eq!(poll_queue(&mut reader, &mut queue, 2), ReadPoll::Pending);
    for chunk in &chunks {
        assert!(matches!(queue.push_chunk(Some(chunk.clone())), Push::Taken));
        match poll_queue(&mut reader, &mut queue, 2) {
            ReadPoll::Ready(bytes) => read.extend(bytes),
            ReadPoll::Pending => panic!("a chunk is there"),
        }
    }
    queue.push_chunk(None);
    loop {
        match poll_queue(&mut reader, &mut queue, 2) {
            ReadPoll::Ready(bytes) if bytes.is_empty() => break,
            ReadPoll::Ready(bytes) => read.extend(bytes),
            ReadPoll::Pending => panic!("the end was noted"),
        }
    }
    assert_eq!(read, chunks.concat());
}

#[test]
fn pushing_ends_with_the_data() {
    let mut upload = NativeStreamingUpload::new();
    assert_eq!(upload.push_chunk(Some(vec![1])), Ok(Some(vec![1])));
    assert_eq!(upload.push_chunk(None), Ok(None));
    assert_eq!(upload.push_chunk(Some(vec![2])), Err("upload already closed".to_string()));
    assert_eq!(upload.push_chunk(None), Ok(None));
    assert_eq!(upload.promise(), Ok(()));
    assert_eq!(upload.promise(), Err("promise already consumed".to_string()));
}

#[test]
fn three_chunks_may_wait() {
    let mut state = ReaderState::new();
    for i in 0..3u8 {
        assert!(matches!(state.push_chunk(Some(vec![i])), Push::Taken));
    }
    match state.push_chunk(Some(vec![3])) {
        Push::Full(chunk) => assert_eq!(chunk, vec![3]),
        Push::Taken => panic!("taken"),
    }
    assert!(!state.is_eof());
    assert!(matches!(state.push_chunk(None), Push::Taken));
    assert!(state.is_eof());
    assert_eq!(state.take_chunk(), Some(vec![0]));
    assert!(matches!(state.push_chunk(Some(vec![3])), Push::Taken));
    for i in 1..4u8 {
        assert_eq!(state.take_chunk(), Some(vec![i]));
    }
    assert_eq!(state.take_chunk(), None);
}

#[test]
fn readers_are_found_by_id() {
    let mut ids = IdCounter::new();
    let mut readers: StreamingReaders<u8> = StreamingReaders::new();
    let a = readers.register(&mut ids, 10);
    let b = readers.register(&mut ids, 20);
    assert_eq!(readers.find(a), Ok(&10));
    assert_eq!(StreamingUpload { reader_id: b }.reader(&readers), Ok(&20));
    readers.remove(a);
    assert_eq!(
        readers.find(a),
        Err("Invalid reader ID or upload already finalized".to_string())
    );
    assert_eq!(readers.find(b), Ok(&20));
}
