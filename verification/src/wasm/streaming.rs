//! Streaming uploads: chunks wait in a short queue until the upload reads them.

use std::collections::HashMap;
use std::collections::VecDeque;
use vstd::prelude::*;
use vstd::string::*;

use crate::chunked::{id_after, IdCounter};
use crate::node::streaming::ChannelReader;
use crate::stream::{ReadPoll, StreamView};

verus! {

broadcast use vstd::std_specs::hash::group_hash_axioms;

/// Chunks that may wait at a time.
pub const MAX_QUEUED_CHUNKS: usize = 3;

/// What became of a chunk that was pushed.
pub enum Push {
    /// It is in the queue, or the end was noted. A reader that waits has to be woken.
    Taken,
    /// The queue is full: here is the chunk, to be pushed again later.
    Full(Vec<u8>),
}

/// The queue between the pushing and the reading side.
pub struct ReaderState {
    chunks: VecDeque<Vec<u8>>,
    eof: bool,
}

/// The contents of a queue.
#[verifier::ext_equal]
pub struct ReaderStateView {
    pub chunks: Seq<Seq<u8>>,
    pub eof: bool,
}

impl View for ReaderState {
    type V = ReaderStateView;

    closed spec fn view(&self) -> ReaderStateView {
        ReaderStateView {
            chunks: Seq::new(self.chunks@.len(), |i: int| self.chunks@[i]@),
            eof: self.eof,
        }
    }
}

impl ReaderState {
    /// An empty queue.
    pub fn new() -> (state: ReaderState)
        ensures
            state@ == (ReaderStateView { chunks: Seq::empty(), eof: false }),
    {
        let state = ReaderState { chunks: VecDeque::new(), eof: false };
        assert(state@.chunks =~= Seq::empty());
        state
    }

    /// Pushes a chunk, or the end of the data. A chunk waits for room in the queue; the end does
    /// not.
    pub fn push_chunk(&mut self, chunk: Option<Vec<u8>>) -> (push: Push)
        ensures
            match chunk {
                Some(data) => if old(self)@.chunks.len() < MAX_QUEUED_CHUNKS {
                    &&& push == Push::Taken
                    &&& final(self)@ == (ReaderStateView {
                        chunks: old(self)@.chunks.push(data@),
                        ..old(self)@
                    })
                } else {
                    push == Push::Full(data) && final(self)@ == old(self)@
                },
                None => {
                    &&& push == Push::Taken
                    &&& final(self)@ == (ReaderStateView { eof: true, ..old(self)@ })
                },
            },
            old(self)@.chunks.len() <= MAX_QUEUED_CHUNKS ==> final(self)@.chunks.len()
                <= MAX_QUEUED_CHUNKS,
            push is Full <==> chunk is Some && old(self)@.chunks.len() >= 3,
            chunk is Some && old(self)@.chunks.len() < 3 ==> final(self)@.chunks
                == old(self)@.chunks.push(chunk->0@) && final(self)@.eof == old(self)@.eof,
            chunk is None ==> final(self)@.eof && final(self)@.chunks == old(self)@.chunks,
    {
        match chunk {
            Some(data) => {
                if self.chunks.len() < MAX_QUEUED_CHUNKS {
                    self.chunks.push_back(data);
                    assert(self@.chunks =~= old(self)@.chunks.push(data@));
                    Push::Taken
                } else {
                    Push::Full(data)
                }
            },
            None => {
                self.eof = true;
                Push::Taken
            },
        }
    }

    /// Takes the chunk that has waited longest.
    pub fn take_chunk(&mut self) -> (chunk: Option<Vec<u8>>)
        ensures
            chunk is Some <==> old(self)@.chunks.len() > 0,
            chunk matches Some(data) ==> {
                &&& data@ == old(self)@.chunks[0]
                &&& final(self)@ == (ReaderStateView {
                    chunks: old(self)@.chunks.skip(1),
                    ..old(self)@
                })
            },
            chunk is None ==> final(self)@ == old(self)@,
    {
        let chunk = self.chunks.pop_front();
        proof {
            if chunk is Some {
                assert(self@.chunks =~= old(self)@.chunks.skip(1));
            } else {
                assert(self@.chunks =~= old(self)@.chunks);
            }
        }
        chunk
    }

    /// Tells whether no more chunks will come.
    pub fn is_eof(&self) -> (eof: bool)
        ensures
            eof == self@.eof,
    {
        self.eof
    }
}

/// Answers a read of up to `room` bytes from the queue, where `reader` keeps what was left of the
/// chunk that was read last. Where nothing is left to read, the read waits unless the end of the
/// data was noted.
pub fn poll_queue(reader: &mut ChannelReader, queue: &mut ReaderState, room: usize) -> (poll:
    ReadPoll)
    requires
        old(reader).inv(),
    ensures
        final(reader).inv(),
        final(queue)@.eof == old(queue)@.eof,
        ({
            let v = StreamView { kept: old(reader)@, chunks: old(queue)@.chunks };
            let after = StreamView { kept: final(reader)@, chunks: final(queue)@.chunks };
            if v.kept.len() == 0 && v.chunks.len() == 0 && !old(queue)@.eof {
                poll is Pending && after == v
            } else {
                poll is Ready && (poll->Ready_0@, after) == v.read(room as int)
            }
        }),
        poll is Pending <==> {
            &&& old(reader)@.len() == 0
            &&& old(queue)@.chunks.len() == 0
            &&& !old(queue)@.eof
        },
        poll matches ReadPoll::Ready(bytes) ==> {
            let next = if old(reader)@.len() > 0 || old(queue)@.chunks.len() == 0 {
                old(reader)@
            } else {
                old(queue)@.chunks[0]
            };
            &&& bytes@ + final(reader)@ == next
            &&& bytes@.len() == if room < next.len() {
                room as int
            } else {
                next.len() as int
            }
            &&& final(queue)@.chunks == if old(reader)@.len() > 0 || old(queue)@.chunks.len()
                == 0 {
                old(queue)@.chunks
            } else {
                old(queue)@.chunks.skip(1)
            }
        },
{
    match reader.read_buffered(room) {
        Some(bytes) => ReadPoll::Ready(bytes),
        None => match queue.take_chunk() {
            Some(data) => ReadPoll::Ready(reader.receive(data, room)),
            None => {
                if queue.is_eof() {
                    ReadPoll::Ready(Vec::new())
                } else {
                    ReadPoll::Pending
                }
            },
        },
    }
}

/// The uploads that are under way, each with the queue that feeds it, or with whatever handle
/// on that queue the owner keeps.
pub struct StreamingReaders<T> {
    readers: HashMap<u64, T>,
}

impl<T> View for StreamingReaders<T> {
    type V = Map<u64, T>;

    closed spec fn view(&self) -> Map<u64, T> {
        self.readers@
    }
}

impl<T> StreamingReaders<T> {
    /// No upload is under way.
    pub fn new() -> (readers: StreamingReaders<T>)
        ensures
            readers@ == Map::<u64, T>::empty(),
    {
        StreamingReaders { readers: HashMap::new() }
    }

    /// Registers the queue of a new upload and returns its ID.
    pub fn register(&mut self, ids: &mut IdCounter, reader: T) -> (id: u64)
        ensures
            id == old(ids).upcoming(),
            final(ids).upcoming() == id_after(old(ids).upcoming()),
            final(self)@ == old(self)@.insert(id, reader),
    {
        let id: u64 = ids.next_id();
        self.readers.insert(id, reader);
        id
    }

    /// Finds the queue of an upload that is under way.
    pub fn find(&self, id: u64) -> (result: Result<&T, String>)
        ensures
            result is Ok <==> self@.contains_key(id),
            result matches Ok(reader) ==> *reader == self@[id],
            result matches Err(e) ==> e@ == "Invalid reader ID or upload already finalized"@,
    {
        match self.readers.get(&id) {
            Some(reader) => Ok(reader),
            None => Err("Invalid reader ID or upload already finalized".to_string()),
        }
    }

    /// Forgets an upload that is complete.
    pub fn remove(&mut self, id: u64)
        ensures
            final(self)@ == old(self)@.remove(id),
    {
        let _ = self.readers.remove(&id);
    }
}

/// Handle for a streaming upload operation.
#[derive(Clone, Copy, Debug, PartialEq, Eq)]
pub struct StreamingUpload {
    pub reader_id: u64,
}

impl StreamingUpload {
    /// Finds the queue to push chunks to.
    pub fn reader<'a, T>(&self, readers: &'a StreamingReaders<T>) -> (result: Result<&'a T, String>)
        ensures
            result is Ok <==> readers@.contains_key(self.reader_id),
            result matches Ok(reader) ==> *reader == readers@[self.reader_id],
            result matches Err(e) ==> e@ == "Invalid reader ID or upload already finalized"@,
    {
        readers.find(self.reader_id)
    }
}

} // verus!
