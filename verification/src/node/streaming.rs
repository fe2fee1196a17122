//! Streaming uploads: chunks that are pushed on one side are read on the other.

use vstd::prelude::*;
use vstd::string::*;

use crate::bytes::option_bytes;
use crate::stream::{clipped, read_of, ReadPoll};

verus! {

/// Turns chunks that arrive into reads of any size. What does not fit in a read is kept for the
/// next one.
pub struct ChannelReader {
    buffer: Vec<u8>,
    pos: usize,
}

impl View for ChannelReader {
    type V = Seq<u8>;

    /// The bytes that are kept.
    closed spec fn view(&self) -> Seq<u8> {
        self.buffer@.skip(self.pos as int)
    }
}

fn copy_range(bytes: &Vec<u8>, from: usize, to: usize) -> (copy: Vec<u8>)
    requires
        from <= to <= bytes.len(),
    ensures
        copy@ == bytes@.subrange(from as int, to as int),
{
    let mut copy: Vec<u8> = Vec::new();
    let mut i: usize = from;
    while i < to
        invariant
            from <= i <= to <= bytes.len(),
            copy@ =~= bytes@.subrange(from as int, i as int),
        decreases to - i,
    {
        copy.push(bytes[i]);
        i = i + 1;
    }
    copy
}

impl ChannelReader {
    /// The position is inside the buffer.
    pub closed spec fn inv(self) -> bool {
        self.pos <= self.buffer@.len()
    }

    /// A reader that keeps nothing.
    pub fn new() -> (reader: ChannelReader)
        ensures
            reader.inv(),
            reader@ == Seq::<u8>::empty(),
    {
        let reader = ChannelReader { buffer: Vec::new(), pos: 0 };
        assert(reader@ =~= Seq::<u8>::empty());
        reader
    }

    /// Answers a read of up to `room` bytes from what is kept, or tells that nothing is kept and
    /// that the next chunk has to be received.
    pub fn read_buffered(&mut self, room: usize) -> (result: Option<Vec<u8>>)
        requires
            old(self).inv(),
        ensures
            final(self).inv(),
            result is Some <==> old(self)@.len() > 0,
            result matches Some(out) ==> {
                &&& (out@, final(self)@) == read_of(old(self)@, room as int)
                &&& out@.len() == if room < old(self)@.len() {
                    room as int
                } else {
                    old(self)@.len() as int
                }
                &&& out@ + final(self)@ == old(self)@
            },
            result is None ==> final(self)@ == old(self)@,
    {
        if self.pos < self.buffer.len() {
            let left: usize = self.buffer.len() - self.pos;
            let n: usize = if room < left {
                room
            } else {
                left
            };
            let out = copy_range(&self.buffer, self.pos, self.pos + n);
            self.pos = self.pos + n;
            proof {
                let kept = old(self)@;
                assert(out@ =~= kept.take(clipped(room as int, kept)));
                assert(self@ =~= kept.skip(clipped(room as int, kept)));
                assert(out@ + self@ =~= kept);
            }
            Some(out)
        } else {
            None
        }
    }

    /// Answers a read of up to `room` bytes from a chunk that was received, and keeps the rest
    /// of it. An empty chunk gives an empty read.
    pub fn receive(&mut self, data: Vec<u8>, room: usize) -> (out: Vec<u8>)
        requires
            old(self).inv(),
            old(self)@.len() == 0,
        ensures
            final(self).inv(),
            (out@, final(self)@) == read_of(data@, room as int),
            out@.len() == if room < data@.len() {
                room as int
            } else {
                data@.len() as int
            },
            out@ + final(self)@ == data@,
    {
        let n: usize = if room < data.len() {
            room
        } else {
            data.len()
        };
        let out = copy_range(&data, 0, n);
        let ghost received = data@;
        if n < data.len() {
            self.buffer = data;
            self.pos = n;
        } else {
            self.buffer.clear();
            self.pos = 0;
        }
        proof {
            assert(out@ =~= received.take(n as int));
            assert(self@ =~= received.skip(n as int));
            assert(out@ + self@ =~= received);
        }
        out
    }
}

/// What came of asking the channel for the next chunk.
#[derive(Clone, Debug, PartialEq, Eq)]
pub enum Received {
    Chunk(Vec<u8>),
    /// No chunk is there, and none will come.
    Closed,
    /// No chunk is there yet.
    Empty,
}

impl ChannelReader {
    /// Answers a read of up to `room` bytes for which nothing was kept, by what came of asking
    /// the channel for the next chunk. The end of the channel is the end of the stream.
    pub fn poll_received(&mut self, received: Received, room: usize) -> (poll: ReadPoll)
        requires
            old(self).inv(),
            old(self)@.len() == 0,
        ensures
            final(self).inv(),
            match received {
                Received::Chunk(data) => {
                    &&& poll is Ready
                    &&& (poll->Ready_0@, final(self)@) == read_of(data@, room as int)
                    &&& poll->Ready_0@ + final(self)@ == data@
                    &&& poll->Ready_0@.len() == if room < data@.len() {
                        room as int
                    } else {
                        data@.len() as int
                    }
                },
                Received::Closed => {
                    &&& poll is Ready
                    &&& poll->Ready_0@ == Seq::<u8>::empty()
                    &&& final(self)@ == old(self)@
                },
                Received::Empty => poll is Pending && final(self)@ == old(self)@,
            },
    {
        match received {
            Received::Chunk(data) => ReadPoll::Ready(self.receive(data, room)),
            Received::Closed => ReadPoll::Ready(Vec::new()),
            Received::Empty => ReadPoll::Pending,
        }
    }
}

/// The JavaScript side of a streaming upload: whether chunks may still be pushed, and whether
/// the result was asked for.
pub struct NativeStreamingUpload {
    open: bool,
    awaited: bool,
}

/// The contents of a streaming upload's state.
#[verifier::ext_equal]
pub struct StreamingUploadView {
    pub open: bool,
    pub awaited: bool,
}

impl StreamingUploadView {
    /// The state after a chunk, or the end of the data, was pushed.
    pub open spec fn push(self, data: Option<Seq<u8>>) -> StreamingUploadView {
        StreamingUploadView { open: self.open && data is Some, ..self }
    }

    /// The chunk that a push sends to the upload, if it sends one.
    pub open spec fn sends(self, data: Option<Seq<u8>>) -> Option<Seq<u8>> {
        if self.open {
            data
        } else {
            None
        }
    }
}

/// The state after the given pushes.
pub open spec fn after_pushes(
    v: StreamingUploadView,
    pushes: Seq<Option<Seq<u8>>>,
) -> StreamingUploadView
    decreases pushes.len(),
{
    if pushes.len() == 0 {
        v
    } else {
        after_pushes(v, pushes.drop_last()).push(pushes.last())
    }
}

/// The chunks that the given pushes send to the upload.
pub open spec fn sent(v: StreamingUploadView, pushes: Seq<Option<Seq<u8>>>) -> Seq<Seq<u8>>
    decreases pushes.len(),
{
    if pushes.len() == 0 {
        Seq::empty()
    } else {
        let before = sent(v, pushes.drop_last());
        match after_pushes(v, pushes.drop_last()).sends(pushes.last()) {
            Some(chunk) => before.push(chunk),
            None => before,
        }
    }
}

/// Chunks that are pushed one after the other.
pub open spec fn chunk_pushes(chunks: Seq<Seq<u8>>) -> Seq<Option<Seq<u8>>> {
    Seq::new(chunks.len(), |i: int| Some(chunks[i]))
}

proof fn lemma_chunks_sent(v: StreamingUploadView, chunks: Seq<Seq<u8>>)
    requires
        v.open,
    ensures
        sent(v, chunk_pushes(chunks)) == chunks,
        after_pushes(v, chunk_pushes(chunks)) == v,
    decreases chunks.len(),
{
    if chunks.len() == 0 {
        assert(sent(v, chunk_pushes(chunks)) =~= chunks);
    } else {
        let rest = chunks.drop_last();
        lemma_chunks_sent(v, rest);
        assert(chunk_pushes(chunks).drop_last() =~= chunk_pushes(rest));
        assert(chunk_pushes(chunks).last() == Some(chunks.last()));
        assert(rest.push(chunks.last()) =~= chunks);
        assert(after_pushes(v, chunk_pushes(chunks)) =~= v);
    }
}

/// An upload is sent exactly the chunks that are pushed before the end of the data, in order.
/// What is pushed after the end is not sent.
pub proof fn lemma_pushed_until_end(
    v: StreamingUploadView,
    chunks: Seq<Seq<u8>>,
    more: Seq<Option<Seq<u8>>>,
)
    requires
        v.open,
    ensures
        sent(v, chunk_pushes(chunks).push(None) + more) == chunks,
        !after_pushes(v, chunk_pushes(chunks).push(None) + more).open,
    decreases more.len(),
{
    let ended = chunk_pushes(chunks).push(None);
    if more.len() == 0 {
        lemma_chunks_sent(v, chunks);
        assert(ended + more =~= ended);
        assert(ended.drop_last() =~= chunk_pushes(chunks));
    } else {
        lemma_pushed_until_end(v, chunks, more.drop_last());
        assert((ended + more).drop_last() =~= ended + more.drop_last());
    }
}

impl View for NativeStreamingUpload {
    type V = StreamingUploadView;

    closed spec fn view(&self) -> StreamingUploadView {
        StreamingUploadView { open: self.open, awaited: self.awaited }
    }
}

impl NativeStreamingUpload {
    /// An upload that takes chunks.
    pub fn new() -> (upload: NativeStreamingUpload)
        ensures
            upload@ == (StreamingUploadView { open: true, awaited: false }),
    {
        NativeStreamingUpload { open: true, awaited: false }
    }

    /// Takes a chunk, or the end of the data. Returns the chunk to send to the upload, if there
    /// is one to send.
    pub fn push_chunk(&mut self, data: Option<Vec<u8>>) -> (result: Result<
        Option<Vec<u8>>,
        String,
    >)
        ensures
            final(self)@ == old(self)@.push(option_bytes(data)),
            result is Err <==> data is Some && !old(self)@.open,
            result matches Ok(chunk) ==> {
                &&& chunk == data
                &&& option_bytes(chunk) == old(self)@.sends(option_bytes(data))
            },
            result matches Err(e) ==> e@ == "upload already closed"@,
            final(self)@.open <==> old(self)@.open && data is Some,
            final(self)@.awaited == old(self)@.awaited,
    {
        match data {
            Some(bytes) => {
                if self.open {
                    Ok(Some(bytes))
                } else {
                    Err("upload already closed".to_string())
                }
            },
            None => {
                self.open = false;
                Ok(None)
            },
        }
    }

    /// Asks for the result. It can be had once.
    pub fn promise(&mut self) -> (result: Result<(), String>)
        ensures
            final(self)@ == (StreamingUploadView { awaited: true, ..old(self)@ }),
            result is Ok <==> !old(self)@.awaited,
            result matches Err(e) ==> e@ == "promise already consumed"@,
    {
        if self.awaited {
            Err("promise already consumed".to_string())
        } else {
            self.awaited = true;
            Ok(())
        }
    }
}

/// Pushing leaves an upload open unless the end of the data is pushed, and an open upload is sent
/// what is pushed.
pub proof fn lemma_push_and_send(v: StreamingUploadView, data: Option<Seq<u8>>)
    ensures
        v.push(data).open <==> v.open && data is Some,
        v.push(data).awaited == v.awaited,
        v.open ==> v.sends(data) == data,
        !v.open ==> v.sends(data) is None,
{
}

} // verus!
