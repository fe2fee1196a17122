//! Streams of bytes that are pushed in chunks and read in pieces of any size.

use vstd::prelude::*;

use crate::chunked::joined;

verus! {

/// The answer to a read.
#[derive(Clone, Debug, PartialEq, Eq)]
pub enum ReadPoll {
    /// These bytes were read; none at the end of the stream.
    Ready(Vec<u8>),
    /// Nothing is there yet.
    Pending,
}

/// `n`, or the length of `s` where that is less.
pub open spec fn clipped(n: int, s: Seq<u8>) -> int {
    if n < s.len() {
        n
    } else {
        s.len() as int
    }
}

/// What a read of up to `room` bytes takes of `data`, and what it leaves.
pub open spec fn read_of(data: Seq<u8>, room: int) -> (Seq<u8>, Seq<u8>) {
    (data.take(clipped(room, data)), data.skip(clipped(room, data)))
}

/// A stream: what is kept of a chunk that was read in part, and the chunks that wait.
#[verifier::ext_equal]
pub struct StreamView {
    pub kept: Seq<u8>,
    pub chunks: Seq<Seq<u8>>,
}

impl StreamView {
    /// The stream with nothing in it.
    pub open spec fn empty() -> StreamView {
        StreamView { kept: Seq::empty(), chunks: Seq::empty() }
    }

    /// The stream after a chunk was pushed.
    pub open spec fn push(self, chunk: Seq<u8>) -> StreamView {
        StreamView { chunks: self.chunks.push(chunk), ..self }
    }

    /// What a read of up to `room` bytes gives, and the stream after it. A read is answered from
    /// what is kept, and only where nothing is kept from the next chunk.
    pub open spec fn read(self, room: int) -> (Seq<u8>, StreamView) {
        if self.kept.len() > 0 {
            let (out, left) = read_of(self.kept, room);
            (out, StreamView { kept: left, ..self })
        } else if self.chunks.len() > 0 {
            let (out, left) = read_of(self.chunks[0], room);
            (out, StreamView { kept: left, chunks: self.chunks.skip(1) })
        } else {
            (Seq::empty(), self)
        }
    }

    /// The bytes that are still to be read.
    pub open spec fn rest(self) -> Seq<u8> {
        self.kept + joined(self.chunks)
    }
}

/// Something that happens to a stream.
pub enum StreamOp {
    Push(Seq<u8>),
    Read(nat),
}

/// The stream after the given pushes and reads.
pub open spec fn stream_after(ops: Seq<StreamOp>) -> StreamView
    decreases ops.len(),
{
    if ops.len() == 0 {
        StreamView::empty()
    } else {
        let before = stream_after(ops.drop_last());
        match ops.last() {
            StreamOp::Push(chunk) => before.push(chunk),
            StreamOp::Read(room) => before.read(room as int).1,
        }
    }
}

/// The bytes that the reads among the given pushes and reads give, one after the other.
pub open spec fn bytes_read(ops: Seq<StreamOp>) -> Seq<u8>
    decreases ops.len(),
{
    if ops.len() == 0 {
        Seq::empty()
    } else {
        let before = bytes_read(ops.drop_last());
        match ops.last() {
            StreamOp::Push(_) => before,
            StreamOp::Read(room) => before + stream_after(ops.drop_last()).read(room as int).0,
        }
    }
}

/// The chunks that are pushed among the given pushes and reads.
pub open spec fn chunks_pushed(ops: Seq<StreamOp>) -> Seq<Seq<u8>>
    decreases ops.len(),
{
    if ops.len() == 0 {
        Seq::empty()
    } else {
        let before = chunks_pushed(ops.drop_last());
        match ops.last() {
            StreamOp::Push(chunk) => before.push(chunk),
            StreamOp::Read(_) => before,
        }
    }
}

/// The bytes that reads of the given sizes give, where nothing more is pushed.
pub open spec fn drained(v: StreamView, rooms: Seq<nat>) -> Seq<u8>
    decreases rooms.len(),
{
    if rooms.len() == 0 {
        Seq::empty()
    } else {
        let (out, after) = v.read(rooms[0] as int);
        out + drained(after, rooms.skip(1))
    }
}

proof fn lemma_joined_first(chunks: Seq<Seq<u8>>)
    requires
        chunks.len() > 0,
    ensures
        joined(chunks) == chunks[0] + joined(chunks.skip(1)),
    decreases chunks.len(),
{
    let rest = chunks.skip(1);
    if chunks.len() == 1 {
        assert(chunks.drop_last() =~= Seq::empty());
        assert(rest =~= Seq::empty());
        assert(joined(chunks) =~= chunks[0] + joined(rest));
    } else {
        lemma_joined_first(chunks.drop_last());
        assert(chunks.drop_last().skip(1) =~= rest.drop_last());
        assert(joined(chunks) =~= chunks[0] + joined(rest));
    }
}

/// A read takes the first of the bytes that are still to be read, and leaves the others. It takes
/// them from one chunk only. With room for a byte it gives none only where nothing is left, or
/// where the next chunk is itself empty.
pub proof fn lemma_read(v: StreamView, room: int)
    requires
        room >= 0,
    ensures
        v.read(room).0 + v.read(room).1.rest() == v.rest(),
        v.read(room).0.len() <= room,
        v.kept.len() > 0 ==> v.read(room).0.len() == if room < v.kept.len() {
            room
        } else {
            v.kept.len() as int
        },
        v.kept.len() == 0 && v.chunks.len() > 0 ==> v.read(room).0.len() == if room
            < v.chunks[0].len() {
            room
        } else {
            v.chunks[0].len() as int
        },
        v.kept.len() > 0 ==> v.read(room).1.chunks == v.chunks,
        v.kept.len() == 0 && v.chunks.len() > 0 ==> {
            &&& v.read(room).0 + v.read(room).1.kept == v.chunks[0]
            &&& v.read(room).1.chunks == v.chunks.skip(1)
        },
        room > 0 ==> (v.read(room).0.len() == 0 <==> v.kept.len() == 0 && (v.chunks.len() == 0
            || v.chunks[0].len() == 0)),
{
    let (out, after) = v.read(room);
    if v.kept.len() > 0 {
        assert(out + after.rest() =~= v.rest());
    } else if v.chunks.len() > 0 {
        lemma_joined_first(v.chunks);
        assert(out + after.kept =~= v.chunks[0]);
        assert(out + after.rest() =~= v.rest());
    } else {
        assert(out + after.rest() =~= v.rest());
    }
}

/// However pushes and reads follow one another, what was read is the beginning of the pushed
/// chunks joined together, and the rest of them is still to be read: no byte is lost, doubled or
/// out of order.
pub proof fn lemma_stream_in_order(ops: Seq<StreamOp>)
    ensures
        bytes_read(ops) + stream_after(ops).rest() == joined(chunks_pushed(ops)),
        bytes_read(ops).is_prefix_of(joined(chunks_pushed(ops))),
    decreases ops.len(),
{
    if ops.len() == 0 {
        assert(bytes_read(ops) + stream_after(ops).rest() =~= joined(chunks_pushed(ops)));
    } else {
        let before = ops.drop_last();
        lemma_stream_in_order(before);
        let v = stream_after(before);
        match ops.last() {
            StreamOp::Push(chunk) => {
                assert(v.chunks.push(chunk).drop_last() =~= v.chunks);
                assert(chunks_pushed(ops).drop_last() =~= chunks_pushed(before));
                assert(bytes_read(ops) + stream_after(ops).rest() =~= joined(
                    chunks_pushed(before),
                ) + chunk);
            },
            StreamOp::Read(room) => {
                lemma_read(v, room as int);
                let (out, after) = v.read(room as int);
                assert(bytes_read(before) + out + after.rest() =~= bytes_read(before) + (out
                    + after.rest()));
            },
        }
    }
    let read = bytes_read(ops);
    assert((read + stream_after(ops).rest()).subrange(0, read.len() as int) =~= read);
}

/// Reads that each have room for a byte come to the end of the stream: as many of them as there
/// are bytes and chunks left give everything that is left.
pub proof fn lemma_stream_drains(v: StreamView, rooms: Seq<nat>)
    requires
        forall|i: int| 0 <= i < rooms.len() ==> #[trigger] rooms[i] > 0,
        rooms.len() >= v.rest().len() + v.chunks.len(),
    ensures
        drained(v, rooms) == v.rest(),
    decreases rooms.len(),
{
    if rooms.len() == 0 {
        assert(drained(v, rooms) =~= v.rest());
    } else {
        let (out, after) = v.read(rooms[0] as int);
        lemma_read(v, rooms[0] as int);
        assert forall|i: int| 0 <= i < rooms.skip(1).len() implies #[trigger] rooms.skip(1)[i]
            > 0 by {
            assert(rooms.skip(1)[i] == rooms[i + 1]);
        }
        assert(v.rest().len() == out.len() + after.rest().len());
        assert(v.kept.len() == 0 && v.chunks.len() == 0 ==> v.rest().len() == 0);
        lemma_stream_drains(after, rooms.skip(1));
    }
}

/// All in all the pushed chunks are read joined together: what the reads among the pushes gave,
/// and what enough reads after the last push give.
pub proof fn lemma_stream_read_whole(ops: Seq<StreamOp>, rooms: Seq<nat>)
    requires
        forall|i: int| 0 <= i < rooms.len() ==> #[trigger] rooms[i] > 0,
        rooms.len() >= stream_after(ops).rest().len() + stream_after(ops).chunks.len(),
    ensures
        bytes_read(ops) + drained(stream_after(ops), rooms) == joined(chunks_pushed(ops)),
{
    lemma_stream_in_order(ops);
    lemma_stream_drains(stream_after(ops), rooms);
}

/// A read takes the first bytes of the data, as many as there is room for, and leaves the others.
pub proof fn lemma_read_of(data: Seq<u8>, room: int)
    requires
        room >= 0,
    ensures
        read_of(data, room).0 + read_of(data, room).1 == data,
        read_of(data, room).0.len() == if room < data.len() {
            room
        } else {
            data.len() as int
        },
{
    assert(read_of(data, room).0 + read_of(data, room).1 =~= data);
}

/// A pushed chunk waits behind the others.
pub proof fn lemma_push(v: StreamView, chunk: Seq<u8>)
    ensures
        v.push(chunk).kept == v.kept,
        v.push(chunk).chunks == v.chunks.push(chunk),
        v.push(chunk).rest() == v.rest() + chunk,
{
    assert(v.chunks.push(chunk).drop_last() =~= v.chunks);
    assert(v.push(chunk).rest() =~= v.rest() + chunk);
}

} // verus!
