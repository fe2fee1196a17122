//! Chunked uploads: a file that arrives in pieces is gathered in a session.

use std::collections::HashMap;
use vstd::prelude::*;
use vstd::string::*;

use crate::text::{decimal, decimal_text};

verus! {

broadcast use vstd::std_specs::hash::group_hash_axioms;

/// Why a chunk or a session was refused.
#[derive(Clone, Copy, Debug, PartialEq, Eq, Structural)]
pub enum ChunkError {
    /// There is no session of that ID to add a chunk to.
    UnknownSession,
    /// The session was declared smaller.
    ExceedsTotal,
    /// There is no session of that ID to finalize.
    NotOpen,
    /// Some of the declared bytes are missing.
    Incomplete { expected: usize, got: usize },
}

impl ChunkError {
    /// The message of the error.
    pub open spec fn text(self) -> Seq<char> {
        match self {
            ChunkError::UnknownSession => "Invalid session ID. Call startChunkedUpload first."@,
            ChunkError::ExceedsTotal => "Chunk exceeds total size"@,
            ChunkError::NotOpen => "Invalid session ID or session already finalized"@,
            ChunkError::Incomplete { expected, got } => "Incomplete upload: expected "@ + decimal(
                expected as nat,
            ) + " bytes, got "@ + decimal(got as nat) + " bytes"@,
        }
    }

    /// Writes the message of the error.
    pub fn message(&self) -> (message: String)
        ensures
            message@ == self.text(),
            match *self {
                ChunkError::UnknownSession => message@
                    == "Invalid session ID. Call startChunkedUpload first."@,
                ChunkError::ExceedsTotal => message@ == "Chunk exceeds total size"@,
                ChunkError::NotOpen => message@
                    == "Invalid session ID or session already finalized"@,
                ChunkError::Incomplete { expected, got } => message@
                    == "Incomplete upload: expected "@ + decimal(expected as nat)
                    + " bytes, got "@ + decimal(got as nat) + " bytes"@,
            },
    {
        match self {
            ChunkError::UnknownSession => {
                "Invalid session ID. Call startChunkedUpload first.".to_string()
            },
            ChunkError::ExceedsTotal => "Chunk exceeds total size".to_string(),
            ChunkError::NotOpen => "Invalid session ID or session already finalized".to_string(),
            ChunkError::Incomplete { expected, got } => {
                let mut message: String = "Incomplete upload: expected ".to_string();
                message.append(decimal_text(*expected as u64).as_str());
                message.append(" bytes, got ");
                message.append(decimal_text(*got as u64).as_str());
                message.append(" bytes");
                message
            },
        }
    }
}

/// The ID that follows `id`. They count up, and begin again after the last.
pub open spec fn id_after(id: u64) -> u64 {
    if id == u64::MAX {
        0
    } else {
        (id + 1) as u64
    }
}

/// Gives out IDs, counting up.
pub struct IdCounter {
    next: u64,
}

impl IdCounter {
    /// The ID that is given out next.
    pub closed spec fn upcoming(self) -> u64 {
        self.next
    }

    /// A counter that begins with one.
    pub fn new() -> (ids: IdCounter)
        ensures
            ids.upcoming() == 1,
    {
        IdCounter { next: 1 }
    }

    /// Gives out the next ID.
    pub fn next_id(&mut self) -> (id: u64)
        ensures
            id == old(self).upcoming(),
            final(self).upcoming() == id_after(id),
            id < u64::MAX ==> final(self).upcoming() == id + 1,
            id == u64::MAX ==> final(self).upcoming() == 0,
    {
        let id: u64 = self.next;
        self.next = self.next.wrapping_add(1);
        id
    }
}

/// A session: the bytes that were declared, and those that have arrived.
#[verifier::ext_equal]
pub struct SessionView {
    pub total: nat,
    pub written: Seq<u8>,
}

/// The open sessions after a chunk was added to one of them.
pub open spec fn write_chunk(
    open: Map<u64, SessionView>,
    id: u64,
    chunk: Seq<u8>,
) -> Map<u64, SessionView> {
    open.insert(id, SessionView { written: open[id].written + chunk, ..open[id] })
}

/// The open sessions after chunks were added to one of them, one after the other.
pub open spec fn write_chunks(
    open: Map<u64, SessionView>,
    id: u64,
    chunks: Seq<Seq<u8>>,
) -> Map<u64, SessionView>
    decreases chunks.len(),
{
    if chunks.len() == 0 {
        open
    } else {
        write_chunk(write_chunks(open, id, chunks.drop_last()), id, chunks.last())
    }
}

/// The chunks joined together.
pub open spec fn joined(chunks: Seq<Seq<u8>>) -> Seq<u8>
    decreases chunks.len(),
{
    if chunks.len() == 0 {
        Seq::empty()
    } else {
        joined(chunks.drop_last()) + chunks.last()
    }
}

/// Why a session cannot be finalized, if it cannot.
pub open spec fn finalize_error(open: Map<u64, SessionView>, id: u64) -> Option<ChunkError> {
    if !open.contains_key(id) {
        Some(ChunkError::NotOpen)
    } else if open[id].written.len() != open[id].total {
        Some(
            ChunkError::Incomplete {
                expected: open[id].total as usize,
                got: open[id].written.len() as usize,
            },
        )
    } else {
        None
    }
}

struct Session {
    buffer: Vec<u8>,
    offset: usize,
}

impl Session {
    spec fn view(self) -> SessionView {
        SessionView {
            total: self.buffer@.len(),
            written: self.buffer@.take(self.offset as int),
        }
    }

    spec fn inv(self) -> bool {
        self.offset <= self.buffer@.len()
    }
}

/// The open sessions.
pub struct ChunkSessions {
    sessions: HashMap<u64, Session>,
}

impl View for ChunkSessions {
    type V = Map<u64, SessionView>;

    closed spec fn view(&self) -> Map<u64, SessionView> {
        self.sessions@.map_values(|s: Session| s.view())
    }
}

impl ChunkSessions {
    /// No session holds more than was declared.
    pub closed spec fn inv(self) -> bool {
        forall|id: u64| #[trigger] self.sessions@.contains_key(id) ==> self.sessions@[id].inv()
    }

    /// No session is open.
    pub fn new() -> (sessions: ChunkSessions)
        ensures
            sessions.inv(),
            sessions@ == Map::<u64, SessionView>::empty(),
    {
        let sessions = ChunkSessions { sessions: HashMap::new() };
        assert(sessions@ =~= Map::<u64, SessionView>::empty());
        sessions
    }

    /// Opens a session for `total_size` bytes and returns its ID.
    pub fn start_chunked_upload(&mut self, ids: &mut IdCounter, total_size: usize) -> (id: u64)
        requires
            old(self).inv(),
        ensures
            final(self).inv(),
            id == old(ids).upcoming(),
            final(ids).upcoming() == id_after(old(ids).upcoming()),
            final(self)@ == old(self)@.insert(
                id,
                SessionView { total: total_size as nat, written: Seq::empty() },
            ),
    {
        let id: u64 = ids.next_id();
        let buffer: Vec<u8> = vec![0u8; total_size];
        let session = Session { buffer, offset: 0 };
        assert(session.view() =~= SessionView { total: total_size as nat, written: Seq::empty() });
        self.sessions.insert(id, session);
        assert(self@ =~= old(self)@.insert(
            id,
            SessionView { total: total_size as nat, written: Seq::empty() },
        ));
        id
    }

    /// Adds a chunk to a session. Returns how many bytes the session now holds.
    pub fn upload_chunk(&mut self, session_id: u64, chunk: &[u8]) -> (result: Result<
        usize,
        ChunkError,
    >)
        requires
            old(self).inv(),
        ensures
            final(self).inv(),
            ({
                let open = old(self)@;
                let s = open[session_id];
                if !open.contains_key(session_id) {
                    &&& result == Err::<usize, ChunkError>(ChunkError::UnknownSession)
                    &&& final(self)@ == open
                } else if s.written.len() + chunk@.len() > s.total {
                    &&& result == Err::<usize, ChunkError>(ChunkError::ExceedsTotal)
                    &&& final(self)@ == open
                } else {
                    &&& result is Ok
                    &&& result->Ok_0 == s.written.len() + chunk@.len()
                    &&& final(self)@ == write_chunk(open, session_id, chunk@)
                    &&& final(self)@ == open.insert(
                        session_id,
                        SessionView { total: s.total, written: s.written + chunk@ },
                    )
                }
            }),
    {
        let mut session = match self.sessions.remove(&session_id) {
            Some(session) => session,
            None => {
                assert(self@ =~= old(self)@);
                return Err(ChunkError::UnknownSession);
            },
        };
        let ghost before = session;
        assert(session.inv());
        if chunk.len() > session.buffer.len() - session.offset {
            self.sessions.insert(session_id, session);
            assert(self@ =~= old(self)@);
            return Err(ChunkError::ExceedsTotal);
        }
        let start: usize = session.offset;
        let mut i: usize = 0;
        while i < chunk.len()
            invariant
                i <= chunk.len(),
                start + chunk.len() <= session.buffer.len(),
                session.buffer.len() == before.buffer.len(),
                session.buffer@.take(start as int) =~= before.buffer@.take(start as int),
                forall|k: int| 0 <= k < i ==> session.buffer@[start + k] == chunk@[k],
            decreases chunk.len() - i,
        {
            session.buffer.set(start + i, chunk[i]);
            i = i + 1;
        }
        session.offset = start + chunk.len();
        assert(session.view().written =~= before.view().written + chunk@) by {
            assert forall|k: int| 0 <= k < start implies session.buffer@[k]
                == before.buffer@[k] by {
                assert(session.buffer@.take(start as int)[k] == before.buffer@.take(
                    start as int,
                )[k]);
            }
        }
        let offset: usize = session.offset;
        self.sessions.insert(session_id, session);
        assert(self@ =~= old(self)@.insert(session_id, session.view()));
        Ok(offset)
    }

    /// Closes a session and returns its bytes, all of which must have arrived.
    pub fn finalize_chunked_upload(&mut self, session_id: u64) -> (result: Result<
        Vec<u8>,
        ChunkError,
    >)
        requires
            old(self).inv(),
        ensures
            final(self).inv(),
            final(self)@ == old(self)@.remove(session_id),
            result matches Ok(data) ==> {
                &&& finalize_error(old(self)@, session_id) is None
                &&& data@ == old(self)@[session_id].written
            },
            result matches Err(e) ==> finalize_error(old(self)@, session_id) == Some(e),
            ({
                let open = old(self)@;
                let s = open[session_id];
                if !open.contains_key(session_id) {
                    result == Err::<Vec<u8>, ChunkError>(ChunkError::NotOpen)
                } else if s.written.len() != s.total {
                    &&& result is Err
                    &&& result->Err_0 is Incomplete
                    &&& result->Err_0->expected == s.total
                    &&& result->Err_0->got == s.written.len()
                } else {
                    result is Ok && result->Ok_0@ == s.written
                }
            }),
    {
        match self.sessions.remove(&session_id) {
            None => {
                assert(self@ =~= old(self)@.remove(session_id));
                Err(ChunkError::NotOpen)
            },
            Some(session) => {
                assert(self@ =~= old(self)@.remove(session_id));
                if session.offset != session.buffer.len() {
                    return Err(
                        ChunkError::Incomplete {
                            expected: session.buffer.len(),
                            got: session.offset,
                        },
                    );
                }
                assert(session.buffer@.take(session.offset as int) =~= session.buffer@);
                Ok(session.buffer)
            },
        }
    }
}

/// A session gathers its chunks in order and leaves the other sessions alone: chunks that
/// together are no longer than was declared all fit, and what is in the session at the end is
/// what they hold joined together.
pub proof fn lemma_chunks_join(
    open: Map<u64, SessionView>,
    id: u64,
    total: nat,
    chunks: Seq<Seq<u8>>,
)
    requires
        joined(chunks).len() <= total,
    ensures
        ({
            let fresh = open.insert(id, SessionView { total, written: Seq::empty() });
            &&& write_chunks(fresh, id, chunks) == open.insert(
                id,
                SessionView { total, written: joined(chunks) },
            )
            &&& forall|k: int|
                0 <= k < chunks.len() ==> (#[trigger] write_chunks(
                    fresh,
                    id,
                    chunks.take(k),
                )[id]).written.len() + chunks[k].len() <= total
        }),
    decreases chunks.len(),
{
    let fresh = open.insert(id, SessionView { total, written: Seq::empty() });
    if chunks.len() > 0 {
        let rest = chunks.drop_last();
        lemma_chunks_join(open, id, total, rest);
        assert(write_chunks(fresh, id, chunks) =~= open.insert(
            id,
            SessionView { total, written: joined(chunks) },
        ));
        assert forall|k: int| 0 <= k < chunks.len() implies (#[trigger] write_chunks(
            fresh,
            id,
            chunks.take(k),
        )[id]).written.len() + chunks[k].len() <= total by {
            if k < rest.len() {
                assert(rest.take(k) =~= chunks.take(k));
            } else {
                assert(chunks.take(k) =~= rest);
            }
        }
    }
}

/// Chunks are joined one behind the other, with nothing between them and nothing left out.
pub proof fn lemma_joined(chunks: Seq<Seq<u8>>)
    ensures
        joined(chunks) == chunks.flatten(),
{
    lemma_joined_alt(chunks);
    chunks.lemma_flatten_and_flatten_alt_are_equivalent();
}

proof fn lemma_joined_alt(chunks: Seq<Seq<u8>>)
    ensures
        joined(chunks) == chunks.flatten_alt(),
    decreases chunks.len(),
{
    if chunks.len() > 0 {
        lemma_joined_alt(chunks.drop_last());
    }
}

/// A chunk is written behind what its session holds already. The declared size stays, and so do
/// the other sessions.
pub proof fn lemma_write_chunk(open: Map<u64, SessionView>, id: u64, chunk: Seq<u8>, other: u64)
    requires
        open.contains_key(id),
    ensures
        write_chunk(open, id, chunk)[id].written == open[id].written + chunk,
        write_chunk(open, id, chunk)[id].total == open[id].total,
        write_chunk(open, id, chunk).dom() == open.dom(),
        other != id ==> write_chunk(open, id, chunk)[other] == open[other],
{
    assert(write_chunk(open, id, chunk).dom() =~= open.dom());
}

/// A session can be finalized exactly where it is open and holds as many bytes as were declared.
pub proof fn lemma_finalize_error(open: Map<u64, SessionView>, id: u64)
    ensures
        finalize_error(open, id) is None <==> open.contains_key(id) && open[id].written.len()
            == open[id].total,
        !open.contains_key(id) <==> finalize_error(open, id) == Some(ChunkError::NotOpen),
{
}

} // verus!
