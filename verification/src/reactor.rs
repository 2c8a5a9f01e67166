use crate::message::response_bytes;
use crate::message::response_message;
use std::collections::HashMap;
use vstd::prelude::*;

verus! {

broadcast use vstd::std_specs::hash::group_hash_axioms;

/// The reserved poller token of the listening socket. Connection
/// identifiers are always distinct from it.
pub const LISTENER_ID: u64 = 0;

/// Lifecycle stage of a live connection. A closed connection holds no
/// stage: closing removes it from the registry altogether.
#[derive(Clone, Copy, Debug, PartialEq, Eq, Structural)]
pub enum Stage {
    /// Accepted; awaiting or consuming input.
    Readable,
    /// Response computed; awaiting write readiness.
    PendingWrite,
}

/// One live connection: its accumulated input, and - once end-of-stream
/// was seen - the queued response and how much of it has been written.
pub struct Connection {
    /// Bytes received so far, in order of arrival.
    pub buf: Vec<u8>,
    /// The queued response; empty while the stage is `Readable`.
    pub resp: Vec<u8>,
    /// How many leading bytes of `resp` the peer has already received.
    pub written: usize,
    pub stage: Stage,
}

impl Connection {
    pub open spec fn wf(self) -> bool {
        match self.stage {
            Stage::Readable => self.resp@.len() == 0 && self.written == 0,
            Stage::PendingWrite => self.written <= self.resp@.len(),
        }
    }

    /// The suffix of the response still owed to the peer.
    pub open spec fn remaining(self) -> Seq<u8> {
        self.resp@.subrange(self.written as int, self.resp@.len() as int)
    }
}

/// Outcome of one non-blocking read call on a connection, as the caller
/// observed it.
#[derive(Debug)]
pub enum ReadOutcome {
    /// The read returned these bytes (at least one).
    Chunk(Vec<u8>),
    /// The read reported would-block: nothing more to drain for now.
    WouldBlock,
    /// The read returned zero bytes: end-of-stream.
    Eof,
    /// The read failed with any other error.
    Fatal,
}

/// What the read-drain loop should do after one read attempt.
#[derive(Clone, Copy, Debug, PartialEq, Eq, Structural)]
pub enum ReadDisposition {
    /// More input may be pending: read again.
    Continue,
    /// Drained for now: return to the poller and await the next edge.
    Await,
    /// End-of-stream: a response is queued; ask the poller for write
    /// readiness on this connection.
    Respond,
    /// The connection was closed and removed: de-register it and drop
    /// its socket.
    Closed,
}

/// Outcome of one non-blocking write call on a connection.
#[derive(Clone, Copy, Debug, PartialEq, Eq, Structural)]
pub enum WriteOutcome {
    /// This many bytes of the handed-out remainder were written.
    Wrote(usize),
    /// The write reported would-block: wait for the next write edge.
    WouldBlock,
    /// The write failed with any other error.
    Fatal,
}

/// What the write loop should do after one write attempt.
#[derive(Clone, Copy, Debug, PartialEq, Eq, Structural)]
pub enum WriteDisposition {
    /// Part of the response remains: write again.
    Progress,
    /// The whole response was delivered; the connection was closed and
    /// removed: de-register it and drop its socket.
    Done,
    /// Would-block: return to the poller, keeping the remainder queued.
    Await,
    /// The connection was closed and removed after a write error.
    Closed,
}

/// Outcome of one non-blocking accept call on the listener.
#[derive(Clone, Copy, Debug, PartialEq, Eq, Structural)]
pub enum AcceptOutcome {
    /// A new connection was accepted.
    Accepted,
    /// No more pending connections.
    WouldBlock,
    /// The accept failed with any other error.
    Fatal,
}

/// What the accept-drain loop should do after one accept attempt.
#[derive(Clone, Copy, Debug, PartialEq, Eq, Structural)]
pub enum AcceptDisposition {
    /// Register the accepted socket under this fresh identifier, for read
    /// readiness, and keep draining.
    Register(u64),
    /// The listening queue is drained: return to the poller.
    Await,
    /// The accept failed: stop draining; the server itself keeps running.
    Stop,
}

/// How to handle one readiness event, by token.
#[derive(Clone, Copy, Debug, PartialEq, Eq, Structural)]
pub enum IoAction {
    /// The event is for the listener: accept until would-block.
    DrainAccept,
    /// Read on this connection until would-block or end-of-stream.
    DrainRead(u64),
    /// Write this connection's queued response remainder.
    WriteResponse(u64),
    /// The event is stale (its connection is gone) or does not match the
    /// connection's stage: it is already handled, do nothing.
    Ignore,
}

/// The connection registry: the single owner of all live connections,
/// keyed by their identifiers. Identifiers are handed out monotonically
/// and never reused.
pub struct Registry {
    next_id: u64,
    conns: HashMap<u64, Connection>,
}

impl View for Registry {
    type V = Map<u64, Connection>;

    closed spec fn view(&self) -> Map<u64, Connection> {
        self.conns@
    }
}

/// One successful accept, as `accept_one` and `on_accept_outcome`
/// perform it: the relation between the registry before, the registry
/// after, and the identifier handed out.
pub open spec fn accept_transition(pre: Registry, post: Registry, id: u64) -> bool {
    &&& id == pre.fresh_id()
    &&& !pre@.contains_key(id)
    &&& post.fresh_id() == id + 1
    &&& post@.dom() == pre@.dom().insert(id)
    &&& forall|k: u64| #[trigger]
        pre@.contains_key(k) ==> post@.contains_key(k) && post@[k] == pre@[k]
}

impl Registry {
    /// The identifier the next accepted connection will receive.
    pub closed spec fn fresh_id(&self) -> u64 {
        self.next_id
    }

    pub closed spec fn wf(&self) -> bool {
        &&& self.next_id >= 1
        &&& forall|id: u64| #[trigger]
            self.conns@.contains_key(id) ==> LISTENER_ID < id < self.next_id
                && self.conns@[id].wf()
    }

    pub fn new() -> (r: Registry)
        ensures
            r.wf(),
            r@ == Map::<u64, Connection>::empty(),
            r.fresh_id() == 1,
    {
        Registry { next_id: 1, conns: HashMap::new() }
    }

    /// The identifier the next accepted connection will receive: what a
    /// caller checks against exhaustion before accepting.
    pub fn next_id(&self) -> (n: u64)
        ensures
            n == self.fresh_id(),
    {
        self.next_id
    }

    pub fn contains(&self, id: u64) -> (b: bool)
        ensures
            b == self@.contains_key(id),
    {
        self.conns.contains_key(&id)
    }

    /// How many connections are live.
    pub fn len(&self) -> (n: usize)
        ensures
            n == self@.dom().len(),
    {
        self.conns.len()
    }

    /// How many bytes a live connection has accumulated.
    pub fn byte_count(&self, id: u64) -> (n: usize)
        requires
            self@.contains_key(id),
        ensures
            n == self@[id].buf@.len(),
    {
        self.conns.get(&id).unwrap().buf.len()
    }

    /// Insert a fresh connection under the next identifier: the
    /// registration step of one successful accept.
    pub fn accept_one(&mut self) -> (id: u64)
        requires
            old(self).wf(),
            old(self).fresh_id() < u64::MAX,
        ensures
            final(self).wf(),
            id == old(self).fresh_id(),
            id != LISTENER_ID,
            !old(self)@.contains_key(id),
            final(self).fresh_id() == id + 1,
            final(self)@.dom() == old(self)@.dom().insert(id),
            forall|k: u64| #[trigger]
                old(self)@.contains_key(k) ==> final(self)@.contains_key(k) && final(self)@[k]
                    == old(self)@[k],
            final(self)@[id].stage == Stage::Readable,
            final(self)@[id].buf@ == Seq::<u8>::empty(),
            final(self)@[id].resp@ == Seq::<u8>::empty(),
            final(self)@[id].written == 0,
            accept_transition(*old(self), *final(self), id),
    {
        let id = self.next_id;
        self.next_id = self.next_id + 1;
        let conn = Connection { buf: Vec::new(), resp: Vec::new(), written: 0, stage: Stage::Readable };
        self.conns.insert(id, conn);
        proof {
            assert(self.conns@.dom() =~= old(self).conns@.dom().insert(id));
        }
        id
    }

    /// Feed the outcome of one accept call; on success this registers the
    /// new connection and names its identifier. The returned disposition
    /// makes the drain loop explicit: draining goes on exactly as long as
    /// accepts keep succeeding.
    pub fn on_accept_outcome(&mut self, outcome: AcceptOutcome) -> (d: AcceptDisposition)
        requires
            old(self).wf(),
            old(self).fresh_id() < u64::MAX,
        ensures
            final(self).wf(),
            outcome == AcceptOutcome::Accepted ==> {
                &&& d == AcceptDisposition::Register(old(self).fresh_id())
                &&& !old(self)@.contains_key(old(self).fresh_id())
                &&& final(self).fresh_id() == old(self).fresh_id() + 1
                &&& final(self)@.dom() == old(self)@.dom().insert(old(self).fresh_id())
                &&& forall|k: u64| #[trigger]
                    old(self)@.contains_key(k) ==> final(self)@.contains_key(k) && final(self)@[k] == old(self)@[k]
                &&& final(self)@[old(self).fresh_id()].stage == Stage::Readable
                &&& final(self)@[old(self).fresh_id()].buf@ == Seq::<u8>::empty()
                &&& accept_transition(*old(self), *final(self), old(self).fresh_id())
            },
            outcome == AcceptOutcome::WouldBlock ==> d == AcceptDisposition::Await && final(self)@
                == old(self)@ && final(self).fresh_id() == old(self).fresh_id(),
            outcome == AcceptOutcome::Fatal ==> d == AcceptDisposition::Stop && final(self)@ == old(self)@ && final(self).fresh_id() == old(self).fresh_id(),
    {
        match outcome {
            AcceptOutcome::Accepted => {
                let id = self.accept_one();
                AcceptDisposition::Register(id)
            },
            AcceptOutcome::WouldBlock => AcceptDisposition::Await,
            AcceptOutcome::Fatal => AcceptDisposition::Stop,
        }
    }

    /// Feed the outcome of one read call on connection `id`. Chunks append
    /// to the accumulation buffer; end-of-stream queues the response line
    /// computed from the accumulated byte count; a read error closes this
    /// connection alone.
    pub fn on_read_outcome(&mut self, id: u64, outcome: ReadOutcome) -> (d: ReadDisposition)
        requires
            old(self).wf(),
            old(self)@.contains_key(id),
            old(self)@[id].stage == Stage::Readable,
        ensures
            final(self).wf(),
            final(self).fresh_id() == old(self).fresh_id(),
            outcome matches ReadOutcome::Chunk(c) ==> {
                &&& d == ReadDisposition::Continue
                &&& final(self)@.dom() == old(self)@.dom()
                &&& forall|k: u64|
                    k != id && #[trigger] old(self)@.contains_key(k) ==> final(self)@[k] == old(self)@[k]
                &&& final(self)@[id].stage == Stage::Readable
                &&& final(self)@[id].buf@ == old(self)@[id].buf@ + c@
                &&& final(self)@[id].resp@ == old(self)@[id].resp@
                &&& final(self)@[id].written == old(self)@[id].written
            },
            outcome matches ReadOutcome::WouldBlock ==> d == ReadDisposition::Await && final(self)@
                == old(self)@,
            outcome matches ReadOutcome::Eof ==> {
                &&& d == ReadDisposition::Respond
                &&& final(self)@.dom() == old(self)@.dom()
                &&& forall|k: u64|
                    k != id && #[trigger] old(self)@.contains_key(k) ==> final(self)@[k] == old(self)@[k]
                &&& final(self)@[id].stage == Stage::PendingWrite
                &&& final(self)@[id].buf@ == old(self)@[id].buf@
                &&& final(self)@[id].resp@ == response_bytes(old(self)@[id].buf@.len())
                &&& final(self)@[id].written == 0
            },
            outcome matches ReadOutcome::Fatal ==> d == ReadDisposition::Closed && final(self)@
                == old(self)@.remove(id),
    {
        match outcome {
            ReadOutcome::Chunk(mut c) => {
                let mut conn = self.conns.remove(&id).unwrap();
                conn.buf.append(&mut c);
                self.conns.insert(id, conn);
                proof {
                    assert(self.conns@.dom() =~= old(self).conns@.dom());
                }
                ReadDisposition::Continue
            },
            ReadOutcome::WouldBlock => ReadDisposition::Await,
            ReadOutcome::Eof => {
                let mut conn = self.conns.remove(&id).unwrap();
                let count = conn.buf.len();
                conn.resp = response_message(count as u64);
                conn.written = 0;
                conn.stage = Stage::PendingWrite;
                self.conns.insert(id, conn);
                proof {
                    assert(self.conns@.dom() =~= old(self).conns@.dom());
                }
                ReadDisposition::Respond
            },
            ReadOutcome::Fatal => {
                self.conns.remove(&id);
                ReadDisposition::Closed
            },
        }
    }

    /// The bytes of the queued response still owed to connection `id`:
    /// what the next write call should try to send.
    pub fn pending_bytes(&self, id: u64) -> (v: Vec<u8>)
        requires
            self.wf(),
            self@.contains_key(id),
            self@[id].stage == Stage::PendingWrite,
        ensures
            v@ == self@[id].remaining(),
    {
        let conn = self.conns.get(&id).unwrap();
        let mut v: Vec<u8> = Vec::new();
        let mut i: usize = conn.written;
        while i < conn.resp.len()
            invariant
                self@.contains_key(id),
                *conn == self@[id],
                self@[id].written <= i <= conn.resp@.len(),
                v@ == conn.resp@.subrange(self@[id].written as int, i as int),
            decreases conn.resp@.len() - i,
        {
            let b = conn.resp[i];
            v.push(b);
            i = i + 1;
            proof {
                assert(conn.resp@.subrange(self@[id].written as int, i as int) =~= conn.resp@
                    .subrange(self@[id].written as int, i - 1).push(b));
            }
        }
        v
    }

    /// Feed the outcome of one write call on connection `id`, which must
    /// have tried to send a prefix of `pending_bytes`. Progress advances
    /// the written count; once the whole response is delivered - and only
    /// then - the connection closes and leaves the registry. A partial
    /// write therefore keeps the remainder queued instead of dropping it.
    pub fn on_write_outcome(&mut self, id: u64, outcome: WriteOutcome) -> (d: WriteDisposition)
        requires
            old(self).wf(),
            old(self)@.contains_key(id),
            old(self)@[id].stage == Stage::PendingWrite,
            outcome matches WriteOutcome::Wrote(n) ==> n <= old(self)@[id].remaining().len(),
        ensures
            final(self).wf(),
            final(self).fresh_id() == old(self).fresh_id(),
            outcome matches WriteOutcome::Wrote(n) ==> {
                &&& (old(self)@[id].written + n == old(self)@[id].resp@.len() ==> d
                    == WriteDisposition::Done && final(self)@ == old(self)@.remove(id))
                &&& (old(self)@[id].written + n < old(self)@[id].resp@.len() ==> {
                    &&& d == WriteDisposition::Progress
                    &&& final(self)@.dom() == old(self)@.dom()
                    &&& forall|k: u64|
                        k != id && #[trigger] old(self)@.contains_key(k) ==> final(self)@[k]
                            == old(self)@[k]
                    &&& final(self)@[id].stage == Stage::PendingWrite
                    &&& final(self)@[id].buf@ == old(self)@[id].buf@
                    &&& final(self)@[id].resp@ == old(self)@[id].resp@
                    &&& final(self)@[id].written == old(self)@[id].written + n
                })
            },
            outcome matches WriteOutcome::WouldBlock ==> d == WriteDisposition::Await && final(self)@ == old(self)@,
            outcome matches WriteOutcome::Fatal ==> d == WriteDisposition::Closed && final(self)@
                == old(self)@.remove(id),
    {
        match outcome {
            WriteOutcome::Wrote(n) => {
                let mut conn = self.conns.remove(&id).unwrap();
                let cap = conn.resp.len();
                proof {
                    assert(conn.written + n <= cap);
                }
                conn.written = conn.written + n;
                if conn.written == cap {
                    WriteDisposition::Done
                } else {
                    self.conns.insert(id, conn);
                    proof {
                        assert(self.conns@.dom() =~= old(self).conns@.dom());
                    }
                    WriteDisposition::Progress
                }
            },
            WriteOutcome::WouldBlock => WriteDisposition::Await,
            WriteOutcome::Fatal => {
                self.conns.remove(&id);
                WriteDisposition::Closed
            },
        }
    }

    /// Close a connection: remove it from the registry, whether or not it
    /// is (still) present. Closing an already-closed connection changes
    /// nothing - removal happens exactly once.
    pub fn close(&mut self, id: u64)
        requires
            old(self).wf(),
        ensures
            final(self).wf(),
            final(self).fresh_id() == old(self).fresh_id(),
            final(self)@ == old(self)@.remove(id),
            !final(self)@.contains_key(id),
    {
        self.conns.remove(&id);
    }

    /// Classify one readiness event into the action the reactor takes for
    /// it: the dispatch step of the reactor loop. An event whose token is
    /// no longer registered - its connection was closed - is ignored, as
    /// is one that does not match its connection's stage.
    pub fn classify(&self, token: u64, readable: bool, writable: bool) -> (a: IoAction)
        requires
            self.wf(),
        ensures
            token == LISTENER_ID ==> a == IoAction::DrainAccept,
            token != LISTENER_ID && !self@.contains_key(token) ==> a == IoAction::Ignore,
            token != LISTENER_ID && self@.contains_key(token) && self@[token].stage
                == Stage::Readable ==> a == (if readable {
                IoAction::DrainRead(token)
            } else {
                IoAction::Ignore
            }),
            token != LISTENER_ID && self@.contains_key(token) && self@[token].stage
                == Stage::PendingWrite ==> a == (if writable {
                IoAction::WriteResponse(token)
            } else {
                IoAction::Ignore
            }),
    {
        if token == LISTENER_ID {
            return IoAction::DrainAccept;
        }
        match self.conns.get(&token) {
            None => IoAction::Ignore,
            Some(conn) => {
                if conn.stage == Stage::Readable {
                    if readable {
                        IoAction::DrainRead(token)
                    } else {
                        IoAction::Ignore
                    }
                } else {
                    if writable {
                        IoAction::WriteResponse(token)
                    } else {
                        IoAction::Ignore
                    }
                }
            },
        }
    }
}

/// A live identifier always lies strictly between the listener's
/// reserved identifier and the next fresh one: a fresh identifier can
/// never collide with the listener or with any live connection, so an
/// identifier is never reused while its connection could still see
/// events.
pub proof fn lemma_live_ids_are_old(r: Registry, id: u64)
    requires
        r.wf(),
        r@.contains_key(id),
    ensures
        LISTENER_ID < id < r.fresh_id(),
{
}

/// An accept-drain of any length accepts every pending connection: after
/// `n` successful accepts in a row, the `n` identifiers handed out are
/// consecutive - so pairwise distinct - and all live, and every
/// connection that was live before is still live and unchanged.
pub proof fn lemma_accept_drain_accepts_all(rs: Seq<Registry>, ids: Seq<u64>)
    requires
        rs.len() == ids.len() + 1,
        forall|i: int| 0 <= i < ids.len() ==> #[trigger] accept_transition(rs[i], rs[i + 1], ids[i]),
    ensures
        rs.last().fresh_id() as int == rs.first().fresh_id() as int + ids.len(),
        forall|i: int| 0 <= i < ids.len() ==> ids[i] as int == rs.first().fresh_id() as int + i,
        forall|i: int, j: int| 0 <= i < j < ids.len() ==> ids[i] != ids[j],
        forall|i: int| 0 <= i < ids.len() ==> rs.last()@.contains_key(#[trigger] ids[i]),
        forall|k: u64| #[trigger]
            rs.first()@.contains_key(k) ==> rs.last()@.contains_key(k) && rs.last()@[k]
                == rs.first()@[k],
    decreases ids.len(),
{
    if ids.len() == 0 {
        assert(rs.last() == rs.first());
    } else {
        let n = ids.len() as int;
        let rs0 = rs.drop_last();
        let ids0 = ids.drop_last();
        assert forall|i: int| 0 <= i < ids0.len() implies #[trigger] accept_transition(
            rs0[i],
            rs0[i + 1],
            ids0[i],
        ) by {
            assert(accept_transition(rs[i], rs[i + 1], ids[i]));
        }
        lemma_accept_drain_accepts_all(rs0, ids0);
        assert(accept_transition(rs[n - 1], rs[n], ids[n - 1]));
        assert(rs0.last() == rs[n - 1]);
        assert(rs.last() == rs[n]);
        assert forall|i: int| 0 <= i < n implies ids[i] as int == rs.first().fresh_id() as int
            + i by {
            if i < n - 1 {
                assert(ids0[i] as int == rs0.first().fresh_id() as int + i);
                assert(ids0[i] == ids[i]);
            } else {
                assert(rs0.last().fresh_id() as int == rs0.first().fresh_id() as int + (n - 1));
            }
        }
        assert forall|i: int, j: int| 0 <= i < j < n implies ids[i] != ids[j] by {
            assert(ids[i] as int == rs.first().fresh_id() as int + i);
            assert(ids[j] as int == rs.first().fresh_id() as int + j);
        }
        assert forall|i: int| 0 <= i < n implies rs.last()@.contains_key(#[trigger] ids[i]) by {
            if i < n - 1 {
                assert(rs0.last()@.contains_key(ids0[i]));
            } else {
                assert(rs[n]@.dom() == rs[n - 1]@.dom().insert(ids[n - 1]));
            }
        }
    }
}

/// The accumulation buffer after the read-drain appends a sequence of
/// chunks, in order, as `on_read_outcome` appends each one.
pub open spec fn buf_after_chunks(init: Seq<u8>, chunks: Seq<Seq<u8>>) -> Seq<u8>
    decreases chunks.len(),
{
    if chunks.len() == 0 {
        init
    } else {
        buf_after_chunks(init + chunks.first(), chunks.drop_first())
    }
}

/// The sum of the lengths of a sequence of chunks.
pub open spec fn total_len(chunks: Seq<Seq<u8>>) -> nat
    decreases chunks.len(),
{
    if chunks.len() == 0 {
        0
    } else {
        chunks.first().len() + total_len(chunks.drop_first())
    }
}

proof fn lemma_buf_after_chunks_unfold(init: Seq<u8>, chunks: Seq<Seq<u8>>)
    ensures
        buf_after_chunks(init, chunks) == init + chunks.flatten(),
        buf_after_chunks(init, chunks).len() == init.len() + total_len(chunks),
    decreases chunks.len(),
{
    if chunks.len() == 0 {
        assert(chunks.flatten() == Seq::<u8>::empty());
        assert(init + chunks.flatten() =~= init);
    } else {
        lemma_buf_after_chunks_unfold(init + chunks.first(), chunks.drop_first());
        assert((init + chunks.first()) + chunks.drop_first().flatten() =~= init + (chunks.first()
            + chunks.drop_first().flatten()));
    }
}

/// However the transport chunks a peer's bytes into separate reads, a
/// buffer accumulated from those chunks is exactly their concatenation,
/// and its length - the byte count the response reports - is the exact
/// sum of the chunk lengths.
pub proof fn lemma_read_drain_count(chunks: Seq<Seq<u8>>)
    ensures
        buf_after_chunks(Seq::<u8>::empty(), chunks) == chunks.flatten(),
        buf_after_chunks(Seq::<u8>::empty(), chunks).len() == total_len(chunks),
{
    lemma_buf_after_chunks_unfold(Seq::<u8>::empty(), chunks);
    assert(Seq::<u8>::empty() + chunks.flatten() =~= chunks.flatten());
}

/// One appended chunk, as `on_read_outcome` performs it for a `Chunk`
/// outcome on connection `id`.
pub open spec fn read_chunk_transition(pre: Registry, post: Registry, id: u64, c: Seq<u8>) -> bool {
    &&& pre@.contains_key(id)
    &&& post@.contains_key(id)
    &&& post@[id].buf@ == pre@[id].buf@ + c
}

/// A whole read-drain accumulates exactly what was sent: a connection
/// that starts with an empty buffer and receives its peer's bytes in
/// any number of separate chunks ends with their concatenation, so the
/// byte count its response reports is the exact sum of the chunk
/// lengths, however the transport split them.
pub proof fn lemma_chunked_reads_accumulate(rs: Seq<Registry>, id: u64, chunks: Seq<Seq<u8>>)
    requires
        rs.len() == chunks.len() + 1,
        rs.first()@.contains_key(id),
        rs.first()@[id].buf@ == Seq::<u8>::empty(),
        forall|i: int| 0 <= i < chunks.len() ==> #[trigger] read_chunk_transition(
            rs[i],
            rs[i + 1],
            id,
            chunks[i],
        ),
    ensures
        rs.last()@[id].buf@ == chunks.flatten(),
        rs.last()@[id].buf@.len() == total_len(chunks),
    decreases chunks.len(),
{
    if chunks.len() == 0 {
        assert(rs.last() == rs.first());
        assert(chunks.flatten() == Seq::<u8>::empty());
    } else {
        let n = chunks.len() as int;
        let rs0 = rs.drop_last();
        let chunks0 = chunks.drop_last();
        assert forall|i: int| 0 <= i < chunks0.len() implies #[trigger] read_chunk_transition(
            rs0[i],
            rs0[i + 1],
            id,
            chunks0[i],
        ) by {
            assert(read_chunk_transition(rs[i], rs[i + 1], id, chunks[i]));
        }
        lemma_chunked_reads_accumulate(rs0, id, chunks0);
        assert(read_chunk_transition(rs[n - 1], rs[n], id, chunks[n - 1]));
        assert(rs0.last() == rs[n - 1]);
        assert(rs.last() == rs[n]);
        chunks.lemma_flatten_and_flatten_alt_are_equivalent();
        chunks0.lemma_flatten_and_flatten_alt_are_equivalent();
        assert(chunks.flatten_alt() == chunks0.flatten_alt() + chunks.last());
        lemma_buf_after_chunks_unfold(Seq::<u8>::empty(), chunks);
        lemma_buf_after_chunks_unfold(Seq::<u8>::empty(), chunks0);
        assert(Seq::<u8>::empty() + chunks.flatten() =~= chunks.flatten());
        assert(Seq::<u8>::empty() + chunks0.flatten() =~= chunks0.flatten());
    }
}

/// Closing removes a connection exactly once: after `close(id)` the
/// identifier is gone, and closing it again - as `close` would - changes
/// nothing at all.
pub proof fn lemma_close_exactly_once(m: Map<u64, Connection>, id: u64)
    ensures
        !m.remove(id).contains_key(id),
        m.remove(id).remove(id) == m.remove(id),
{
    assert(m.remove(id).remove(id) =~= m.remove(id));
}

/// A partial write loses no bytes: when `n` more bytes of the pending
/// remainder are written, the delivered prefix of the response grows by
/// exactly the first `n` bytes of that remainder - so the pieces written
/// across any number of write calls concatenate to the full response,
/// never to a truncated one.
pub proof fn lemma_partial_write_delivers_prefix(c: Connection, n: nat)
    requires
        c.wf(),
        c.stage == Stage::PendingWrite,
        n <= c.remaining().len(),
    ensures
        c.resp@.take(c.written + n) == c.resp@.take(c.written as int) + c.remaining().take(n as int),
{
    assert(c.resp@.take(c.written + n) =~= c.resp@.take(c.written as int) + c.remaining().take(
        n as int,
    ));
}

} // verus!
