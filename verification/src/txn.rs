//! Per-transaction read and write sub-states and the intent transition
//! function.
//!
//! A transaction tracks its read side and its write side independently.
//! After each handler invocation the handler's declared interest (its
//! `Intent`) is applied to both sides by a pure transition function; the
//! transaction resolves once both sides are terminal, reporting `KeepAlive`
//! only when both sides independently reached `KeepAlive`.

use vstd::prelude::*;
use crate::framing::{Decoder, Encoder, last_chunk, min3, chunk_frame, spec_chunked_run};
use crate::channel::ByteChannel;
use crate::head::{MessageHead, ResponseHead, negotiate_keep_alive, spec_keep_alive};
use crate::codec::{encode_head, encoder_for, response_head_bytes};

verus! {

/// The handler's declared interest after an invocation.
#[derive(Clone, Copy, PartialEq, Eq, Structural, Debug)]
pub enum Interest {
    Read,
    Write,
    ReadWrite,
    Wait,
    End,
    Remove,
}

/// An interest together with an advisory timeout hint, which an external
/// timer component may enforce; this engine only carries it.
#[derive(Clone, Copy, PartialEq, Eq, Structural, Debug)]
pub struct Intent {
    pub interest: Interest,
    pub timeout_ms: Option<u64>,
}

impl Intent {
    pub fn read() -> (i: Intent)
        ensures i.interest == Interest::Read, i.timeout_ms is None,
    {
        Intent { interest: Interest::Read, timeout_ms: None }
    }

    pub fn write() -> (i: Intent)
        ensures i.interest == Interest::Write, i.timeout_ms is None,
    {
        Intent { interest: Interest::Write, timeout_ms: None }
    }

    pub fn read_write() -> (i: Intent)
        ensures i.interest == Interest::ReadWrite, i.timeout_ms is None,
    {
        Intent { interest: Interest::ReadWrite, timeout_ms: None }
    }

    pub fn wait() -> (i: Intent)
        ensures i.interest == Interest::Wait, i.timeout_ms is None,
    {
        Intent { interest: Interest::Wait, timeout_ms: None }
    }

    pub fn end() -> (i: Intent)
        ensures i.interest == Interest::End, i.timeout_ms is None,
    {
        Intent { interest: Interest::End, timeout_ms: None }
    }

    pub fn remove() -> (i: Intent)
        ensures i.interest == Interest::Remove, i.timeout_ms is None,
    {
        Intent { interest: Interest::Remove, timeout_ms: None }
    }
}

/// How one finished transaction leaves the connection.
#[derive(Clone, Copy, PartialEq, Eq, Structural, Debug)]
pub enum TxnResult {
    KeepAlive,
    Close,
}

/// The read side of a transaction.
#[derive(Clone, Copy, PartialEq, Eq, Structural, Debug)]
pub enum ReadState {
    /// Nothing read yet.
    Init,
    /// The head is being assembled (or was just handed over).
    Parsing,
    /// The body is being streamed through a decoder.
    Body(Decoder),
    /// The body is not fully consumed but the handler is not reading.
    Waiting(Decoder),
    /// The body was fully consumed; the read side is reusable.
    KeepAlive,
    /// The read side is not reusable.
    Closed,
}

/// A pending write artifact: buffered framing or head bytes that must drain
/// fully, byte for byte and in order, before any later intent applies to the
/// write side.  `next` holds the encoder to resume with and the most recent
/// intent issued while draining.
pub struct Chunk {
    pub buf: Vec<u8>,
    pub pos: usize,
    pub next_encoder: Encoder,
    pub next_interest: Interest,
}

/// The mathematical value of a write artifact.
pub ghost struct ChunkView {
    pub buf: Seq<u8>,
    pub pos: int,
    pub next_encoder: Encoder,
    pub next_interest: Interest,
}

impl ChunkView {
    pub open spec fn wf(self) -> bool {
        0 <= self.pos <= self.buf.len()
    }

    pub open spec fn is_written(self) -> bool {
        self.pos == self.buf.len()
    }
}

impl View for Chunk {
    type V = ChunkView;

    open spec fn view(&self) -> ChunkView {
        ChunkView {
            buf: self.buf@,
            pos: self.pos as int,
            next_encoder: self.next_encoder,
            next_interest: self.next_interest,
        }
    }
}

impl Chunk {
    pub fn is_written(&self) -> (r: bool)
        ensures r == self@.is_written(),
    {
        self.pos == self.buf.len()
    }

    /// Writes as much of the remaining buffered bytes as the sink accepts.
    /// The bytes appended to the channel are exactly `buf[pos..pos+n]`.
    pub fn drain(&mut self, chan: &mut ByteChannel) -> (n: usize)
        requires
            old(self)@.wf(),
            old(chan).outgoing@.len() + old(self).buf@.len() <= usize::MAX,
        ensures
            final(self)@.wf(),
            n == min2(old(self)@.buf.len() - old(self)@.pos, old(chan).capacity as int),
            final(self)@.pos == old(self)@.pos + n,
            final(self)@.buf == old(self)@.buf,
            final(self)@.next_encoder == old(self)@.next_encoder,
            final(self)@.next_interest == old(self)@.next_interest,
            final(chan).outgoing@ == old(chan).outgoing@
                + old(self)@.buf.subrange(old(self)@.pos, old(self)@.pos + n),
            final(chan).capacity == old(chan).capacity - n,
            final(chan).incoming@ == old(chan).incoming@,
            final(chan).eof == old(chan).eof,
    {
        let n = chan.write_range(&self.buf, self.pos, self.buf.len());
        self.pos = self.pos + n;
        n
    }
}

pub open spec fn min2(a: int, b: int) -> int {
    if a <= b { a } else { b }
}

/// The write side of a transaction.
pub enum WriteState {
    /// Nothing written yet; no response head given.
    Init,
    /// The head is being assembled.
    Head,
    /// The body is being streamed through an encoder.
    Ready(Encoder),
    /// The body is not finished but the handler is not writing.
    Waiting(Encoder),
    /// A pending artifact must drain before anything else happens.
    Chunk(Chunk),
    /// The body was fully framed; the write side is reusable.
    KeepAlive,
    /// The write side is not reusable.
    Closed,
}

/// The mathematical value of the write side.
pub ghost enum WriteView {
    Init,
    Head,
    Ready(Encoder),
    Waiting(Encoder),
    Chunk(ChunkView),
    KeepAlive,
    Closed,
}

impl View for WriteState {
    type V = WriteView;

    open spec fn view(&self) -> WriteView {
        match self {
            WriteState::Init => WriteView::Init,
            WriteState::Head => WriteView::Head,
            WriteState::Ready(e) => WriteView::Ready(*e),
            WriteState::Waiting(e) => WriteView::Waiting(*e),
            WriteState::Chunk(c) => WriteView::Chunk(c@),
            WriteState::KeepAlive => WriteView::KeepAlive,
            WriteState::Closed => WriteView::Closed,
        }
    }
}

impl WriteView {
    pub open spec fn wf(self) -> bool {
        match self {
            WriteView::Chunk(c) => c.wf(),
            _ => true,
        }
    }
}

pub open spec fn read_terminal(r: ReadState) -> bool {
    r is KeepAlive || r is Closed
}

pub open spec fn write_terminal(w: WriteView) -> bool {
    w is KeepAlive || w is Closed
}

/// The effect of an intent on the read side.
pub open spec fn spec_read_effect(i: Interest, r: ReadState, keep_alive: bool) -> ReadState {
    match i {
        Interest::Read | Interest::ReadWrite => match r {
            ReadState::Init => ReadState::Parsing,
            ReadState::Waiting(d) => ReadState::Body(d),
            _ => r,
        },
        Interest::Write => match r {
            ReadState::Body(d) => {
                if d.spec_is_closed() {
                    ReadState::Closed
                } else if d.spec_is_eof() {
                    if keep_alive { ReadState::KeepAlive } else { ReadState::Closed }
                } else {
                    ReadState::Waiting(d)
                }
            },
            _ => r,
        },
        Interest::Wait => match r {
            ReadState::Body(d) => ReadState::Waiting(d),
            _ => r,
        },
        Interest::End => match r {
            ReadState::Body(d) | ReadState::Waiting(d) => {
                if !d.spec_is_closed() && d.spec_is_eof() && keep_alive {
                    ReadState::KeepAlive
                } else {
                    ReadState::Closed
                }
            },
            ReadState::KeepAlive => ReadState::KeepAlive,
            _ => ReadState::Closed,
        },
        Interest::Remove => ReadState::Closed,
    }
}

/// Resolves an encoder once the handler stops writing: reusable if the body
/// was fully framed; a chunked body still owes its terminating artifact; a
/// close-delimited body closes the side.
pub open spec fn spec_resolve_encoder(e: Encoder, keep_alive: bool, after: Interest) -> WriteView {
    if e.spec_is_eof() {
        if keep_alive { WriteView::KeepAlive } else { WriteView::Closed }
    } else if e is Chunked {
        WriteView::Chunk(ChunkView {
            buf: last_chunk(),
            pos: 0,
            next_encoder: Encoder::Length(0),
            next_interest: after,
        })
    } else {
        WriteView::Closed
    }
}

/// The effect of an intent on the write side.  While a chunk artifact is not
/// fully drained, every intent other than `Remove` is only recorded in the
/// artifact's `next` slot.
pub open spec fn spec_write_effect(i: Interest, w: WriteView, keep_alive: bool) -> WriteView {
    match w {
        WriteView::Chunk(c) => {
            if i is Remove {
                WriteView::Closed
            } else if !c.is_written() {
                WriteView::Chunk(ChunkView { next_interest: i, ..c })
            } else {
                spec_write_effect_plain(i, WriteView::Ready(c.next_encoder), keep_alive)
            }
        },
        _ => spec_write_effect_plain(i, w, keep_alive),
    }
}

/// The write-side table for the chunk-free states.
pub open spec fn spec_write_effect_plain(i: Interest, w: WriteView, keep_alive: bool) -> WriteView {
    match i {
        Interest::Read => match w {
            WriteView::Ready(e) => {
                if e.spec_is_eof() {
                    if keep_alive { WriteView::KeepAlive } else { WriteView::Closed }
                } else if e.spec_is_closed() {
                    WriteView::Closed
                } else {
                    WriteView::Waiting(e)
                }
            },
            _ => w,
        },
        Interest::Write | Interest::ReadWrite => match w {
            WriteView::Waiting(e) => WriteView::Ready(e),
            WriteView::Init => WriteView::Head,
            _ => w,
        },
        Interest::Wait => match w {
            WriteView::Ready(e) => WriteView::Waiting(e),
            _ => w,
        },
        Interest::End => match w {
            WriteView::Ready(e) | WriteView::Waiting(e) => spec_resolve_encoder(e, keep_alive, Interest::End),
            WriteView::KeepAlive => WriteView::KeepAlive,
            _ => WriteView::Closed,
        },
        Interest::Remove => WriteView::Closed,
    }
}

/// The verdict of a finished transaction: `KeepAlive` exactly when both
/// sides independently reached `KeepAlive` and persistence is negotiated;
/// `None` while either side is unresolved.
pub open spec fn spec_outcome(r: ReadState, w: WriteView, keep_alive: bool) -> Option<TxnResult> {
    if read_terminal(r) && write_terminal(w) {
        if r is KeepAlive && w is KeepAlive && keep_alive {
            Some(TxnResult::KeepAlive)
        } else {
            Some(TxnResult::Close)
        }
    } else {
        None
    }
}

/// Terminal sides yield `KeepAlive` exactly when both sides are
/// `KeepAlive`; every other terminal combination yields `Close`.  The
/// premise — a side reaches `KeepAlive` only under negotiated persistence —
/// holds of every transaction this engine builds, by
/// `lemma_keep_alive_only_when_negotiated`.
pub proof fn lemma_outcome_keep_alive_iff(r: ReadState, w: WriteView, keep_alive: bool)
    requires
        (r is KeepAlive || w is KeepAlive) ==> keep_alive,
    ensures
        spec_outcome(r, w, keep_alive) == Some(TxnResult::KeepAlive)
            <==> (r is KeepAlive && w is KeepAlive),
        (read_terminal(r) && write_terminal(w) && !(r is KeepAlive && w is KeepAlive))
            ==> spec_outcome(r, w, keep_alive) == Some(TxnResult::Close),
        spec_outcome(r, w, keep_alive) is None <==> !(read_terminal(r) && write_terminal(w)),
{
}

/// The transition functions produce a `KeepAlive` side only when
/// persistence is negotiated.
pub proof fn lemma_keep_alive_only_when_negotiated(i: Interest, r: ReadState, w: WriteView, keep_alive: bool)
    ensures
        spec_read_effect(i, r, keep_alive) is KeepAlive ==> (keep_alive || r is KeepAlive),
        spec_write_effect(i, w, keep_alive) is KeepAlive ==> (keep_alive || w is KeepAlive),
{
}

/// A framing tracker that forces close keeps its side from ever resolving
/// reusable: with a closed decoder or encoder, no intent yields
/// `KeepAlive`, even when the side is otherwise at its end.
pub proof fn lemma_closed_framing_forces_close(i: Interest, d: Decoder, e: Encoder, keep_alive: bool)
    requires
        d.spec_is_closed(),
        e.spec_is_closed(),
    ensures
        !(spec_read_effect(i, ReadState::Body(d), keep_alive) is KeepAlive),
        !(spec_read_effect(i, ReadState::Waiting(d), keep_alive) is KeepAlive),
        !(spec_write_effect(i, WriteView::Ready(e), keep_alive) is KeepAlive),
        !(spec_write_effect(i, WriteView::Waiting(e), keep_alive) is KeepAlive),
{
}

/// A chunk artifact that is not fully drained swallows every later intent
/// except `Remove`: the buffered bytes and the cursor stay exactly as they
/// are, and only the recorded next intent changes.
pub proof fn lemma_chunk_drains_before_intents(i: Interest, c: ChunkView, keep_alive: bool)
    requires
        !c.is_written(),
        !(i is Remove),
    ensures
        spec_write_effect(i, WriteView::Chunk(c), keep_alive)
            == WriteView::Chunk(ChunkView { next_interest: i, ..c }),
{
}

fn resolve_encoder(e: Encoder, keep_alive: bool, after: Interest) -> (w: WriteState)
    ensures
        w@ == spec_resolve_encoder(e, keep_alive, after),
        w@.wf(),
{
    if e.is_eof() {
        if keep_alive { WriteState::KeepAlive } else { WriteState::Closed }
    } else {
        match e.finish() {
            Some(buf) => {
                WriteState::Chunk(Chunk { buf, pos: 0, next_encoder: Encoder::Length(0), next_interest: after })
            },
            None => WriteState::Closed,
        }
    }
}

/// Applies an intent to the read side; the executable twin of
/// `spec_read_effect`.
pub fn read_effect(i: Interest, r: ReadState, keep_alive: bool) -> (r2: ReadState)
    ensures
        r2 == spec_read_effect(i, r, keep_alive),
{
    match i {
        Interest::Read | Interest::ReadWrite => match r {
            ReadState::Init => ReadState::Parsing,
            ReadState::Waiting(d) => ReadState::Body(d),
            _ => r,
        },
        Interest::Write => match r {
            ReadState::Body(d) => {
                if d.is_closed() {
                    ReadState::Closed
                } else if d.is_eof() {
                    if keep_alive { ReadState::KeepAlive } else { ReadState::Closed }
                } else {
                    ReadState::Waiting(d)
                }
            },
            _ => r,
        },
        Interest::Wait => match r {
            ReadState::Body(d) => ReadState::Waiting(d),
            _ => r,
        },
        Interest::End => match r {
            ReadState::Body(d) | ReadState::Waiting(d) => {
                if !d.is_closed() && d.is_eof() && keep_alive {
                    ReadState::KeepAlive
                } else {
                    ReadState::Closed
                }
            },
            ReadState::KeepAlive => ReadState::KeepAlive,
            _ => ReadState::Closed,
        },
        Interest::Remove => ReadState::Closed,
    }
}

/// Applies an intent to the write side; the executable twin of
/// `spec_write_effect`.
pub fn write_effect(i: Interest, w: WriteState, keep_alive: bool) -> (w2: WriteState)
    requires
        w@.wf(),
    ensures
        w2@ == spec_write_effect(i, w@, keep_alive),
        w2@.wf(),
{
    match w {
        WriteState::Chunk(c) => {
            if matches!(i, Interest::Remove) {
                WriteState::Closed
            } else if !c.is_written() {
                WriteState::Chunk(Chunk { buf: c.buf, pos: c.pos, next_encoder: c.next_encoder, next_interest: i })
            } else {
                write_effect_plain(i, WriteState::Ready(c.next_encoder), keep_alive)
            }
        },
        _ => write_effect_plain(i, w, keep_alive),
    }
}

/// The errors a transaction cursor reports.
#[derive(Clone, Copy, PartialEq, Eq, Structural, Debug)]
pub enum Error {
    /// The message head could not be parsed.
    Parse,
    /// The peer's body bytes violate the declared framing.
    Frame,
    /// The operation does not apply in the current state.
    State,
    /// Nothing is available right now; the call would have to block.
    /// Distinct from a successful empty read, which means the body ended.
    WouldBlock,
}

/// The live cursor a handler is invoked with: the parsed head (or the parse
/// error) on first delivery, non-blocking read access to the remaining body,
/// non-blocking write access to the response head and body, and the explicit
/// end signal.
pub struct Transaction {
    /// The head slot, consumed by the first `incoming` call.
    pub head: Option<Result<MessageHead, Error>>,
    /// The byte channel, owned for the duration of the invocation.
    pub chan: ByteChannel,
    pub reading: ReadState,
    pub writing: WriteState,
    /// The body decoder, pending until reading enters `Body`.
    pub body_decoder: Option<Decoder>,
    /// False once a response head declared `Connection: close`.
    pub resp_keep_alive: bool,
    /// The explicit end-transaction signal.
    pub ended: bool,
}

impl Transaction {
    pub open spec fn wf(&self) -> bool {
        self.writing@.wf()
    }
}

/// What any handler invocation may do to the cursor: shrink the buffered
/// input from the front, only append output, only spend sink capacity, never
/// touch end-of-stream, never raise a side to `KeepAlive` on its own, never
/// take back a declared `Connection: close` or the end signal, only consume
/// (never plant or alter) the head and decoder slots, move the read side
/// only into or within `Body`, and never bypass a pending write artifact:
/// its bytes reach the output intact and in order before anything else.
pub open spec fn txn_evolves(pre: Transaction, post: Transaction) -> bool {
    &&& post.wf()
    &&& (exists|k: int| 0 <= k <= pre.chan.incoming@.len()
            && post.chan.incoming@ == pre.chan.incoming@.skip(k))
    &&& (exists|s: Seq<u8>| post.chan.outgoing@ == pre.chan.outgoing@ + s)
    &&& post.chan.capacity <= pre.chan.capacity
    &&& post.chan.eof == pre.chan.eof
    &&& (post.resp_keep_alive ==> pre.resp_keep_alive)
    &&& (post.reading is KeepAlive ==> pre.reading is KeepAlive)
    &&& (post.writing@ is KeepAlive ==> pre.writing@ is KeepAlive)
    &&& (post.head is Some ==> post.head == pre.head)
    &&& (post.body_decoder is Some ==> post.body_decoder == pre.body_decoder)
    &&& (pre.ended ==> post.ended)
    &&& (post.reading == pre.reading
            || (post.reading is Body
                && (pre.reading is Init || pre.reading is Parsing
                    || pre.reading is Waiting || pre.reading is Body)))
    &&& (pre.writing@ matches WriteView::Chunk(c) ==> ({
            let base = pre.chan.outgoing@.len() as int;
            ||| (post.writing@ matches WriteView::Chunk(c2)
                    && c2.buf == c.buf && c.pos <= c2.pos <= c.buf.len()
                    && c2.next_encoder == c.next_encoder
                    && post.chan.outgoing@ == pre.chan.outgoing@ + c.buf.subrange(c.pos, c2.pos))
            ||| (post.chan.outgoing@.len() >= base + (c.buf.len() - c.pos)
                    && (forall|j: int| 0 <= j < c.buf.len() - c.pos
                        ==> #[trigger] post.chan.outgoing@[base + j] == c.buf[c.pos + j]))
        }))
}

/// A cursor step that leaves the channel, the two sides, and the end signal
/// exactly as they were evolves.
proof fn lemma_evolves_same_channel(pre: Transaction, post: Transaction)
    requires
        post.wf(),
        post.chan == pre.chan,
        post.reading == pre.reading,
        post.writing@ == pre.writing@,
        post.resp_keep_alive ==> pre.resp_keep_alive,
        post.head is Some ==> post.head == pre.head,
        post.body_decoder is Some ==> post.body_decoder == pre.body_decoder,
        pre.ended ==> post.ended,
    ensures
        txn_evolves(pre, post),
{
    assert(post.chan.incoming@ =~= pre.chan.incoming@.skip(0));
    assert(post.chan.outgoing@ =~= pre.chan.outgoing@ + Seq::<u8>::empty());
    match pre.writing@ {
        WriteView::Chunk(c) => {
            assert(post.chan.outgoing@ =~= pre.chan.outgoing@ + c.buf.subrange(c.pos, c.pos));
        },
        _ => {},
    }
}

pub proof fn lemma_txn_evolves_refl(t: Transaction)
    requires
        t.wf(),
    ensures
        txn_evolves(t, t),
{
    lemma_evolves_same_channel(t, t);
}

/// When one step kept an artifact (partially drained) and the next step
/// flushed the rest, the whole artifact's bytes stand in order at the
/// original offset.
proof fn lemma_artifact_flush_composes(
    a: Transaction, b: Transaction, c: Transaction,
    ca: ChunkView, cb: ChunkView, s2: Seq<u8>,
)
    requires
        b.writing@ == WriteView::Chunk(cb),
        cb.buf == ca.buf,
        0 <= ca.pos <= cb.pos <= ca.buf.len(),
        b.chan.outgoing@ == a.chan.outgoing@ + ca.buf.subrange(ca.pos, cb.pos),
        c.chan.outgoing@ == b.chan.outgoing@ + s2,
        c.chan.outgoing@.len() >= b.chan.outgoing@.len() + (cb.buf.len() - cb.pos),
        forall|j: int| 0 <= j < cb.buf.len() - cb.pos
            ==> #[trigger] c.chan.outgoing@[b.chan.outgoing@.len() + j] == cb.buf[cb.pos + j],
    ensures
        c.chan.outgoing@.len() >= a.chan.outgoing@.len() + (ca.buf.len() - ca.pos),
        forall|j: int| 0 <= j < ca.buf.len() - ca.pos
            ==> #[trigger] c.chan.outgoing@[a.chan.outgoing@.len() + j] == ca.buf[ca.pos + j],
{
    let base = a.chan.outgoing@.len() as int;
    let mid = b.chan.outgoing@.len() as int;
    let d = cb.pos - ca.pos;
    let rem = ca.buf.len() - ca.pos;
    assert(mid == base + d);
    assert(forall|j: int| 0 <= j < rem ==> #[trigger] c.chan.outgoing@[base + j] == ca.buf[ca.pos + j]) by {
        // the part leg one already wrote sits right after base
        assert(forall|j: int| 0 <= j < d
            ==> #[trigger] b.chan.outgoing@[base + j] == ca.buf[ca.pos + j]);
        assert(forall|j: int| 0 <= j < d
            ==> #[trigger] c.chan.outgoing@[base + j] == b.chan.outgoing@[base + j]);
        // the rest is leg two's flush, re-indexed from mid
        assert(forall|j: int| d <= j < rem
            ==> #[trigger] c.chan.outgoing@[base + j] == c.chan.outgoing@[mid + (j - d)]);
    }
}

pub proof fn lemma_txn_evolves_trans(a: Transaction, b: Transaction, c: Transaction)
    requires
        txn_evolves(a, b),
        txn_evolves(b, c),
    ensures
        txn_evolves(a, c),
{
    let k1 = choose|k: int| 0 <= k <= a.chan.incoming@.len()
        && b.chan.incoming@ == a.chan.incoming@.skip(k);
    let k2 = choose|k: int| 0 <= k <= b.chan.incoming@.len()
        && c.chan.incoming@ == b.chan.incoming@.skip(k);
    assert(c.chan.incoming@ =~= a.chan.incoming@.skip(k1 + k2));
    let s1 = choose|s: Seq<u8>| b.chan.outgoing@ == a.chan.outgoing@ + s;
    let s2 = choose|s: Seq<u8>| c.chan.outgoing@ == b.chan.outgoing@ + s;
    assert(c.chan.outgoing@ =~= a.chan.outgoing@ + (s1 + s2));
    match a.writing@ {
        WriteView::Chunk(ca) => {
            let base = a.chan.outgoing@.len() as int;
            let rem = ca.buf.len() - ca.pos;
            match b.writing@ {
                WriteView::Chunk(cb) => {
                    if cb.buf == ca.buf && ca.pos <= cb.pos <= ca.buf.len()
                        && cb.next_encoder == ca.next_encoder
                        && b.chan.outgoing@ == a.chan.outgoing@ + ca.buf.subrange(ca.pos, cb.pos) {
                        // leg one kept the artifact; compose with leg two
                        let mid = b.chan.outgoing@.len() as int;
                        match c.writing@ {
                            WriteView::Chunk(cc) => {
                                if cc.buf == cb.buf && cb.pos <= cc.pos <= cb.buf.len()
                                    && cc.next_encoder == cb.next_encoder
                                    && c.chan.outgoing@ == b.chan.outgoing@ + cb.buf.subrange(cb.pos, cc.pos) {
                                    assert(c.chan.outgoing@ =~= a.chan.outgoing@
                                        + ca.buf.subrange(ca.pos, cc.pos));
                                } else {
                                    lemma_artifact_flush_composes(a, b, c, ca, cb, s2);
                                }
                            },
                            _ => {
                                lemma_artifact_flush_composes(a, b, c, ca, cb, s2);
                            },
                        }
                    } else {
                        // leg one already flushed the artifact's bytes
                        assert(forall|j: int| 0 <= j < rem
                            ==> #[trigger] c.chan.outgoing@[base + j] == b.chan.outgoing@[base + j]);
                    }
                },
                _ => {
                    assert(forall|j: int| 0 <= j < rem
                        ==> #[trigger] c.chan.outgoing@[base + j] == b.chan.outgoing@[base + j]);
                },
            }
        },
        _ => {},
    }
}

/// A per-transaction message handler.  Its whole effect passes through the
/// cursor and the intent it returns.
pub trait TransactionHandler {
    fn ready(&mut self, txn: &mut Transaction) -> (i: Intent)
        requires
            old(txn).wf(),
        ensures
            txn_evolves(*old(txn), *final(txn)),
    ;
}

impl Transaction {
    /// Takes the head slot: the parsed head, or the parse error, on the
    /// first call; nothing on later calls.
    pub fn incoming(&mut self) -> (r: Option<Result<MessageHead, Error>>)
        requires
            old(self).wf(),
        ensures
            txn_evolves(*old(self), *final(self)),
            r == old(self).head,
            final(self).head is None,
            final(self).chan == old(self).chan,
            final(self).reading == old(self).reading,
            final(self).writing@ == old(self).writing@,
            final(self).body_decoder == old(self).body_decoder,
            final(self).resp_keep_alive == old(self).resp_keep_alive,
            final(self).ended == old(self).ended,
    {
        let mut tmp: Option<Result<MessageHead, Error>> = None;
        core::mem::swap(&mut self.head, &mut tmp);
        proof { lemma_txn_evolves_refl(*self); }
        tmp
    }

    /// Signals that the transaction should end; the engine applies the
    /// `End` intent after this invocation returns, whatever intent the
    /// handler returns.
    pub fn end(&mut self)
        requires
            old(self).wf(),
        ensures
            txn_evolves(*old(self), *final(self)),
            final(self).ended,
            final(self).chan == old(self).chan,
            final(self).reading == old(self).reading,
            final(self).writing@ == old(self).writing@,
            final(self).head == old(self).head,
            final(self).body_decoder == old(self).body_decoder,
            final(self).resp_keep_alive == old(self).resp_keep_alive,
    {
        self.ended = true;
        proof { lemma_txn_evolves_refl(*self); }
    }

    /// Pulls up to `max` body bytes.  Reading promotes the read side into
    /// `Body` when a decoder is pending; with a fixed-length body the bytes
    /// delivered are exactly the next bytes of the buffered input.  An empty
    /// successful read means the body ended; a starved, unfinished body
    /// reports `WouldBlock` instead, so the caller can tell "wait" from
    /// "done".
    pub fn read(&mut self, max: usize) -> (r: Result<Vec<u8>, Error>)
        requires
            old(self).wf(),
        ensures
            txn_evolves(*old(self), *final(self)),
            final(self).writing@ == old(self).writing@,
            final(self).resp_keep_alive == old(self).resp_keep_alive,
            final(self).ended == old(self).ended,
            match r {
                Ok(out) => out@.len() <= max && final(self).reading is Body,
                Err(e) => e == Error::State || e == Error::Frame || e == Error::WouldBlock,
            },
            r is Err && r->Err_0 == Error::State ==> *final(self) == *old(self),
            r is Err && r->Err_0 == Error::WouldBlock ==> final(self).reading is Body
                && final(self).chan.eof == old(self).chan.eof,
            // a successful empty read happens only at body end
            (r matches Ok(out) && out@.len() == 0) ==> ({
                let d = final(self).reading->Body_0;
                d.spec_is_eof() || (d is Close && final(self).chan.eof)
            }),
            old(self).reading matches ReadState::Body(Decoder::Length(rem)) ==> ({
                let n = min3(rem as int, old(self).chan.incoming@.len() as int, max as int);
                if rem > 0 && n == 0 {
                    r == Err::<Vec<u8>, Error>(Error::WouldBlock)
                        && final(self).reading == old(self).reading
                        && final(self).chan.incoming@ == old(self).chan.incoming@
                } else {
                    &&& r matches Ok(out) && out@ == old(self).chan.incoming@.take(n)
                    &&& final(self).chan.incoming@ == old(self).chan.incoming@.skip(n)
                    &&& final(self).reading == ReadState::Body(Decoder::Length((rem - n) as u64))
                }
            }),
            // a chunked body reads exactly as the reference run says:
            // delivered bytes are the run's, a violation is the frame error,
            // and a dry spell on an unfinished body would block
            old(self).reading matches ReadState::Body(Decoder::Chunked(ph)) ==> ({
                let run = spec_chunked_run(ph, old(self).chan.incoming@, max as int);
                &&& final(self).reading == ReadState::Body(Decoder::Chunked(run.phase))
                &&& final(self).chan.incoming@ == old(self).chan.incoming@.skip(run.consumed)
                &&& (run.phase is Bad <==> r == Err::<Vec<u8>, Error>(Error::Frame))
                &&& (!(run.phase is Bad) && run.delivered.len() == 0 && !(run.phase is Done)
                        ==> r == Err::<Vec<u8>, Error>(Error::WouldBlock))
                &&& (!(run.phase is Bad) && (run.delivered.len() > 0 || run.phase is Done)
                        ==> (r matches Ok(out) && out@ == run.delivered))
            }),
            // a close-delimited body delivers the buffered prefix; empty
            // only once the stream ended
            old(self).reading matches ReadState::Body(Decoder::Close) ==> ({
                let n = if old(self).chan.incoming@.len() <= max { old(self).chan.incoming@.len() as int } else { max as int };
                &&& final(self).reading == old(self).reading
                &&& final(self).chan.incoming@ == old(self).chan.incoming@.skip(n)
                &&& (n == 0 && !old(self).chan.eof ==> r == Err::<Vec<u8>, Error>(Error::WouldBlock))
                &&& ((n > 0 || old(self).chan.eof)
                        ==> (r matches Ok(out) && out@ == old(self).chan.incoming@.take(n)))
            }),
    {
        match self.reading {
            ReadState::Init | ReadState::Parsing => {
                let mut d: Option<Decoder> = None;
                core::mem::swap(&mut self.body_decoder, &mut d);
                match d {
                    Some(dec) => {
                        self.reading = ReadState::Body(dec);
                    },
                    None => {
                        proof { lemma_txn_evolves_refl(*self); }
                        return Err(Error::State);
                    },
                }
            },
            ReadState::Waiting(dec) => {
                self.reading = ReadState::Body(dec);
            },
            ReadState::Body(_) => {},
            _ => {
                proof { lemma_txn_evolves_refl(*self); }
                return Err(Error::State);
            },
        }
        let mut dec = match self.reading {
            ReadState::Body(d) => d,
            _ => {
                assert(false);
                Decoder::Close
            },
        };
        let res = dec.decode(&mut self.chan, max);
        self.reading = ReadState::Body(dec);
        assert(self.chan.outgoing@ =~= old(self).chan.outgoing@ + Seq::<u8>::empty());
        match res {
            Ok(v) => {
                if v.len() == 0 {
                    let done = dec.is_eof()
                        || (matches!(dec, Decoder::Close) && self.chan.eof);
                    if !done {
                        return Err(Error::WouldBlock);
                    }
                }
                Ok(v)
            },
            Err(_) => Err(Error::Frame),
        }
    }

    /// `read`, with a starved body reported as `None` instead of
    /// `WouldBlock`; a successful empty delivery still means the body
    /// ended.
    pub fn try_read(&mut self, max: usize) -> (r: Result<Option<Vec<u8>>, Error>)
        requires
            old(self).wf(),
        ensures
            txn_evolves(*old(self), *final(self)),
            final(self).writing@ == old(self).writing@,
            final(self).resp_keep_alive == old(self).resp_keep_alive,
            final(self).ended == old(self).ended,
            match r {
                Ok(Some(out)) => out@.len() <= max && final(self).reading is Body,
                Ok(None) => final(self).reading is Body,
                Err(e) => e == Error::State || e == Error::Frame,
            },
            r is Err && r->Err_0 == Error::State ==> *final(self) == *old(self),
            old(self).reading matches ReadState::Body(Decoder::Length(rem)) ==> ({
                let n = min3(rem as int, old(self).chan.incoming@.len() as int, max as int);
                if rem > 0 && n == 0 {
                    r == Ok::<Option<Vec<u8>>, Error>(None)
                        && final(self).reading == old(self).reading
                        && final(self).chan.incoming@ == old(self).chan.incoming@
                } else {
                    &&& r matches Ok(Some(out)) && out@ == old(self).chan.incoming@.take(n)
                    &&& final(self).chan.incoming@ == old(self).chan.incoming@.skip(n)
                    &&& final(self).reading == ReadState::Body(Decoder::Length((rem - n) as u64))
                }
            }),
            old(self).reading matches ReadState::Body(Decoder::Chunked(ph)) ==> ({
                let run = spec_chunked_run(ph, old(self).chan.incoming@, max as int);
                &&& final(self).reading == ReadState::Body(Decoder::Chunked(run.phase))
                &&& final(self).chan.incoming@ == old(self).chan.incoming@.skip(run.consumed)
                &&& (run.phase is Bad <==> r == Err::<Option<Vec<u8>>, Error>(Error::Frame))
                &&& (!(run.phase is Bad) && run.delivered.len() == 0 && !(run.phase is Done)
                        ==> r == Ok::<Option<Vec<u8>>, Error>(None))
                &&& (!(run.phase is Bad) && (run.delivered.len() > 0 || run.phase is Done)
                        ==> (r matches Ok(Some(out)) && out@ == run.delivered))
            }),
    {
        match self.read(max) {
            Ok(v) => Ok(Some(v)),
            Err(Error::WouldBlock) => Ok(None),
            Err(e) => Err(e),
        }
    }

    /// Gives the response head.  Its bytes become a pending write artifact
    /// that must drain before body bytes follow, its headers pick the body
    /// encoder, and a `Connection: close` in it revokes persistence for
    /// good.
    pub fn response(&mut self, head: ResponseHead) -> (r: Result<(), Error>)
        requires
            old(self).wf(),
        ensures
            txn_evolves(*old(self), *final(self)),
            r is Err ==> *final(self) == *old(self)
                && !((old(self).writing@ is Init || old(self).writing@ is Head)
                    && 100 <= head.status <= 999),
            r is Ok ==> {
                &&& (old(self).writing@ is Init || old(self).writing@ is Head)
                &&& 100 <= head.status <= 999
                &&& final(self).writing@ matches WriteView::Chunk(c)
                    && c.buf == response_head_bytes(head.version, head.status as int, head.headers@)
                    && c.pos == 0
                    && c.next_interest == Interest::Write
                &&& final(self).resp_keep_alive ==
                    (old(self).resp_keep_alive && spec_keep_alive(head.version, head.headers@))
                &&& final(self).chan == old(self).chan
                &&& final(self).reading == old(self).reading
            },
    {
        let applies = match self.writing {
            WriteState::Init | WriteState::Head => true,
            _ => false,
        };
        if !applies || head.status < 100 || head.status > 999 {
            proof { lemma_txn_evolves_refl(*self); }
            return Err(Error::State);
        }
        let ka = negotiate_keep_alive(head.version, &head.headers);
        self.resp_keep_alive = self.resp_keep_alive && ka;
        let enc = encoder_for(&head);
        let buf = encode_head(&head);
        self.writing = WriteState::Chunk(Chunk {
            buf,
            pos: 0,
            next_encoder: enc,
            next_interest: Interest::Write,
        });
        assert(self.chan.incoming@ =~= old(self).chan.incoming@.skip(0));
        assert(self.chan.outgoing@ =~= old(self).chan.outgoing@ + Seq::<u8>::empty());
        Ok(())
    }

    /// Pushes body bytes through the write side: first drains any pending
    /// artifact, then frames `data` through the encoder as far as the sink
    /// accepts, and reports how many bytes of `data` were taken.
    #[verifier::rlimit(60)]
    pub fn write(&mut self, data: &Vec<u8>) -> (r: Result<usize, Error>)
        requires
            old(self).wf(),
        ensures
            txn_evolves(*old(self), *final(self)),
            final(self).reading == old(self).reading,
            final(self).resp_keep_alive == old(self).resp_keep_alive,
            final(self).ended == old(self).ended,
            match r {
                Ok(n) => n <= data@.len(),
                Err(e) => e == Error::State && *final(self) == *old(self),
            },
            old(self).writing@ matches WriteView::Ready(Encoder::Length(rem)) ==> ({
                let fits = old(self).chan.outgoing@.len() + data@.len() + 24 <= usize::MAX;
                fits ==> ({
                    let n = min3(data@.len() as int, rem as int, old(self).chan.capacity as int);
                    &&& r == Ok::<usize, Error>(n as usize)
                    &&& final(self).chan.outgoing@ == old(self).chan.outgoing@ + data@.take(n)
                    &&& final(self).writing@ == WriteView::Ready(Encoder::Length((rem - n) as u64))
                })
            }),
            // a chunked body is framed exactly as the encoder's contract
            // says: one whole frame, or nothing when the sink lacks room
            old(self).writing@ matches WriteView::Ready(Encoder::Chunked) ==> ({
                let fits = old(self).chan.outgoing@.len() + data@.len() + 24 <= usize::MAX;
                fits ==> ({
                    &&& final(self).writing@ == WriteView::Ready(Encoder::Chunked)
                    &&& r matches Ok(n)
                    &&& (n == 0 ==> final(self).chan.outgoing@ == old(self).chan.outgoing@
                            && final(self).chan.capacity == old(self).chan.capacity
                            && (data@.len() == 0 || old(self).chan.capacity < 21))
                    &&& (n != 0 ==> ({
                            let m = if data@.len() <= old(self).chan.capacity - 20 { data@.len() as int } else { (old(self).chan.capacity - 20) as int };
                            &&& n == m
                            &&& final(self).chan.outgoing@ == old(self).chan.outgoing@
                                    + chunk_frame(m, data@.take(m))
                            &&& final(self).chan.capacity == old(self).chan.capacity
                                    - chunk_frame(m, data@.take(m)).len()
                        }))
                })
            }),
            // a pending artifact is drained first; until it is fully
            // written no data is accepted and exactly its bytes go out
            old(self).writing@ matches WriteView::Chunk(c) ==> ({
                let fits = old(self).chan.outgoing@.len() + c.buf.len() <= usize::MAX;
                let n = spec_drain_n(c, old(self).chan.capacity as int, fits);
                &&& (c.pos + n < c.buf.len() ==> ({
                        &&& r == Ok::<usize, Error>(0)
                        &&& final(self).writing@ == WriteView::Chunk(ChunkView { pos: c.pos + n, ..c })
                        &&& final(self).chan.outgoing@ == old(self).chan.outgoing@
                                + c.buf.subrange(c.pos, c.pos + n)
                        &&& final(self).chan.capacity == old(self).chan.capacity - n
                    }))
                &&& (c.pos + n == c.buf.len() ==> ({
                        let base = old(self).chan.outgoing@.len() as int;
                        &&& final(self).writing@ is Ready
                        &&& final(self).chan.outgoing@.len() >= base + n
                        &&& final(self).chan.outgoing@.subrange(0, base) == old(self).chan.outgoing@
                        &&& final(self).chan.outgoing@.subrange(base, base + n)
                                == c.buf.subrange(c.pos, c.pos + n)
                    }))
            }),
    {
        let mut w = WriteState::Closed;
        core::mem::swap(&mut self.writing, &mut w);
        match w {
            WriteState::Chunk(mut c) => {
                if self.chan.outgoing.len() <= usize::MAX - c.buf.len() {
                    c.drain(&mut self.chan);
                }
                if c.is_written() {
                    let mut e = c.next_encoder;
                    let n = if self.chan.outgoing.len() <= usize::MAX - 24
                        && data.len() <= usize::MAX - 24 - self.chan.outgoing.len() {
                        e.encode(&mut self.chan, data)
                    } else {
                        0
                    };
                    self.writing = WriteState::Ready(e);
                    assert(self.chan.incoming@ =~= old(self).chan.incoming@.skip(0));
                    assert(self.chan.outgoing@ =~= old(self).chan.outgoing@
                        + self.chan.outgoing@.skip(old(self).chan.outgoing@.len() as int));
                    Ok(n)
                } else {
                    self.writing = WriteState::Chunk(c);
                    assert(self.chan.incoming@ =~= old(self).chan.incoming@.skip(0));
                    assert(self.chan.outgoing@ =~= old(self).chan.outgoing@
                        + self.chan.outgoing@.skip(old(self).chan.outgoing@.len() as int));
                    Ok(0)
                }
            },
            WriteState::Ready(mut e) => {
                let n = if self.chan.outgoing.len() <= usize::MAX - 24
                    && data.len() <= usize::MAX - 24 - self.chan.outgoing.len() {
                    e.encode(&mut self.chan, data)
                } else {
                    0
                };
                self.writing = WriteState::Ready(e);
                assert(self.chan.incoming@ =~= old(self).chan.incoming@.skip(0));
                assert(self.chan.outgoing@ =~= old(self).chan.outgoing@
                    + self.chan.outgoing@.skip(old(self).chan.outgoing@.len() as int));
                Ok(n)
            },
            other => {
                self.writing = other;
                proof { lemma_txn_evolves_refl(*self); }
                Err(Error::State)
            },
        }
    }

    /// `write`, with "the sink accepts nothing right now" reported as
    /// `None`.
    pub fn try_write(&mut self, data: &Vec<u8>) -> (r: Result<Option<usize>, Error>)
        requires
            old(self).wf(),
        ensures
            txn_evolves(*old(self), *final(self)),
            final(self).reading == old(self).reading,
            final(self).resp_keep_alive == old(self).resp_keep_alive,
            final(self).ended == old(self).ended,
            match r {
                Ok(Some(n)) => n <= data@.len(),
                Ok(None) => data@.len() > 0,
                Err(e) => e == Error::State && *final(self) == *old(self),
            },
            old(self).writing@ matches WriteView::Ready(Encoder::Length(rem)) ==> ({
                let fits = old(self).chan.outgoing@.len() + data@.len() + 24 <= usize::MAX;
                fits ==> ({
                    let n = min3(data@.len() as int, rem as int, old(self).chan.capacity as int);
                    &&& (n == 0 && data@.len() > 0 ==> r == Ok::<Option<usize>, Error>(None))
                    &&& (n > 0 || data@.len() == 0 ==> r == Ok::<Option<usize>, Error>(Some(n as usize)))
                    &&& final(self).chan.outgoing@ == old(self).chan.outgoing@ + data@.take(n)
                    &&& final(self).writing@ == WriteView::Ready(Encoder::Length((rem - n) as u64))
                })
            }),
    {
        match self.write(data) {
            Ok(n) => if n == 0 && data.len() > 0 { Ok(None) } else { Ok(Some(n)) },
            Err(e) => Err(e),
        }
    }
}

/// What one transaction tick reports to the connection.
#[derive(Clone, Copy, PartialEq, Eq, Structural, Debug)]
pub enum TickOutcome {
    /// The transaction awaits more bytes or more sink capacity.
    NotReady,
    /// Both sides resolved; the verdict decides reuse.
    Complete(TxnResult),
}

/// The executable twin of `spec_outcome`.
pub fn outcome(r: ReadState, w: &WriteState, keep_alive: bool) -> (res: Option<TxnResult>)
    ensures
        res == spec_outcome(r, w@, keep_alive),
{
    let rt = matches!(r, ReadState::KeepAlive) || matches!(r, ReadState::Closed);
    let wt = matches!(w, WriteState::KeepAlive) || matches!(w, WriteState::Closed);
    if rt && wt {
        if matches!(r, ReadState::KeepAlive) && matches!(w, WriteState::KeepAlive) && keep_alive {
            Some(TxnResult::KeepAlive)
        } else {
            Some(TxnResult::Close)
        }
    } else {
        None
    }
}

/// How many artifact bytes one drain step writes, given the sink's
/// capacity; nothing when appending could overflow the output buffer.
pub open spec fn spec_drain_n(c: ChunkView, capacity: int, fits: bool) -> int {
    if fits { min2(c.buf.len() - c.pos, capacity) } else { 0 }
}

/// One cooperative drain step on the write side, as a value: how a pending
/// artifact advances given the sink's capacity, promoting the recorded next
/// intent once fully written.  Non-artifact states are untouched.
pub open spec fn spec_drain_step(w: WriteView, capacity: int, out_len: int, keep_alive: bool) -> WriteView {
    match w {
        WriteView::Chunk(c) => {
            let fits = out_len + c.buf.len() <= usize::MAX;
            let n = spec_drain_n(c, capacity, fits);
            if c.pos + n == c.buf.len() {
                spec_write_effect(c.next_interest, WriteView::Ready(c.next_encoder), keep_alive)
            } else {
                WriteView::Chunk(ChunkView { pos: c.pos + n, ..c })
            }
        },
        _ => w,
    }
}

/// One request/response exchange: both sub-states, the negotiated
/// persistence, and the handler driving it.
pub struct Txn<H> {
    pub head: Option<Result<MessageHead, Error>>,
    pub body_decoder: Option<Decoder>,
    pub reading: ReadState,
    pub writing: WriteState,
    pub keep_alive: bool,
    pub handler: H,
}

impl<H: TransactionHandler> Txn<H> {
    pub open spec fn wf(&self) -> bool {
        self.writing@.wf()
    }

    /// Seeds a transaction from the parse result: a head with its derived
    /// decoder, or the error the handler will be shown.
    pub fn incoming(res: Result<(MessageHead, Decoder), Error>, keep_alive: bool, handler: H) -> (t: Txn<H>)
        ensures
            t.wf(),
            t.keep_alive == keep_alive,
            t.reading is Init,
            t.writing@ is Init,
            t.handler == handler,
            res matches Ok((h, d)) ==> t.head == Some(Ok::<MessageHead, Error>(h))
                && t.body_decoder == Some(d),
            res matches Err(e) ==> t.head == Some(Err::<MessageHead, Error>(e))
                && t.body_decoder is None,
    {
        match res {
            Ok((head, dec)) => Txn {
                head: Some(Ok(head)),
                body_decoder: Some(dec),
                reading: ReadState::Init,
                writing: WriteState::Init,
                keep_alive,
                handler,
            },
            Err(e) => Txn {
                head: Some(Err(e)),
                body_decoder: None,
                reading: ReadState::Init,
                writing: WriteState::Init,
                keep_alive,
                handler,
            },
        }
    }

    /// Drains a pending write artifact exactly as far as the sink accepts;
    /// once fully written, the recorded next intent takes effect on the
    /// write side.  The bytes appended are exactly the artifact's next
    /// bytes, in order.
    fn drain_pending(&mut self, chan: &mut ByteChannel)
        requires
            old(self).wf(),
        ensures
            final(self).wf(),
            final(self).keep_alive == old(self).keep_alive,
            final(self).reading == old(self).reading,
            final(self).head == old(self).head,
            final(self).body_decoder == old(self).body_decoder,
            final(chan).incoming@ == old(chan).incoming@,
            final(chan).eof == old(chan).eof,
            exists|s: Seq<u8>| final(chan).outgoing@ == old(chan).outgoing@ + s,
            final(chan).capacity <= old(chan).capacity,
            final(self).writing@ == spec_drain_step(
                old(self).writing@,
                old(chan).capacity as int,
                old(chan).outgoing@.len() as int,
                old(self).keep_alive,
            ),
            old(self).writing@ matches WriteView::Chunk(c) ==> ({
                let fits = old(chan).outgoing@.len() + c.buf.len() <= usize::MAX;
                let n = spec_drain_n(c, old(chan).capacity as int, fits);
                &&& final(chan).outgoing@ == old(chan).outgoing@ + c.buf.subrange(c.pos, c.pos + n)
                &&& final(chan).capacity == old(chan).capacity - n
            }),
            !(old(self).writing@ is Chunk) ==> final(chan).outgoing@ == old(chan).outgoing@
                && final(chan).capacity == old(chan).capacity,
    {
        let mut w = WriteState::Closed;
        core::mem::swap(&mut self.writing, &mut w);
        match w {
            WriteState::Chunk(mut c) => {
                if chan.outgoing.len() <= usize::MAX - c.buf.len() {
                    c.drain(chan);
                }
                if c.is_written() {
                    let next = c.next_interest;
                    let e = c.next_encoder;
                    self.writing = write_effect(next, WriteState::Ready(e), self.keep_alive);
                } else {
                    self.writing = WriteState::Chunk(c);
                }
            },
            other => {
                self.writing = other;
            },
        }
        assert(chan.outgoing@ =~= old(chan).outgoing@
            + chan.outgoing@.skip(old(chan).outgoing@.len() as int));
    }

    /// One cooperative step: drain pending output, invoke the handler with
    /// a live cursor unless the transaction already resolved, apply the
    /// intent it leaves, and report the verdict once both sides are
    /// terminal.  Persistence is never regained once lost.
    pub fn tick(&mut self, chan: &mut ByteChannel) -> (r: TickOutcome)
        requires
            old(self).wf(),
        ensures
            final(self).wf(),
            final(self).keep_alive ==> old(self).keep_alive,
            r matches TickOutcome::Complete(res)
                ==> spec_outcome(final(self).reading, final(self).writing@, final(self).keep_alive)
                    == Some(res),
            r is NotReady
                ==> spec_outcome(final(self).reading, final(self).writing@, final(self).keep_alive)
                    is None,
            exists|k: int| 0 <= k <= old(chan).incoming@.len()
                && final(chan).incoming@ == old(chan).incoming@.skip(k),
            exists|s: Seq<u8>| final(chan).outgoing@ == old(chan).outgoing@ + s,
            final(chan).eof == old(chan).eof,
            // the head and decoder slots are only ever consumed
            final(self).head is None || final(self).head == old(self).head,
            final(self).body_decoder is None || final(self).body_decoder == old(self).body_decoder,
            // a pending artifact drains first: the first bytes put on the
            // wire in this tick are exactly its next bytes, in order
            old(self).writing@ matches WriteView::Chunk(c) ==> ({
                let fits = old(chan).outgoing@.len() + c.buf.len() <= usize::MAX;
                let n = spec_drain_n(c, old(chan).capacity as int, fits);
                let base = old(chan).outgoing@.len() as int;
                &&& final(chan).outgoing@.len() >= base + n
                &&& final(chan).outgoing@.subrange(0, base) == old(chan).outgoing@
                &&& final(chan).outgoing@.subrange(base, base + n) == c.buf.subrange(c.pos, c.pos + n)
            }),
            // either the drained transaction was already resolved and is
            // reported as it stands, or the handler was invoked and the
            // intent it left (End once the cursor's end signal was raised)
            // moved both sides through the stated transition functions,
            // followed by one more drain step
            ({
                let w1 = spec_drain_step(old(self).writing@, old(chan).capacity as int,
                    old(chan).outgoing@.len() as int, old(self).keep_alive);
                let o = spec_outcome(old(self).reading, w1, old(self).keep_alive);
                &&& (o matches Some(res) ==> final(self).reading == old(self).reading
                        && final(self).writing@ == w1
                        && final(self).keep_alive == old(self).keep_alive
                        && r == TickOutcome::Complete(res))
                &&& (o is None ==> exists|t1: Transaction, j: Interest, cap2: int, len2: int| {
                        &&& final(self).keep_alive == (old(self).keep_alive && t1.resp_keep_alive)
                        &&& (t1.reading is KeepAlive ==> old(self).reading is KeepAlive)
                        &&& (t1.ended ==> j == Interest::End)
                        &&& final(self).reading
                            == #[trigger] spec_read_effect(j, t1.reading, final(self).keep_alive)
                        &&& final(self).writing@ == #[trigger] spec_drain_step(
                                spec_write_effect(j, t1.writing@, final(self).keep_alive),
                                cap2, len2, final(self).keep_alive)
                    })
            }),
    {
        self.drain_pending(chan);
        assert(chan.incoming@ =~= old(chan).incoming@.skip(0));
        match outcome(self.reading, &self.writing, self.keep_alive) {
            Some(res) => {
                proof {
                    match old(self).writing@ {
                        WriteView::Chunk(c) => {
                            let fits = old(chan).outgoing@.len() + c.buf.len() <= usize::MAX;
                            let n = spec_drain_n(c, old(chan).capacity as int, fits);
                            let base = old(chan).outgoing@.len() as int;
                            assert(chan.outgoing@.subrange(0, base) =~= old(chan).outgoing@);
                            assert(chan.outgoing@.subrange(base, base + n)
                                =~= c.buf.subrange(c.pos, c.pos + n));
                        },
                        _ => {},
                    }
                }
                return TickOutcome::Complete(res);
            },
            None => {},
        }

        // hand the cursor to the handler
        let mut io = ByteChannel::new();
        core::mem::swap(chan, &mut io);
        let mut head: Option<Result<MessageHead, Error>> = None;
        core::mem::swap(&mut self.head, &mut head);
        let mut dec: Option<Decoder> = None;
        core::mem::swap(&mut self.body_decoder, &mut dec);
        let mut w = WriteState::Closed;
        core::mem::swap(&mut self.writing, &mut w);
        let mut t = Transaction {
            head,
            chan: io,
            reading: self.reading,
            writing: w,
            body_decoder: dec,
            resp_keep_alive: true,
            ended: false,
        };
        let ghost t0 = t;
        let intent = self.handler.ready(&mut t);
        let ghost t1 = t;
        let Transaction { head: h2, chan: io2, reading: r2, writing: w2, body_decoder: d2, resp_keep_alive: rka, ended } = t;
        *chan = io2;
        let ghost mid = *chan;
        self.head = h2;
        self.body_decoder = d2;
        self.reading = r2;
        self.writing = w2;
        self.keep_alive = self.keep_alive && rka;

        let interest = if ended { Interest::End } else { intent.interest };
        self.reading = read_effect(interest, self.reading, self.keep_alive);
        let mut w3 = WriteState::Closed;
        core::mem::swap(&mut self.writing, &mut w3);
        self.writing = write_effect(interest, w3, self.keep_alive);

        self.drain_pending(chan);

        proof {
            // the handler shrank the input from the front and only appended
            // output; the two drains only appended output
            let k = choose|kk: int| 0 <= kk <= t0.chan.incoming@.len()
                && t1.chan.incoming@ == t0.chan.incoming@.skip(kk);
            assert(chan.incoming@ =~= old(chan).incoming@.skip(k));
            let s2 = choose|s: Seq<u8>| t1.chan.outgoing@ == t0.chan.outgoing@ + s;
            let s3 = choose|s: Seq<u8>| chan.outgoing@ == mid.outgoing@ + s;
            assert(chan.outgoing@ =~= old(chan).outgoing@
                + chan.outgoing@.skip(old(chan).outgoing@.len() as int)) by {
                let s1 = choose|s: Seq<u8>| t0.chan.outgoing@ == old(chan).outgoing@ + s;
                assert(chan.outgoing@ =~= old(chan).outgoing@ + (s1 + s2 + s3));
            }
            // the artifact bytes drained in step one lead the appended output
            match old(self).writing@ {
                WriteView::Chunk(c) => {
                    let fits = old(chan).outgoing@.len() + c.buf.len() <= usize::MAX;
                    let n = spec_drain_n(c, old(chan).capacity as int, fits);
                    let base = old(chan).outgoing@.len() as int;
                    assert(chan.outgoing@ =~= old(chan).outgoing@
                        + c.buf.subrange(c.pos, c.pos + n) + (s2 + s3));
                    assert(chan.outgoing@.subrange(0, base) =~= old(chan).outgoing@);
                    assert(chan.outgoing@.subrange(base, base + n)
                        =~= c.buf.subrange(c.pos, c.pos + n));
                },
                _ => {},
            }
            // the applied interest moved both sides through the transition
            // functions; name the witnesses for the contract
            let ka2 = self.keep_alive;
            assert(self.reading == spec_read_effect(interest, t1.reading, ka2));
            assert(self.writing@ == spec_drain_step(
                spec_write_effect(interest, t1.writing@, ka2),
                mid.capacity as int, mid.outgoing@.len() as int, ka2));
        }

        match outcome(self.reading, &self.writing, self.keep_alive) {
            Some(res) => TickOutcome::Complete(res),
            None => TickOutcome::NotReady,
        }
    }
}

fn write_effect_plain(i: Interest, w: WriteState, keep_alive: bool) -> (w2: WriteState)
    requires
        !(w is Chunk),
    ensures
        w2@ == spec_write_effect_plain(i, w@, keep_alive),
        w2@.wf(),
{
    match i {
        Interest::Read => match w {
            WriteState::Ready(e) => {
                if e.is_eof() {
                    if keep_alive { WriteState::KeepAlive } else { WriteState::Closed }
                } else if e.is_closed() {
                    WriteState::Closed
                } else {
                    WriteState::Waiting(e)
                }
            },
            _ => w,
        },
        Interest::Write | Interest::ReadWrite => match w {
            WriteState::Waiting(e) => WriteState::Ready(e),
            WriteState::Init => WriteState::Head,
            _ => w,
        },
        Interest::Wait => match w {
            WriteState::Ready(e) => WriteState::Waiting(e),
            _ => w,
        },
        Interest::End => match w {
            WriteState::Ready(e) | WriteState::Waiting(e) => resolve_encoder(e, keep_alive, Interest::End),
            WriteState::KeepAlive => WriteState::KeepAlive,
            _ => WriteState::Closed,
        },
        Interest::Remove => WriteState::Closed,
    }
}

} // verus!
