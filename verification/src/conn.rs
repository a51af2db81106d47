//! The connection: owns the byte channel, a persistent identity, and the
//! top-level state, creating one transaction per message and looping
//! transitions until it must suspend or the connection is finished.
//!
//! The loop never blocks and never spins: every iteration either consumes
//! buffered input or moves the state strictly down a rank, which is what the
//! termination measure below states.

use vstd::prelude::*;
use crate::channel::ByteChannel;
use crate::codec::{parse, ParseOutcome, decoder_for, contains_crlf, blank_byte, spec_classify, HeadShape};
use crate::head::{negotiate_keep_alive, HttpVersion, MessageHead};
use crate::txn::{Txn, TxnResult, TickOutcome, TransactionHandler, Error, spec_outcome};

verus! {

/// A connection identity: equatable, hashable, debuggable; assigned at
/// creation and immutable thereafter.
pub trait Key: Eq + Clone + core::fmt::Debug + core::hash::Hash {
}

impl<T: Eq + Clone + core::fmt::Debug + core::hash::Hash> Key for T {
}

/// What a connection driver gets back from one poll.
#[derive(Clone, Copy, PartialEq, Eq, Structural, Debug)]
pub enum PollOutcome {
    /// Awaiting more bytes or more sink capacity; poll again on readiness.
    NotReady,
    /// The connection is finished; polling again stays `Ready` and does
    /// nothing.
    Ready,
}

/// What the handler factory is shown: the connection's identity and nothing
/// else, so admission and routing decide from identity alone.
pub struct Seed<K>(K);

impl<K> Seed<K> {
    /// The identity this seed carries.
    pub closed spec fn spec_key(&self) -> K {
        self.0
    }

    pub fn new(key: K) -> (s: Seed<K>)
        ensures
            s.spec_key() == key,
    {
        Seed(key)
    }

    pub fn key(&self) -> (r: &K)
        ensures
            r == self.spec_key(),
    {
        &self.0
    }
}

/// The per-connection handler: asked for one transaction handler per
/// message; refusing forces the connection to close.
pub trait ConnectionHandler {
    type Txn: TransactionHandler;

    fn transaction(&mut self) -> Option<Self::Txn>;
}

/// Creates one `ConnectionHandler` per connection from its seed; refusing
/// means the connection is never driven.
pub trait ConnectionHandlerFactory<K> {
    type Output: ConnectionHandler;

    fn create(&mut self, seed: Seed<K>) -> Option<Self::Output>;
}

/// The top-level connection state; transitions only forward, and `Closed`
/// is never left.
pub enum ConnState<T> {
    /// No transaction yet: the next head is awaited.
    Init,
    /// One in-flight message-at-a-time exchange.
    Http1(Txn<T>),
    /// Terminal.
    Closed,
}

/// The termination rank of a state: every loop iteration that does not
/// consume buffered input strictly lowers it.  An erroring or
/// non-persistent transaction ranks below `Init` because it can never
/// return there.
pub open spec fn conn_rank<T>(s: &ConnState<T>) -> int {
    match s {
        ConnState::Closed => 0,
        ConnState::Http1(t) => if t.keep_alive { 3 } else { 1 },
        ConnState::Init => 2,
    }
}

/// One HTTP/1.x connection over a byte channel.
pub struct Conn<K, H: ConnectionHandler> {
    pub handler: H,
    pub io: ByteChannel,
    pub keep_alive_enabled: bool,
    pub key: K,
    pub state: ConnState<H::Txn>,
}

/// Removes the blank-line bytes a peer may send before a request line.
fn consume_leading_lines(io: &mut ByteChannel)
    ensures
        exists|k: int| 0 <= k <= old(io).incoming@.len()
            && final(io).incoming@ == old(io).incoming@.skip(k),
        final(io).eof == old(io).eof,
        final(io).outgoing@ == old(io).outgoing@,
        final(io).capacity == old(io).capacity,
        (forall|i: int| 0 <= i < old(io).incoming@.len() ==> blank_byte(#[trigger] old(io).incoming@[i]))
            ==> final(io).incoming@.len() == 0,
        final(io).incoming@.len() > 0 ==> !blank_byte(final(io).incoming@[0]),
{
    assert(io.incoming@ =~= old(io).incoming@.skip(0));
    while io.incoming.len() > 0 && (io.incoming[0] == 13 || io.incoming[0] == 10)
        invariant
            exists|k: int| 0 <= k <= old(io).incoming@.len()
                && io.incoming@ == old(io).incoming@.skip(k),
            io.eof == old(io).eof,
            io.outgoing@ == old(io).outgoing@,
            io.capacity == old(io).capacity,
            (forall|i: int| 0 <= i < old(io).incoming@.len() ==> blank_byte(#[trigger] old(io).incoming@[i]))
                ==> (forall|i: int| 0 <= i < io.incoming@.len() ==> blank_byte(#[trigger] io.incoming@[i])),
        decreases io.incoming@.len(),
    {
        let ghost pre = io.incoming@;
        io.consume(1);
        proof {
            let k0 = choose|k: int| 0 <= k <= old(io).incoming@.len()
                && pre == old(io).incoming@.skip(k);
            assert(io.incoming@ =~= old(io).incoming@.skip(k0 + 1));
        }
    }
}

impl<K: Key, H: ConnectionHandler> Conn<K, H> {
    pub open spec fn wf(&self) -> bool {
        match &self.state {
            ConnState::Http1(t) => t.wf(),
            _ => true,
        }
    }

    /// A fresh connection over `transport`, in `Init`, with keep-alive
    /// enabled.
    pub fn new(key: K, transport: ByteChannel, handler: H) -> (c: Conn<K, H>)
        ensures
            c.wf(),
            c.state is Init,
            c.keep_alive_enabled,
            c.key == key,
            c.io == transport,
            c.handler == handler,
    {
        Conn { handler, io: transport, keep_alive_enabled: true, key, state: ConnState::Init }
    }

    /// Enables or disables connection reuse; a builder, as connections are
    /// configured before they are driven.
    pub fn keep_alive(self, val: bool) -> (c: Conn<K, H>)
        requires
            self.wf(),
        ensures
            c.wf(),
            c.keep_alive_enabled == val,
            c.key == self.key,
            c.io == self.io,
            c.state == self.state,
            c.handler == self.handler,
    {
        let mut c = self;
        c.keep_alive_enabled = val;
        c
    }

    pub fn key(&self) -> (r: &K)
        ensures
            r == self.key,
    {
        &self.key
    }

    /// Loops state transitions until the connection must suspend or is
    /// finished.
    fn tick(&mut self) -> (r: PollOutcome)
        requires
            old(self).wf(),
        ensures
            final(self).wf(),
            final(self).key == old(self).key,
            final(self).keep_alive_enabled == old(self).keep_alive_enabled,
            final(self).io.eof == old(self).io.eof,
            exists|k: int| 0 <= k <= old(self).io.incoming@.len()
                && final(self).io.incoming@ == old(self).io.incoming@.skip(k),
            r is Ready <==> final(self).state is Closed,
            old(self).state is Closed ==> *final(self) == *old(self) && r is Ready,
            // a resolved transaction never survives a tick: its verdict was
            // mapped (keep-alive back to Init, close to Closed)
            r is NotReady ==> final(self).state is Init
                || (final(self).state matches ConnState::Http1(t)
                    && spec_outcome(t.reading, t.writing@, t.keep_alive) is None),
            // a transaction leaves the active state only by closing the
            // connection or, when persistence was negotiated, by a
            // keep-alive verdict that reopens Init
            old(self).state matches ConnState::Http1(t)
                ==> (r is NotReady && final(self).state is Http1)
                    || (r is Ready && final(self).state is Closed)
                    || t.keep_alive,
            // a benign disconnect closes in one tick, with the handler
            // untouched and nothing written
            (old(self).state is Init && old(self).io.incoming@.len() == 0 && old(self).io.eof)
                ==> r is Ready && final(self).state is Closed
                    && final(self).handler == old(self).handler
                    && final(self).io.outgoing@ == old(self).io.outgoing@,
            (old(self).state is Init && !contains_crlf(old(self).io.incoming@) && !old(self).io.eof)
                ==> r is NotReady && final(self).state is Init
                    && final(self).io == old(self).io,
            // re-polling an incomplete head without new input is safe: no
            // progress, no change
            (old(self).state is Init && spec_classify(old(self).io.incoming@) is NeedMore
                && !old(self).io.eof)
                ==> r is NotReady && final(self).state is Init
                    && final(self).io == old(self).io
                    && final(self).handler == old(self).handler,
            // a parsed head with an undriven version closes at once, before
            // the handler is consulted and without touching the channel
            old(self).state is Init
                ==> (spec_classify(old(self).io.incoming@) matches HeadShape::Parsed { version, .. }
                    ==> (!(version is Http10 || version is Http11)
                        ==> r is Ready && final(self).state is Closed
                            && final(self).io == old(self).io
                            && final(self).handler == old(self).handler)),
            // a malformed head becomes a non-persistent erroring transaction
            // (or the connection closes); it never lingers in Init
            (old(self).state is Init && spec_classify(old(self).io.incoming@) is Malformed)
                ==> (r is Ready && final(self).state is Closed)
                    || (r is NotReady
                        && (final(self).state matches ConnState::Http1(t) && !t.keep_alive
                            && (t.head is None
                                || t.head == Some(Err::<MessageHead, Error>(Error::Parse))))),
            // a parsed, driven head has its bytes consumed
            old(self).state is Init
                ==> (spec_classify(old(self).io.incoming@) matches HeadShape::Parsed { version, consumed, .. }
                    ==> ((version is Http10 || version is Http11)
                        ==> exists|k: int| consumed <= k <= old(self).io.incoming@.len()
                            && final(self).io.incoming@ == old(self).io.incoming@.skip(k))),
    {
        let ghost mut koff: int = 0;
        proof {
            assert(self.io.incoming@ =~= old(self).io.incoming@.skip(0));
        }
        loop
            invariant
                self.wf(),
                self.key == old(self).key,
                self.keep_alive_enabled == old(self).keep_alive_enabled,
                0 <= koff <= old(self).io.incoming@.len(),
                self.io.incoming@ == old(self).io.incoming@.skip(koff),
                self.io.eof == old(self).io.eof,
                old(self).state is Closed ==> *self == *old(self),
                (old(self).state is Init && old(self).io.incoming@.len() == 0 && old(self).io.eof)
                    ==> self.state is Init && self.io == old(self).io
                        && self.handler == old(self).handler,
                (old(self).state is Init && !contains_crlf(old(self).io.incoming@) && !old(self).io.eof)
                    ==> self.state is Init && self.io == old(self).io,
                (old(self).state is Init && spec_classify(old(self).io.incoming@) is NeedMore
                    && !old(self).io.eof)
                    ==> self.state is Init && self.io == old(self).io
                        && self.handler == old(self).handler,
                old(self).state is Init
                    ==> (spec_classify(old(self).io.incoming@) matches HeadShape::Parsed { version, .. }
                        ==> (!(version is Http10 || version is Http11)
                            ==> self.state is Init && self.io == old(self).io
                                && self.handler == old(self).handler)),
                (old(self).state is Init && spec_classify(old(self).io.incoming@) is Malformed)
                    ==> (self.state is Init && self.io == old(self).io)
                        || (self.state matches ConnState::Http1(t) && !t.keep_alive
                            && (t.head is None
                                || t.head == Some(Err::<MessageHead, Error>(Error::Parse)))),
                (old(self).state matches ConnState::Http1(t) && !t.keep_alive)
                    ==> (self.state matches ConnState::Http1(t2) && !t2.keep_alive),
                old(self).state is Init
                    ==> (spec_classify(old(self).io.incoming@) matches HeadShape::Parsed { version, consumed, .. }
                        ==> ((version is Http10 || version is Http11)
                            ==> (self.state is Init && self.io == old(self).io)
                                || koff >= consumed)),
            decreases self.io.incoming@.len(), conn_rank(&self.state),
        {
            let mut st: ConnState<H::Txn> = ConnState::Closed;
            core::mem::swap(&mut self.state, &mut st);
            match st {
                ConnState::Closed => {
                    self.state = ConnState::Closed;
                    return PollOutcome::Ready;
                },
                ConnState::Init => {
                    match parse(&self.io.incoming) {
                        ParseOutcome::NeedMore => {
                            if !self.io.eof {
                                self.state = ConnState::Init;
                                return PollOutcome::NotReady;
                            }
                            // end of stream with no complete head
                            let ghost pre_in = self.io.incoming@;
                            consume_leading_lines(&mut self.io);
                            proof {
                                let kc = choose|k: int| 0 <= k <= pre_in.len()
                                    && self.io.incoming@ == pre_in.skip(k);
                                assert(self.io.incoming@ =~= old(self).io.incoming@.skip(koff + kc));
                                koff = koff + kc;
                            }
                            if self.io.incoming.len() == 0 {
                                // a benign disconnect, not an error
                                self.state = ConnState::Closed;
                                return PollOutcome::Ready;
                            }
                            // bytes remain: an erroring transaction, with
                            // the oldest version assumed and no reuse
                            match self.handler.transaction() {
                                Some(h) => {
                                    self.state = ConnState::Http1(Txn::incoming(Err(Error::Parse), false, h));
                                },
                                None => {
                                    self.state = ConnState::Closed;
                                    return PollOutcome::Ready;
                                },
                            }
                        },
                        ParseOutcome::Malformed => {
                            let ghost pre_in = self.io.incoming@;
                            consume_leading_lines(&mut self.io);
                            proof {
                                let kc = choose|k: int| 0 <= k <= pre_in.len()
                                    && self.io.incoming@ == pre_in.skip(k);
                                assert(self.io.incoming@ =~= old(self).io.incoming@.skip(koff + kc));
                                koff = koff + kc;
                            }
                            if self.io.incoming.len() == 0 {
                                self.state = ConnState::Closed;
                                return PollOutcome::Ready;
                            }
                            match self.handler.transaction() {
                                Some(h) => {
                                    self.state = ConnState::Http1(Txn::incoming(Err(Error::Parse), false, h));
                                },
                                None => {
                                    self.state = ConnState::Closed;
                                    return PollOutcome::Ready;
                                },
                            }
                        },
                        ParseOutcome::Parsed { head, consumed } => {
                            let supported = match head.version {
                                HttpVersion::Http10 | HttpVersion::Http11 => true,
                                _ => false,
                            };
                            if !supported {
                                // only HTTP/1.0 and HTTP/1.1 are driven
                                self.state = ConnState::Closed;
                                return PollOutcome::Ready;
                            }
                            self.io.consume(consumed);
                            proof {
                                assert(self.io.incoming@ =~= old(self).io.incoming@.skip(koff + consumed as int));
                                koff = koff + consumed as int;
                            }
                            match self.handler.transaction() {
                                Some(h) => {
                                    let ka = self.keep_alive_enabled
                                        && negotiate_keep_alive(head.version, &head.headers);
                                    match decoder_for(&head) {
                                        Some(dec) => {
                                            self.state = ConnState::Http1(Txn::incoming(Ok((head, dec)), ka, h));
                                        },
                                        None => {
                                            // undeterminable body framing:
                                            // an erroring transaction that
                                            // cannot be reused
                                            self.state = ConnState::Http1(Txn::incoming(Err(Error::Parse), false, h));
                                        },
                                    }
                                },
                                None => {
                                    self.state = ConnState::Closed;
                                    return PollOutcome::Ready;
                                },
                            }
                        },
                    }
                },
                ConnState::Http1(mut txn) => {
                    let ghost pre_in = self.io.incoming@;
                    let r = txn.tick(&mut self.io);
                    proof {
                        let kt = choose|k: int| 0 <= k <= pre_in.len()
                            && self.io.incoming@ == pre_in.skip(k);
                        assert(self.io.incoming@ =~= old(self).io.incoming@.skip(koff + kt));
                        koff = koff + kt;
                    }
                    match r {
                        TickOutcome::NotReady => {
                            self.state = ConnState::Http1(txn);
                            return PollOutcome::NotReady;
                        },
                        TickOutcome::Complete(TxnResult::KeepAlive) => {
                            // the handler instance is discarded with its
                            // transaction; the next message gets a new one
                            self.state = ConnState::Init;
                        },
                        TickOutcome::Complete(TxnResult::Close) => {
                            self.state = ConnState::Closed;
                            return PollOutcome::Ready;
                        },
                    }
                },
            }
        }
    }

    /// The non-blocking entry point an external reactor invokes on I/O
    /// readiness; re-invoking without new readiness is safe.
    pub fn poll(&mut self) -> (r: PollOutcome)
        requires
            old(self).wf(),
        ensures
            final(self).wf(),
            final(self).key == old(self).key,
            final(self).keep_alive_enabled == old(self).keep_alive_enabled,
            final(self).io.eof == old(self).io.eof,
            exists|k: int| 0 <= k <= old(self).io.incoming@.len()
                && final(self).io.incoming@ == old(self).io.incoming@.skip(k),
            r is Ready <==> final(self).state is Closed,
            old(self).state is Closed ==> *final(self) == *old(self) && r is Ready,
            r is NotReady ==> final(self).state is Init
                || (final(self).state matches ConnState::Http1(t)
                    && spec_outcome(t.reading, t.writing@, t.keep_alive) is None),
            old(self).state matches ConnState::Http1(t)
                ==> (r is NotReady && final(self).state is Http1)
                    || (r is Ready && final(self).state is Closed)
                    || t.keep_alive,
            (old(self).state is Init && old(self).io.incoming@.len() == 0 && old(self).io.eof)
                ==> r is Ready && final(self).state is Closed
                    && final(self).handler == old(self).handler
                    && final(self).io.outgoing@ == old(self).io.outgoing@,
            (old(self).state is Init && !contains_crlf(old(self).io.incoming@) && !old(self).io.eof)
                ==> r is NotReady && final(self).state is Init
                    && final(self).io == old(self).io,
            // re-polling an incomplete head without new input is safe: no
            // progress, no change
            (old(self).state is Init && spec_classify(old(self).io.incoming@) is NeedMore
                && !old(self).io.eof)
                ==> r is NotReady && final(self).state is Init
                    && final(self).io == old(self).io
                    && final(self).handler == old(self).handler,
            old(self).state is Init
                ==> (spec_classify(old(self).io.incoming@) matches HeadShape::Parsed { version, .. }
                    ==> (!(version is Http10 || version is Http11)
                        ==> r is Ready && final(self).state is Closed
                            && final(self).io == old(self).io
                            && final(self).handler == old(self).handler)),
            (old(self).state is Init && spec_classify(old(self).io.incoming@) is Malformed)
                ==> (r is Ready && final(self).state is Closed)
                    || (r is NotReady
                        && (final(self).state matches ConnState::Http1(t) && !t.keep_alive
                            && (t.head is None
                                || t.head == Some(Err::<MessageHead, Error>(Error::Parse))))),
            old(self).state is Init
                ==> (spec_classify(old(self).io.incoming@) matches HeadShape::Parsed { version, consumed, .. }
                    ==> ((version is Http10 || version is Http11)
                        ==> exists|k: int| consumed <= k <= old(self).io.incoming@.len()
                            && final(self).io.incoming@ == old(self).io.incoming@.skip(k))),
    {
        self.tick()
    }
}

} // verus!
