//! The byte channel: a duplex, non-blocking byte stream with an internal,
//! re-scannable read buffer.
//!
//! The engine never performs I/O itself.  An external driver fills `incoming`
//! with bytes read from the transport, sets `eof` when the peer closed its
//! half, drains `outgoing` into the transport, and raises `capacity` when the
//! transport can accept more bytes.  `capacity` models the sink's current
//! readiness: a write appends at most `capacity` bytes and is otherwise
//! partial, which is how suspensions on the write side arise.

use vstd::prelude::*;

verus! {

pub struct ByteChannel {
    /// Bytes received from the peer, not yet consumed by the engine.
    pub incoming: Vec<u8>,
    /// The peer has closed its sending half: no more bytes will ever arrive.
    pub eof: bool,
    /// Bytes produced by the engine, awaiting the driver's flush.
    pub outgoing: Vec<u8>,
    /// How many more bytes the sink currently accepts without blocking.
    pub capacity: usize,
}

impl ByteChannel {
    /// An empty channel with no write capacity.
    pub fn new() -> (c: ByteChannel)
        ensures
            c.incoming@ == Seq::<u8>::empty(),
            !c.eof,
            c.outgoing@ == Seq::<u8>::empty(),
            c.capacity == 0,
    {
        ByteChannel { incoming: Vec::new(), eof: false, outgoing: Vec::new(), capacity: 0 }
    }

    /// Removes the first `n` buffered bytes, which the engine has consumed.
    pub fn consume(&mut self, n: usize)
        requires
            n <= old(self).incoming@.len(),
        ensures
            final(self).incoming@ == old(self).incoming@.subrange(n as int, old(self).incoming@.len() as int),
            final(self).eof == old(self).eof,
            final(self).outgoing@ == old(self).outgoing@,
            final(self).capacity == old(self).capacity,
    {
        let mut rest: Vec<u8> = Vec::new();
        let mut i: usize = n;
        while i < self.incoming.len()
            invariant
                n <= i <= self.incoming.len(),
                rest@ == self.incoming@.subrange(n as int, i as int),
            decreases self.incoming.len() - i,
        {
            rest.push(self.incoming[i]);
            i += 1;
        }
        assert(rest@ == self.incoming@.subrange(n as int, self.incoming@.len() as int));
        self.incoming = rest;
    }

    /// Appends `data[from..to]` to `outgoing`, up to the current capacity,
    /// and returns how many bytes were accepted.
    pub fn write_range(&mut self, data: &Vec<u8>, from: usize, to: usize) -> (n: usize)
        requires
            from <= to <= data@.len(),
            old(self).outgoing@.len() + (to - from) <= usize::MAX,
        ensures
            n == if to - from <= old(self).capacity { (to - from) as int } else { old(self).capacity as int },
            final(self).outgoing@ == old(self).outgoing@ + data@.subrange(from as int, from + n),
            final(self).capacity == old(self).capacity - n,
            final(self).incoming@ == old(self).incoming@,
            final(self).eof == old(self).eof,
    {
        let n: usize = if to - from <= self.capacity { to - from } else { self.capacity };
        let mut i: usize = 0;
        while i < n
            invariant
                from + n <= to <= data@.len(),
                i <= n,
                self.outgoing@ == old(self).outgoing@ + data@.subrange(from as int, from + i),
                self.capacity == old(self).capacity,
                self.incoming@ == old(self).incoming@,
                self.eof == old(self).eof,
                self.outgoing@.len() == old(self).outgoing@.len() + i,
            decreases n - i,
        {
            self.outgoing.push(data[from + i]);
            assert(self.outgoing@ == old(self).outgoing@ + data@.subrange(from as int, from + i + 1));
            i += 1;
        }
        self.capacity = self.capacity - n;
        n
    }
}

} // verus!
