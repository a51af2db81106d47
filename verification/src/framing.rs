//! Body framing trackers: how a message body is delimited on the read side
//! (`Decoder`) and framed on the write side (`Encoder`).
//!
//! A decoder or encoder is `eof` when the body is fully delimited or emitted,
//! and `closed` when its framing cannot delimit the body at all, which forces
//! the connection to close regardless of any keep-alive negotiation.

use vstd::prelude::*;
use crate::channel::ByteChannel;

verus! {

pub const CR: u8 = 13;
pub const LF: u8 = 10;

/// A framing error: the peer's body bytes do not fit the declared framing.
#[derive(Clone, Copy, PartialEq, Eq, Structural, Debug)]
pub struct FrameError;

/// Where a chunked-coded body stands between two bytes of input.
#[derive(Clone, Copy, PartialEq, Eq, Structural, Debug)]
pub enum ChunkedPhase {
    /// Reading the hex chunk-size line; `accum` is the size so far.
    Size { accum: u64, seen_digit: bool },
    /// Saw the CR ending a size line; `next_data` is the announced size.
    SizeLf { next_data: u64 },
    /// Reading `rem` more raw data bytes of the current chunk.
    Data { rem: u64 },
    /// Expecting the CR after a chunk's data.
    DataCr,
    /// Expecting the LF after a chunk's data.
    DataLf,
    /// Saw the last (zero-sized) chunk; expecting the final CR.
    EndCr,
    /// Expecting the final LF.
    EndLf,
    /// The body is fully delimited.
    Done,
    /// The framing was violated; the connection must close.
    Bad,
}

/// How one control byte moves the chunked machine.  `Data` is not a control
/// phase: its bytes pass through unexamined.
pub open spec fn chunked_step(phase: ChunkedPhase, b: u8) -> ChunkedPhase {
    match phase {
        ChunkedPhase::Size { accum, seen_digit } => {
            if b == CR {
                if seen_digit { ChunkedPhase::SizeLf { next_data: accum } } else { ChunkedPhase::Bad }
            } else {
                match hex_value(b) {
                    Some(d) => {
                        if accum <= 0x0fff_ffff_ffff_ffff {
                            ChunkedPhase::Size { accum: (accum * 16 + d as u64) as u64, seen_digit: true }
                        } else {
                            ChunkedPhase::Bad
                        }
                    },
                    None => ChunkedPhase::Bad,
                }
            }
        },
        ChunkedPhase::SizeLf { next_data } => {
            if b == LF {
                if next_data == 0 { ChunkedPhase::EndCr } else { ChunkedPhase::Data { rem: next_data } }
            } else {
                ChunkedPhase::Bad
            }
        },
        ChunkedPhase::Data { rem } => phase,  // not reached through control stepping
        ChunkedPhase::DataCr => if b == CR { ChunkedPhase::DataLf } else { ChunkedPhase::Bad },
        ChunkedPhase::DataLf => if b == LF { ChunkedPhase::Size { accum: 0, seen_digit: false } } else { ChunkedPhase::Bad },
        ChunkedPhase::EndCr => if b == CR { ChunkedPhase::EndLf } else { ChunkedPhase::Bad },
        ChunkedPhase::EndLf => if b == LF { ChunkedPhase::Done } else { ChunkedPhase::Bad },
        ChunkedPhase::Done => phase,
        ChunkedPhase::Bad => phase,
    }
}

/// The value of one hex digit, if `b` is one.
pub open spec fn hex_value(b: u8) -> Option<u8> {
    if 48 <= b <= 57 {
        Some((b - 48) as u8)
    } else if 97 <= b <= 102 {
        Some((b - 97 + 10) as u8)
    } else if 65 <= b <= 70 {
        Some((b - 65 + 10) as u8)
    } else {
        None
    }
}

fn hex_value_exec(b: u8) -> (r: Option<u8>)
    ensures
        r == hex_value(b),
{
    if 48 <= b && b <= 57 {
        Some(b - 48)
    } else if 97 <= b && b <= 102 {
        Some(b - 97 + 10)
    } else if 65 <= b && b <= 70 {
        Some(b - 65 + 10)
    } else {
        None
    }
}

fn chunked_step_exec(phase: ChunkedPhase, b: u8) -> (r: ChunkedPhase)
    requires
        !(phase is Data),
    ensures
        r == chunked_step(phase, b),
{
    match phase {
        ChunkedPhase::Size { accum, seen_digit } => {
            if b == CR {
                if seen_digit { ChunkedPhase::SizeLf { next_data: accum } } else { ChunkedPhase::Bad }
            } else {
                match hex_value_exec(b) {
                    Some(d) => {
                        if accum <= 0x0fff_ffff_ffff_ffff {
                            ChunkedPhase::Size { accum: accum * 16 + d as u64, seen_digit: true }
                        } else {
                            ChunkedPhase::Bad
                        }
                    },
                    None => ChunkedPhase::Bad,
                }
            }
        },
        ChunkedPhase::SizeLf { next_data } => {
            if b == LF {
                if next_data == 0 { ChunkedPhase::EndCr } else { ChunkedPhase::Data { rem: next_data } }
            } else {
                ChunkedPhase::Bad
            }
        },
        ChunkedPhase::Data { rem } => ChunkedPhase::Data { rem },
        ChunkedPhase::DataCr => if b == CR { ChunkedPhase::DataLf } else { ChunkedPhase::Bad },
        ChunkedPhase::DataLf => if b == LF { ChunkedPhase::Size { accum: 0, seen_digit: false } } else { ChunkedPhase::Bad },
        ChunkedPhase::EndCr => if b == CR { ChunkedPhase::EndLf } else { ChunkedPhase::Bad },
        ChunkedPhase::EndLf => if b == LF { ChunkedPhase::Done } else { ChunkedPhase::Bad },
        ChunkedPhase::Done => ChunkedPhase::Done,
        ChunkedPhase::Bad => ChunkedPhase::Bad,
    }
}

/// One chunked-decoding run, as a value: the phase reached, the input bytes
/// consumed, and the data bytes delivered, given a delivery budget.
pub ghost struct ChunkedRun {
    pub phase: ChunkedPhase,
    pub consumed: int,
    pub delivered: Seq<u8>,
}

/// The reference chunked decoder: alternates control bytes (stepped one at
/// a time through `chunked_step`) and raw data bytes, until the budget is
/// spent, the input runs dry, the body ends, or the framing is violated.
pub open spec fn spec_chunked_run(phase: ChunkedPhase, input: Seq<u8>, room: int) -> ChunkedRun
    decreases input.len() * 2 + (if phase matches ChunkedPhase::Data { rem } && rem == 0 { 1int } else { 0int }),
{
    match phase {
        ChunkedPhase::Done | ChunkedPhase::Bad => ChunkedRun {
            phase,
            consumed: 0,
            delivered: Seq::empty(),
        },
        ChunkedPhase::Data { rem } => {
            if rem == 0 {
                spec_chunked_run(ChunkedPhase::DataCr, input, room)
            } else if room <= 0 || input.len() == 0 {
                ChunkedRun { phase, consumed: 0, delivered: Seq::empty() }
            } else {
                let n = min3(rem as int, input.len() as int, room);
                let next = if rem == n {
                    ChunkedPhase::DataCr
                } else {
                    ChunkedPhase::Data { rem: (rem - n) as u64 }
                };
                let rest = spec_chunked_run(next, input.skip(n), room - n);
                ChunkedRun {
                    phase: rest.phase,
                    consumed: n + rest.consumed,
                    delivered: input.take(n) + rest.delivered,
                }
            }
        },
        _ => {
            if input.len() == 0 {
                ChunkedRun { phase, consumed: 0, delivered: Seq::empty() }
            } else {
                let rest = spec_chunked_run(chunked_step(phase, input[0]), input.skip(1), room);
                ChunkedRun {
                    phase: rest.phase,
                    consumed: 1 + rest.consumed,
                    delivered: rest.delivered,
                }
            }
        },
    }
}

/// Prepends an already-performed part of a run.
pub open spec fn run_prefixed(delivered: Seq<u8>, consumed: int, rest: ChunkedRun) -> ChunkedRun {
    ChunkedRun {
        phase: rest.phase,
        consumed: consumed + rest.consumed,
        delivered: delivered + rest.delivered,
    }
}

proof fn lemma_run_prefix_empty(r: ChunkedRun)
    ensures
        run_prefixed(Seq::empty(), 0, r) == r,
{
    assert(Seq::<u8>::empty() + r.delivered =~= r.delivered);
}

proof fn lemma_run_prefix_merge(d1: Seq<u8>, k1: int, d2: Seq<u8>, k2: int, r: ChunkedRun)
    ensures
        run_prefixed(d1, k1, run_prefixed(d2, k2, r)) == run_prefixed(d1 + d2, k1 + k2, r),
{
    assert(d1 + (d2 + r.delivered) =~= (d1 + d2) + r.delivered);
}

/// How the end of an incoming body is recognized.
#[derive(Clone, Copy, PartialEq, Eq, Structural, Debug)]
pub enum Decoder {
    /// A fixed-length body: this many bytes remain.
    Length(u64),
    /// A chunked-coded body.
    Chunked(ChunkedPhase),
    /// A body delimited only by the close of the connection.
    Close,
}

impl Decoder {
    /// The body is fully delimited and consumed.
    pub open spec fn spec_is_eof(self) -> bool {
        match self {
            Decoder::Length(rem) => rem == 0,
            Decoder::Chunked(phase) => phase is Done,
            Decoder::Close => false,
        }
    }

    /// The framing forces the connection to close.
    pub open spec fn spec_is_closed(self) -> bool {
        match self {
            Decoder::Length(_) => false,
            Decoder::Chunked(phase) => phase is Bad,
            Decoder::Close => true,
        }
    }

    pub fn is_eof(&self) -> (r: bool)
        ensures
            r == self.spec_is_eof(),
    {
        match self {
            Decoder::Length(rem) => *rem == 0,
            Decoder::Chunked(phase) => matches!(phase, ChunkedPhase::Done),
            Decoder::Close => false,
        }
    }

    pub fn is_closed(&self) -> (r: bool)
        ensures
            r == self.spec_is_closed(),
    {
        match self {
            Decoder::Length(_) => false,
            Decoder::Chunked(phase) => matches!(phase, ChunkedPhase::Bad),
            Decoder::Close => true,
        }
    }

    /// Pulls up to `max` body bytes out of the channel's read buffer.
    ///
    /// For a fixed-length or close-delimited body the bytes delivered are
    /// exactly the consumed prefix of the buffer.  For a chunked body, chunk
    /// framing bytes are consumed and checked but not delivered; a framing
    /// violation is an error and marks the decoder closed.  Only the read
    /// buffer is touched.
    pub fn decode(&mut self, chan: &mut ByteChannel, max: usize) -> (r: Result<Vec<u8>, FrameError>)
        ensures
            final(chan).outgoing@ == old(chan).outgoing@,
            final(chan).capacity == old(chan).capacity,
            final(chan).eof == old(chan).eof,
            exists|k: int| 0 <= k <= old(chan).incoming@.len()
                && final(chan).incoming@ == old(chan).incoming@.skip(k),
            match r {
                Ok(out) => out@.len() <= max,
                Err(_) => *final(self) is Chunked && (*final(self)).spec_is_closed(),
            },
            *old(self) is Length ==> ({
                let rem = old(self)->Length_0;
                let n = min3(rem as int, old(chan).incoming@.len() as int, max as int);
                &&& r matches Ok(out) && out@ == old(chan).incoming@.take(n)
                &&& final(chan).incoming@ == old(chan).incoming@.skip(n)
                &&& *final(self) == Decoder::Length((rem - n) as u64)
            }),
            *old(self) is Close ==> ({
                let n = if old(chan).incoming@.len() <= max { old(chan).incoming@.len() as int } else { max as int };
                &&& r matches Ok(out) && out@ == old(chan).incoming@.take(n)
                &&& final(chan).incoming@ == old(chan).incoming@.skip(n)
                &&& *final(self) == *old(self)
            }),
            *old(self) is Chunked ==> (*final(self) is Chunked),
            (*old(self) is Chunked && r is Ok) ==> !(*final(self)).spec_is_closed(),
            (*old(self) is Chunked && (r matches Ok(out) && out@.len() < max)) ==>
                ((*final(self)).spec_is_eof() || final(chan).incoming@.len() == 0),
            // a chunked body decodes exactly as the reference run says
            *old(self) matches Decoder::Chunked(ph0) ==> ({
                let run = spec_chunked_run(ph0, old(chan).incoming@, max as int);
                &&& *final(self) == Decoder::Chunked(run.phase)
                &&& final(chan).incoming@ == old(chan).incoming@.skip(run.consumed)
                &&& 0 <= run.consumed <= old(chan).incoming@.len()
                &&& (r matches Ok(out) ==> out@ == run.delivered)
                &&& (r is Err <==> run.phase is Bad)
            }),
            old(self).spec_is_eof() ==> *final(self) == *old(self) && final(chan).incoming@ == old(chan).incoming@
                && (r matches Ok(out) && out@ == Seq::<u8>::empty()),
    {
        match *self {
            Decoder::Length(rem) => {
                let avail = chan.incoming.len();
                let mut n: usize = if avail <= max { avail } else { max };
                if rem < n as u64 {
                    n = rem as usize;
                }
                let mut out: Vec<u8> = Vec::new();
                let mut i: usize = 0;
                while i < n
                    invariant
                        i <= n <= chan.incoming@.len(),
                        out@ == chan.incoming@.take(i as int),
                    decreases n - i,
                {
                    out.push(chan.incoming[i]);
                    assert(out@ =~= chan.incoming@.take(i + 1));
                    i += 1;
                }
                chan.consume(n);
                *self = Decoder::Length(rem - n as u64);
                assert(chan.incoming@ =~= old(chan).incoming@.skip(n as int));
                Ok(out)
            },
            Decoder::Close => {
                let avail = chan.incoming.len();
                let n: usize = if avail <= max { avail } else { max };
                let mut out: Vec<u8> = Vec::new();
                let mut i: usize = 0;
                while i < n
                    invariant
                        i <= n <= chan.incoming@.len(),
                        out@ == chan.incoming@.take(i as int),
                    decreases n - i,
                {
                    out.push(chan.incoming[i]);
                    assert(out@ =~= chan.incoming@.take(i + 1));
                    i += 1;
                }
                chan.consume(n);
                assert(chan.incoming@ =~= old(chan).incoming@.skip(n as int));
                Ok(out)
            },
            Decoder::Chunked(_) => self.decode_chunked(chan, max),
        }
    }

    /// The chunked loop: alternates control bytes and data bytes until `max`
    /// data bytes were delivered, the buffer ran dry, the body ended, or the
    /// framing was violated.
    fn decode_chunked(&mut self, chan: &mut ByteChannel, max: usize) -> (r: Result<Vec<u8>, FrameError>)
        requires
            *old(self) is Chunked,
        ensures
            final(chan).outgoing@ == old(chan).outgoing@,
            final(chan).capacity == old(chan).capacity,
            final(chan).eof == old(chan).eof,
            exists|k: int| 0 <= k <= old(chan).incoming@.len()
                && final(chan).incoming@ == old(chan).incoming@.skip(k),
            *final(self) is Chunked,
            match r {
                Ok(out) => out@.len() <= max && !(*final(self)).spec_is_closed(),
                Err(_) => final(self).spec_is_closed(),
            },
            // a short successful delivery means the body ended or the
            // buffer ran dry: the loop never stops early otherwise
            (r matches Ok(out) && out@.len() < max) ==>
                ((*final(self)).spec_is_eof() || final(chan).incoming@.len() == 0),
            // the run matches the reference decoder exactly: final phase,
            // bytes consumed, bytes delivered
            ({
                let run = spec_chunked_run(old(self)->Chunked_0, old(chan).incoming@, max as int);
                &&& *final(self) == Decoder::Chunked(run.phase)
                &&& final(chan).incoming@ == old(chan).incoming@.skip(run.consumed)
                &&& 0 <= run.consumed <= old(chan).incoming@.len()
                &&& (r matches Ok(out) ==> out@ == run.delivered)
                &&& (r is Err <==> run.phase is Bad)
            }),
            old(self).spec_is_eof() ==> *final(self) == *old(self) && final(chan).incoming@ == old(chan).incoming@
                && (r matches Ok(out) && out@ == Seq::<u8>::empty()),
    {
        let ghost ph0 = old(self)->Chunked_0;
        let ghost input0 = old(chan).incoming@;
        let mut out: Vec<u8> = Vec::new();
        let ghost mut k: int = 0;
        proof {
            lemma_run_prefix_empty(spec_chunked_run(ph0, input0, max as int));
            assert(out@ =~= Seq::<u8>::empty());
            assert(chan.incoming@ =~= input0.skip(0));
        }
        loop
            invariant
                *self is Chunked,
                out@.len() <= max,
                chan.outgoing@ == old(chan).outgoing@,
                chan.capacity == old(chan).capacity,
                chan.eof == old(chan).eof,
                input0 == old(chan).incoming@,
                ph0 == old(self)->Chunked_0,
                0 <= k <= input0.len(),
                chan.incoming@ == input0.skip(k),
                spec_chunked_run(ph0, input0, max as int)
                    == run_prefixed(out@, k,
                        spec_chunked_run(self->Chunked_0, chan.incoming@, max - out@.len())),
                old(self).spec_is_eof() ==> *self == *old(self) && chan.incoming@ == old(chan).incoming@
                    && out@ == Seq::<u8>::empty(),
            decreases chan.incoming@.len() * 2
                + (if (self->Chunked_0) matches ChunkedPhase::Data { rem } && rem == 0 { 1int } else { 0int }),
        {
            let ghost loop_incoming = chan.incoming@;
            let phase = match *self {
                Decoder::Chunked(p) => p,
                _ => { assert(false); ChunkedPhase::Bad },
            };
            match phase {
                ChunkedPhase::Done => {
                    proof {
                        assert(out@ + Seq::<u8>::empty() =~= out@);
                    }
                    return Ok(out);
                },
                ChunkedPhase::Bad => {
                    proof {
                        assert(out@ + Seq::<u8>::empty() =~= out@);
                    }
                    return Err(FrameError);
                },
                ChunkedPhase::Data { rem } => {
                    if rem == 0 {
                        *self = Decoder::Chunked(ChunkedPhase::DataCr);
                    } else {
                        if out.len() >= max || chan.incoming.len() == 0 {
                            proof {
                                assert(out@ + Seq::<u8>::empty() =~= out@);
                            }
                            return Ok(out);
                        }
                        let ghost out_pre = out@;
                        let room = max - out.len();
                        let avail = chan.incoming.len();
                        let mut n: usize = if avail <= room { avail } else { room };
                        if rem < n as u64 {
                            n = rem as usize;
                        }
                        assert(n as int == min3(rem as int, loop_incoming.len() as int, room as int));
                        let mut i: usize = 0;
                        while i < n
                            invariant
                                i <= n <= chan.incoming@.len(),
                                n + out_pre.len() <= max,
                                out@ == out_pre + chan.incoming@.take(i as int),
                                chan.incoming@ == loop_incoming,
                                chan.outgoing@ == old(chan).outgoing@,
                                chan.capacity == old(chan).capacity,
                                chan.eof == old(chan).eof,
                            decreases n - i,
                        {
                            out.push(chan.incoming[i]);
                            assert(out@ =~= out_pre + chan.incoming@.take(i + 1));
                            i += 1;
                        }
                        chan.consume(n);
                        let newrem = rem - n as u64;
                        if newrem == 0 {
                            *self = Decoder::Chunked(ChunkedPhase::DataCr);
                        } else {
                            *self = Decoder::Chunked(ChunkedPhase::Data { rem: newrem });
                        }
                        proof {
                            assert(chan.incoming@ =~= loop_incoming.skip(n as int));
                            assert(chan.incoming@ =~= input0.skip(k + n));
                            let sub = spec_chunked_run(self->Chunked_0, chan.incoming@, (max - out@.len()) as int);
                            assert(spec_chunked_run(phase, loop_incoming, (max - out_pre.len()) as int)
                                == run_prefixed(loop_incoming.take(n as int), n as int, sub));
                            lemma_run_prefix_merge(out_pre, k, loop_incoming.take(n as int), n as int, sub);
                            assert(out@ =~= out_pre + loop_incoming.take(n as int));
                            k = k + n;
                        }
                    }
                },
                _ => {
                    if chan.incoming.len() == 0 {
                        proof {
                            assert(out@ + Seq::<u8>::empty() =~= out@);
                        }
                        return Ok(out);
                    }
                    let b = chan.incoming[0];
                    chan.consume(1);
                    *self = Decoder::Chunked(chunked_step_exec(phase, b));
                    proof {
                        assert(chan.incoming@ =~= loop_incoming.skip(1));
                        assert(chan.incoming@ =~= input0.skip(k + 1));
                        let sub = spec_chunked_run(self->Chunked_0, chan.incoming@, (max - out@.len()) as int);
                        assert(loop_incoming[0] == b);
                        assert(spec_chunked_run(phase, loop_incoming, (max - out@.len()) as int)
                            == run_prefixed(Seq::empty(), 1, sub));
                        lemma_run_prefix_merge(out@, k, Seq::empty(), 1, sub);
                        assert(out@ + Seq::<u8>::empty() =~= out@);
                        k = k + 1;
                    }
                },
            }
        }
    }
}

pub open spec fn min3(a: int, b: int, c: int) -> int {
    if a <= b && a <= c { a } else if b <= c { b } else { c }
}

/// How an outgoing body is framed.
#[derive(Clone, Copy, PartialEq, Eq, Structural, Debug)]
pub enum Encoder {
    /// A fixed-length body: this many bytes are still owed.
    Length(u64),
    /// Chunked transfer coding; a terminating zero-length chunk is owed at
    /// the end.
    Chunked,
    /// A body delimited only by closing the connection.
    Close,
}

/// The byte for one hex digit value, lower case.
pub open spec fn hex_digit(d: int) -> u8 {
    if d < 10 { (48 + d) as u8 } else { (87 + d) as u8 }
}

/// The shortest hex spelling of `n`.
pub open spec fn hex_seq(n: int) -> Seq<u8>
    decreases n,
{
    if n < 16 {
        seq![hex_digit(if n < 0 { 0 } else { n })]
    } else {
        hex_seq(n / 16).push(hex_digit(n % 16))
    }
}

pub open spec fn pow16(k: nat) -> int
    decreases k,
{
    if k == 0 { 1 } else { 16 * pow16((k - 1) as nat) }
}

proof fn lemma_hex_len(n: int, k: nat)
    requires
        0 <= n < pow16(k),
        1 <= k,
    ensures
        1 <= hex_seq(n).len() <= k,
    decreases k,
{
    if n < 16 {
    } else {
        assert(pow16(k) == 16 * pow16((k - 1) as nat));
        if k == 1 {
            assert(pow16(1nat) == 16);
            assert(false);
        }
        let p = pow16((k - 1) as nat);
        assert(p >= 1) by {
            lemma_pow16_pos((k - 1) as nat);
        }
        assert(n / 16 < p) by (nonlinear_arith)
            requires
                n < 16 * p,
                p >= 1,
                n >= 0,
        ;
        lemma_hex_len(n / 16, (k - 1) as nat);
    }
}

proof fn lemma_pow16_pos(k: nat)
    ensures
        pow16(k) >= 1,
    decreases k,
{
    if k > 0 {
        lemma_pow16_pos((k - 1) as nat);
    }
}

/// The wire framing of one data chunk: hex size, CRLF, the data, CRLF.
pub open spec fn chunk_frame(n: int, data: Seq<u8>) -> Seq<u8> {
    hex_seq(n) + seq![CR, LF] + data + seq![CR, LF]
}

/// The terminating zero-length chunk.
pub open spec fn last_chunk() -> Seq<u8> {
    seq![48u8, CR, LF, CR, LF]
}

/// Appends the hex spelling of `n` to `out`.
fn push_hex(n: u64, out: &mut Vec<u8>)
    requires
        old(out)@.len() + 16 <= usize::MAX,
    ensures
        final(out)@ == old(out)@ + hex_seq(n as int),
    decreases n,
{
    proof {
        lemma_pow16_16();
        lemma_hex_len(n as int, 16);
    }
    if n < 16 {
        let d: u8 = if n < 10 { 48 + n as u8 } else { 87 + n as u8 };
        out.push(d);
        assert(out@ =~= old(out)@ + hex_seq(n as int));
    } else {
        push_hex(n / 16, out);
        let r: u64 = n % 16;
        let d: u8 = if r < 10 { 48 + r as u8 } else { 87 + r as u8 };
        out.push(d);
        assert(out@ =~= old(out)@ + hex_seq(n as int));
    }
}

proof fn lemma_pow16_16()
    ensures
        pow16(16) == 0x1_0000_0000_0000_0000,
{
    reveal_with_fuel(pow16, 17);
}

impl Encoder {
    /// The body is fully emitted as far as the framing owes anything.
    pub open spec fn spec_is_eof(self) -> bool {
        match self {
            Encoder::Length(rem) => rem == 0,
            Encoder::Chunked => false,
            Encoder::Close => false,
        }
    }

    /// The framing forces the connection to close.
    pub open spec fn spec_is_closed(self) -> bool {
        self is Close
    }

    pub fn is_eof(&self) -> (r: bool)
        ensures
            r == self.spec_is_eof(),
    {
        match self {
            Encoder::Length(rem) => *rem == 0,
            Encoder::Chunked => false,
            Encoder::Close => false,
        }
    }

    pub fn is_closed(&self) -> (r: bool)
        ensures
            r == self.spec_is_closed(),
    {
        matches!(self, Encoder::Close)
    }

    /// Frames `data` into the channel, as far as the sink's capacity and the
    /// declared length allow, and returns how many data bytes were taken.
    ///
    /// A chunked frame is written whole or not at all: a chunk whose size
    /// line was sent cannot be cut short.
    pub fn encode(&mut self, chan: &mut ByteChannel, data: &Vec<u8>) -> (n: usize)
        requires
            old(chan).outgoing@.len() + data@.len() + 24 <= usize::MAX,
        ensures
            final(chan).incoming@ == old(chan).incoming@,
            final(chan).eof == old(chan).eof,
            n <= data@.len(),
            *old(self) is Length ==> ({
                let rem = old(self)->Length_0;
                &&& n == min3(data@.len() as int, rem as int, old(chan).capacity as int)
                &&& final(chan).outgoing@ == old(chan).outgoing@ + data@.take(n as int)
                &&& final(chan).capacity == old(chan).capacity - n
                &&& *final(self) == Encoder::Length((rem - n) as u64)
            }),
            *old(self) is Close ==> ({
                let want = if data@.len() <= old(chan).capacity { data@.len() as int } else { old(chan).capacity as int };
                &&& n == want
                &&& final(chan).outgoing@ == old(chan).outgoing@ + data@.take(n as int)
                &&& final(chan).capacity == old(chan).capacity - n
                &&& *final(self) == *old(self)
            }),
            *old(self) is Chunked ==> ({
                &&& *final(self) == *old(self)
                &&& (n == 0 ==> final(chan).outgoing@ == old(chan).outgoing@
                        && final(chan).capacity == old(chan).capacity
                        && (data@.len() == 0 || old(chan).capacity < 21))
                &&& (n != 0 ==> {
                        &&& n == if data@.len() <= old(chan).capacity - 20 { data@.len() as int } else { (old(chan).capacity - 20) as int }
                        &&& final(chan).outgoing@ == old(chan).outgoing@ + chunk_frame(n as int, data@.take(n as int))
                        &&& final(chan).capacity == old(chan).capacity - chunk_frame(n as int, data@.take(n as int)).len()
                    })
            }),
    {
        match *self {
            Encoder::Length(rem) => {
                let mut want: usize = data.len();
                if rem < want as u64 {
                    want = rem as usize;
                }
                let n = chan.write_range(data, 0, want);
                *self = Encoder::Length(rem - n as u64);
                assert(data@.subrange(0, n as int) =~= data@.take(n as int));
                n
            },
            Encoder::Close => {
                let n = chan.write_range(data, 0, data.len());
                assert(data@.subrange(0, n as int) =~= data@.take(n as int));
                n
            },
            Encoder::Chunked => {
                if data.len() == 0 || chan.capacity < 21 {
                    return 0;
                }
                let room = chan.capacity - 20;
                let n: usize = if data.len() <= room { data.len() } else { room };
                let mut frame: Vec<u8> = Vec::new();
                push_hex(n as u64, &mut frame);
                frame.push(CR);
                frame.push(LF);
                let mut i: usize = 0;
                while i < n
                    invariant
                        i <= n <= data@.len(),
                        frame@ == hex_seq(n as int) + seq![CR, LF] + data@.take(i as int),
                    decreases n - i,
                {
                    frame.push(data[i]);
                    assert(frame@ =~= hex_seq(n as int) + seq![CR, LF] + data@.take(i + 1));
                    i += 1;
                }
                frame.push(CR);
                frame.push(LF);
                assert(frame@ =~= chunk_frame(n as int, data@.take(n as int)));
                proof {
                    lemma_pow16_16();
                    lemma_hex_len(n as int, 16);
                }
                assert(frame@.len() <= n + 20);
                let written = chan.write_range(&frame, 0, frame.len());
                assert(written == frame@.len());
                assert(frame@.subrange(0, written as int) =~= frame@);
                n
            },
        }
    }

    /// The framing bytes still owed after the body ends: the terminating
    /// chunk for chunked coding, nothing otherwise.
    pub fn finish(&self) -> (r: Option<Vec<u8>>)
        ensures
            match r {
                Some(v) => *self is Chunked && v@ == last_chunk(),
                None => !(*self is Chunked),
            },
    {
        match self {
            Encoder::Chunked => {
                let mut v: Vec<u8> = Vec::new();
                v.push(48);
                v.push(CR);
                v.push(LF);
                v.push(CR);
                v.push(LF);
                assert(v@ =~= last_chunk());
                Some(v)
            },
            _ => None,
        }
    }
}

} // verus!
