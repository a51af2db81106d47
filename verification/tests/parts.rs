//! Unit tests for the codec, the framing trackers, and the transition laws.

use h1core::channel::ByteChannel;
use h1core::codec::{parse, ParseOutcome, decoder_for, encoder_for, encode_head};
use h1core::framing::{Decoder, Encoder, ChunkedPhase};
use h1core::head::{
    Headers, HttpVersion, Method, MessageHead, RequestLine, RequestUri, ResponseHead,
    eq_ignore_case, negotiate_keep_alive,
};
use h1core::request::{Parser, Request, RequestOutcome, new};
use h1core::txn::{
    Chunk, Error, Intent, Interest, ReadState, WriteState, TxnResult, outcome, read_effect,
    write_effect,
};

fn chan_with(incoming: &[u8], capacity: usize) -> ByteChannel {
    let mut c = ByteChannel::new();
    c.incoming = incoming.to_vec();
    c.capacity = capacity;
    c
}

fn simple_head(version: HttpVersion, headers: Vec<(&[u8], &[u8])>) -> MessageHead {
    let mut h = Headers::new();
    for (n, v) in headers {
        h.push(n.to_vec(), v.to_vec());
    }
    MessageHead {
        version,
        subject: RequestLine(
            Method::Get,
            RequestUri::AbsolutePath { path: b"/".to_vec(), query: None },
        ),
        headers: h,
    }
}

#[test]
fn parse_simple_get() {
    let buf = b"GET /p?q HTTP/1.1\r\nHost: example\r\n\r\n".to_vec();
    let mut parser = Parser;
    let (req, consumed) = expect_complete(parser.parse(&buf));
    assert_eq!(consumed, buf.len());
    assert!(matches!(req.method(), Method::Get));
    assert_eq!(req.path().expect("origin form"), &b"/p".to_vec());
    assert_eq!(req.query().expect("query present"), &b"q".to_vec());
    assert!(matches!(req.version(), HttpVersion::Http11));
    let host = req.headers().lookup(&b"host".to_vec()).expect("host header");
    assert_eq!(host, &b"example".to_vec());
    let (method, uri, version, headers) = req.deconstruct();
    assert!(matches!(method, Method::Get));
    assert!(matches!(uri, RequestUri::AbsolutePath { .. }));
    assert!(matches!(version, HttpVersion::Http11));
    assert!(headers.lookup(&b"host".to_vec()).is_some());
}

#[test]
fn parse_needs_more_without_terminator() {
    let buf = b"complete garbage with no terminator".to_vec();
    assert!(matches!(parse(&buf), ParseOutcome::NeedMore));
    let empty: Vec<u8> = Vec::new();
    assert!(matches!(parse(&empty), ParseOutcome::NeedMore));
    let partial = b"GET / HTTP/1.1\r\nHost: incomplete".to_vec();
    assert!(matches!(parse(&partial), ParseOutcome::NeedMore));
}

#[test]
fn parse_malformed_start_line() {
    let buf = b"NOSPACESHERE\r\nrest".to_vec();
    assert!(matches!(parse(&buf), ParseOutcome::Malformed));
    let bad_version = b"GET / HTTP/9.9\r\n\r\n".to_vec();
    assert!(matches!(parse(&bad_version), ParseOutcome::Malformed));
    let bad_header = b"GET / HTTP/1.1\r\nno-colon-line\r\n\r\n".to_vec();
    assert!(matches!(parse(&bad_header), ParseOutcome::Malformed));
}

#[test]
fn parse_tolerates_leading_blank_lines() {
    let buf = b"\r\n\r\nGET / HTTP/1.1\r\n\r\n".to_vec();
    match parse(&buf) {
        ParseOutcome::Parsed { consumed, head } => {
            assert_eq!(consumed, buf.len());
            assert!(matches!(head.version, HttpVersion::Http11));
        },
        _ => panic!("expected a parsed head"),
    }
}

#[test]
fn parse_other_version_is_recognized() {
    let buf = b"GET / HTTP/2.0\r\n\r\n".to_vec();
    match parse(&buf) {
        ParseOutcome::Parsed { head, .. } => {
            assert!(matches!(head.version, HttpVersion::Http20));
        },
        _ => panic!("expected a parsed head"),
    }
}

#[test]
fn case_insensitive_compare() {
    assert!(eq_ignore_case(&b"AbC".to_vec(), &b"abc".to_vec()));
    assert!(eq_ignore_case(&b"Keep-Alive".to_vec(), &b"keep-alive".to_vec()));
    assert!(!eq_ignore_case(&b"ab".to_vec(), &b"abc".to_vec()));
    assert!(!eq_ignore_case(&b"abd".to_vec(), &b"abc".to_vec()));
}

#[test]
fn keep_alive_defaults() {
    let none = simple_head(HttpVersion::Http11, vec![]);
    assert!(negotiate_keep_alive(HttpVersion::Http11, &none.headers));
    let close = simple_head(HttpVersion::Http11, vec![(b"Connection", b"CLOSE")]);
    assert!(!negotiate_keep_alive(HttpVersion::Http11, &close.headers));
    let old_plain = simple_head(HttpVersion::Http10, vec![]);
    assert!(!negotiate_keep_alive(HttpVersion::Http10, &old_plain.headers));
    let old_ka = simple_head(HttpVersion::Http10, vec![(b"Connection", b"Keep-Alive")]);
    assert!(negotiate_keep_alive(HttpVersion::Http10, &old_ka.headers));
}

#[test]
fn keep_alive_token_lists() {
    // close buried in a token list still ends reuse
    let listed = simple_head(HttpVersion::Http11, vec![(b"Connection", b"close, TE")]);
    assert!(!negotiate_keep_alive(HttpVersion::Http11, &listed.headers));
    let padded = simple_head(HttpVersion::Http11, vec![(b"Connection", b" Close , te")]);
    assert!(!negotiate_keep_alive(HttpVersion::Http11, &padded.headers));
    // a list without the close token keeps the default
    let other = simple_head(HttpVersion::Http11, vec![(b"Connection", b"upgrade, te")]);
    assert!(negotiate_keep_alive(HttpVersion::Http11, &other.headers));
    // a token list can also grant keep-alive on the old version
    let old_list = simple_head(HttpVersion::Http10, vec![(b"Connection", b"TE, Keep-Alive")]);
    assert!(negotiate_keep_alive(HttpVersion::Http10, &old_list.headers));
    // "preclose" is not "close"
    let not_close = simple_head(HttpVersion::Http11, vec![(b"Connection", b"preclose")]);
    assert!(negotiate_keep_alive(HttpVersion::Http11, &not_close.headers));
}

#[test]
fn decoder_precedence() {
    let cl = simple_head(HttpVersion::Http11, vec![(b"Content-Length", b"5")]);
    assert_eq!(decoder_for(&cl), Some(Decoder::Length(5)));
    let te = simple_head(HttpVersion::Http11, vec![(b"Transfer-Encoding", b"chunked")]);
    assert_eq!(
        decoder_for(&te),
        Some(Decoder::Chunked(ChunkedPhase::Size { accum: 0, seen_digit: false }))
    );
    let both = simple_head(
        HttpVersion::Http11,
        vec![(b"Content-Length", b"5"), (b"Transfer-Encoding", b"chunked")],
    );
    assert_eq!(decoder_for(&both), Some(Decoder::Length(5)));
    let neither = simple_head(HttpVersion::Http11, vec![]);
    assert_eq!(decoder_for(&neither), Some(Decoder::Length(0)));
    let bad = simple_head(HttpVersion::Http11, vec![(b"Content-Length", b"x5")]);
    assert_eq!(decoder_for(&bad), None);
    // a twenty-digit length that fits an unsigned 64-bit count is taken
    let big = simple_head(HttpVersion::Http11, vec![(b"Content-Length", b"18446744073709551615")]);
    assert_eq!(decoder_for(&big), Some(Decoder::Length(u64::MAX)));
    // one beyond it is undeterminable framing
    let over = simple_head(HttpVersion::Http11, vec![(b"Content-Length", b"18446744073709551616")]);
    assert_eq!(decoder_for(&over), None);
}

#[test]
fn encoder_precedence() {
    let mk = |hs: Vec<(&[u8], &[u8])>| {
        let mut h = Headers::new();
        for (n, v) in hs {
            h.push(n.to_vec(), v.to_vec());
        }
        ResponseHead { version: HttpVersion::Http11, status: 200, headers: h }
    };
    assert_eq!(encoder_for(&mk(vec![(b"Content-Length", b"3")])), Encoder::Length(3));
    assert_eq!(encoder_for(&mk(vec![(b"Transfer-Encoding", b"chunked")])), Encoder::Chunked);
    assert_eq!(encoder_for(&mk(vec![])), Encoder::Close);
}

#[test]
fn encode_head_exact_bytes() {
    let mut h = Headers::new();
    h.push(b"Content-Length".to_vec(), b"0".to_vec());
    let head = ResponseHead { version: HttpVersion::Http11, status: 200, headers: h };
    let bytes = encode_head(&head);
    assert_eq!(bytes, b"HTTP/1.1 200 \r\nContent-Length: 0\r\n\r\n".to_vec());
    let head404 = ResponseHead { version: HttpVersion::Http10, status: 404, headers: Headers::new() };
    assert_eq!(encode_head(&head404), b"HTTP/1.0 404 \r\n\r\n".to_vec());
}

#[test]
fn encoder_length_partial_write() {
    let mut chan = chan_with(b"", 3);
    let mut e = Encoder::Length(10);
    let n = e.encode(&mut chan, &b"hello".to_vec());
    assert_eq!(n, 3);
    assert_eq!(chan.outgoing, b"hel".to_vec());
    assert_eq!(e, Encoder::Length(7));
    assert!(!e.is_eof());
    chan.capacity = 100;
    let n2 = e.encode(&mut chan, &b"lo".to_vec());
    assert_eq!(n2, 2);
    assert_eq!(chan.outgoing, b"hello".to_vec());
    assert_eq!(e, Encoder::Length(5));
}

#[test]
fn encoder_chunked_frames() {
    let mut chan = chan_with(b"", 100);
    let mut e = Encoder::Chunked;
    let n = e.encode(&mut chan, &b"hello".to_vec());
    assert_eq!(n, 5);
    assert_eq!(chan.outgoing, b"5\r\nhello\r\n".to_vec());
    assert_eq!(e.finish(), Some(b"0\r\n\r\n".to_vec()));
    assert_eq!(Encoder::Length(0).finish(), None);
    assert!(Encoder::Close.is_closed());
    assert!(!Encoder::Close.is_eof());
}

#[test]
fn decoder_length_delivers_prefix() {
    let mut chan = chan_with(b"helloEXTRA", 0);
    let mut d = Decoder::Length(5);
    let out = d.decode(&mut chan, 100).expect("no framing error");
    assert_eq!(out, b"hello".to_vec());
    assert_eq!(chan.incoming, b"EXTRA".to_vec());
    assert!(d.is_eof());
    // a second read delivers nothing more
    let out2 = d.decode(&mut chan, 100).expect("no framing error");
    assert!(out2.is_empty());
}

#[test]
fn decoder_chunked_strips_framing() {
    let mut chan = chan_with(b"5\r\nhello\r\n0\r\n\r\n", 0);
    let mut d = Decoder::Chunked(ChunkedPhase::Size { accum: 0, seen_digit: false });
    let out = d.decode(&mut chan, 100).expect("no framing error");
    assert_eq!(out, b"hello".to_vec());
    assert!(d.is_eof());
    assert!(chan.incoming.is_empty());
}

#[test]
fn decoder_chunked_bad_framing() {
    let mut chan = chan_with(b"ZZ\r\n", 0);
    let mut d = Decoder::Chunked(ChunkedPhase::Size { accum: 0, seen_digit: false });
    assert!(d.decode(&mut chan, 100).is_err());
    assert!(d.is_closed());
}

#[test]
fn outcome_exhaustive_terminal_pairs() {
    // KeepAlive exactly when both sides are KeepAlive
    let ka = WriteState::KeepAlive;
    let cl = WriteState::Closed;
    assert_eq!(outcome(ReadState::KeepAlive, &ka, true), Some(TxnResult::KeepAlive));
    assert_eq!(outcome(ReadState::KeepAlive, &cl, true), Some(TxnResult::Close));
    assert_eq!(outcome(ReadState::Closed, &ka, true), Some(TxnResult::Close));
    assert_eq!(outcome(ReadState::Closed, &cl, true), Some(TxnResult::Close));
    // unresolved sides give no verdict yet
    assert_eq!(outcome(ReadState::Init, &ka, true), None);
    assert_eq!(outcome(ReadState::Parsing, &cl, true), None);
    assert_eq!(outcome(ReadState::Body(Decoder::Length(0)), &cl, true), None);
    assert_eq!(outcome(ReadState::KeepAlive, &WriteState::Init, true), None);
    assert_eq!(outcome(ReadState::KeepAlive, &WriteState::Head, true), None);
    assert_eq!(
        outcome(ReadState::KeepAlive, &WriteState::Ready(Encoder::Length(0)), true),
        None
    );
}

#[test]
fn parse_absolute_form_target() {
    let buf = b"GET http://example.com/x?y HTTP/1.1\r\n\r\n".to_vec();
    let mut parser = Parser;
    let (req, consumed) = expect_complete(parser.parse(&buf));
    assert_eq!(consumed, buf.len());
    assert_eq!(req.path().expect("absolute form has a path"), &b"/x".to_vec());
    assert_eq!(req.query().expect("query present"), &b"y".to_vec());
    // an absent path reads as "/"
    let buf2 = b"GET http://example.com HTTP/1.0\r\n\r\n".to_vec();
    let (req2, _) = expect_complete(parser.parse(&buf2));
    assert_eq!(req2.path().expect("defaulted path"), &b"/".to_vec());
    assert!(req2.query().is_none());
}

fn expect_complete(r: RequestOutcome) -> (Request, usize) {
    match r {
        RequestOutcome::Complete { request, consumed } => (request, consumed),
        RequestOutcome::NeedMore => panic!("expected a complete head, got need-more"),
        RequestOutcome::Malformed => panic!("expected a complete head, got malformed"),
    }
}

#[test]
fn parser_distinguishes_malformed_from_partial() {
    let mut parser = Parser;
    assert!(matches!(parser.parse(&b"GET / HT".to_vec()), RequestOutcome::NeedMore));
    assert!(matches!(parser.parse(&b"NOSPACES\r\nrest".to_vec()), RequestOutcome::Malformed));
}

#[test]
fn starved_read_is_not_body_end() {
    let mk = |incoming: &[u8], eof: bool, dec: Decoder| h1core::txn::Transaction {
        head: None,
        chan: {
            let mut c = ByteChannel::new();
            c.incoming = incoming.to_vec();
            c.eof = eof;
            c
        },
        reading: ReadState::Body(dec),
        writing: WriteState::Init,
        body_decoder: None,
        resp_keep_alive: true,
        ended: false,
    };
    // a starved, unfinished fixed-length body would block
    let mut t = mk(b"", false, Decoder::Length(3));
    assert_eq!(t.read(16), Err(Error::WouldBlock));
    assert_eq!(t.try_read(16), Ok(None));
    // a finished body reads empty: zero bytes only at body end
    let mut t2 = mk(b"extra", false, Decoder::Length(0));
    assert_eq!(t2.read(16), Ok(Vec::new()));
    assert_eq!(t2.try_read(16), Ok(Some(Vec::new())));
    // a close-delimited body ends only at end-of-stream
    let mut t3 = mk(b"", false, Decoder::Close);
    assert_eq!(t3.read(16), Err(Error::WouldBlock));
    let mut t4 = mk(b"", true, Decoder::Close);
    assert_eq!(t4.read(16), Ok(Vec::new()));
    // partial data arrives, then the rest
    let mut t5 = mk(b"he", false, Decoder::Length(5));
    assert_eq!(t5.read(16), Ok(b"he".to_vec()));
    assert_eq!(t5.read(16), Err(Error::WouldBlock));
    t5.chan.incoming.extend_from_slice(b"llo");
    assert_eq!(t5.read(16), Ok(b"llo".to_vec()));
    assert_eq!(t5.read(16), Ok(Vec::new()));
}

#[test]
fn verdict_requires_negotiated_persistence() {
    // both sides KeepAlive but persistence revoked: the connection closes
    assert_eq!(
        outcome(ReadState::KeepAlive, &WriteState::KeepAlive, false),
        Some(TxnResult::Close)
    );
}

#[test]
fn intent_rows_move_both_sides() {
    let d = Decoder::Length(2);
    let d0 = Decoder::Length(0);
    let e = Encoder::Length(2);
    let e0 = Encoder::Length(0);
    assert_eq!(Intent::read().interest, Interest::Read);
    assert_eq!(Intent::write().interest, Interest::Write);
    assert_eq!(Intent::read_write().interest, Interest::ReadWrite);
    assert_eq!(Intent::wait().interest, Interest::Wait);
    assert_eq!(Intent::end().interest, Interest::End);
    assert_eq!(Intent::remove().interest, Interest::Remove);
    // Read and ReadWrite wake the read side
    assert_eq!(read_effect(Interest::Read, ReadState::Init, true), ReadState::Parsing);
    assert_eq!(read_effect(Interest::ReadWrite, ReadState::Waiting(d), true), ReadState::Body(d));
    // Write resolves a consumed read side, parks an unfinished one
    assert_eq!(read_effect(Interest::Write, ReadState::Body(d0), true), ReadState::KeepAlive);
    assert_eq!(read_effect(Interest::Write, ReadState::Body(d0), false), ReadState::Closed);
    assert_eq!(read_effect(Interest::Write, ReadState::Body(d), true), ReadState::Waiting(d));
    // Wait parks both sides
    assert_eq!(read_effect(Interest::Wait, ReadState::Body(d), true), ReadState::Waiting(d));
    assert!(matches!(
        write_effect(Interest::Wait, WriteState::Ready(e), true),
        WriteState::Waiting(Encoder::Length(2))
    ));
    // Write and ReadWrite wake the write side
    assert!(matches!(
        write_effect(Interest::Write, WriteState::Waiting(e), true),
        WriteState::Ready(Encoder::Length(2))
    ));
    assert!(matches!(write_effect(Interest::ReadWrite, WriteState::Init, true), WriteState::Head));
    // Read resolves a finished write side; a close-delimited one closes
    assert!(matches!(write_effect(Interest::Read, WriteState::Ready(e0), true), WriteState::KeepAlive));
    assert!(matches!(
        write_effect(Interest::Read, WriteState::Ready(Encoder::Close), true),
        WriteState::Closed
    ));
    // End resolves; a chunked encoder still owes its terminator
    assert_eq!(read_effect(Interest::End, ReadState::Init, true), ReadState::Closed);
    assert_eq!(read_effect(Interest::End, ReadState::Body(d0), true), ReadState::KeepAlive);
    match write_effect(Interest::End, WriteState::Ready(Encoder::Chunked), true) {
        WriteState::Chunk(c) => {
            assert_eq!(c.buf, b"0\r\n\r\n".to_vec());
            assert_eq!(c.pos, 0);
        },
        _ => panic!("a chunked body owes its terminating chunk"),
    }
    // Remove abandons both sides
    assert_eq!(read_effect(Interest::Remove, ReadState::Body(d), true), ReadState::Closed);
    assert!(matches!(write_effect(Interest::Remove, WriteState::Ready(e), true), WriteState::Closed));
}

#[test]
fn chunk_artifact_drains_in_order() {
    let mut chan = chan_with(b"", 2);
    let mut c = Chunk {
        buf: b"0\r\n\r\n".to_vec(),
        pos: 0,
        next_encoder: Encoder::Length(0),
        next_interest: Interest::End,
    };
    let n = c.drain(&mut chan);
    assert_eq!(n, 2);
    assert_eq!(chan.outgoing, b"0\r".to_vec());
    assert_eq!(c.pos, 2);
    assert!(!c.is_written());
    chan.capacity = 100;
    let n2 = c.drain(&mut chan);
    assert_eq!(n2, 3);
    assert_eq!(chan.outgoing, b"0\r\n\r\n".to_vec());
    assert!(c.is_written());
}

#[test]
fn chunk_swallows_intents_until_drained() {
    let c = Chunk {
        buf: b"0\r\n\r\n".to_vec(),
        pos: 2,
        next_encoder: Encoder::Length(0),
        next_interest: Interest::End,
    };
    // a new intent while draining is only recorded, nothing else moves
    let w = write_effect(Interest::Read, WriteState::Chunk(c), true);
    match w {
        WriteState::Chunk(c2) => {
            assert_eq!(c2.buf, b"0\r\n\r\n".to_vec());
            assert_eq!(c2.pos, 2);
            assert_eq!(c2.next_encoder, Encoder::Length(0));
            assert_eq!(c2.next_interest, Interest::Read);
        },
        _ => panic!("the artifact must stay until drained"),
    }
    // Remove is the one exception: it abandons the side
    let c3 = Chunk {
        buf: b"0\r\n\r\n".to_vec(),
        pos: 0,
        next_encoder: Encoder::Length(0),
        next_interest: Interest::End,
    };
    assert!(matches!(
        write_effect(Interest::Remove, WriteState::Chunk(c3), true),
        WriteState::Closed
    ));
    // once drained, the recorded intent applies to the resumed encoder
    let c4 = Chunk {
        buf: b"0\r\n\r\n".to_vec(),
        pos: 5,
        next_encoder: Encoder::Length(0),
        next_interest: Interest::End,
    };
    assert!(matches!(
        write_effect(Interest::End, WriteState::Chunk(c4), true),
        WriteState::KeepAlive
    ));
}
