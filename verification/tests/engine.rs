//! Connection-level scenarios: keep-alive looping, pipelining, benign
//! disconnects, malformed heads, framing errors, and artifact draining.

use h1core::channel::ByteChannel;
use h1core::conn::{Conn, ConnState, ConnectionHandler, ConnectionHandlerFactory, PollOutcome, Seed};
use h1core::handle::{Handle, Handler, HandlerFactory};
use h1core::head::{Headers, HttpVersion, Method, ResponseHead};
use h1core::request::Request;
use h1core::txn::{Error, Intent, Transaction, TransactionHandler};

fn transport(incoming: &[u8], eof: bool, capacity: usize) -> ByteChannel {
    let mut c = ByteChannel::new();
    c.incoming = incoming.to_vec();
    c.eof = eof;
    c.capacity = capacity;
    c
}

fn respond(txn: &mut Transaction, version: HttpVersion, status: u16, extra: &[(&[u8], &[u8])]) {
    let mut h = Headers::new();
    for (n, v) in extra {
        h.push(n.to_vec(), v.to_vec());
    }
    let head = ResponseHead { version, status, headers: h };
    assert!(txn.response(head).is_ok());
}

/// Reads the (empty) body, sends a framed 200, ends.
struct EchoOk;

impl TransactionHandler for EchoOk {
    fn ready(&mut self, txn: &mut Transaction) -> Intent {
        if let Some(head) = txn.incoming() {
            assert!(head.is_ok());
            let _ = txn.read(1024);
            respond(txn, HttpVersion::Http11, 200, &[(b"Content-Length", b"0")]);
            txn.end();
        }
        Intent::end()
    }
}

struct CountingConn {
    count: usize,
}

impl ConnectionHandler for CountingConn {
    type Txn = EchoOk;

    fn transaction(&mut self) -> Option<EchoOk> {
        self.count += 1;
        Some(EchoOk)
    }
}

#[test]
fn empty_eof_closes_without_handler() {
    let mut conn = Conn::new(1u64, transport(b"", true, 0), CountingConn { count: 0 });
    assert_eq!(conn.poll(), PollOutcome::Ready);
    assert!(matches!(conn.state, ConnState::Closed));
    assert_eq!(conn.handler.count, 0);
    // Closed is absorbing and idempotent
    assert_eq!(conn.poll(), PollOutcome::Ready);
    assert!(matches!(conn.state, ConnState::Closed));
}

#[test]
fn garbage_without_terminator_stays_init() {
    let mut conn = Conn::new(2u64, transport(b"complete garbage", false, 0), CountingConn { count: 0 });
    assert_eq!(conn.poll(), PollOutcome::NotReady);
    assert!(matches!(conn.state, ConnState::Init));
    assert_eq!(conn.handler.count, 0);
    // more garbage, still no line terminator
    conn.io.incoming.extend_from_slice(b" and more");
    assert_eq!(conn.poll(), PollOutcome::NotReady);
    assert!(matches!(conn.state, ConnState::Init));
    assert_eq!(conn.handler.count, 0);
}

/// Expects the error head, waits one tick, then answers 400.
struct LateResponder {
    step: usize,
}

impl TransactionHandler for LateResponder {
    fn ready(&mut self, txn: &mut Transaction) -> Intent {
        self.step += 1;
        if self.step == 1 {
            let head = txn.incoming().expect("head slot filled on first invocation");
            assert!(head.is_err());
            return Intent::wait();
        }
        respond(txn, HttpVersion::Http10, 400, &[(b"Content-Length", b"0")]);
        txn.end();
        Intent::end()
    }
}

struct LateConn {
    count: usize,
}

impl ConnectionHandler for LateConn {
    type Txn = LateResponder;

    fn transaction(&mut self) -> Option<LateResponder> {
        self.count += 1;
        Some(LateResponder { step: 0 })
    }
}

#[test]
fn malformed_line_reaches_handler_not_closed() {
    let mut conn = Conn::new(3u64, transport(b"NOSPACES\r\nleftover", false, 4096), LateConn { count: 0 });
    assert_eq!(conn.poll(), PollOutcome::NotReady);
    // active with an error head, one handler created, not closed
    assert!(matches!(conn.state, ConnState::Http1(_)));
    assert_eq!(conn.handler.count, 1);
    // the handler now produces its diagnostic response and the erroring
    // transaction closes the connection
    assert_eq!(conn.poll(), PollOutcome::Ready);
    assert!(matches!(conn.state, ConnState::Closed));
    let out = String::from_utf8(conn.io.outgoing.clone()).expect("ascii response");
    assert!(out.starts_with("HTTP/1.0 400 "));
}

#[test]
fn eof_with_garbage_gets_error_transaction() {
    let mut conn = Conn::new(4u64, transport(b"junk junk", true, 4096), LateConn { count: 0 });
    // end of stream with unparsable bytes: the handler is still consulted
    assert_eq!(conn.poll(), PollOutcome::NotReady);
    assert_eq!(conn.handler.count, 1);
    assert_eq!(conn.poll(), PollOutcome::Ready);
    assert!(matches!(conn.state, ConnState::Closed));
    let out = String::from_utf8(conn.io.outgoing.clone()).expect("ascii response");
    assert!(out.starts_with("HTTP/1.0 400 "));
}

#[test]
fn two_pipelined_requests_two_handlers() {
    let wire = b"GET / HTTP/1.1\r\n\r\nGET /second HTTP/1.1\r\n\r\n";
    let mut conn = Conn::new(5u64, transport(wire, false, 4096), CountingConn { count: 0 });
    // one poll drives both transactions and returns to Init for a third
    assert_eq!(conn.poll(), PollOutcome::NotReady);
    assert!(matches!(conn.state, ConnState::Init));
    assert_eq!(conn.handler.count, 2);
    let expected = b"HTTP/1.1 200 \r\nContent-Length: 0\r\n\r\nHTTP/1.1 200 \r\nContent-Length: 0\r\n\r\n";
    assert_eq!(conn.io.outgoing, expected.to_vec());
    // the peer goes away: a benign close
    conn.io.eof = true;
    assert_eq!(conn.poll(), PollOutcome::Ready);
    assert!(matches!(conn.state, ConnState::Closed));
    assert_eq!(conn.handler.count, 2);
}

#[test]
fn connection_close_ends_reuse() {
    let wire = b"GET / HTTP/1.1\r\nConnection: close\r\n\r\n";
    let mut conn = Conn::new(6u64, transport(wire, false, 4096), CountingConn { count: 0 });
    assert_eq!(conn.poll(), PollOutcome::Ready);
    assert!(matches!(conn.state, ConnState::Closed));
    assert_eq!(conn.handler.count, 1);
}

#[test]
fn keep_alive_disabled_closes_after_response() {
    let wire = b"GET / HTTP/1.1\r\n\r\n";
    let conn = Conn::new(7u64, transport(wire, false, 4096), CountingConn { count: 0 });
    let mut conn = conn.keep_alive(false);
    assert_eq!(conn.poll(), PollOutcome::Ready);
    assert!(matches!(conn.state, ConnState::Closed));
    assert_eq!(conn.handler.count, 1);
}

/// Answers an HTTP/1.0 request and explicitly keeps the connection alive.
struct OldStyleOk;

impl TransactionHandler for OldStyleOk {
    fn ready(&mut self, txn: &mut Transaction) -> Intent {
        if let Some(head) = txn.incoming() {
            assert!(head.is_ok());
            let _ = txn.read(1024);
            respond(
                txn,
                HttpVersion::Http10,
                200,
                &[(b"Content-Length", b"0"), (b"Connection", b"keep-alive")],
            );
            txn.end();
        }
        Intent::end()
    }
}

struct OldStyleConn {
    count: usize,
}

impl ConnectionHandler for OldStyleConn {
    type Txn = OldStyleOk;

    fn transaction(&mut self) -> Option<OldStyleOk> {
        self.count += 1;
        Some(OldStyleOk)
    }
}

#[test]
fn http10_keep_alive_when_both_sides_ask() {
    let wire = b"GET / HTTP/1.0\r\nConnection: keep-alive\r\n\r\n";
    let mut conn = Conn::new(8u64, transport(wire, false, 4096), OldStyleConn { count: 0 });
    assert_eq!(conn.poll(), PollOutcome::NotReady);
    assert!(matches!(conn.state, ConnState::Init));
    assert_eq!(conn.handler.count, 1);
}

#[test]
fn http10_defaults_to_close() {
    let wire = b"GET / HTTP/1.0\r\n\r\n";
    let mut conn = Conn::new(9u64, transport(wire, false, 4096), OldStyleConn { count: 0 });
    assert_eq!(conn.poll(), PollOutcome::Ready);
    assert!(matches!(conn.state, ConnState::Closed));
}

#[test]
fn unsupported_version_closes_immediately() {
    let wire = b"GET / HTTP/2.0\r\n\r\n";
    let mut conn = Conn::new(10u64, transport(wire, false, 4096), CountingConn { count: 0 });
    assert_eq!(conn.poll(), PollOutcome::Ready);
    assert!(matches!(conn.state, ConnState::Closed));
    assert_eq!(conn.handler.count, 0);
}

struct RefusingConn;

impl ConnectionHandler for RefusingConn {
    type Txn = EchoOk;

    fn transaction(&mut self) -> Option<EchoOk> {
        None
    }
}

#[test]
fn handler_refusal_closes_connection() {
    let wire = b"GET / HTTP/1.1\r\n\r\n";
    let mut conn = Conn::new(11u64, transport(wire, false, 4096), RefusingConn);
    assert_eq!(conn.poll(), PollOutcome::Ready);
    assert!(matches!(conn.state, ConnState::Closed));
    assert!(conn.io.outgoing.is_empty());
}

/// Sends a body-less chunked response; the head and the terminating chunk
/// must drain byte for byte, in order, across suspensions.
struct ChunkedResponder {
    done: bool,
}

impl TransactionHandler for ChunkedResponder {
    fn ready(&mut self, txn: &mut Transaction) -> Intent {
        if !self.done {
            self.done = true;
            let head = txn.incoming().expect("first invocation");
            assert!(head.is_ok());
            let _ = txn.read(1024);
            respond(txn, HttpVersion::Http11, 200, &[(b"Transfer-Encoding", b"chunked")]);
            txn.end();
        }
        Intent::end()
    }
}

struct ChunkedConn {
    count: usize,
}

impl ConnectionHandler for ChunkedConn {
    type Txn = ChunkedResponder;

    fn transaction(&mut self) -> Option<ChunkedResponder> {
        self.count += 1;
        Some(ChunkedResponder { done: false })
    }
}

#[test]
fn pending_artifacts_drain_in_order_across_polls() {
    let head_bytes = b"HTTP/1.1 200 \r\nTransfer-Encoding: chunked\r\n\r\n";
    let wire = b"GET / HTTP/1.1\r\n\r\n";
    // only ten bytes of sink capacity: the response head drains partially
    let mut conn = Conn::new(12u64, transport(wire, false, 10), ChunkedConn { count: 0 });
    assert_eq!(conn.poll(), PollOutcome::NotReady);
    assert_eq!(conn.io.outgoing, head_bytes[..10].to_vec());
    assert!(matches!(conn.state, ConnState::Http1(_)));
    // capacity returns: the head finishes, then the terminating chunk
    conn.io.capacity = 1000;
    assert_eq!(conn.poll(), PollOutcome::NotReady);
    let mut expected = head_bytes.to_vec();
    expected.extend_from_slice(b"0\r\n\r\n");
    assert_eq!(conn.io.outgoing, expected);
    // both sides resolved to keep-alive: back to Init, one handler used
    assert!(matches!(conn.state, ConnState::Init));
    assert_eq!(conn.handler.count, 1);
}

/// Streams a chunked body when capacity is ample.
struct ChunkedBody;

impl TransactionHandler for ChunkedBody {
    fn ready(&mut self, txn: &mut Transaction) -> Intent {
        if let Some(head) = txn.incoming() {
            assert!(head.is_ok());
            let _ = txn.read(1024);
            respond(txn, HttpVersion::Http11, 200, &[(b"Transfer-Encoding", b"chunked")]);
            let n = txn.write(&b"hi".to_vec()).expect("write after response");
            assert_eq!(n, 2);
            txn.end();
        }
        Intent::end()
    }
}

struct ChunkedBodyConn;

impl ConnectionHandler for ChunkedBodyConn {
    type Txn = ChunkedBody;

    fn transaction(&mut self) -> Option<ChunkedBody> {
        Some(ChunkedBody)
    }
}

#[test]
fn chunked_body_is_framed_and_terminated() {
    let wire = b"GET / HTTP/1.1\r\n\r\n";
    let mut conn = Conn::new(13u64, transport(wire, false, 4096), ChunkedBodyConn);
    assert_eq!(conn.poll(), PollOutcome::NotReady);
    assert!(matches!(conn.state, ConnState::Init));
    let expected = b"HTTP/1.1 200 \r\nTransfer-Encoding: chunked\r\n\r\n2\r\nhi\r\n0\r\n\r\n";
    assert_eq!(conn.io.outgoing, expected.to_vec());
}

/// Collects a five-byte request body that arrives in two pieces.
struct BodyReader {
    got: usize,
}

impl TransactionHandler for BodyReader {
    fn ready(&mut self, txn: &mut Transaction) -> Intent {
        let _ = txn.incoming();
        if let Ok(Some(bytes)) = txn.try_read(1024) {
            self.got += bytes.len();
        }
        if self.got == 5 {
            respond(txn, HttpVersion::Http11, 200, &[(b"Content-Length", b"0")]);
            txn.end();
            return Intent::end();
        }
        Intent::read()
    }
}

struct BodyConn {
    count: usize,
}

impl ConnectionHandler for BodyConn {
    type Txn = BodyReader;

    fn transaction(&mut self) -> Option<BodyReader> {
        self.count += 1;
        Some(BodyReader { got: 0 })
    }
}

#[test]
fn fixed_length_body_across_arrivals() {
    let wire = b"POST / HTTP/1.1\r\nContent-Length: 5\r\n\r\nhe";
    let mut conn = Conn::new(14u64, transport(wire, false, 4096), BodyConn { count: 0 });
    assert_eq!(conn.poll(), PollOutcome::NotReady);
    assert!(matches!(conn.state, ConnState::Http1(_)));
    conn.io.incoming.extend_from_slice(b"llo");
    assert_eq!(conn.poll(), PollOutcome::NotReady);
    // the body was fully consumed, the response framed: reusable
    assert!(matches!(conn.state, ConnState::Init));
    assert_eq!(conn.handler.count, 1);
    let out = String::from_utf8(conn.io.outgoing.clone()).expect("ascii response");
    assert!(out.starts_with("HTTP/1.1 200 "));
}

/// Tries to write before responding; the cursor must refuse.
struct EagerWriter;

impl TransactionHandler for EagerWriter {
    fn ready(&mut self, txn: &mut Transaction) -> Intent {
        if let Some(head) = txn.incoming() {
            assert!(head.is_ok());
            let early = txn.write(&b"x".to_vec());
            let status = if early == Err(Error::State) { 200 } else { 500 };
            let _ = txn.read(1024);
            respond(txn, HttpVersion::Http11, status, &[(b"Content-Length", b"0")]);
            txn.end();
        }
        Intent::end()
    }
}

struct EagerConn;

impl ConnectionHandler for EagerConn {
    type Txn = EagerWriter;

    fn transaction(&mut self) -> Option<EagerWriter> {
        Some(EagerWriter)
    }
}

#[test]
fn write_before_response_is_refused() {
    let wire = b"GET / HTTP/1.1\r\n\r\n";
    let mut conn = Conn::new(15u64, transport(wire, false, 4096), EagerConn);
    assert_eq!(conn.poll(), PollOutcome::NotReady);
    let out = String::from_utf8(conn.io.outgoing.clone()).expect("ascii response");
    assert!(out.starts_with("HTTP/1.1 200 "));
}

/// Reports a framing violation in the request body.
struct FrameObserver;

impl TransactionHandler for FrameObserver {
    fn ready(&mut self, txn: &mut Transaction) -> Intent {
        if let Some(head) = txn.incoming() {
            assert!(head.is_ok());
            let r = txn.read(1024);
            let status = if r == Err(Error::Frame) { 400 } else { 500 };
            respond(txn, HttpVersion::Http11, status, &[(b"Content-Length", b"0")]);
            txn.end();
        }
        Intent::end()
    }
}

struct FrameConn;

impl ConnectionHandler for FrameConn {
    type Txn = FrameObserver;

    fn transaction(&mut self) -> Option<FrameObserver> {
        Some(FrameObserver)
    }
}

#[test]
fn body_framing_error_closes_after_response() {
    let wire = b"POST / HTTP/1.1\r\nTransfer-Encoding: chunked\r\n\r\nZZ\r\n";
    let mut conn = Conn::new(16u64, transport(wire, false, 4096), FrameConn);
    assert_eq!(conn.poll(), PollOutcome::Ready);
    assert!(matches!(conn.state, ConnState::Closed));
    let out = String::from_utf8(conn.io.outgoing.clone()).expect("ascii response");
    assert!(out.starts_with("HTTP/1.1 400 "));
}

/// The application side of the factory glue.
struct AppHandler;

impl Handler for AppHandler {
    fn ready(&mut self, txn: &mut Transaction) -> Intent {
        let _ = txn.read(1024);
        respond(txn, HttpVersion::Http11, 204, &[(b"Content-Length", b"0")]);
        txn.end();
        Intent::end()
    }
}

struct AppFactory;

impl HandlerFactory for AppFactory {
    type Output = AppHandler;

    fn create(&mut self, incoming: Result<Request, Error>) -> Result<AppHandler, Error> {
        let req = incoming.expect("a parsed request");
        assert!(matches!(req.method(), Method::Get));
        assert_eq!(req.path().expect("origin form"), &b"/app".to_vec());
        Ok(AppHandler)
    }
}

struct GlueConn {
    count: usize,
}

impl ConnectionHandler for GlueConn {
    type Txn = Handle<AppFactory>;

    fn transaction(&mut self) -> Option<Handle<AppFactory>> {
        self.count += 1;
        Some(Handle::new(AppFactory))
    }
}

#[test]
fn factory_glue_builds_request_and_handler() {
    let wire = b"GET /app HTTP/1.1\r\n\r\n";
    let mut conn = Conn::new(17u64, transport(wire, false, 4096), GlueConn { count: 0 });
    assert_eq!(conn.poll(), PollOutcome::NotReady);
    assert!(matches!(conn.state, ConnState::Init));
    assert_eq!(conn.handler.count, 1);
    let out = String::from_utf8(conn.io.outgoing.clone()).expect("ascii response");
    assert!(out.starts_with("HTTP/1.1 204 "));
}

/// Admits connections by identity alone: the seed exposes nothing else.
struct ByKeyFactory;

impl ConnectionHandlerFactory<u64> for ByKeyFactory {
    type Output = CountingConn;

    fn create(&mut self, seed: Seed<u64>) -> Option<CountingConn> {
        if *seed.key() == 42 {
            Some(CountingConn { count: 0 })
        } else {
            None
        }
    }
}

#[test]
fn factory_admits_by_identity() {
    let mut factory = ByKeyFactory;
    assert!(factory.create(Seed::new(42u64)).is_some());
    assert!(factory.create(Seed::new(7u64)).is_none());
}

#[test]
fn seed_exposes_only_the_key() {
    let seed = Seed::new(42u64);
    assert_eq!(*seed.key(), 42u64);
    let k = conn_key_roundtrip();
    assert_eq!(k, 18u64);
}

fn conn_key_roundtrip() -> u64 {
    let conn = Conn::new(18u64, transport(b"", false, 0), RefusingConn);
    *conn.key()
}
