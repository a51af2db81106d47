//! The request wrapper a server handler is shown: method, target, version,
//! and headers of one incoming message.

use vstd::prelude::*;
use crate::head::{
    Method, RequestUri, HttpVersion, Headers, MessageHead, RequestLine,
    spec_method_token, spec_uri_token,
};
use crate::codec::{parse, ParseOutcome, spec_classify, HeadShape};

verus! {

/// An incoming request's head, bundled for application code.
pub struct Request {
    pub method: Method,
    pub uri: RequestUri,
    pub version: HttpVersion,
    pub headers: Headers,
}

/// Bundles a parsed message head into a `Request`.
pub fn new(incoming: MessageHead) -> (r: Request)
    ensures
        r.version == incoming.version,
        r.headers@ == incoming.headers@,
        r.method == incoming.subject.0,
        r.uri == incoming.subject.1,
{
    let MessageHead { version, subject: RequestLine(method, uri), headers } = incoming;
    Request { method, uri, headers, version }
}

impl Request {
    /// The method, such as `Get` or `Post`.
    pub fn method(&self) -> (r: &Method)
        ensures
            r == self.method,
    {
        &self.method
    }

    /// The headers of the incoming request.
    pub fn headers(&self) -> (r: &Headers)
        ensures
            r == self.headers,
    {
        &self.headers
    }

    /// The target request-uri of this request.
    pub fn uri(&self) -> (r: &RequestUri)
        ensures
            r == self.uri,
    {
        &self.uri
    }

    /// The HTTP version of this request.
    pub fn version(&self) -> (r: &HttpVersion)
        ensures
            r == self.version,
    {
        &self.version
    }

    /// The target path, for an origin-form or absolute-form target.
    pub fn path(&self) -> (r: Option<&Vec<u8>>)
        ensures
            match r {
                Some(p) => (self.uri matches RequestUri::AbsolutePath { path, .. } && p@ == path@)
                    || (self.uri matches RequestUri::AbsoluteUri { path, .. } && p@ == path@),
                None => self.uri is Authority || self.uri is Star,
            },
    {
        match &self.uri {
            RequestUri::AbsolutePath { path, .. } => Some(path),
            RequestUri::AbsoluteUri { path, .. } => Some(path),
            _ => None,
        }
    }

    /// The query string, for an origin-form or absolute-form target that
    /// carried one.
    pub fn query(&self) -> (r: Option<&Vec<u8>>)
        ensures
            match r {
                Some(q) => (self.uri matches RequestUri::AbsolutePath { query: Some(qq), .. } && q@ == qq@)
                    || (self.uri matches RequestUri::AbsoluteUri { query: Some(qq), .. } && q@ == qq@),
                None => !(self.uri matches RequestUri::AbsolutePath { query: Some(_), .. })
                    && !(self.uri matches RequestUri::AbsoluteUri { query: Some(_), .. }),
            },
    {
        match &self.uri {
            RequestUri::AbsolutePath { query: Some(q), .. } => Some(q),
            RequestUri::AbsoluteUri { query: Some(q), .. } => Some(q),
            _ => None,
        }
    }

    /// Deconstructs this request into its pieces.
    pub fn deconstruct(self) -> (r: (Method, RequestUri, HttpVersion, Headers))
        ensures
            r.0 == self.method,
            r.1 == self.uri,
            r.2 == self.version,
            r.3 == self.headers,
    {
        (self.method, self.uri, self.version, self.headers)
    }
}

/// A framed-request parser: yields one `Request` and the bytes it occupied
/// once a complete head is buffered.
pub struct Parser;

/// What the framed-request parser yielded: a caller can tell a partial
/// head (wait for more bytes) from an unparsable one (give up).
pub enum RequestOutcome {
    /// No complete head is buffered yet.
    NeedMore,
    /// A complete line is buffered but it is not a well-formed head.
    Malformed,
    /// The request built from the buffered head, and the bytes it occupied.
    Complete { request: Request, consumed: usize },
}

impl Parser {
    /// Classifies the buffered bytes; a request comes out exactly when a
    /// complete, well-formed head is buffered.
    pub fn parse(&mut self, buf: &Vec<u8>) -> (r: RequestOutcome)
        ensures
            r is NeedMore <==> spec_classify(buf@) is NeedMore,
            r is Malformed <==> spec_classify(buf@) is Malformed,
            r is Complete <==> spec_classify(buf@) is Parsed,
            r matches RequestOutcome::Complete { request, consumed } ==> ({
                &&& spec_classify(buf@) matches HeadShape::Parsed {
                        blanks, method_end, uri_end, version, consumed: c2, headers, .. }
                &&& consumed == c2
                &&& 4 <= consumed <= buf@.len()
                &&& request.version == version
                &&& spec_method_token(&request.method) == buf@.subrange(blanks, method_end)
                &&& spec_uri_token(&request.uri) == buf@.subrange(method_end + 1, uri_end)
                &&& request.headers@ == headers
            }),
    {
        match parse(buf) {
            ParseOutcome::Parsed { head, consumed } => RequestOutcome::Complete {
                request: new(head),
                consumed,
            },
            ParseOutcome::Malformed => RequestOutcome::Malformed,
            ParseOutcome::NeedMore => RequestOutcome::NeedMore,
        }
    }
}

} // verus!
