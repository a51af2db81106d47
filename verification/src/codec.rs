//! The wire codec boundary: parsing a buffered byte range into a message
//! head (`NeedMore` / `Malformed` / `Parsed`), deriving the body decoder and
//! encoder from a head, and laying a response head out as bytes.
//!
//! Framing precedence follows the wire contract: an explicit
//! `Content-Length` gives a fixed-length body; otherwise
//! `Transfer-Encoding: chunked` gives a chunked body; a response with
//! neither is delimited by closing the connection.

use vstd::prelude::*;
use crate::framing::{Decoder, Encoder, ChunkedPhase, CR, LF};
use crate::head::{
    HttpVersion, Method, RequestUri, Headers, MessageHead, RequestLine, ResponseHead,
    header_lookup, lower, spec_method_token, spec_uri_token,
};

verus! {

pub const SP: u8 = 32;

/// What parsing the buffered bytes yielded.
pub enum ParseOutcome {
    /// No complete head is buffered yet; wait for more bytes.
    NeedMore,
    /// A complete line is buffered but it is not a well-formed head.
    Malformed,
    /// A head, and how many buffered bytes it occupied.
    Parsed { head: MessageHead, consumed: usize },
}

pub open spec fn crlf_at(s: Seq<u8>, i: int) -> bool {
    0 <= i && i + 1 < s.len() && s[i] == 13 && s[i + 1] == 10
}

pub open spec fn contains_crlf(s: Seq<u8>) -> bool {
    exists|i: int| crlf_at(s, i)
}

pub open spec fn blank_byte(b: u8) -> bool {
    b == 13 || b == 10
}

/// A head terminator: CRLF immediately followed by CRLF.
pub open spec fn crlfcrlf_at(s: Seq<u8>, i: int) -> bool {
    crlf_at(s, i) && crlf_at(s, i + 2)
}

/// The first `b` bytes are blank and no head terminator occurs at or after
/// `b`.
pub open spec fn head_free_past(s: Seq<u8>, b: int) -> bool {
    &&& (forall|i: int| 0 <= i < b ==> blank_byte(#[trigger] s[i]))
    &&& (forall|q: int| b <= q ==> !#[trigger] crlfcrlf_at(s, q))
}

/// No complete head sits in the buffer: past some all-blank prefix, no head
/// terminator occurs.
pub open spec fn no_complete_head(s: Seq<u8>) -> bool {
    exists|b: int| 0 <= b <= s.len() && #[trigger] head_free_past(s, b)
}

/// Where the leading blank bytes end, starting at `i`.
pub open spec fn spec_blanks_end(s: Seq<u8>, i: int) -> int
    decreases s.len() - i,
{
    if 0 <= i < s.len() && blank_byte(s[i]) {
        spec_blanks_end(s, i + 1)
    } else {
        i
    }
}

/// The position of the first CRLF at or after `i`.
pub open spec fn spec_crlf_from(s: Seq<u8>, i: int) -> Option<int>
    decreases s.len() - i,
{
    if 0 <= i && i + 1 < s.len() {
        if s[i] == 13 && s[i + 1] == 10 {
            Some(i)
        } else {
            spec_crlf_from(s, i + 1)
        }
    } else {
        None
    }
}

/// The first occurrence of byte `b` in `s[i..stop)`, or `stop`.
pub open spec fn spec_scan(s: Seq<u8>, i: int, stop: int, b: u8) -> int
    decreases stop - i,
{
    if i < stop && 0 <= i < s.len() {
        if s[i] == b { i } else { spec_scan(s, i + 1, stop, b) }
    } else {
        stop
    }
}

/// The first index in `s[i..stop)` that is not a space or tab, or `stop`.
pub open spec fn spec_skip_ws(s: Seq<u8>, i: int, stop: int) -> int
    decreases stop - i,
{
    if i < stop && 0 <= i < s.len() {
        if s[i] == 32 || s[i] == 9 { spec_skip_ws(s, i + 1, stop) } else { i }
    } else {
        stop
    }
}

/// The version `s[from..to)` spells, if any.
pub open spec fn spec_version_at(s: Seq<u8>, from: int, to: int) -> Option<HttpVersion> {
    if to - from == 8 && 0 <= from && to <= s.len()
        && s[from] == 72 && s[from + 1] == 84 && s[from + 2] == 84 && s[from + 3] == 80
        && s[from + 4] == 47 && s[from + 6] == 46 {
        if s[from + 5] == 49 && s[from + 7] == 48 {
            Some(HttpVersion::Http10)
        } else if s[from + 5] == 49 && s[from + 7] == 49 {
            Some(HttpVersion::Http11)
        } else if s[from + 5] == 48 && s[from + 7] == 57 {
            Some(HttpVersion::Http09)
        } else if s[from + 5] == 50 && s[from + 7] == 48 {
            Some(HttpVersion::Http20)
        } else {
            None
        }
    } else {
        None
    }
}

/// How the header region starting at `p` classifies: incomplete, malformed,
/// or complete with its parsed name/value pairs and the position right after
/// the empty line.
pub ghost enum HeaderClass {
    NeedMore,
    Malformed,
    Complete { consumed: int, headers: Seq<(Seq<u8>, Seq<u8>)> },
}

pub open spec fn spec_classify_headers(s: Seq<u8>, p: int) -> HeaderClass
    decreases s.len() - p
        via spec_classify_headers_dec
{
    match spec_crlf_from(s, p) {
        None => HeaderClass::NeedMore,
        Some(j) => if j == p {
            HeaderClass::Complete { consumed: p + 2, headers: Seq::empty() }
        } else {
            let c = spec_scan(s, p, j, 58);
            if c == p || c == j {
                HeaderClass::Malformed
            } else {
                let vstart = spec_skip_ws(s, c + 1, j);
                match spec_classify_headers(s, j + 2) {
                    HeaderClass::NeedMore => HeaderClass::NeedMore,
                    HeaderClass::Malformed => HeaderClass::Malformed,
                    HeaderClass::Complete { consumed, headers } => HeaderClass::Complete {
                        consumed,
                        headers: seq![(s.subrange(p, c), s.subrange(vstart, j))] + headers,
                    },
                }
            }
        },
    }
}

#[via_fn]
proof fn spec_classify_headers_dec(s: Seq<u8>, p: int) {
    lemma_crlf_from_bounds(s, p);
}

proof fn lemma_crlf_from_bounds(s: Seq<u8>, i: int)
    ensures
        spec_crlf_from(s, i) matches Some(j) ==> i <= j && 0 <= j && j + 1 < s.len()
            && s[j] == 13 && s[j + 1] == 10,
    decreases s.len() - i,
{
    if 0 <= i && i + 1 < s.len() {
        if !(s[i] == 13 && s[i + 1] == 10) {
            lemma_crlf_from_bounds(s, i + 1);
        }
    }
}

/// What parsing classifies the buffer as, together with the token
/// boundaries, version, consumed count, and header pairs of a parsed head.
pub ghost enum HeadShape {
    NeedMore,
    Malformed,
    Parsed {
        blanks: int,
        method_end: int,
        uri_end: int,
        line_end: int,
        version: HttpVersion,
        consumed: int,
        headers: Seq<(Seq<u8>, Seq<u8>)>,
    },
}

/// The specification-level head classifier `parse` is proved against: skip
/// blank lines, read `METHOD SP URI SP VERSION CRLF`, then header lines up
/// to the empty line.
pub open spec fn spec_classify(s: Seq<u8>) -> HeadShape {
    let i0 = spec_blanks_end(s, 0);
    match spec_crlf_from(s, i0) {
        None => HeadShape::NeedMore,
        Some(le) => {
            let sp1 = spec_scan(s, i0, le, 32);
            if sp1 == i0 || sp1 == le {
                HeadShape::Malformed
            } else {
                let sp2 = spec_scan(s, sp1 + 1, le, 32);
                if sp2 == sp1 + 1 || sp2 == le {
                    HeadShape::Malformed
                } else {
                    match spec_version_at(s, sp2 + 1, le) {
                        None => HeadShape::Malformed,
                        Some(v) => match spec_classify_headers(s, le + 2) {
                            HeaderClass::NeedMore => HeadShape::NeedMore,
                            HeaderClass::Malformed => HeadShape::Malformed,
                            HeaderClass::Complete { consumed, headers } => HeadShape::Parsed {
                                blanks: i0,
                                method_end: sp1,
                                uri_end: sp2,
                                line_end: le,
                                version: v,
                                consumed,
                                headers,
                            },
                        },
                    }
                }
            }
        },
    }
}

proof fn lemma_blanks_end_is(s: Seq<u8>, i: int, r: int)
    requires
        0 <= i <= r <= s.len(),
        forall|k: int| i <= k < r ==> blank_byte(#[trigger] s[k]),
        r < s.len() ==> !blank_byte(s[r]),
    ensures
        spec_blanks_end(s, i) == r,
    decreases r - i,
{
    if i < r {
        lemma_blanks_end_is(s, i + 1, r);
    }
}

proof fn lemma_crlf_from_is_first(s: Seq<u8>, from: int, j: int)
    requires
        0 <= from <= j,
        crlf_at(s, j),
        forall|k: int| from <= k < j ==> !crlf_at(s, k),
    ensures
        spec_crlf_from(s, from) == Some(j),
    decreases j - from,
{
    if from < j {
        assert(!crlf_at(s, from));
        lemma_crlf_from_is_first(s, from + 1, j);
    }
}

proof fn lemma_crlf_from_none(s: Seq<u8>, from: int)
    requires
        0 <= from,
        forall|k: int| from <= k ==> !crlf_at(s, k),
    ensures
        spec_crlf_from(s, from) is None,
    decreases s.len() - from,
{
    if from + 1 < s.len() {
        assert(!crlf_at(s, from));
        lemma_crlf_from_none(s, from + 1);
    }
}

proof fn lemma_scan_is_first(s: Seq<u8>, from: int, stop: int, b: u8, r: int)
    requires
        0 <= from <= r <= stop <= s.len(),
        forall|k: int| from <= k < r ==> #[trigger] s[k] != b,
        r < stop ==> s[r] == b,
    ensures
        spec_scan(s, from, stop, b) == r,
    decreases r - from,
{
    if from < r {
        lemma_scan_is_first(s, from + 1, stop, b, r);
    }
}

proof fn lemma_skip_ws_is_first(s: Seq<u8>, from: int, stop: int, r: int)
    requires
        0 <= from <= r <= stop <= s.len(),
        forall|k: int| from <= k < r ==> (#[trigger] s[k] == 32 || s[k] == 9),
        r < stop ==> !(s[r] == 32 || s[r] == 9),
    ensures
        spec_skip_ws(s, from, stop) == r,
    decreases r - from,
{
    if from < r {
        lemma_skip_ws_is_first(s, from + 1, stop, r);
    }
}

/// Prepends already-collected header pairs to a classification.
pub open spec fn hclass_prefixed(prefix: Seq<(Seq<u8>, Seq<u8>)>, hc: HeaderClass) -> HeaderClass {
    match hc {
        HeaderClass::Complete { consumed, headers } => HeaderClass::Complete {
            consumed,
            headers: prefix + headers,
        },
        _ => hc,
    }
}

proof fn lemma_hclass_prefix_empty(hc: HeaderClass)
    ensures
        hclass_prefixed(Seq::empty(), hc) == hc,
{
    match hc {
        HeaderClass::Complete { consumed, headers } => {
            assert(Seq::<(Seq<u8>, Seq<u8>)>::empty() + headers =~= headers);
        },
        _ => {},
    }
}

proof fn lemma_hclass_prefix_assoc(a: Seq<(Seq<u8>, Seq<u8>)>, b: Seq<(Seq<u8>, Seq<u8>)>, hc: HeaderClass)
    ensures
        hclass_prefixed(a, hclass_prefixed(b, hc)) == hclass_prefixed(a + b, hc),
{
    match hc {
        HeaderClass::Complete { consumed, headers } => {
            assert(a + (b + headers) =~= (a + b) + headers);
        },
        _ => {},
    }
}

/// The first CRLF at or after `from`.
fn find_crlf(buf: &Vec<u8>, from: usize) -> (r: Option<usize>)
    requires
        from <= buf@.len(),
    ensures
        match r {
            Some(j) => from <= j && crlf_at(buf@, j as int)
                && (forall|k: int| from <= k < j ==> !crlf_at(buf@, k)),
            None => forall|k: int| from <= k ==> !crlf_at(buf@, k),
        },
{
    let mut i = from;
    while i < buf.len() && i + 1 < buf.len()
        invariant
            from <= i,
            i <= buf@.len(),
            forall|k: int| from <= k < i ==> !crlf_at(buf@, k),
        decreases buf@.len() - i,
    {
        if buf[i] == CR && buf[i + 1] == LF {
            return Some(i);
        }
        i += 1;
    }
    None
}

/// Copies `buf[from..to]` out.
fn extract(buf: &Vec<u8>, from: usize, to: usize) -> (v: Vec<u8>)
    requires
        from <= to <= buf@.len(),
    ensures
        v@ == buf@.subrange(from as int, to as int),
{
    let mut v: Vec<u8> = Vec::new();
    let mut i = from;
    while i < to
        invariant
            from <= i <= to <= buf@.len(),
            v@ == buf@.subrange(from as int, i as int),
        decreases to - i,
    {
        v.push(buf[i]);
        assert(v@ =~= buf@.subrange(from as int, i + 1));
        i += 1;
    }
    v
}

fn parse_version(buf: &Vec<u8>, from: usize, to: usize) -> (r: Option<HttpVersion>)
    requires
        from <= to <= buf@.len(),
    ensures
        r == spec_version_at(buf@, from as int, to as int),
{
    if to - from != 8 {
        return None;
    }
    // "HTTP/" then digit '.' digit
    if buf[from] != 72 || buf[from + 1] != 84 || buf[from + 2] != 84 || buf[from + 3] != 80
        || buf[from + 4] != 47 || buf[from + 6] != 46 {
        return None;
    }
    let major = buf[from + 5];
    let minor = buf[from + 7];
    if major == 49 && minor == 48 {
        Some(HttpVersion::Http10)
    } else if major == 49 && minor == 49 {
        Some(HttpVersion::Http11)
    } else if major == 48 && minor == 57 {
        Some(HttpVersion::Http09)
    } else if major == 50 && minor == 48 {
        Some(HttpVersion::Http20)
    } else {
        None
    }
}

fn parse_method(token: Vec<u8>) -> (m: Method)
    ensures
        spec_method_token(&m) == token@,
{
    let t = &token;
    if t.len() == 3 && t[0] == 71 && t[1] == 69 && t[2] == 84 {
        assert(token@ =~= seq![71u8, 69u8, 84u8]);
        Method::Get
    } else if t.len() == 4 && t[0] == 72 && t[1] == 69 && t[2] == 65 && t[3] == 68 {
        assert(token@ =~= seq![72u8, 69u8, 65u8, 68u8]);
        Method::Head
    } else if t.len() == 4 && t[0] == 80 && t[1] == 79 && t[2] == 83 && t[3] == 84 {
        assert(token@ =~= seq![80u8, 79u8, 83u8, 84u8]);
        Method::Post
    } else if t.len() == 3 && t[0] == 80 && t[1] == 85 && t[2] == 84 {
        assert(token@ =~= seq![80u8, 85u8, 84u8]);
        Method::Put
    } else if t.len() == 6 && t[0] == 68 && t[1] == 69 && t[2] == 76 && t[3] == 69 && t[4] == 84 && t[5] == 69 {
        assert(token@ =~= seq![68u8, 69u8, 76u8, 69u8, 84u8, 69u8]);
        Method::Delete
    } else if t.len() == 7 && t[0] == 79 && t[1] == 80 && t[2] == 84 && t[3] == 73 && t[4] == 79 && t[5] == 78 && t[6] == 83 {
        assert(token@ =~= seq![79u8, 80u8, 84u8, 73u8, 79u8, 78u8, 83u8]);
        Method::Options
    } else {
        Method::Extension(token)
    }
}

/// Splits `token[from..]` at the first `?` into a path and an optional
/// query.
fn split_query(token: &Vec<u8>, from: usize) -> (r: (Vec<u8>, Option<Vec<u8>>))
    requires
        from <= token@.len(),
    ensures
        match r.1 {
            Some(q) => r.0@ + seq![63u8] + q@ == token@.subrange(from as int, token@.len() as int),
            None => r.0@ == token@.subrange(from as int, token@.len() as int),
        },
{
    let mut at: usize = from;
    while at < token.len() && token[at] != 63
        invariant
            from <= at <= token@.len(),
        decreases token@.len() - at,
    {
        at += 1;
    }
    if at < token.len() {
        let path = extract(token, from, at);
        let query = extract(token, at + 1, token.len());
        assert(path@ + seq![63u8] + query@ =~= token@.subrange(from as int, token@.len() as int));
        (path, Some(query))
    } else {
        (extract(token, from, token.len()), None)
    }
}

fn parse_uri(token: Vec<u8>) -> (u: RequestUri)
    ensures
        spec_uri_token(&u) == token@,
{
    if token.len() == 1 && token[0] == 42 {
        let u = RequestUri::Star;
        assert(spec_uri_token(&u) =~= token@);
        return u;
    }
    if token.len() > 0 && token[0] == 47 {
        // origin-form: split at the first '?'
        let (path, query) = split_query(&token, 0);
        assert(token@.subrange(0, token@.len() as int) =~= token@);
        return RequestUri::AbsolutePath { path, query };
    }
    // absolute-form: a scheme, then "://", then authority and path
    let mut c: usize = 0;
    while c < token.len() && token[c] != 58 && token[c] != 47
        invariant
            c <= token@.len(),
        decreases token@.len() - c,
    {
        c += 1;
    }
    if c < token.len() && token.len() - c > 2 && token[c] == 58 && token[c + 1] == 47 && token[c + 2] == 47 {
        // find where the path begins, after the authority
        let mut ps: usize = c + 3;
        while ps < token.len() && token[ps] != 47
            invariant
                c + 3 <= ps <= token@.len(),
            decreases token@.len() - ps,
        {
            ps += 1;
        }
        if ps < token.len() {
            let (path, query) = split_query(&token, ps);
            RequestUri::AbsoluteUri { target: token, path, query }
        } else {
            let mut path: Vec<u8> = Vec::new();
            path.push(47);
            RequestUri::AbsoluteUri { target: token, path, query: None }
        }
    } else {
        RequestUri::Authority(token)
    }
}

/// Attempts to parse one message head out of the buffered bytes.
///
/// Leading blank lines are tolerated and counted into `consumed`.  Nothing
/// is reported malformed before a complete line is buffered, and a parsed
/// head always ends at an empty line: `consumed` sits right after a
/// CRLF CRLF pair.
pub fn parse(buf: &Vec<u8>) -> (r: ParseOutcome)
    ensures
        r is NeedMore <==> spec_classify(buf@) is NeedMore,
        r is Malformed <==> spec_classify(buf@) is Malformed,
        r is Parsed <==> spec_classify(buf@) is Parsed,
        r matches ParseOutcome::Parsed { head, consumed } ==> ({
            &&& spec_classify(buf@) matches HeadShape::Parsed {
                    blanks, method_end, uri_end, line_end, version, consumed: c2, headers }
            &&& consumed == c2
            &&& head.version == version
            &&& spec_method_token(&head.subject.0) == buf@.subrange(blanks, method_end)
            &&& spec_uri_token(&head.subject.1) == buf@.subrange(method_end + 1, uri_end)
            &&& head.headers@ == headers
        }),
        buf@.len() == 0 ==> r is NeedMore,
        !contains_crlf(buf@) ==> r is NeedMore,
        r is NeedMore ==> no_complete_head(buf@),
        r matches ParseOutcome::Parsed { head, consumed } ==>
            4 <= consumed <= buf@.len()
            && crlf_at(buf@, consumed - 4)
            && crlf_at(buf@, consumed - 2),
        r is Malformed ==> contains_crlf(buf@),
{
    // tolerate leading blank lines
    let mut i0: usize = 0;
    while i0 < buf.len() && (buf[i0] == CR || buf[i0] == LF)
        invariant
            i0 <= buf@.len(),
            forall|i: int| 0 <= i < i0 ==> blank_byte(#[trigger] buf@[i]),
        decreases buf@.len() - i0,
    {
        i0 += 1;
    }
    proof {
        lemma_blanks_end_is(buf@, 0, i0 as int);
    }
    let line_end = match find_crlf(buf, i0) {
        Some(j) => j,
        None => {
            // no full line past the blank prefix: no terminator either
            proof {
                lemma_crlf_from_none(buf@, i0 as int);
            }
            assert(spec_classify(buf@) is NeedMore);
            assert(forall|q: int| i0 <= q ==> !crlfcrlf_at(buf@, q));
            assert(head_free_past(buf@, i0 as int));
            assert(no_complete_head(buf@));
            return ParseOutcome::NeedMore;
        },
    };
    proof {
        lemma_crlf_from_is_first(buf@, i0 as int, line_end as int);
    }
    // request line: METHOD SP URI SP VERSION
    let mut sp1: usize = i0;
    while sp1 < line_end && buf[sp1] != SP
        invariant
            i0 <= sp1 <= line_end <= buf@.len(),
            forall|k: int| i0 <= k < sp1 ==> #[trigger] buf@[k] != 32,
        decreases line_end - sp1,
    {
        sp1 += 1;
    }
    proof {
        lemma_scan_is_first(buf@, i0 as int, line_end as int, 32, sp1 as int);
    }
    if sp1 == i0 || sp1 == line_end {
        assert(spec_classify(buf@) is Malformed);
        return ParseOutcome::Malformed;
    }
    let mut sp2: usize = sp1 + 1;
    while sp2 < line_end && buf[sp2] != SP
        invariant
            sp1 < sp2 <= line_end <= buf@.len(),
            forall|k: int| sp1 + 1 <= k < sp2 ==> #[trigger] buf@[k] != 32,
        decreases line_end - sp2,
    {
        sp2 += 1;
    }
    proof {
        lemma_scan_is_first(buf@, sp1 as int + 1, line_end as int, 32, sp2 as int);
    }
    if sp2 == sp1 + 1 || sp2 == line_end {
        assert(spec_classify(buf@) is Malformed);
        return ParseOutcome::Malformed;
    }
    let version = match parse_version(buf, sp2 + 1, line_end) {
        Some(v) => v,
        None => {
            assert(spec_classify(buf@) is Malformed);
            return ParseOutcome::Malformed;
        },
    };
    let method = parse_method(extract(buf, i0, sp1));
    let uri = parse_uri(extract(buf, sp1 + 1, sp2));

    // header lines until the empty line
    let mut headers = Headers::new();
    let total = buf.len();
    let mut p: usize = line_end + 2;
    proof {
        lemma_hclass_prefix_empty(spec_classify_headers(buf@, p as int));
        assert(headers@ =~= Seq::<(Seq<u8>, Seq<u8>)>::empty());
    }
    loop
        invariant
            i0 + 2 <= p <= buf@.len(),
            buf@.len() == total,
            i0 < sp1 < sp2 < line_end && sp1 + 1 < sp2 && line_end + 2 <= p,
            crlf_at(buf@, p - 2),
            forall|i: int| 0 <= i < i0 ==> blank_byte(#[trigger] buf@[i]),
            forall|q: int| i0 <= q < p - 2 ==> !crlfcrlf_at(buf@, q),
            spec_blanks_end(buf@, 0) == i0 as int,
            spec_crlf_from(buf@, i0 as int) == Some(line_end as int),
            spec_scan(buf@, i0 as int, line_end as int, 32) == sp1 as int,
            spec_scan(buf@, sp1 as int + 1, line_end as int, 32) == sp2 as int,
            spec_version_at(buf@, sp2 as int + 1, line_end as int) == Some(version),
            spec_method_token(&method) == buf@.subrange(i0 as int, sp1 as int),
            spec_uri_token(&uri) == buf@.subrange(sp1 as int + 1, sp2 as int),
            spec_classify_headers(buf@, line_end as int + 2)
                == hclass_prefixed(headers@, spec_classify_headers(buf@, p as int)),
        decreases buf@.len() - p,
    {
        let j2 = match find_crlf(buf, p) {
            Some(j) => j,
            None => {
                // the head is not terminated yet anywhere in the buffer
                proof {
                    lemma_crlf_from_none(buf@, p as int);
                }
                assert(spec_classify(buf@) is NeedMore);
                assert(buf@[p - 1] == 10);
                assert(forall|q: int| p - 2 <= q ==> !crlfcrlf_at(buf@, q));
                assert(head_free_past(buf@, i0 as int));
                assert(no_complete_head(buf@));
                return ParseOutcome::NeedMore;
            },
        };
        proof {
            lemma_crlf_from_is_first(buf@, p as int, j2 as int);
        }
        if j2 == p {
            // the empty line: the head ends here
            assert(crlf_at(buf@, j2 as int));
            assert(j2 + 1 < buf@.len());
            let consumed = p + 2;
            proof {
                assert(spec_classify_headers(buf@, p as int)
                    == (HeaderClass::Complete { consumed: p as int + 2, headers: Seq::empty() }));
                assert(headers@ + Seq::<(Seq<u8>, Seq<u8>)>::empty() =~= headers@);
                assert(spec_classify_headers(buf@, line_end as int + 2)
                    == (HeaderClass::Complete { consumed: consumed as int, headers: headers@ }));
            }
            let head = MessageHead { version, subject: RequestLine(method, uri), headers };
            assert(spec_classify(buf@) matches HeadShape::Parsed {
                blanks, method_end, uri_end, line_end: le2, version: v2, consumed: c2, headers: hs2 }
                && blanks == i0 && method_end == sp1 && uri_end == sp2 && le2 == line_end
                && v2 == head.version && c2 == consumed && hs2 == head.headers@);
            assert(crlf_at(buf@, consumed - 4));
            assert(crlf_at(buf@, consumed - 2));
            return ParseOutcome::Parsed { head, consumed };
        }
        // "name: value"
        let mut c: usize = p;
        while c < j2 && buf[c] != 58
            invariant
                p <= c <= j2 <= buf@.len(),
                forall|k: int| p <= k < c ==> #[trigger] buf@[k] != 58,
            decreases j2 - c,
        {
            c += 1;
        }
        proof {
            lemma_scan_is_first(buf@, p as int, j2 as int, 58, c as int);
        }
        if c == p || c == j2 {
            assert(spec_classify_headers(buf@, p as int) is Malformed);
            assert(spec_classify(buf@) is Malformed);
            return ParseOutcome::Malformed;
        }
        let name = extract(buf, p, c);
        let mut vstart = c + 1;
        while vstart < j2 && (buf[vstart] == SP || buf[vstart] == 9)
            invariant
                c < vstart <= j2 <= buf@.len(),
                forall|k: int| c + 1 <= k < vstart ==> (#[trigger] buf@[k] == 32 || buf@[k] == 9),
            decreases j2 - vstart,
        {
            vstart += 1;
        }
        proof {
            lemma_skip_ws_is_first(buf@, c as int + 1, j2 as int, vstart as int);
        }
        let value = extract(buf, vstart, j2);
        let ghost headers_before = headers@;
        headers.push(name, value);
        proof {
            let single = seq![(buf@.subrange(p as int, c as int), buf@.subrange(vstart as int, j2 as int))];
            assert(spec_classify_headers(buf@, p as int)
                == hclass_prefixed(single, spec_classify_headers(buf@, j2 as int + 2)));
            lemma_hclass_prefix_assoc(headers_before, single, spec_classify_headers(buf@, j2 as int + 2));
            assert(headers@ =~= headers_before + single);
        }
        assert(crlf_at(buf@, j2 as int));
        assert(j2 + 1 < buf@.len());
        // this line was not empty, so no terminator starts inside it
        assert(buf@[p - 1] == 10);
        assert(!crlf_at(buf@, p as int));
        assert(forall|q: int| i0 <= q < j2 ==> !crlfcrlf_at(buf@, q));
        p = j2 + 2;
    }
}

pub open spec fn content_length_name() -> Seq<u8> {
    // "content-length"
    seq![99u8, 111u8, 110u8, 116u8, 101u8, 110u8, 116u8, 45u8, 108u8, 101u8, 110u8, 103u8, 116u8, 104u8]
}

pub open spec fn transfer_encoding_name() -> Seq<u8> {
    // "transfer-encoding"
    seq![116u8, 114u8, 97u8, 110u8, 115u8, 102u8, 101u8, 114u8, 45u8, 101u8, 110u8, 99u8, 111u8, 100u8, 105u8, 110u8, 103u8]
}

pub open spec fn chunked_token() -> Seq<u8> {
    // "chunked"
    seq![99u8, 104u8, 117u8, 110u8, 107u8, 101u8, 100u8]
}

fn content_length_bytes() -> (v: Vec<u8>)
    ensures
        v@ == content_length_name(),
        lower(v@) == v@,
{
    let mut v: Vec<u8> = Vec::new();
    v.push(99); v.push(111); v.push(110); v.push(116); v.push(101); v.push(110); v.push(116);
    v.push(45); v.push(108); v.push(101); v.push(110); v.push(103); v.push(116); v.push(104);
    assert(v@ =~= content_length_name());
    assert(lower(v@) =~= v@);
    v
}

fn transfer_encoding_bytes() -> (v: Vec<u8>)
    ensures
        v@ == transfer_encoding_name(),
        lower(v@) == v@,
{
    let mut v: Vec<u8> = Vec::new();
    v.push(116); v.push(114); v.push(97); v.push(110); v.push(115); v.push(102); v.push(101); v.push(114);
    v.push(45); v.push(101); v.push(110); v.push(99); v.push(111); v.push(100); v.push(105); v.push(110); v.push(103);
    assert(v@ =~= transfer_encoding_name());
    assert(lower(v@) =~= v@);
    v
}

fn chunked_bytes() -> (v: Vec<u8>)
    ensures
        v@ == chunked_token(),
{
    let mut v: Vec<u8> = Vec::new();
    v.push(99); v.push(104); v.push(117); v.push(110); v.push(107); v.push(101); v.push(100);
    assert(v@ =~= chunked_token());
    v
}

/// The decimal value of an all-digit sequence.
pub open spec fn dec_of(s: Seq<u8>) -> int
    decreases s.len(),
{
    if s.len() == 0 {
        0
    } else {
        dec_of(s.drop_last()) * 10 + (s.last() - 48)
    }
}

pub open spec fn all_digits(s: Seq<u8>) -> bool {
    forall|i: int| 0 <= i < s.len() ==> 48 <= #[trigger] s[i] <= 57
}

/// The number a decimal header value denotes, if it is one.
pub open spec fn dec_value(s: Seq<u8>) -> Option<int> {
    if s.len() >= 1 && all_digits(s) { Some(dec_of(s)) } else { None }
}

proof fn lemma_dec_of_nonneg(s: Seq<u8>)
    requires
        all_digits(s),
    ensures
        dec_of(s) >= 0,
    decreases s.len(),
{
    if s.len() > 0 {
        assert(all_digits(s.drop_last())) by {
            assert(forall|k: int| 0 <= k < s.len() - 1 ==> #[trigger] s.drop_last()[k] == s[k]);
        }
        lemma_dec_of_nonneg(s.drop_last());
    }
}

/// A longer all-digit prefix never denotes a smaller number.
proof fn lemma_dec_of_prefix_le(s: Seq<u8>, i: int)
    requires
        all_digits(s),
        0 <= i <= s.len(),
    ensures
        dec_of(s.take(i)) <= dec_of(s),
    decreases s.len() - i,
{
    if i < s.len() {
        assert(s.take(i + 1).drop_last() =~= s.take(i));
        assert(s.take(i + 1).last() == s[i]);
        assert(all_digits(s.take(i))) by {
            assert(forall|k: int| 0 <= k < i ==> #[trigger] s.take(i)[k] == s[k]);
        }
        lemma_dec_of_nonneg(s.take(i));
        assert(dec_of(s.take(i)) * 10 >= dec_of(s.take(i))) by (nonlinear_arith)
            requires dec_of(s.take(i)) >= 0;
        lemma_dec_of_prefix_le(s, i + 1);
    } else {
        assert(s.take(i) =~= s);
    }
}

/// Parses a decimal header value: the denoted number exactly when it is
/// all digits and fits an unsigned 64-bit count.
fn parse_dec(v: &Vec<u8>) -> (r: Option<u64>)
    ensures
        match r {
            Some(n) => dec_value(v@) == Some(n as int),
            None => dec_value(v@) is None
                || (dec_value(v@) matches Some(x) && x > u64::MAX),
        },
{
    if v.len() == 0 {
        return None;
    }
    let mut acc: u64 = 0;
    let mut i: usize = 0;
    while i < v.len()
        invariant
            i <= v@.len(),
            acc == dec_of(v@.take(i as int)),
            forall|k: int| 0 <= k < i ==> 48 <= #[trigger] v@[k] <= 57,
        decreases v@.len() - i,
    {
        let b = v[i];
        if b < 48 || b > 57 {
            assert(!all_digits(v@));
            return None;
        }
        let d = (b - 48) as u64;
        if acc > (u64::MAX - d) / 10 {
            // the denoted number exceeds the largest count; later digits
            // only grow it
            proof {
                assert(v@.take(i + 1).drop_last() =~= v@.take(i as int));
                assert(v@.take(i + 1).last() == v@[i as int]);
                assert(acc * 10 + d > u64::MAX) by (nonlinear_arith)
                    requires acc > (u64::MAX - d) / 10, 0 <= d <= 9, acc >= 0;
                if all_digits(v@) {
                    lemma_dec_of_prefix_le(v@, i + 1);
                }
            }
            return None;
        }
        proof {
            assert(acc * 10 + d <= u64::MAX) by (nonlinear_arith)
                requires acc <= (u64::MAX - d) / 10, 0 <= d <= 9, acc >= 0;
        }
        acc = acc * 10 + d;
        assert(v@.take(i + 1).drop_last() =~= v@.take(i as int));
        assert(v@.take(i + 1).last() == v@[i as int]);
        i += 1;
    }
    assert(v@.take(i as int) =~= v@);
    Some(acc)
}

/// The decoder an incoming head calls for, or nothing when the framing is
/// undeterminable (a bad `Content-Length`, an unknown transfer coding).
pub open spec fn spec_decoder_for(hs: Seq<(Seq<u8>, Seq<u8>)>) -> Option<Decoder> {
    match header_lookup(hs, content_length_name()) {
        Some(v) => match dec_value(v) {
            Some(n) => if 0 <= n < 0x1_0000_0000_0000_0000 { Some(Decoder::Length(n as u64)) } else { None },
            None => None,
        },
        None => match header_lookup(hs, transfer_encoding_name()) {
            Some(v) => if lower(v) == chunked_token() {
                Some(Decoder::Chunked(ChunkedPhase::Size { accum: 0, seen_digit: false }))
            } else {
                None
            },
            None => Some(Decoder::Length(0)),
        },
    }
}

/// Derives the body decoder from a request head: `Content-Length` first,
/// then `Transfer-Encoding: chunked`, else no body.
pub fn decoder_for(head: &MessageHead) -> (r: Option<Decoder>)
    ensures
        r == spec_decoder_for(head.headers@),
{
    let cl = content_length_bytes();
    match head.headers.lookup(&cl) {
        Some(v) => match parse_dec(v) {
            Some(n) => Some(Decoder::Length(n)),
            None => None,
        },
        None => {
            let te = transfer_encoding_bytes();
            match head.headers.lookup(&te) {
                Some(v) => {
                    let ch = chunked_bytes();
                    assert(lower(chunked_token()) =~= chunked_token());
                    if crate::head::eq_ignore_case(v, &ch) {
                        Some(Decoder::Chunked(ChunkedPhase::Size { accum: 0, seen_digit: false }))
                    } else {
                        None
                    }
                },
                None => Some(Decoder::Length(0)),
            }
        },
    }
}

/// The encoder an outgoing head calls for.
pub open spec fn spec_encoder_for(hs: Seq<(Seq<u8>, Seq<u8>)>) -> Encoder {
    match header_lookup(hs, content_length_name()) {
        Some(v) => match dec_value(v) {
            Some(n) => if 0 <= n < 0x1_0000_0000_0000_0000 { Encoder::Length(n as u64) } else { Encoder::Close },
            None => Encoder::Close,
        },
        None => match header_lookup(hs, transfer_encoding_name()) {
            Some(v) => if lower(v) == chunked_token() { Encoder::Chunked } else { Encoder::Close },
            None => Encoder::Close,
        },
    }
}

/// Derives the body encoder from a response head: `Content-Length` first,
/// then `Transfer-Encoding: chunked`; with neither the body runs until the
/// connection closes, which forbids reuse.
pub fn encoder_for(head: &ResponseHead) -> (r: Encoder)
    ensures
        r == spec_encoder_for(head.headers@),
{
    let cl = content_length_bytes();
    match head.headers.lookup(&cl) {
        Some(v) => match parse_dec(v) {
            Some(n) => Encoder::Length(n),
            None => Encoder::Close,
        },
        None => {
            let te = transfer_encoding_bytes();
            match head.headers.lookup(&te) {
                Some(v) => {
                    let ch = chunked_bytes();
                    assert(lower(chunked_token()) =~= chunked_token());
                    if crate::head::eq_ignore_case(v, &ch) {
                        Encoder::Chunked
                    } else {
                        Encoder::Close
                    }
                },
                None => Encoder::Close,
            }
        },
    }
}

pub open spec fn version_bytes(v: HttpVersion) -> Seq<u8> {
    match v {
        // "HTTP/0.9" / "HTTP/1.0" / "HTTP/1.1" / "HTTP/2.0"
        HttpVersion::Http09 => seq![72u8, 84u8, 84u8, 80u8, 47u8, 48u8, 46u8, 57u8],
        HttpVersion::Http10 => seq![72u8, 84u8, 84u8, 80u8, 47u8, 49u8, 46u8, 48u8],
        HttpVersion::Http11 => seq![72u8, 84u8, 84u8, 80u8, 47u8, 49u8, 46u8, 49u8],
        HttpVersion::Http20 => seq![72u8, 84u8, 84u8, 80u8, 47u8, 50u8, 46u8, 48u8],
    }
}

pub open spec fn status_digits(s: int) -> Seq<u8> {
    seq![(48 + s / 100 % 10) as u8, (48 + s / 10 % 10) as u8, (48 + s % 10) as u8]
}

pub open spec fn header_line_bytes(h: (Seq<u8>, Seq<u8>)) -> Seq<u8> {
    h.0 + seq![58u8, 32u8] + h.1 + seq![13u8, 10u8]
}

pub open spec fn headers_bytes(hs: Seq<(Seq<u8>, Seq<u8>)>) -> Seq<u8>
    decreases hs.len(),
{
    if hs.len() == 0 {
        Seq::empty()
    } else {
        header_line_bytes(hs[0]) + headers_bytes(hs.skip(1))
    }
}

/// The wire layout of a response head: status line (with an empty reason
/// phrase), header lines, and the empty line.
pub open spec fn response_head_bytes(version: HttpVersion, status: int, hs: Seq<(Seq<u8>, Seq<u8>)>) -> Seq<u8> {
    version_bytes(version) + seq![32u8] + status_digits(status) + seq![32u8, 13u8, 10u8]
        + headers_bytes(hs) + seq![13u8, 10u8]
}

proof fn lemma_headers_bytes_push(hs: Seq<(Seq<u8>, Seq<u8>)>, h: (Seq<u8>, Seq<u8>))
    ensures
        headers_bytes(hs.push(h)) == headers_bytes(hs) + header_line_bytes(h),
    decreases hs.len(),
{
    if hs.len() == 0 {
        assert(hs.push(h)[0] == h);
        assert(hs.push(h).skip(1) =~= Seq::<(Seq<u8>, Seq<u8>)>::empty());
        assert(headers_bytes(hs.push(h).skip(1)) == Seq::<u8>::empty());
        assert(headers_bytes(hs) == Seq::<u8>::empty());
        assert(headers_bytes(hs.push(h)) =~= headers_bytes(hs) + header_line_bytes(h));
    } else {
        assert(hs.push(h).skip(1) =~= hs.skip(1).push(h));
        lemma_headers_bytes_push(hs.skip(1), h);
        assert(hs.push(h)[0] == hs[0]);
        assert(headers_bytes(hs.push(h))
            == header_line_bytes(hs[0]) + (headers_bytes(hs.skip(1)) + header_line_bytes(h)));
        assert(headers_bytes(hs) == header_line_bytes(hs[0]) + headers_bytes(hs.skip(1)));
        assert(headers_bytes(hs.push(h)) =~= headers_bytes(hs) + header_line_bytes(h));
    }
}

/// Lays a response head out as bytes.
pub fn encode_head(head: &ResponseHead) -> (v: Vec<u8>)
    requires
        100 <= head.status <= 999,
    ensures
        v@ == response_head_bytes(head.version, head.status as int, head.headers@),
{
    let mut v: Vec<u8> = Vec::new();
    match head.version {
        HttpVersion::Http09 => { v.push(72); v.push(84); v.push(84); v.push(80); v.push(47); v.push(48); v.push(46); v.push(57); },
        HttpVersion::Http10 => { v.push(72); v.push(84); v.push(84); v.push(80); v.push(47); v.push(49); v.push(46); v.push(48); },
        HttpVersion::Http11 => { v.push(72); v.push(84); v.push(84); v.push(80); v.push(47); v.push(49); v.push(46); v.push(49); },
        HttpVersion::Http20 => { v.push(72); v.push(84); v.push(84); v.push(80); v.push(47); v.push(50); v.push(46); v.push(48); },
    }
    assert(v@ =~= version_bytes(head.version));
    v.push(32);
    let s = head.status;
    v.push(48 + (s / 100 % 10) as u8);
    v.push(48 + (s / 10 % 10) as u8);
    v.push(48 + (s % 10) as u8);
    v.push(32);
    v.push(CR);
    v.push(LF);
    let ghost prefix = version_bytes(head.version) + seq![32u8] + status_digits(head.status as int)
        + seq![32u8, 13u8, 10u8];
    assert(v@ =~= prefix);
    let ghost hs = head.headers@;
    let n = head.headers.items.len();
    assert(hs.take(0) =~= Seq::<(Seq<u8>, Seq<u8>)>::empty());
    let mut i: usize = 0;
    while i < n
        invariant
            i <= n == head.headers.items@.len(),
            hs == head.headers@,
            hs.len() == n,
            forall|k: int| 0 <= k < n ==> hs[k] == (#[trigger] head.headers.items@[k].name@, head.headers.items@[k].value@),
            v@ == prefix + headers_bytes(hs.take(i as int)),
        decreases n - i,
    {
        let ghost before = v@;
        let item = &head.headers.items[i];
        let mut j: usize = 0;
        while j < item.name.len()
            invariant
                j <= item.name@.len(),
                v@ == before + item.name@.take(j as int),
            decreases item.name@.len() - j,
        {
            v.push(item.name[j]);
            assert(v@ =~= before + item.name@.take(j + 1));
            j += 1;
        }
        assert(item.name@.take(item.name@.len() as int) =~= item.name@);
        v.push(58);
        v.push(32);
        let ghost before2 = v@;
        let mut j2: usize = 0;
        while j2 < item.value.len()
            invariant
                j2 <= item.value@.len(),
                v@ == before2 + item.value@.take(j2 as int),
            decreases item.value@.len() - j2,
        {
            v.push(item.value[j2]);
            assert(v@ =~= before2 + item.value@.take(j2 + 1));
            j2 += 1;
        }
        assert(item.value@.take(item.value@.len() as int) =~= item.value@);
        v.push(CR);
        v.push(LF);
        proof {
            assert(hs.take(i + 1).drop_last() =~= hs.take(i as int));
            assert(hs.take(i + 1) =~= hs.take(i as int).push(hs[i as int]));
            lemma_headers_bytes_push(hs.take(i as int), hs[i as int]);
            assert(v@ =~= before + header_line_bytes(hs[i as int]));
            assert(v@ =~= prefix + headers_bytes(hs.take(i + 1)));
        }
        i += 1;
    }
    assert(hs.take(n as int) =~= hs);
    v.push(CR);
    v.push(LF);
    assert(v@ =~= response_head_bytes(head.version, head.status as int, head.headers@));
    v
}

} // verus!
