//! Message heads: version, request line, headers, and the keep-alive
//! negotiation rules.
//!
//! HTTP/1.1 connections are persistent unless the peer sends
//! `Connection: close`; HTTP/1.0 connections are not persistent unless the
//! peer sends `Connection: keep-alive`.  Header names and these two values
//! compare ASCII-case-insensitively.

use vstd::prelude::*;

verus! {

#[derive(Clone, Copy, PartialEq, Eq, Structural, Debug)]
pub enum HttpVersion {
    Http09,
    Http10,
    Http11,
    Http20,
}

#[derive(Clone, Debug)]
pub enum Method {
    Get,
    Head,
    Post,
    Put,
    Delete,
    Options,
    Extension(Vec<u8>),
}

#[derive(Clone, Debug)]
pub enum RequestUri {
    /// An origin-form target: path, and the query if a `?` was present.
    AbsolutePath { path: Vec<u8>, query: Option<Vec<u8>> },
    /// An absolute-form target (`scheme://authority/path?query`): the full
    /// token, and the path and query derived from it (an absent path reads
    /// as `/`).
    AbsoluteUri { target: Vec<u8>, path: Vec<u8>, query: Option<Vec<u8>> },
    /// An authority-form target (CONNECT).
    Authority(Vec<u8>),
    /// The asterisk-form target (OPTIONS *).
    Star,
}

/// The request-line bytes a method stands for.
pub open spec fn spec_method_token(m: &Method) -> Seq<u8> {
    match m {
        Method::Get => seq![71u8, 69u8, 84u8],
        Method::Head => seq![72u8, 69u8, 65u8, 68u8],
        Method::Post => seq![80u8, 79u8, 83u8, 84u8],
        Method::Put => seq![80u8, 85u8, 84u8],
        Method::Delete => seq![68u8, 69u8, 76u8, 69u8, 84u8, 69u8],
        Method::Options => seq![79u8, 80u8, 84u8, 73u8, 79u8, 78u8, 83u8],
        Method::Extension(v) => v@,
    }
}

/// The request-line bytes a target stands for.
pub open spec fn spec_uri_token(u: &RequestUri) -> Seq<u8> {
    match u {
        RequestUri::AbsolutePath { path, query } => match query {
            Some(q) => path@ + seq![63u8] + q@,
            None => path@,
        },
        RequestUri::AbsoluteUri { target, .. } => target@,
        RequestUri::Authority(v) => v@,
        RequestUri::Star => seq![42u8],
    }
}

#[derive(Clone, Debug)]
pub struct Header {
    pub name: Vec<u8>,
    pub value: Vec<u8>,
}

#[derive(Clone, Debug)]
pub struct Headers {
    pub items: Vec<Header>,
}

impl View for Headers {
    type V = Seq<(Seq<u8>, Seq<u8>)>;

    open spec fn view(&self) -> Seq<(Seq<u8>, Seq<u8>)> {
        self.items@.map_values(|h: Header| (h.name@, h.value@))
    }
}

impl Headers {
    pub fn new() -> (h: Headers)
        ensures
            h@ == Seq::<(Seq<u8>, Seq<u8>)>::empty(),
    {
        let h = Headers { items: Vec::new() };
        assert(h@ =~= Seq::<(Seq<u8>, Seq<u8>)>::empty());
        h
    }

    pub fn push(&mut self, name: Vec<u8>, value: Vec<u8>)
        ensures
            final(self)@ == old(self)@.push((name@, value@)),
    {
        let ghost before = self@;
        self.items.push(Header { name, value });
        assert(self@ =~= before.push(self@[self@.len() - 1]));
    }

    /// The value of the first header whose name matches `name`
    /// ASCII-case-insensitively; `name` must be given in lower case.
    pub fn lookup(&self, name: &Vec<u8>) -> (r: Option<&Vec<u8>>)
        requires
            lower(name@) == name@,
        ensures
            match r {
                Some(v) => header_lookup(self@, name@) == Some(v@),
                None => header_lookup(self@, name@) is None,
            },
    {
        let ghost hs = self@;
        assert(hs.skip(0) =~= hs);
        let mut i: usize = 0;
        while i < self.items.len()
            invariant
                i <= self.items.len(),
                hs == self@,
                lower(name@) == name@,
                hs.len() == self.items.len(),
                forall|k: int| 0 <= k < hs.len() ==> hs[k] == (#[trigger] self.items@[k].name@, self.items@[k].value@),
                header_lookup(hs, name@) == header_lookup(hs.skip(i as int), name@),
            decreases self.items.len() - i,
        {
            let ghost rest = hs.skip(i as int);
            assert(rest[0] == hs[i as int]);
            assert(rest.skip(1) =~= hs.skip(i as int + 1));
            if eq_ignore_case(&self.items[i].name, name) {
                return Some(&self.items[i].value);
            }
            i += 1;
        }
        assert(hs.skip(i as int) =~= Seq::<(Seq<u8>, Seq<u8>)>::empty());
        None
    }
}

/// Lower-cases one ASCII byte.
pub open spec fn lower_byte(b: u8) -> u8 {
    if 65 <= b <= 90 { (b + 32) as u8 } else { b }
}

/// Lower-cases a byte sequence, ASCII-wise.
pub open spec fn lower(s: Seq<u8>) -> Seq<u8> {
    s.map_values(|b: u8| lower_byte(b))
}

/// The value of the first header whose lowered name equals `name`.
pub open spec fn header_lookup(hs: Seq<(Seq<u8>, Seq<u8>)>, name: Seq<u8>) -> Option<Seq<u8>>
    decreases hs.len(),
{
    if hs.len() == 0 {
        None
    } else if lower(hs[0].0) == name {
        Some(hs[0].1)
    } else {
        header_lookup(hs.skip(1), name)
    }
}

/// True when the two byte sequences are equal ignoring ASCII case.
pub fn eq_ignore_case(a: &Vec<u8>, b: &Vec<u8>) -> (r: bool)
    ensures
        r == (lower(a@) == lower(b@)),
{
    if a.len() != b.len() {
        assert(lower(a@).len() != lower(b@).len());
        return false;
    }
    let mut i: usize = 0;
    while i < a.len()
        invariant
            i <= a.len(),
            a@.len() == b@.len(),
            forall|k: int| 0 <= k < i ==> lower(a@)[k] == lower(b@)[k],
        decreases a.len() - i,
    {
        let mut x = a[i];
        let mut y = b[i];
        if 65 <= x && x <= 90 {
            x = x + 32;
        }
        if 65 <= y && y <= 90 {
            y = y + 32;
        }
        if x != y {
            assert(lower(a@)[i as int] != lower(b@)[i as int]);
            return false;
        }
        i += 1;
    }
    assert(lower(a@) =~= lower(b@));
    true
}

/// The start line of a request: method and target.
#[derive(Clone, Debug)]
pub struct RequestLine(pub Method, pub RequestUri);

/// A parsed message head: version, start line, headers.
#[derive(Clone, Debug)]
pub struct MessageHead {
    pub version: HttpVersion,
    pub subject: RequestLine,
    pub headers: Headers,
}

/// An outgoing response head: version, status code, headers.
#[derive(Clone, Debug)]
pub struct ResponseHead {
    pub version: HttpVersion,
    pub status: u16,
    pub headers: Headers,
}

pub open spec fn connection_name() -> Seq<u8> {
    seq![99u8, 111u8, 110u8, 110u8, 101u8, 99u8, 116u8, 105u8, 111u8, 110u8]  // "connection"
}

pub open spec fn close_token() -> Seq<u8> {
    seq![99u8, 108u8, 111u8, 115u8, 101u8]  // "close"
}

pub open spec fn keep_alive_token() -> Seq<u8> {
    seq![107u8, 101u8, 101u8, 112u8, 45u8, 97u8, 108u8, 105u8, 118u8, 101u8]  // "keep-alive"
}

/// The first comma at or after `i`, or `s.len()`.
pub open spec fn first_comma(s: Seq<u8>, i: int) -> int
    decreases s.len() - i,
{
    if 0 <= i < s.len() {
        if s[i] == 44 { i } else { first_comma(s, i + 1) }
    } else {
        s.len() as int
    }
}

/// The first non-blank (space or tab) index at or after `i`.
pub open spec fn ws_start(s: Seq<u8>, i: int) -> int
    decreases s.len() - i,
{
    if 0 <= i < s.len() && (s[i] == 32 || s[i] == 9) { ws_start(s, i + 1) } else { i }
}

/// One past the last non-blank index before `j`.
pub open spec fn ws_end(s: Seq<u8>, j: int) -> int
    decreases j,
{
    if 0 < j <= s.len() && (s[j - 1] == 32 || s[j - 1] == 9) { ws_end(s, j - 1) } else { j }
}

/// The segment `s[i..j)` with blanks trimmed from both ends.
pub open spec fn trimmed(s: Seq<u8>, i: int, j: int) -> Seq<u8> {
    let a = ws_start(s, i);
    let b = ws_end(s, j);
    if 0 <= a <= b <= s.len() { s.subrange(a, b) } else { Seq::empty() }
}

/// Whether the comma-separated list in `v[from..]` holds a token equal,
/// trimmed and ASCII-case-insensitively, to `tok`.
pub open spec fn spec_has_token(v: Seq<u8>, from: int, tok: Seq<u8>) -> bool
    decreases v.len() - from
        via spec_has_token_dec
{
    let c = first_comma(v, from);
    let here = lower(trimmed(v, from, c)) == tok;
    if c < v.len() { here || spec_has_token(v, c + 1, tok) } else { here }
}

#[via_fn]
proof fn spec_has_token_dec(v: Seq<u8>, from: int, tok: Seq<u8>) {
    lemma_first_comma_bounds(v, from);
}

proof fn lemma_first_comma_bounds(s: Seq<u8>, i: int)
    ensures
        first_comma(s, i) >= i || first_comma(s, i) == s.len(),
        first_comma(s, i) <= s.len(),
    decreases s.len() - i,
{
    if 0 <= i < s.len() && s[i] != 44 {
        lemma_first_comma_bounds(s, i + 1);
    }
}

proof fn lemma_first_comma_is(s: Seq<u8>, from: int, r: int)
    requires
        0 <= from <= r <= s.len(),
        forall|k: int| from <= k < r ==> #[trigger] s[k] != 44,
        r < s.len() ==> s[r] == 44,
    ensures
        first_comma(s, from) == r,
    decreases r - from,
{
    if from < r {
        lemma_first_comma_is(s, from + 1, r);
    }
}

proof fn lemma_ws_start_is(s: Seq<u8>, i: int, r: int)
    requires
        0 <= i <= r <= s.len(),
        forall|k: int| i <= k < r ==> (#[trigger] s[k] == 32 || s[k] == 9),
        r < s.len() ==> !(s[r] == 32 || s[r] == 9),
    ensures
        ws_start(s, i) == r,
    decreases r - i,
{
    if i < r {
        lemma_ws_start_is(s, i + 1, r);
    }
}

proof fn lemma_ws_end_is(s: Seq<u8>, j: int, r: int)
    requires
        0 <= r <= j <= s.len(),
        forall|k: int| r <= k < j ==> (#[trigger] s[k] == 32 || s[k] == 9),
        r > 0 ==> !(s[r - 1] == 32 || s[r - 1] == 9),
    ensures
        ws_end(s, j) == r,
    decreases j - r,
{
    if r < j {
        lemma_ws_end_is(s, j - 1, r);
    }
}

/// Copies `v[from..to]` out.
fn segment_of(v: &Vec<u8>, from: usize, to: usize) -> (r: Vec<u8>)
    requires
        from <= to <= v@.len(),
    ensures
        r@ == v@.subrange(from as int, to as int),
{
    let mut r: Vec<u8> = Vec::new();
    let mut i = from;
    while i < to
        invariant
            from <= i <= to <= v@.len(),
            r@ == v@.subrange(from as int, i as int),
        decreases to - i,
    {
        r.push(v[i]);
        assert(r@ =~= v@.subrange(from as int, i + 1));
        i += 1;
    }
    r
}

/// Scans a comma-separated header value for a token equal, trimmed and
/// ASCII-case-insensitively, to `tok`.
pub fn value_has_token(v: &Vec<u8>, tok: &Vec<u8>) -> (r: bool)
    requires
        lower(tok@) == tok@,
    ensures
        r == spec_has_token(v@, 0, tok@),
{
    let mut from: usize = 0;
    loop
        invariant
            from <= v@.len(),
            lower(tok@) == tok@,
            spec_has_token(v@, 0, tok@) == spec_has_token(v@, from as int, tok@),
        decreases v@.len() - from,
    {
        // the segment runs to the next comma
        let mut c = from;
        while c < v.len() && v[c] != 44
            invariant
                from <= c <= v@.len(),
                forall|k: int| from <= k < c ==> #[trigger] v@[k] != 44,
            decreases v@.len() - c,
        {
            c += 1;
        }
        proof {
            lemma_first_comma_is(v@, from as int, c as int);
        }
        // trim blanks off both ends
        let mut a = from;
        while a < c && (v[a] == 32 || v[a] == 9)
            invariant
                from <= a <= c <= v@.len(),
                forall|k: int| from <= k < a ==> (#[trigger] v@[k] == 32 || v@[k] == 9),
            decreases c - a,
        {
            a += 1;
        }
        let mut b = c;
        while b > a && (v[b - 1] == 32 || v[b - 1] == 9)
            invariant
                from <= a <= b <= c <= v@.len(),
                forall|k: int| b <= k < c ==> (#[trigger] v@[k] == 32 || v@[k] == 9),
            decreases b,
        {
            b -= 1;
        }
        let seg = segment_of(v, a, b);
        let ghost c_i = c as int;
        proof {
            // the trimmed segment the spec sees is exactly seg
            if a < b {
                lemma_ws_start_is(v@, from as int, a as int);
                lemma_ws_end_is(v@, c_i, b as int);
            } else {
                // an all-blank segment trims to nothing on both sides
                lemma_ws_start_is(v@, from as int, a as int);
                assert(trimmed(v@, from as int, c_i) =~= Seq::<u8>::empty()) by {
                    let b2 = ws_end(v@, c_i);
                    if b2 > a as int {
                        lemma_ws_end_ge_nonblank(v@, c_i, a as int);
                    }
                }
                assert(seg@ =~= Seq::<u8>::empty());
            }
        }
        if eq_ignore_case(&seg, tok) {
            assert(lower(trimmed(v@, from as int, c_i)) == tok@);
            return true;
        }
        if c >= v.len() {
            assert(!spec_has_token(v@, from as int, tok@));
            return false;
        }
        from = c + 1;
    }
}

proof fn lemma_ws_end_ge_nonblank(s: Seq<u8>, j: int, a: int)
    requires
        0 <= a <= j <= s.len(),
        forall|k: int| a <= k < j ==> (#[trigger] s[k] == 32 || s[k] == 9),
    ensures
        ws_end(s, j) <= a,
    decreases j - a,
{
    if a < j {
        lemma_ws_end_ge_nonblank(s, j - 1, a);
    } else {
        lemma_ws_end_le(s, j);
    }
}

proof fn lemma_ws_end_le(s: Seq<u8>, j: int)
    requires
        0 <= j,
    ensures
        ws_end(s, j) <= j,
    decreases j,
{
    if 0 < j <= s.len() && (s[j - 1] == 32 || s[j - 1] == 9) {
        lemma_ws_end_le(s, j - 1);
    }
}

/// Whether a message with this version and these headers asks for the
/// connection to persist after the message.
pub open spec fn spec_keep_alive(version: HttpVersion, hs: Seq<(Seq<u8>, Seq<u8>)>) -> bool {
    match version {
        HttpVersion::Http11 => match header_lookup(hs, connection_name()) {
            Some(v) => !spec_has_token(v, 0, close_token()),
            None => true,
        },
        HttpVersion::Http10 => match header_lookup(hs, connection_name()) {
            Some(v) => spec_has_token(v, 0, keep_alive_token()),
            None => false,
        },
        _ => false,
    }
}

/// The bytes of "connection", for header lookups.
pub fn connection_bytes() -> (v: Vec<u8>)
    ensures
        v@ == connection_name(),
        lower(v@) == v@,
{
    let mut v: Vec<u8> = Vec::new();
    v.push(99);
    v.push(111);
    v.push(110);
    v.push(110);
    v.push(101);
    v.push(99);
    v.push(116);
    v.push(105);
    v.push(111);
    v.push(110);
    assert(v@ =~= connection_name());
    assert(lower(v@) =~= v@);
    v
}

fn close_bytes() -> (v: Vec<u8>)
    ensures
        v@ == close_token(),
{
    let mut v: Vec<u8> = Vec::new();
    v.push(99);
    v.push(108);
    v.push(111);
    v.push(115);
    v.push(101);
    assert(v@ =~= close_token());
    v
}

fn keep_alive_bytes() -> (v: Vec<u8>)
    ensures
        v@ == keep_alive_token(),
{
    let mut v: Vec<u8> = Vec::new();
    v.push(107);
    v.push(101);
    v.push(101);
    v.push(112);
    v.push(45);
    v.push(97);
    v.push(108);
    v.push(105);
    v.push(118);
    v.push(101);
    assert(v@ =~= keep_alive_token());
    v
}

/// Whether a head negotiates a persistent connection, per the keep-alive
/// defaults of each version.
pub fn negotiate_keep_alive(version: HttpVersion, headers: &Headers) -> (r: bool)
    ensures
        r == spec_keep_alive(version, headers@),
{
    match version {
        HttpVersion::Http11 => {
            let name = connection_bytes();
            match headers.lookup(&name) {
                Some(v) => {
                    let close = close_bytes();
                    assert(lower(close_token()) =~= close_token());
                    !value_has_token(v, &close)
                },
                None => true,
            }
        },
        HttpVersion::Http10 => {
            let name = connection_bytes();
            match headers.lookup(&name) {
                Some(v) => {
                    let ka = keep_alive_bytes();
                    assert(lower(keep_alive_token()) =~= keep_alive_token());
                    value_has_token(v, &ka)
                },
                None => false,
            }
        },
        _ => false,
    }
}

} // verus!
