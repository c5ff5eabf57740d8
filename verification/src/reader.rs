//! Framing and parsing of requests out of a raw byte stream. The parser
//! works on whatever bytes have arrived so far: it reports that more bytes
//! are needed, that the bytes are malformed, or a complete request together
//! with exactly how many bytes it consumed.

use vstd::prelude::*;
use vstd::slice::{slice_subrange, slice_to_vec};

use crate::body::Body;
use crate::header::{content_length_header, content_length_name, lookup, HeaderMap};
use crate::text::{spec_find_byte, spec_parse_u64, spec_skip_ws, spec_token_end};
use crate::{spec_parse_method, Method, Request};

verus! {

/// A CRLF pair stands at `i` in `s`.
pub open spec fn crlf_at(s: Seq<u8>, i: int) -> bool {
    0 <= i && i + 1 < s.len() && s[i] == 13 && s[i + 1] == 10
}

/// Position of the carriage return of the first CRLF pair at or after
/// `from`. A lone line feed does not terminate a segment: the two-byte
/// pair must be present.
pub open spec fn spec_find_crlf(s: Seq<u8>, from: int) -> Option<int>
    decreases s.len() - from when 0 <= from
{
    if from + 1 >= s.len() {
        None
    } else if s[from] == 13 && s[from + 1] == 10 {
        Some(from)
    } else {
        spec_find_crlf(s, from + 1)
    }
}

/// What `spec_find_crlf` returns, stated without recursion.
pub proof fn lemma_find_crlf(s: Seq<u8>, from: int)
    requires
        0 <= from,
    ensures
        match spec_find_crlf(s, from) {
            Some(i) => from <= i && crlf_at(s, i) && forall|j: int|
                from <= j < i ==> !crlf_at(s, j),
            None => forall|j: int| from <= j ==> !crlf_at(s, j),
        },
    decreases s.len() - from,
{
    if from + 1 < s.len() && !(s[from] == 13 && s[from + 1] == 10) {
        lemma_find_crlf(s, from + 1);
    }
}

/// Finds the first CRLF pair at or after `from`.
pub fn find_crlf(data: &[u8], from: usize) -> (r: Option<usize>)
    requires
        from <= data@.len(),
    ensures
        match r {
            Some(i) => from <= i && i + 1 < data@.len() && spec_find_crlf(data@, from as int)
                == Some(i as int),
            None => spec_find_crlf(data@, from as int) is None,
        },
{
    let n = data.len();
    if n == 0 {
        return None;
    }
    let mut i: usize = from;
    while i < n - 1
        invariant
            from <= i,
            i <= n,
            n == data@.len(),
            n >= 1,
            spec_find_crlf(data@, from as int) == spec_find_crlf(data@, i as int),
        decreases n - i,
    {
        if data[i] == 13 && data[i + 1] == 10 {
            return Some(i);
        }
        i = i + 1;
    }
    None
}

/// The segment starting at `from`: its bytes without the CRLF terminator,
/// and the count of bytes consumed, terminator included. `None` until the
/// terminator has arrived.
pub fn read_segment(data: &[u8], from: usize) -> (r: Option<(Vec<u8>, usize)>)
    requires
        from <= data@.len(),
    ensures
        match r {
            Some((seg, used)) => {
                &&& spec_find_crlf(data@, from as int) == Some(from + seg@.len())
                &&& seg@ == data@.subrange(from as int, from + seg@.len())
                &&& used == seg@.len() + 2
                &&& from + used <= data@.len()
            },
            None => spec_find_crlf(data@, from as int) is None,
        },
{
    let _buf_len = data.len();
    match find_crlf(data, from) {
        Some(i) => {
            let seg = slice_to_vec(slice_subrange(data, from, i));
            Some((seg, (i + 2) - from))
        },
        None => None,
    }
}

/// The three tokens of a request line: the method runs from the very start
/// to the first whitespace, each separating whitespace run of any length is
/// skipped whole, and anything after the third token is ignored. `None`
/// unless all three tokens are non-empty.
pub open spec fn spec_request_line(line: Seq<u8>) -> Option<(Seq<u8>, Seq<u8>, Seq<u8>)> {
    let m_end = spec_token_end(line, 0);
    let t_start = spec_skip_ws(line, m_end);
    let t_end = spec_token_end(line, t_start);
    let v_start = spec_skip_ws(line, t_end);
    let v_end = spec_token_end(line, v_start);
    if m_end > 0 && t_end > t_start && v_end > v_start {
        Some(
            (
                line.subrange(0, m_end),
                line.subrange(t_start, t_end),
                line.subrange(v_start, v_end),
            ),
        )
    } else {
        None
    }
}

/// Splits a request line into its method, target and version tokens.
pub fn split_request_line(line: &[u8]) -> (r: Option<(Vec<u8>, Vec<u8>, Vec<u8>)>)
    ensures
        match r {
            Some(t) => spec_request_line(line@) == Some((t.0@, t.1@, t.2@)),
            None => spec_request_line(line@) is None,
        },
{
    let m_end = crate::text::token_end(line, 0);
    let t_start = crate::text::skip_whitespace(line, m_end);
    let t_end = crate::text::token_end(line, t_start);
    let v_start = crate::text::skip_whitespace(line, t_end);
    let v_end = crate::text::token_end(line, v_start);
    if m_end > 0 && t_end > t_start && v_end > v_start {
        let method = slice_to_vec(slice_subrange(line, 0, m_end));
        let target = slice_to_vec(slice_subrange(line, t_start, t_end));
        let version = slice_to_vec(slice_subrange(line, v_start, v_end));
        Some((method, target, version))
    } else {
        None
    }
}

/// The name and value of a header line: the name is everything before the
/// first colon, the value is the rest with its leading whitespace dropped.
/// A line without a colon is malformed.
pub open spec fn spec_header_line(line: Seq<u8>) -> Option<(Seq<u8>, Seq<u8>)> {
    match spec_find_byte(line, 0, 58) {
        None => None,
        Some(c) => {
            let v_start = spec_skip_ws(line, c + 1);
            Some((line.subrange(0, c), line.subrange(v_start, line.len() as int)))
        },
    }
}

/// Splits a header line into its name and its value.
pub fn parse_header_line(line: &[u8]) -> (r: Option<(Vec<u8>, Vec<u8>)>)
    ensures
        match r {
            Some(p) => spec_header_line(line@) == Some((p.0@, p.1@)),
            None => spec_header_line(line@) is None,
        },
{
    let n = line.len();
    match crate::text::find_byte(line, 0, 58) {
        None => None,
        Some(c) => {
            let v_start = crate::text::skip_whitespace(line, c + 1);
            let name = slice_to_vec(slice_subrange(line, 0, c));
            let value = slice_to_vec(slice_subrange(line, v_start, n));
            Some((name, value))
        },
    }
}

/// The outcome of parsing a construct out of a buffer: the buffer may end
/// before the construct does, the bytes may be malformed, or the construct
/// parses and ends at a position.
pub enum Parsed<T> {
    /// More bytes are needed.
    Incomplete,
    /// The bytes cannot form the construct.
    Malformed,
    /// The construct's value, and the position right after it.
    Done(T, int),
}

/// The header block of `s` starting at `from`: header lines up to and
/// excluding the empty segment that terminates the block. Duplicate names
/// are all kept, in order.
pub open spec fn spec_parse_headers(s: Seq<u8>, from: int) -> Parsed<Seq<(Seq<u8>, Seq<u8>)>>
    decreases s.len() - from
    when 0 <= from <= s.len()
    via spec_parse_headers_dec
{
    match spec_find_crlf(s, from) {
        None => Parsed::Incomplete,
        Some(i) => {
            let line = s.subrange(from, i);
            if line.len() == 0 {
                Parsed::Done(Seq::empty(), i + 2)
            } else {
                match spec_header_line(line) {
                    None => Parsed::Malformed,
                    Some(pair) => match spec_parse_headers(s, i + 2) {
                        Parsed::Done(rest, end) => Parsed::Done(seq![pair] + rest, end),
                        other => other,
                    },
                }
            }
        },
    }
}

#[via_fn]
proof fn spec_parse_headers_dec(s: Seq<u8>, from: int) {
    lemma_find_crlf(s, from);
}

/// Parses the header block of `data` starting at `from`.
fn parse_headers_from(data: &[u8], from: usize) -> (r: HeadersOutcome)
    requires
        from <= data@.len(),
    ensures
        match r {
            HeadersOutcome::Incomplete => spec_parse_headers(data@, from as int)
                is Incomplete,
            HeadersOutcome::Malformed => spec_parse_headers(data@, from as int) is Malformed,
            HeadersOutcome::Done(entries, end) => spec_parse_headers(data@, from as int)
                == Parsed::Done(entries.deep_view(), end as int) && from + 2 <= end
                <= data@.len(),
        },
    decreases data@.len() - from,
{
    let _buf_len = data.len();
    match find_crlf(data, from) {
        None => HeadersOutcome::Incomplete,
        Some(i) => {
            if i == from {
                let entries: Vec<(Vec<u8>, Vec<u8>)> = Vec::new();
                proof {
                    assert(entries.deep_view() =~= Seq::<(Seq<u8>, Seq<u8>)>::empty());
                }
                HeadersOutcome::Done(entries, from + 2)
            } else {
                let line = slice_subrange(data, from, i);
                match parse_header_line(line) {
                    None => HeadersOutcome::Malformed,
                    Some(pair) => {
                        match parse_headers_from(data, i + 2) {
                            HeadersOutcome::Done(mut entries, end) => {
                                let ghost rest = entries.deep_view();
                                entries.insert(0, pair);
                                proof {
                                    assert(entries.deep_view() =~~= seq![(pair.0@, pair.1@)]
                                        + rest);
                                }
                                HeadersOutcome::Done(entries, end)
                            },
                            other => other,
                        }
                    },
                }
            }
        },
    }
}

/// The outcome of parsing a header block.
enum HeadersOutcome {
    Incomplete,
    Malformed,
    Done(Vec<(Vec<u8>, Vec<u8>)>, usize),
}

/// The byte length of the body, determined solely by the `Content-Length`
/// header: a missing header, or one whose value does not read as a decimal
/// unsigned integer, means a length of zero.
pub open spec fn spec_body_len(headers: Seq<(Seq<u8>, Seq<u8>)>) -> nat {
    match lookup(headers, content_length_name()) {
        Some(v) => match spec_parse_u64(v) {
            Some(n) => n as nat,
            None => 0,
        },
        None => 0,
    }
}

/// A request parsed at the spec level: the parts a complete request is
/// made of.
pub struct SpecRequest {
    pub method: Method,
    pub target: Seq<u8>,
    pub version: Seq<u8>,
    pub headers: Seq<(Seq<u8>, Seq<u8>)>,
    pub body: Seq<u8>,
}

/// Why a request failed to parse.
#[derive(Clone, Copy, Debug, PartialEq, Eq, Structural)]
pub enum ParseError {
    /// The request line has fewer than three tokens, or an unknown method.
    RequestLine,
    /// A header line has no colon.
    InvalidHeader,
    /// The stream ended while the request was still incomplete. The parser
    /// itself cannot see the stream's end: the caller reports this when no
    /// more bytes will come.
    TruncatedBody,
}

/// The outcome of parsing a request at the spec level.
pub enum ReqParse {
    /// More bytes are needed before the request's end can be seen.
    Incomplete,
    /// The bytes cannot form a request.
    Malformed(ParseError),
    /// The request's parts, and the count of bytes the request occupies:
    /// nothing past that count belongs to it.
    Done(SpecRequest, int),
}

/// The request at the front of `s`: a CRLF-terminated request line of
/// exactly three tokens with a known method, a header block, and then
/// exactly `Content-Length` bytes of body.
pub open spec fn spec_parse_request(s: Seq<u8>) -> ReqParse {
    match spec_find_crlf(s, 0) {
        None => ReqParse::Incomplete,
        Some(i) => match spec_request_line(s.subrange(0, i)) {
            None => ReqParse::Malformed(ParseError::RequestLine),
            Some(tokens) => match spec_parse_method(tokens.0) {
                None => ReqParse::Malformed(ParseError::RequestLine),
                Some(method) => match spec_parse_headers(s, i + 2) {
                    Parsed::Incomplete => ReqParse::Incomplete,
                    Parsed::Malformed => ReqParse::Malformed(ParseError::InvalidHeader),
                    Parsed::Done(headers, hend) => {
                        let cl = spec_body_len(headers);
                        if s.len() - hend < cl {
                            ReqParse::Incomplete
                        } else {
                            ReqParse::Done(
                                SpecRequest {
                                    method,
                                    target: tokens.1,
                                    version: tokens.2,
                                    headers,
                                    body: s.subrange(hend, hend + cl),
                                },
                                hend + cl,
                            )
                        }
                    },
                },
            },
        },
    }
}

/// The outcome of reading a request out of the bytes that have arrived.
pub enum ReadOutcome {
    /// The buffer does not yet hold a whole request.
    Incomplete,
    /// The bytes cannot form a request; the connection is beyond saving.
    Malformed(ParseError),
    /// A whole request, and the count of bytes it consumed: reading stopped
    /// exactly there, and any later bytes are untouched.
    Complete(Request, usize),
}

/// Parses the request at the front of `data`.
pub fn parse_request(data: &[u8]) -> (r: ReadOutcome)
    ensures
        match r {
            ReadOutcome::Incomplete => spec_parse_request(data@) is Incomplete,
            ReadOutcome::Malformed(e) => spec_parse_request(data@) == ReqParse::Malformed(e),
            ReadOutcome::Complete(req, used) => req.body matches Body::Bytes(b)
                && spec_parse_request(data@) == ReqParse::Done(
                SpecRequest {
                    method: req.method,
                    target: req.target@,
                    version: req.version@,
                    headers: req.headers@,
                    body: b@,
                },
                used as int,
            ) && used <= data@.len(),
        },
{
    let n = data.len();
    let i = match find_crlf(data, 0) {
        None => {
            return ReadOutcome::Incomplete;
        },
        Some(i) => i,
    };
    let line = slice_subrange(data, 0, i);
    let tokens = match split_request_line(line) {
        None => {
            return ReadOutcome::Malformed(ParseError::RequestLine);
        },
        Some(t) => t,
    };
    let method = match Method::parse(tokens.0.as_slice()) {
        None => {
            return ReadOutcome::Malformed(ParseError::RequestLine);
        },
        Some(m) => m,
    };
    let (entries, hend) = match parse_headers_from(data, i + 2) {
        HeadersOutcome::Incomplete => {
            return ReadOutcome::Incomplete;
        },
        HeadersOutcome::Malformed => {
            return ReadOutcome::Malformed(ParseError::InvalidHeader);
        },
        HeadersOutcome::Done(entries, hend) => (entries, hend),
    };
    let headers = HeaderMap::from_iter(entries);
    let name = content_length_header();
    let cl = match headers.read(name.as_slice()) {
        Some(c) => c,
        None => 0,
    };
    if cl > (n - hend) as u64 {
        return ReadOutcome::Incomplete;
    }
    let body_end = hend + (cl as usize);
    let body = slice_to_vec(slice_subrange(data, hend, body_end));
    ReadOutcome::Complete(
        Request {
            method,
            target: tokens.1,
            version: tokens.2,
            headers,
            body: Body::bytes(body),
        },
        body_end,
    )
}

/// Reads requests out of a byte stream fed to it chunk by chunk. Bytes
/// accumulate until a whole request is there; a completed request consumes
/// exactly its own bytes and leaves any later ones untouched.
pub struct RequestReader {
    buf: Vec<u8>,
}

impl View for RequestReader {
    type V = Seq<u8>;

    closed spec fn view(&self) -> Seq<u8> {
        self.buf@
    }
}

impl RequestReader {
    /// A reader with no bytes yet.
    pub fn new() -> (r: RequestReader)
        ensures
            r@ == Seq::<u8>::empty(),
    {
        RequestReader { buf: Vec::new() }
    }

    /// Appends a chunk of arrived bytes to the buffer.
    pub fn feed(&mut self, chunk: &[u8])
        ensures
            final(self)@ == old(self)@ + chunk@,
    {
        let ghost prior = self.buf@;
        let mut i: usize = 0;
        while i < chunk.len()
            invariant
                0 <= i <= chunk@.len(),
                self.buf@ == prior + chunk@.take(i as int),
            decreases chunk@.len() - i,
        {
            self.buf.push(chunk[i]);
            proof {
                assert(prior + chunk@.take(i + 1) =~= (prior + chunk@.take(i as int)).push(
                    chunk@[i as int],
                ));
            }
            i = i + 1;
        }
        proof {
            assert(chunk@.take(chunk@.len() as int) =~= chunk@);
        }
    }

    /// Tries to read the request at the front of the buffer. A completed
    /// request is removed from the buffer, exactly as many bytes as it
    /// occupied; otherwise the buffer is left as it is.
    pub fn read_request(&mut self) -> (r: ReadOutcome)
        ensures
            match r {
                ReadOutcome::Incomplete => spec_parse_request(old(self)@) is Incomplete
                    && final(self)@ == old(self)@,
                ReadOutcome::Malformed(e) => spec_parse_request(old(self)@)
                    == ReqParse::Malformed(e) && final(self)@ == old(self)@,
                ReadOutcome::Complete(req, used) => req.body matches Body::Bytes(b)
                    && spec_parse_request(old(self)@) == ReqParse::Done(
                    SpecRequest {
                        method: req.method,
                        target: req.target@,
                        version: req.version@,
                        headers: req.headers@,
                        body: b@,
                    },
                    used as int,
                ) && final(self)@ == old(self)@.skip(used as int),
            },
    {
        let outcome = parse_request(self.buf.as_slice());
        match &outcome {
            ReadOutcome::Complete(_, used) => {
                let rest = self.buf.split_off(*used);
                self.buf = rest;
            },
            _ => {},
        }
        outcome
    }
}

/// However long the runs of whitespace between the three tokens of a
/// request line are, the parsed triple is exactly the three tokens.
pub proof fn lemma_request_line_whitespace(
    t1: Seq<u8>,
    w1: Seq<u8>,
    t2: Seq<u8>,
    w2: Seq<u8>,
    t3: Seq<u8>,
)
    requires
        t1.len() > 0 && t2.len() > 0 && t3.len() > 0,
        w1.len() > 0 && w2.len() > 0,
        forall|i: int| 0 <= i < t1.len() ==> !crate::text::is_ws(t1[i]),
        forall|i: int| 0 <= i < t2.len() ==> !crate::text::is_ws(t2[i]),
        forall|i: int| 0 <= i < t3.len() ==> !crate::text::is_ws(t3[i]),
        forall|i: int| 0 <= i < w1.len() ==> crate::text::is_ws(w1[i]),
        forall|i: int| 0 <= i < w2.len() ==> crate::text::is_ws(w2[i]),
    ensures
        spec_request_line(t1 + w1 + t2 + w2 + t3) == Some((t1, t2, t3)),
{
    let s = t1 + w1 + t2 + w2 + t3;
    let a = t1.len() as int;
    let b = a + w1.len();
    let c = b + t2.len();
    let d = c + w2.len();
    let n = d + t3.len();
    assert(s.len() == n);
    crate::text::lemma_token_end(s, 0);
    assert(spec_token_end(s, 0) == a) by {
        let k = spec_token_end(s, 0);
        assert(crate::text::is_ws(s[a]));
        assert(forall|j: int| 0 <= j < a ==> s[j] == t1[j] && !crate::text::is_ws(s[j]));
    }
    crate::text::lemma_skip_ws(s, a);
    assert(spec_skip_ws(s, a) == b) by {
        assert(forall|j: int| a <= j < b ==> s[j] == w1[j - a] && crate::text::is_ws(s[j]));
        assert(!crate::text::is_ws(s[b]));
    }
    crate::text::lemma_token_end(s, b);
    assert(spec_token_end(s, b) == c) by {
        assert(forall|j: int| b <= j < c ==> s[j] == t2[j - b] && !crate::text::is_ws(s[j]));
        assert(crate::text::is_ws(s[c]));
    }
    crate::text::lemma_skip_ws(s, c);
    assert(spec_skip_ws(s, c) == d) by {
        assert(forall|j: int| c <= j < d ==> s[j] == w2[j - c] && crate::text::is_ws(s[j]));
        assert(!crate::text::is_ws(s[d]));
    }
    crate::text::lemma_token_end(s, d);
    assert(spec_token_end(s, d) == n) by {
        assert(forall|j: int| d <= j < n ==> s[j] == t3[j - d] && !crate::text::is_ws(s[j]));
    }
    assert(s.subrange(0, a) =~= t1);
    assert(s.subrange(b, c) =~= t2);
    assert(s.subrange(d, n) =~= t3);
}

/// Whatever run of whitespace stands between a header's colon and its
/// value, the stored value excludes exactly that run and nothing else.
pub proof fn lemma_header_value_trim(name: Seq<u8>, w: Seq<u8>, rest: Seq<u8>)
    requires
        forall|i: int| 0 <= i < name.len() ==> name[i] != 58,
        forall|i: int| 0 <= i < w.len() ==> crate::text::is_ws(w[i]),
        rest.len() > 0 ==> !crate::text::is_ws(rest[0]),
    ensures
        spec_header_line(name + seq![58u8] + w + rest) == Some((name, rest)),
{
    let s = name + seq![58u8] + w + rest;
    let a = name.len() as int;
    let b = a + 1 + w.len();
    let n = s.len() as int;
    crate::text::lemma_find_byte(s, 0, 58);
    assert(spec_find_byte(s, 0, 58) == Some(a)) by {
        assert(s[a] == 58);
        assert(forall|j: int| 0 <= j < a ==> s[j] == name[j] && s[j] != 58);
    }
    crate::text::lemma_skip_ws(s, a + 1);
    assert(spec_skip_ws(s, a + 1) == b) by {
        assert(forall|j: int| a + 1 <= j < b ==> s[j] == w[j - a - 1] && crate::text::is_ws(s[j]));
        assert(b < n ==> s[b] == rest[0]);
    }
    assert(s.subrange(0, a) =~= name);
    assert(s.subrange(b, n) =~= rest);
}

} // verus!
