//! Serialization of responses into wire form: status line, header lines in
//! stored order, a blank line, then the body. In-memory bodies are written
//! whole; a file-backed body is handed back for the caller to stream in
//! bounded chunks, so the writer never buffers a file's contents.

use vstd::prelude::*;
use vstd::string::StringSliceAdditionalSpecFns;

use crate::body::{Body, FileBody};
use crate::header::HeaderMap;
use crate::text::spec_u64_decimal;
use crate::{spec_reason, Response, StatusCode};

verus! {

/// The two-byte segment terminator.
pub open spec fn crlf() -> Seq<u8> {
    seq![13u8, 10u8]
}

/// The wire form of a status line: version, space, the three-digit code,
/// space, the fixed reason phrase, CRLF.
pub open spec fn spec_status_line(version: Seq<u8>, code: u16) -> Seq<u8> {
    version + seq![32u8] + spec_u64_decimal(code as nat) + seq![32u8] + spec_reason(code) + crlf()
}

/// The wire form of the header lines, in stored order: `name: value` CRLF
/// for each.
pub open spec fn spec_header_block(headers: Seq<(Seq<u8>, Seq<u8>)>) -> Seq<u8>
    decreases headers.len(),
{
    if headers.len() == 0 {
        Seq::empty()
    } else {
        headers[0].0 + ": ".spec_bytes() + headers[0].1 + crlf() + spec_header_block(
            headers.drop_first(),
        )
    }
}

/// The wire form of everything before the body: status line, header lines,
/// and the blank line that ends the header block.
pub open spec fn spec_head(version: Seq<u8>, code: u16, headers: Seq<(Seq<u8>, Seq<u8>)>) -> Seq<
    u8,
> {
    spec_status_line(version, code) + spec_header_block(headers) + crlf()
}

/// Every entry of a header map appears in its serialized block as its own
/// full line.
proof fn lemma_header_block_line(headers: Seq<(Seq<u8>, Seq<u8>)>, i: int)
    requires
        0 <= i < headers.len(),
    ensures
        crate::text::contains_bytes(
            spec_header_block(headers),
            headers[i].0 + ": ".spec_bytes() + headers[i].1 + crlf(),
        ),
    decreases i,
{
    let line0 = headers[0].0 + ": ".spec_bytes() + headers[0].1 + crlf();
    let rest = spec_header_block(headers.drop_first());
    assert(spec_header_block(headers) =~= line0 + rest);
    if i == 0 {
        assert(crate::text::contains_bytes(line0, line0)) by {
            assert(line0.subrange(0, 0 + line0.len() as int) =~= line0);
        }
        crate::text::lemma_contains_concat(line0, rest, line0);
    } else {
        lemma_header_block_line(headers.drop_first(), i - 1);
        assert(headers.drop_first()[i - 1] == headers[i]);
        crate::text::lemma_contains_concat(
            line0,
            rest,
            headers[i].0 + ": ".spec_bytes() + headers[i].1 + crlf(),
        );
    }
}

/// Serializing a built response always writes a `Content-Length` line
/// holding exactly the body's byte length: the head carries the full line
/// `Content-Length: <length>` CRLF, whatever headers were set before the
/// build.
pub proof fn lemma_head_has_content_length(
    version: Seq<u8>,
    code: u16,
    headers: Seq<(Seq<u8>, Seq<u8>)>,
    body_len: nat,
)
    ensures
        crate::text::contains_bytes(
            spec_head(version, code, crate::spec_finalize_headers(headers, body_len)),
            crate::header::content_length_name() + ": ".spec_bytes() + spec_u64_decimal(body_len)
                + crlf(),
        ),
{
    let name = crate::header::content_length_name();
    let digits = spec_u64_decimal(body_len);
    let fin = crate::spec_finalize_headers(headers, body_len);
    let pat = name + ": ".spec_bytes() + digits + crlf();
    crate::header::lemma_insert_entry_present(headers, name, digits);
    let i = choose|i: int| 0 <= i < fin.len() && #[trigger] fin[i] == (name, digits);
    lemma_header_block_line(fin, i);
    crate::text::lemma_contains_concat(spec_header_block(fin), crlf(), pat);
    crate::text::lemma_contains_concat(
        spec_status_line(version, code),
        spec_header_block(fin) + crlf(),
        pat,
    );
    assert(spec_head(version, code, fin) =~= spec_status_line(version, code) + (spec_header_block(
        fin,
    ) + crlf()));
}

/// Appends `bytes` to `out`.
fn append(out: &mut Vec<u8>, bytes: &[u8])
    ensures
        final(out)@ == old(out)@ + bytes@,
{
    let ghost prior = out@;
    let mut i: usize = 0;
    while i < bytes.len()
        invariant
            0 <= i <= bytes@.len(),
            out@ == prior + bytes@.take(i as int),
        decreases bytes@.len() - i,
    {
        out.push(bytes[i]);
        proof {
            assert(prior + bytes@.take(i + 1) =~= (prior + bytes@.take(i as int)).push(
                bytes@[i as int],
            ));
        }
        i = i + 1;
    }
    proof {
        assert(bytes@.take(bytes@.len() as int) =~= bytes@);
    }
}

/// Serializes responses into an output buffer that a caller then sends.
pub struct ResponseWriter {
    out: Vec<u8>,
}

impl View for ResponseWriter {
    type V = Seq<u8>;

    closed spec fn view(&self) -> Seq<u8> {
        self.out@
    }
}

impl ResponseWriter {
    /// A writer with an empty output buffer.
    pub fn new() -> (r: ResponseWriter)
        ensures
            r@ == Seq::<u8>::empty(),
    {
        ResponseWriter { out: Vec::new() }
    }

    /// The bytes written so far.
    pub fn into_bytes(self) -> (r: Vec<u8>)
        ensures
            r@ == self@,
    {
        self.out
    }

    /// Appends the status line.
    fn write_status_line(&mut self, status: StatusCode, version: &[u8])
        ensures
            final(self)@ == old(self)@ + spec_status_line(version@, status.spec_code()),
    {
        append(&mut self.out, version);
        let mut sp: Vec<u8> = Vec::new();
        sp.push(32);
        append(&mut self.out, sp.as_slice());
        let code = crate::text::u64_to_decimal(status.as_u16() as u64);
        append(&mut self.out, code.as_slice());
        append(&mut self.out, sp.as_slice());
        append(&mut self.out, status.as_str().as_bytes());
        let mut terminator: Vec<u8> = Vec::new();
        terminator.push(13);
        terminator.push(10);
        append(&mut self.out, terminator.as_slice());
        proof {
            assert(sp@ =~= seq![32u8]);
            assert(terminator@ =~= crlf());
            assert(self.out@ =~= old(self)@ + spec_status_line(version@, status.spec_code()));
        }
    }

    /// Appends one header line.
    fn write_header(&mut self, name: &[u8], value: &[u8])
        ensures
            final(self)@ == old(self)@ + name@ + ": ".spec_bytes() + value@ + crlf(),
    {
        append(&mut self.out, name);
        append(&mut self.out, ": ".as_bytes());
        append(&mut self.out, value);
        let mut terminator: Vec<u8> = Vec::new();
        terminator.push(13);
        terminator.push(10);
        append(&mut self.out, terminator.as_slice());
        proof {
            assert(terminator@ =~= crlf());
            assert(self.out@ =~= old(self)@ + name@ + ": ".spec_bytes() + value@ + crlf());
        }
    }

    /// Appends the header lines from `entries` at index `i` on.
    fn write_headers_from(&mut self, entries: &Vec<(Vec<u8>, Vec<u8>)>, i: usize)
        requires
            i <= entries@.len(),
        ensures
            final(self)@ == old(self)@ + spec_header_block(
                entries.deep_view().skip(i as int),
            ),
        decreases entries@.len() - i,
    {
        if i < entries.len() {
            self.write_header(entries[i].0.as_slice(), entries[i].1.as_slice());
            self.write_headers_from(entries, i + 1);
            proof {
                let s = entries.deep_view();
                assert(s.skip(i as int).drop_first() =~= s.skip(i + 1));
                assert(s.skip(i as int)[0] == s[i as int]);
                assert(self.out@ =~= old(self)@ + spec_header_block(s.skip(i as int)));
            }
        } else {
            proof {
                assert(entries.deep_view().skip(i as int) =~= Seq::<(Seq<u8>, Seq<u8>)>::empty());
            }
        }
    }

    /// Appends every header line in stored order, then the blank line.
    fn write_headers(&mut self, headers: &HeaderMap)
        ensures
            final(self)@ == old(self)@ + spec_header_block(headers@) + crlf(),
    {
        let entries = headers.iter();
        self.write_headers_from(entries, 0);
        let mut terminator: Vec<u8> = Vec::new();
        terminator.push(13);
        terminator.push(10);
        append(&mut self.out, terminator.as_slice());
        proof {
            assert(entries.deep_view().skip(0) =~= headers@);
            assert(terminator@ =~= crlf());
            assert(self.out@ =~= old(self)@ + spec_header_block(headers@) + crlf());
        }
    }

    /// Serializes a whole response: head, then the body. An in-memory body
    /// is appended to the output buffer; a non-empty file-backed body is
    /// handed back so the caller streams the file itself, in bounded
    /// chunks, right after sending the head.
    pub fn write_response(&mut self, response: Response) -> (r: Option<FileBody>)
        ensures
            ({
                let head = spec_head(
                    response.version@,
                    response.status.spec_code(),
                    response.headers@,
                );
                match response.body {
                    Body::Bytes(b) => final(self)@ == old(self)@ + head + b@ && r is None,
                    Body::File(f) => final(self)@ == old(self)@ + head && (if f.len == 0 {
                        r is None
                    } else {
                        r == Some(f)
                    }),
                }
            }),
    {
        self.write_status_line(response.status, response.version.as_slice());
        self.write_headers(&response.headers);
        proof {
            assert(old(self)@ + spec_status_line(response.version@, response.status.spec_code())
                + (spec_header_block(response.headers@) + crlf()) =~= old(self)@ + spec_head(
                response.version@,
                response.status.spec_code(),
                response.headers@,
            ));
        }
        match response.body {
            Body::Bytes(b) => {
                append(&mut self.out, b.as_slice());
                None
            },
            Body::File(f) => {
                if f.len == 0 {
                    None
                } else {
                    Some(f)
                }
            },
        }
    }
}

} // verus!
