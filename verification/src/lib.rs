//! Wire-level engine of a minimal HTTP/1.1 server: framing and parsing of
//! requests, a case-insensitive header collection, response construction and
//! serialization, and content-encoding negotiation with an external codec
//! program.

use vstd::prelude::*;
use vstd::slice::slice_to_vec;
use vstd::string::StringSliceAdditionalSpecFns;

pub mod body;
pub mod encoding;
pub mod header;
pub mod reader;
pub mod text;
pub mod writer;

use crate::body::{Body, FileBody};
use crate::encoding::{spec_args, spec_program, spec_token, Encoding, EncodingSet, SystemEncoder};
use crate::header::{
    accept_encoding_name, content_encoding_name, content_length_name, content_type_header,
    content_type_name, insert_entries, lookup, octet_stream, octet_stream_value,
    spec_extract, spec_parse_accept, spec_select, text_plain, text_plain_value, AcceptEncoding,
    ContentEncoding,
    HeaderMap, HeaderMapBuilder,
};
use crate::text::{bytes_eq, spec_u64_decimal};

verus! {

/// An HTTP request method; only the closed set below is understood.
#[derive(Clone, Copy, Debug, PartialEq, Eq, Structural)]
pub enum Method {
    Get,
    Post,
}

/// The method a token names, if any; comparison is exact.
pub open spec fn spec_parse_method(v: Seq<u8>) -> Option<Method> {
    if v == "GET".spec_bytes() {
        Some(Method::Get)
    } else if v == "POST".spec_bytes() {
        Some(Method::Post)
    } else {
        None
    }
}

impl Method {
    /// Parses a method token; unknown tokens yield `None`.
    pub fn parse(bytes: &[u8]) -> (r: Option<Method>)
        ensures
            r == spec_parse_method(bytes@),
    {
        if bytes_eq(bytes, "GET".as_bytes()) {
            Some(Method::Get)
        } else if bytes_eq(bytes, "POST".as_bytes()) {
            Some(Method::Post)
        } else {
            None
        }
    }
}

/// A status code is one this server knows a reason phrase for.
pub open spec fn is_known_code(c: u16) -> bool {
    c == 200 || c == 201 || c == 400 || c == 404 || c == 500
}

/// The fixed reason phrase of a known status code.
pub open spec fn spec_reason(c: u16) -> Seq<u8> {
    if c == 200 {
        "OK".spec_bytes()
    } else if c == 201 {
        "Created".spec_bytes()
    } else if c == 400 {
        "Bad Request".spec_bytes()
    } else if c == 404 {
        "Not Found".spec_bytes()
    } else {
        "Internal Server Error".spec_bytes()
    }
}

/// A validated HTTP status code with a fixed reason phrase. Only the known
/// codes can be constructed: an unknown code is a programming error, not a
/// runtime condition.
#[derive(Clone, Copy, Debug, PartialEq, Eq, Structural)]
pub struct StatusCode {
    code: u16,
}

impl StatusCode {
    /// The numeric code.
    pub closed spec fn spec_code(&self) -> u16 {
        self.code
    }

    #[verifier::type_invariant]
    spec fn known(self) -> bool {
        is_known_code(self.code)
    }

    /// 200 OK.
    pub fn ok() -> (r: StatusCode)
        ensures
            r.spec_code() == 200,
    {
        StatusCode { code: 200 }
    }

    /// 201 Created.
    pub fn created() -> (r: StatusCode)
        ensures
            r.spec_code() == 201,
    {
        StatusCode { code: 201 }
    }

    /// 400 Bad Request.
    pub fn bad_request() -> (r: StatusCode)
        ensures
            r.spec_code() == 400,
    {
        StatusCode { code: 400 }
    }

    /// 404 Not Found.
    pub fn not_found() -> (r: StatusCode)
        ensures
            r.spec_code() == 404,
    {
        StatusCode { code: 404 }
    }

    /// 500 Internal Server Error.
    pub fn internal_server_error() -> (r: StatusCode)
        ensures
            r.spec_code() == 500,
    {
        StatusCode { code: 500 }
    }

    /// The numeric code; always one of the known codes.
    pub fn as_u16(&self) -> (r: u16)
        ensures
            r == self.spec_code(),
            is_known_code(r),
    {
        proof {
            use_type_invariant(&*self);
        }
        self.code
    }

    /// The fixed reason phrase of the code.
    pub fn as_str(&self) -> (r: &'static str)
        ensures
            r.spec_bytes() == spec_reason(self.spec_code()),
    {
        proof {
            use_type_invariant(&*self);
        }
        if self.code == 200 {
            "OK"
        } else if self.code == 201 {
            "Created"
        } else if self.code == 400 {
            "Bad Request"
        } else if self.code == 404 {
            "Not Found"
        } else {
            "Internal Server Error"
        }
    }
}

impl Default for StatusCode {
    /// 200 OK.
    fn default() -> (r: StatusCode)
        ensures
            r.spec_code() == 200,
    {
        StatusCode::ok()
    }
}

/// A parsed request: method, raw target, version token, headers and body.
/// Immutable once constructed.
#[derive(Debug)]
pub struct Request {
    pub method: Method,
    pub target: Vec<u8>,
    pub version: Vec<u8>,
    pub headers: HeaderMap,
    pub body: Body,
}

/// A response ready for serialization: the version echoed from the request,
/// a validated status, headers and body.
#[derive(Debug)]
pub struct Response {
    pub version: Vec<u8>,
    pub status: StatusCode,
    pub headers: HeaderMap,
    pub body: Body,
}

/// The encoding negotiated for a request: the first of the client's
/// acceptable encodings that the server supports.
pub open spec fn spec_negotiated(
    headers: Seq<(Seq<u8>, Seq<u8>)>,
    sup: EncodingSet,
) -> Option<Encoding> {
    match lookup(headers, accept_encoding_name()) {
        Some(v) => spec_select(spec_parse_accept(v), sup),
        None => None,
    }
}

/// The headers finalized by a build: `Content-Length` set to exactly the
/// body's byte length.
pub open spec fn spec_finalize_headers(
    headers: Seq<(Seq<u8>, Seq<u8>)>,
    body_len: nat,
) -> Seq<(Seq<u8>, Seq<u8>)> {
    insert_entries(headers, content_length_name(), spec_u64_decimal(body_len))
}

/// A built response always answers a `Content-Length` lookup with exactly
/// the byte length of its body, in decimal, whatever headers were set
/// before the build.
pub proof fn lemma_built_content_length(headers: Seq<(Seq<u8>, Seq<u8>)>, body_len: nat)
    ensures
        lookup(spec_finalize_headers(headers, body_len), content_length_name()) == Some(
            spec_u64_decimal(body_len),
        ),
{
    crate::header::lemma_lookup_after_insert(
        headers,
        content_length_name(),
        spec_u64_decimal(body_len),
    );
}

/// An incrementally built response: status and headers accumulate, then a
/// body finishes the build and fixes `Content-Length`.
#[derive(Debug)]
pub struct ResponseBuilder {
    pub version: Vec<u8>,
    pub status: StatusCode,
    pub headers: HeaderMap,
}

impl Response {
    /// Starts a response for `request`: the version is echoed, the status
    /// starts at 200, and if content negotiation against `supported` picks
    /// an encoding, a `Content-Encoding` header records it.
    pub fn from_request(request: &Request, supported: &EncodingSet) -> (r: ResponseBuilder)
        ensures
            r.version@ == request.version@,
            r.status.spec_code() == 200,
            r.headers@ == match spec_negotiated(request.headers@, *supported) {
                Some(e) => seq![(content_encoding_name(), spec_token(e))],
                None => Seq::<(Seq<u8>, Seq<u8>)>::empty(),
            },
    {
        let accept: Option<AcceptEncoding> = request.headers.extract();
        let selected = match accept {
            Some(ae) => ae.select(supported),
            None => None,
        };
        let mut headers = HeaderMapBuilder::new();
        match selected {
            Some(e) => headers.insert(ContentEncoding(e)),
            None => (),
        }
        ResponseBuilder {
            version: slice_to_vec(request.version.as_slice()),
            status: StatusCode::ok(),
            headers: headers.build(),
        }
    }
}

impl ResponseBuilder {
    /// This builder with its status replaced.
    pub fn status(self, status: StatusCode) -> (r: ResponseBuilder)
        ensures
            r.version@ == self.version@,
            r.status == status,
            r.headers@ == self.headers@,
    {
        ResponseBuilder { status, ..self }
    }

    /// This builder with `name` holding `value`: a matching name gets every
    /// matching entry replaced, a missing one gets the header appended.
    pub fn header(self, name: Vec<u8>, value: Vec<u8>) -> (r: ResponseBuilder)
        ensures
            r.version@ == self.version@,
            r.status == self.status,
            r.headers@ == insert_entries(self.headers@, name@, value@),
    {
        let headers = self.headers.insert_pair(name.as_slice(), value.as_slice());
        ResponseBuilder { headers, ..self }
    }

    /// The response with the accumulated status and headers, the given
    /// body, and `Content-Length` set to the body's byte length.
    fn build_response(self, body: Body) -> (r: Response)
        ensures
            r.version@ == self.version@,
            r.status == self.status,
            r.headers@ == spec_finalize_headers(self.headers@, body.spec_len()),
            r.body == body,
    {
        let content_length = body.content_length();
        let headers = self.headers.insert(content_length);
        Response { version: self.version, status: self.status, headers, body }
    }

    /// An empty `text/plain` response.
    pub fn empty(self) -> (r: Response)
        ensures
            r.version@ == self.version@,
            r.status == self.status,
            r.headers@ == spec_finalize_headers(
                insert_entries(self.headers@, content_type_name(), text_plain_value()),
                0,
            ),
            r.body.spec_len() == 0,
    {
        self.plain(Body::empty())
    }

    /// A `text/plain` response with the given body.
    pub fn plain(self, body: Body) -> (r: Response)
        ensures
            r.version@ == self.version@,
            r.status == self.status,
            r.headers@ == spec_finalize_headers(
                insert_entries(self.headers@, content_type_name(), text_plain_value()),
                body.spec_len(),
            ),
            r.body == body,
    {
        self.header(content_type_header(), text_plain()).build_response(body)
    }

    /// An `application/octet-stream` response streaming the given file.
    pub fn file(self, file: FileBody) -> (r: Response)
        ensures
            r.version@ == self.version@,
            r.status == self.status,
            r.headers@ == spec_finalize_headers(
                insert_entries(self.headers@, content_type_name(), octet_stream_value()),
                file.len as nat,
            ),
            r.body == Body::File(file),
    {
        self.header(content_type_header(), octet_stream()).build_response(Body::File(file))
    }

    /// The response with the accumulated status and headers and an empty
    /// body.
    pub fn build(self) -> (r: Response)
        ensures
            r.version@ == self.version@,
            r.status == self.status,
            r.headers@ == spec_finalize_headers(self.headers@, 0),
            r.body.spec_len() == 0,
    {
        self.build_response(Body::empty())
    }
}

/// Why a file could not be opened for a response body, as coarse classes.
#[derive(Clone, Copy, Debug, PartialEq, Eq, Structural)]
pub enum FileErrorKind {
    NotFound,
    PermissionDenied,
    Other,
}

/// The status a failed file open maps to: a missing or forbidden file is
/// 404, anything else is 500.
pub fn file_error_status(kind: FileErrorKind) -> (r: StatusCode)
    ensures
        r.spec_code() == match kind {
            FileErrorKind::NotFound => 404u16,
            FileErrorKind::PermissionDenied => 404u16,
            FileErrorKind::Other => 500u16,
        },
{
    match kind {
        FileErrorKind::NotFound => StatusCode::not_found(),
        FileErrorKind::PermissionDenied => StatusCode::not_found(),
        FileErrorKind::Other => StatusCode::internal_server_error(),
    }
}

/// One invocation of an external codec program: its name, its full argument
/// list, and the bytes to pipe to its input, if any. An in-memory body is
/// piped through `-`; a file body's path is the last argument instead.
#[derive(Debug)]
pub struct CodecInvocation {
    pub program: Vec<u8>,
    pub args: Vec<Vec<u8>>,
    pub stdin: Option<Vec<u8>>,
}

/// What the compression pipeline must do for a response.
#[derive(Debug)]
pub enum CompressionJob {
    /// No `Content-Encoding` header names a known encoding: the response
    /// goes out as it is.
    Skip,
    /// The named encoding has no configured program: compression fails.
    Unconfigured,
    /// Run this program and replace the body with its output.
    Run(CodecInvocation),
}

impl Response {
    /// What the compression pipeline must do for this response: nothing
    /// without a recognized `Content-Encoding` header; fail when the named
    /// encoding has no program; otherwise run the program, piping an
    /// in-memory body to its input or passing a file body's path as the
    /// last argument.
    pub fn compression_job(&self) -> (r: CompressionJob)
        ensures
            match spec_extract::<ContentEncoding>(self.headers@) {
                None => r is Skip,
                Some(e) => match spec_program(e) {
                    None => r is Unconfigured,
                    Some(prog) => r matches CompressionJob::Run(inv) && {
                        &&& inv.program@ == prog
                        &&& inv.args.deep_view() == spec_args(e) + seq![
                            match self.body {
                                Body::Bytes(_) => "-".spec_bytes(),
                                Body::File(f) => f.path@,
                            },
                        ]
                        &&& match self.body {
                            Body::Bytes(b) => inv.stdin matches Some(s) && s@ == b@,
                            Body::File(_) => inv.stdin is None,
                        }
                    },
                },
            },
    {
        let encoding: Option<ContentEncoding> = self.headers.extract();
        let enc = match encoding {
            None => {
                return CompressionJob::Skip;
            },
            Some(e) => e,
        };
        let command = match enc.command() {
            None => {
                return CompressionJob::Unconfigured;
            },
            Some(c) => c,
        };
        let mut args = command.args;
        let ghost base_args = args.deep_view();
        let stdin: Option<Vec<u8>>;
        match &self.body {
            Body::Bytes(b) => {
                args.push(slice_to_vec("-".as_bytes()));
                stdin = Some(slice_to_vec(b.as_slice()));
            },
            Body::File(f) => {
                args.push(slice_to_vec(f.path.as_slice()));
                stdin = None;
            },
        }
        proof {
            assert(args.deep_view() =~~= base_args + seq![
                match self.body {
                    Body::Bytes(_) => "-".spec_bytes(),
                    Body::File(f) => f.path@,
                },
            ]);
        }
        CompressionJob::Run(CodecInvocation { program: command.program, args, stdin })
    }

    /// This response with its body replaced by the codec's output: status,
    /// version and headers are kept, except that `Content-Length` now holds
    /// the output's byte length.
    pub fn compressed(self, output: Vec<u8>) -> (r: Response)
        ensures
            r.version@ == self.version@,
            r.status == self.status,
            r.headers@ == insert_entries(
                self.headers@,
                content_length_name(),
                spec_u64_decimal(output@.len()),
            ),
            r.body matches Body::Bytes(b) && b@ == output@,
    {
        let body = Body::bytes(output);
        let content_length = body.content_length();
        let headers = self.headers.insert(content_length);
        Response { version: self.version, status: self.status, headers, body }
    }

    /// The response that reports a failed compression: status 500, the
    /// version kept, headers of exactly `Content-Type: text/plain` and a
    /// matching `Content-Length`, and the error text as the whole body —
    /// whatever the codec may have written before failing.
    pub fn compression_failed(self, message: Vec<u8>) -> (r: Response)
        ensures
            r.version@ == self.version@,
            r.status.spec_code() == 500,
            r.headers@ == seq![
                (content_type_name(), text_plain_value()),
                (content_length_name(), spec_u64_decimal(message@.len())),
            ],
            r.body matches Body::Bytes(b) && b@ == message@,
    {
        let body = Body::bytes(message);
        let mut headers = HeaderMapBuilder::new();
        headers.assoc(content_type_header(), text_plain());
        headers.insert(body.content_length());
        Response {
            version: self.version,
            status: StatusCode::internal_server_error(),
            headers: headers.build(),
            body,
        }
    }
}

/// The `Content-Length` a built response stores reads back as exactly the
/// body's byte length: looking the header up and parsing its decimal value
/// recovers the length, whatever headers were set before the build.
pub proof fn lemma_built_content_length_value(headers: Seq<(Seq<u8>, Seq<u8>)>, body_len: u64)
    ensures
        match lookup(spec_finalize_headers(headers, body_len as nat), content_length_name()) {
            Some(v) => crate::text::spec_parse_u64(v) == Some(body_len),
            None => false,
        },
{
    lemma_built_content_length(headers, body_len as nat);
    crate::text::lemma_decimal_round_trip(body_len);
}

/// Negotiation over only unsupported encodings is a no-op end to end: the
/// selection comes up empty, `from_request` then records no
/// `Content-Encoding` header, and a response whose headers are that empty
/// record gives the compression pipeline nothing to do, so the body goes
/// out uncompressed.
pub proof fn lemma_unsupported_encodings_skip(v: Seq<u8>, sup: EncodingSet)
    requires
        forall|e: Encoding| spec_parse_accept(v).contains(e) ==> !sup.spec_contains(e),
    ensures
        spec_select(spec_parse_accept(v), sup) is None,
        spec_extract::<ContentEncoding>(Seq::<(Seq<u8>, Seq<u8>)>::empty()) is None,
{
    crate::header::lemma_select_unsupported(spec_parse_accept(v), sup);
}

} // verus!
