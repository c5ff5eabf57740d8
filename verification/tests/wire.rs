use httpwire::body::{Body, FileBody};
use httpwire::encoding::EncodingSet;
use httpwire::reader::{
    parse_request, read_segment, ParseError, ReadOutcome, RequestReader,
};
use httpwire::writer::ResponseWriter;
use httpwire::{FileErrorKind, Method, Response, StatusCode};

#[test]
fn segment_needs_full_crlf() {
    // A lone line feed does not terminate a segment.
    assert!(read_segment(b"abc\ndef", 0).is_none());
    let (seg, used) = read_segment(b"abc\ndef\r\nX", 0).unwrap();
    assert_eq!(seg, b"abc\ndef".to_vec());
    assert_eq!(used, 9);
}

#[test]
fn segment_reports_consumed_bytes() {
    let (seg, used) = read_segment(b"GET / HTTP/1.1\r\nrest", 0).unwrap();
    assert_eq!(seg, b"GET / HTTP/1.1".to_vec());
    assert_eq!(used, 16);
}

#[test]
fn parse_simple_request() {
    let data = b"GET /echo/abc HTTP/1.1\r\n\r\n";
    match parse_request(data) {
        ReadOutcome::Complete(req, used) => {
            assert_eq!(req.method, Method::Get);
            assert_eq!(req.target, b"/echo/abc".to_vec());
            assert_eq!(req.version, b"HTTP/1.1".to_vec());
            assert_eq!(req.headers.iter().len(), 0);
            match &req.body {
                Body::Bytes(b) => assert!(b.is_empty()),
                Body::File(_) => panic!("request bodies are buffered"),
            }
            assert_eq!(used, data.len());
        }
        _ => panic!("expected a complete request"),
    }
}

#[test]
fn request_line_whitespace_runs_are_skipped() {
    let data = b"GET   /files/x\t\t HTTP/1.1\r\n\r\n";
    match parse_request(data) {
        ReadOutcome::Complete(req, _) => {
            assert_eq!(req.method, Method::Get);
            assert_eq!(req.target, b"/files/x".to_vec());
            assert_eq!(req.version, b"HTTP/1.1".to_vec());
        }
        _ => panic!("expected a complete request"),
    }
}

#[test]
fn request_line_with_two_tokens_is_malformed() {
    let data = b"GET /missing-version\r\n\r\n";
    assert!(matches!(
        parse_request(data),
        ReadOutcome::Malformed(ParseError::RequestLine)
    ));
}

#[test]
fn unknown_method_is_malformed() {
    let data = b"BREW /pot HTTP/1.1\r\n\r\n";
    assert!(matches!(
        parse_request(data),
        ReadOutcome::Malformed(ParseError::RequestLine)
    ));
}

#[test]
fn header_without_colon_is_malformed() {
    let data = b"GET / HTTP/1.1\r\nbogus header line\r\n\r\n";
    assert!(matches!(
        parse_request(data),
        ReadOutcome::Malformed(ParseError::InvalidHeader)
    ));
}

#[test]
fn header_value_loses_exactly_leading_whitespace() {
    let data = b"GET / HTTP/1.1\r\nHost:    example.com  \r\nX-Empty: \r\n\r\n";
    match parse_request(data) {
        ReadOutcome::Complete(req, _) => {
            assert_eq!(req.headers.get(b"host").cloned(), Some(b"example.com  ".to_vec()));
            assert_eq!(req.headers.get(b"x-empty").cloned(), Some(b"".to_vec()));
        }
        _ => panic!("expected a complete request"),
    }
}

#[test]
fn duplicate_headers_are_kept_separately() {
    let data = b"GET / HTTP/1.1\r\nX-D: 1\r\nX-D: 2\r\n\r\n";
    match parse_request(data) {
        ReadOutcome::Complete(req, _) => {
            assert_eq!(req.headers.iter().len(), 2);
            assert_eq!(req.headers.get(b"x-d").cloned(), Some(b"1".to_vec()));
        }
        _ => panic!("expected a complete request"),
    }
}

#[test]
fn body_waits_for_exactly_content_length_bytes() {
    let mut reader = RequestReader::new();
    reader.feed(b"POST /files/up HTTP/1.1\r\nContent-Length: 5\r\n\r\nhel");
    assert!(matches!(reader.read_request(), ReadOutcome::Incomplete));
    reader.feed(b"lo");
    match reader.read_request() {
        ReadOutcome::Complete(req, _) => {
            assert_eq!(req.method, Method::Post);
            match &req.body {
                Body::Bytes(b) => assert_eq!(b, &b"hello".to_vec()),
                Body::File(_) => panic!("request bodies are buffered"),
            }
        }
        _ => panic!("expected a complete request"),
    }
}

#[test]
fn reading_stops_at_body_end_without_over_read() {
    // Two requests arrive back to back; the first read consumes exactly the
    // first request and the second is read intact afterwards.
    let mut reader = RequestReader::new();
    reader.feed(b"POST /a HTTP/1.1\r\nContent-Length: 3\r\n\r\nxyzGET /b HTT");
    match reader.read_request() {
        ReadOutcome::Complete(req, used) => {
            assert_eq!(req.target, b"/a".to_vec());
            match &req.body {
                Body::Bytes(b) => assert_eq!(b, &b"xyz".to_vec()),
                Body::File(_) => panic!("request bodies are buffered"),
            }
            assert_eq!(used, b"POST /a HTTP/1.1\r\nContent-Length: 3\r\n\r\nxyz".len());
        }
        _ => panic!("expected a complete request"),
    }
    assert!(matches!(reader.read_request(), ReadOutcome::Incomplete));
    reader.feed(b"P/1.1\r\n\r\n");
    match reader.read_request() {
        ReadOutcome::Complete(req, _) => {
            assert_eq!(req.target, b"/b".to_vec());
        }
        _ => panic!("expected a complete request"),
    }
}

#[test]
fn crlf_split_across_feeds() {
    let mut reader = RequestReader::new();
    reader.feed(b"GET / HTTP/1.1\r");
    assert!(matches!(reader.read_request(), ReadOutcome::Incomplete));
    reader.feed(b"\n\r");
    assert!(matches!(reader.read_request(), ReadOutcome::Incomplete));
    reader.feed(b"\n");
    assert!(matches!(reader.read_request(), ReadOutcome::Complete(_, _)));
}

#[test]
fn missing_content_length_means_empty_body() {
    let data = b"POST /x HTTP/1.1\r\n\r\nleftover";
    match parse_request(data) {
        ReadOutcome::Complete(req, used) => {
            match &req.body {
                Body::Bytes(b) => assert!(b.is_empty()),
                Body::File(_) => panic!("request bodies are buffered"),
            }
            assert_eq!(used, b"POST /x HTTP/1.1\r\n\r\n".len());
        }
        _ => panic!("expected a complete request"),
    }
}

#[test]
fn unparseable_content_length_means_empty_body() {
    let data = b"POST /x HTTP/1.1\r\nContent-Length: abc\r\n\r\n";
    match parse_request(data) {
        ReadOutcome::Complete(req, _) => match &req.body {
            Body::Bytes(b) => assert!(b.is_empty()),
            Body::File(_) => panic!("request bodies are buffered"),
        },
        _ => panic!("expected a complete request"),
    }
}

fn parse_complete(data: &[u8]) -> httpwire::Request {
    match parse_request(data) {
        ReadOutcome::Complete(req, _) => req,
        _ => panic!("expected a complete request"),
    }
}

#[test]
fn echo_scenario_serializes_exactly() {
    // Request with no matching Accept-Encoding yields the exact wire bytes.
    let req = parse_complete(b"GET /echo/abc HTTP/1.1\r\n\r\n");
    let msg = req.target[b"/echo/".len()..].to_vec();
    let resp = Response::from_request(&req, &EncodingSet::none())
        .status(StatusCode::ok())
        .plain(Body::bytes(msg));
    let mut writer = ResponseWriter::new();
    let file = writer.write_response(resp);
    assert!(file.is_none());
    assert_eq!(
        writer.into_bytes(),
        b"HTTP/1.1 200 OK\r\nContent-Type: text/plain\r\nContent-Length: 3\r\n\r\nabc".to_vec()
    );
}

#[test]
fn content_length_always_matches_body() {
    // Even a conflicting pre-set header is overridden at build time.
    let req = parse_complete(b"GET / HTTP/1.1\r\n\r\n");
    let resp = Response::from_request(&req, &EncodingSet::none())
        .header(b"CONTENT-LENGTH".to_vec(), b"999".to_vec())
        .plain(Body::bytes(b"hello".to_vec()));
    assert_eq!(resp.headers.get(b"Content-Length").cloned(), Some(b"5".to_vec()));
    let mut writer = ResponseWriter::new();
    writer.write_response(resp);
    let bytes = writer.into_bytes();
    let text = String::from_utf8(bytes).unwrap();
    assert!(text.contains("Content-Length: 5\r\n"));
    assert!(!text.contains("999"));
}

#[test]
fn file_body_is_streamed_not_buffered() {
    // A 10 MiB file body: the writer emits only the head and hands the
    // file back for streaming, so its buffer stays far smaller than the
    // body.
    let req = parse_complete(b"GET /files/big HTTP/1.1\r\n\r\n");
    let resp = Response::from_request(&req, &EncodingSet::none())
        .file(FileBody::new(b"/tmp/big.bin".to_vec(), 10 * 1024 * 1024));
    let mut writer = ResponseWriter::new();
    let file = writer.write_response(resp);
    let file = file.expect("a non-empty file body is handed back for streaming");
    assert_eq!(file.path, b"/tmp/big.bin".to_vec());
    assert_eq!(file.len, 10 * 1024 * 1024);
    let head = writer.into_bytes();
    assert!(head.len() < 4096);
    let text = String::from_utf8(head).unwrap();
    assert!(text.starts_with("HTTP/1.1 200 OK\r\n"));
    assert!(text.contains("Content-Type: application/octet-stream\r\n"));
    assert!(text.contains("Content-Length: 10485760\r\n"));
    assert!(text.ends_with("\r\n\r\n"));
}

#[test]
fn status_codes_and_reasons() {
    assert_eq!(StatusCode::ok().as_u16(), 200);
    assert_eq!(StatusCode::ok().as_str(), "OK");
    assert_eq!(StatusCode::created().as_u16(), 201);
    assert_eq!(StatusCode::created().as_str(), "Created");
    assert_eq!(StatusCode::bad_request().as_u16(), 400);
    assert_eq!(StatusCode::bad_request().as_str(), "Bad Request");
    assert_eq!(StatusCode::not_found().as_u16(), 404);
    assert_eq!(StatusCode::not_found().as_str(), "Not Found");
    assert_eq!(StatusCode::internal_server_error().as_u16(), 500);
    assert_eq!(StatusCode::internal_server_error().as_str(), "Internal Server Error");
    assert_eq!(StatusCode::default(), StatusCode::ok());
}

#[test]
fn file_errors_map_to_statuses() {
    assert_eq!(httpwire::file_error_status(FileErrorKind::NotFound).as_u16(), 404);
    assert_eq!(httpwire::file_error_status(FileErrorKind::PermissionDenied).as_u16(), 404);
    assert_eq!(httpwire::file_error_status(FileErrorKind::Other).as_u16(), 500);
}

#[test]
fn body_lengths() {
    assert_eq!(Body::empty().len(), 0);
    assert!(Body::empty().is_empty());
    assert_eq!(Body::bytes(b"abc".to_vec()).len(), 3);
    assert!(!Body::bytes(b"abc".to_vec()).is_empty());
    let file = Body::file(FileBody::new(b"/tmp/f".to_vec(), 1234));
    assert_eq!(file.len(), 1234);
    assert_eq!(file.content_length().0, b"1234".to_vec());
}

#[test]
fn empty_file_body_writes_nothing() {
    let req = parse_complete(b"GET /files/empty HTTP/1.1\r\n\r\n");
    let resp = Response::from_request(&req, &EncodingSet::none())
        .file(FileBody::new(b"/tmp/empty".to_vec(), 0));
    let mut writer = ResponseWriter::new();
    let file = writer.write_response(resp);
    assert!(file.is_none());
    let text = String::from_utf8(writer.into_bytes()).unwrap();
    assert!(text.contains("Content-Length: 0\r\n"));
}
