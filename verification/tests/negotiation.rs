use httpwire::body::{Body, FileBody};
use httpwire::encoding::{
    supported_from_probe, CodecCommand, Encoding, EncodingSet, SystemEncoder,
};
use httpwire::header::{AcceptEncoding, HeaderMap};
use httpwire::{CompressionJob, Request, Response, Method, StatusCode};

fn gzip_only() -> EncodingSet {
    EncodingSet::none().with(Encoding::Gzip)
}

#[test]
fn encoding_tokens_parse_exactly() {
    assert_eq!(Encoding::parse(b"gzip"), Some(Encoding::Gzip));
    assert_eq!(Encoding::parse(b"compress"), Some(Encoding::Compress));
    assert_eq!(Encoding::parse(b"deflate"), Some(Encoding::Deflate));
    assert_eq!(Encoding::parse(b"br"), Some(Encoding::Br));
    assert_eq!(Encoding::parse(b"zstd"), Some(Encoding::Zstd));
    assert_eq!(Encoding::parse(b"GZIP"), None);
    assert_eq!(Encoding::parse(b"gzip "), None);
    assert_eq!(Encoding::parse(b"identity"), None);
}

#[test]
fn encoding_token_round_trip() {
    for e in [
        Encoding::Gzip,
        Encoding::Compress,
        Encoding::Deflate,
        Encoding::Br,
        Encoding::Zstd,
    ] {
        assert_eq!(Encoding::parse(&e.token()), Some(e));
    }
}

#[test]
fn encoding_programs() {
    assert_eq!(Encoding::Gzip.program(), Some("gzip"));
    assert_eq!(Encoding::Br.program(), Some("brotli"));
    assert_eq!(Encoding::Zstd.program(), Some("zstd"));
    assert_eq!(Encoding::Compress.program(), None);
    assert_eq!(Encoding::Deflate.program(), None);
}

#[test]
fn encoding_commands() {
    let CodecCommand { program, args } = Encoding::Gzip.command().unwrap();
    assert_eq!(program, b"gzip".to_vec());
    assert_eq!(args, vec![b"-q".to_vec(), b"-c".to_vec()]);
    let CodecCommand { program, args } = Encoding::Br.command().unwrap();
    assert_eq!(program, b"brotli".to_vec());
    assert_eq!(args, vec![b"-c".to_vec()]);
    let CodecCommand { program, args } = Encoding::Zstd.command().unwrap();
    assert_eq!(program, b"zstd".to_vec());
    assert_eq!(args, vec![b"-q".to_vec(), b"-c".to_vec()]);
    assert!(Encoding::Compress.command().is_none());
    assert!(Encoding::Deflate.command().is_none());
}

#[test]
fn accept_parse_splits_and_trims() {
    let parsed = AcceptEncoding::parse(b"gzip,  br,zstd");
    assert_eq!(parsed.0, vec![Encoding::Gzip, Encoding::Br, Encoding::Zstd]);
}

#[test]
fn accept_parse_drops_unknown_tokens() {
    let parsed = AcceptEncoding::parse(b"identity, gzip, x-custom");
    assert_eq!(parsed.0, vec![Encoding::Gzip]);
}

#[test]
fn accept_parse_trailing_whitespace_is_not_trimmed() {
    // Only leading whitespace is trimmed from each piece: a token with a
    // trailing space is unknown and dropped.
    let parsed = AcceptEncoding::parse(b"gzip , br");
    assert_eq!(parsed.0, vec![Encoding::Br]);
}

#[test]
fn accept_parse_empty_value_yields_nothing() {
    assert_eq!(AcceptEncoding::parse(b"").0, vec![]);
    assert_eq!(AcceptEncoding::parse(b",").0, vec![]);
    assert_eq!(AcceptEncoding::parse(b"  ").0, vec![]);
}

#[test]
fn accept_parse_dedups_by_first_occurrence() {
    let parsed = AcceptEncoding::parse(b"gzip, br, gzip");
    assert_eq!(parsed.0, vec![Encoding::Gzip, Encoding::Br]);
}

#[test]
fn select_honours_client_preference() {
    // The client prefers gzip, but only br is supported: br is selected.
    let parsed = AcceptEncoding::parse(b"gzip, br");
    let supported = EncodingSet::none().with(Encoding::Br);
    assert_eq!(parsed.select(&supported), Some(Encoding::Br));
}

#[test]
fn select_takes_first_supported() {
    let parsed = AcceptEncoding::parse(b"gzip, br");
    let both = EncodingSet::none().with(Encoding::Gzip).with(Encoding::Br);
    assert_eq!(parsed.select(&both), Some(Encoding::Gzip));
}

#[test]
fn select_of_unsupported_is_none() {
    let parsed = AcceptEncoding::parse(b"compress, deflate");
    assert_eq!(parsed.select(&gzip_only()), None);
}

fn request_with_accept(value: &[u8]) -> Request {
    Request {
        method: Method::Get,
        target: b"/".to_vec(),
        version: b"HTTP/1.1".to_vec(),
        headers: HeaderMap::from_iter(vec![(b"Accept-Encoding".to_vec(), value.to_vec())]),
        body: Body::empty(),
    }
}

#[test]
fn unsupported_encodings_leave_body_uncompressed() {
    // Only unsupported tokens: no Content-Encoding header is recorded, and
    // the compression pipeline has nothing to do.
    let req = request_with_accept(b"compress, deflate, x-unknown");
    let resp = Response::from_request(&req, &gzip_only())
        .status(StatusCode::ok())
        .plain(Body::bytes(b"payload".to_vec()));
    assert!(resp.headers.get(b"Content-Encoding").is_none());
    assert!(matches!(resp.compression_job(), CompressionJob::Skip));
    match &resp.body {
        Body::Bytes(b) => assert_eq!(b, &b"payload".to_vec()),
        Body::File(_) => panic!("expected an in-memory body"),
    }
}

#[test]
fn negotiation_records_content_encoding() {
    let req = request_with_accept(b"gzip, br");
    let supported = EncodingSet::none().with(Encoding::Br);
    let resp = Response::from_request(&req, &supported).build();
    assert_eq!(resp.headers.get(b"content-encoding").cloned(), Some(b"br".to_vec()));
}

#[test]
fn compression_job_pipes_bytes_body() {
    let req = request_with_accept(b"gzip");
    let resp = Response::from_request(&req, &gzip_only())
        .plain(Body::bytes(b"hello".to_vec()));
    match resp.compression_job() {
        CompressionJob::Run(inv) => {
            assert_eq!(inv.program, b"gzip".to_vec());
            assert_eq!(inv.args, vec![b"-q".to_vec(), b"-c".to_vec(), b"-".to_vec()]);
            assert_eq!(inv.stdin, Some(b"hello".to_vec()));
        }
        _ => panic!("expected a program run"),
    }
}

#[test]
fn compression_job_passes_file_path() {
    let req = request_with_accept(b"zstd");
    let supported = EncodingSet::none().with(Encoding::Zstd);
    let resp = Response::from_request(&req, &supported)
        .file(FileBody::new(b"/tmp/data.bin".to_vec(), 100));
    match resp.compression_job() {
        CompressionJob::Run(inv) => {
            assert_eq!(inv.program, b"zstd".to_vec());
            assert_eq!(
                inv.args,
                vec![b"-q".to_vec(), b"-c".to_vec(), b"/tmp/data.bin".to_vec()]
            );
            assert_eq!(inv.stdin, None);
        }
        _ => panic!("expected a program run"),
    }
}

#[test]
fn compression_job_unconfigured_encoding() {
    let req = request_with_accept(b"compress");
    let supported = EncodingSet::none().with(Encoding::Compress);
    let resp = Response::from_request(&req, &supported).build();
    assert_eq!(resp.headers.get(b"content-encoding").cloned(), Some(b"compress".to_vec()));
    assert!(matches!(resp.compression_job(), CompressionJob::Unconfigured));
}

#[test]
fn compressed_replaces_body_and_length() {
    let req = request_with_accept(b"gzip");
    let resp = Response::from_request(&req, &gzip_only())
        .plain(Body::bytes(b"hello world".to_vec()));
    let resp = resp.compressed(b"GZ".to_vec());
    assert_eq!(resp.status.as_u16(), 200);
    assert_eq!(resp.headers.get(b"content-length").cloned(), Some(b"2".to_vec()));
    assert_eq!(resp.headers.get(b"content-encoding").cloned(), Some(b"gzip".to_vec()));
    match &resp.body {
        Body::Bytes(b) => assert_eq!(b, &b"GZ".to_vec()),
        Body::File(_) => panic!("expected an in-memory body"),
    }
}

#[test]
fn failed_compression_yields_500_with_error_text() {
    // A non-zero exit becomes a 500 whose body is exactly the error text,
    // whatever partial output the program produced.
    let req = request_with_accept(b"gzip");
    let resp = Response::from_request(&req, &gzip_only())
        .plain(Body::bytes(b"partial stdout was produced".to_vec()));
    let resp = resp.compression_failed(b"gzip exited with code 1".to_vec());
    assert_eq!(resp.status.as_u16(), 500);
    assert_eq!(resp.headers.get(b"content-type").cloned(), Some(b"text/plain".to_vec()));
    assert_eq!(resp.headers.get(b"content-length").cloned(), Some(b"23".to_vec()));
    assert_eq!(resp.headers.iter().len(), 2);
    match &resp.body {
        Body::Bytes(b) => assert_eq!(b, &b"gzip exited with code 1".to_vec()),
        Body::File(_) => panic!("expected an in-memory body"),
    }
}

#[test]
fn probe_output_marks_installed_programs() {
    let out = b"gzip: /usr/bin/gzip\nbrotli:\nzstd: /usr/include/zstd.h";
    let sup = supported_from_probe(out);
    assert!(sup.contains(Encoding::Gzip));
    assert!(!sup.contains(Encoding::Br));
    // An include-path hit is a false positive, not an installed program.
    assert!(!sup.contains(Encoding::Zstd));
    assert!(!sup.contains(Encoding::Compress));
    assert!(!sup.contains(Encoding::Deflate));
}

#[test]
fn probe_output_short_of_lines_leaves_rest_unsupported() {
    let out = b"gzip: /bin/gzip";
    let sup = supported_from_probe(out);
    assert!(sup.contains(Encoding::Gzip));
    assert!(!sup.contains(Encoding::Br));
    assert!(!sup.contains(Encoding::Zstd));
}

#[test]
fn probe_output_without_colon_is_unsupported() {
    let out = b"garbage\nbrotli: /usr/bin/brotli\n";
    let sup = supported_from_probe(out);
    assert!(!sup.contains(Encoding::Gzip));
    assert!(sup.contains(Encoding::Br));
}
