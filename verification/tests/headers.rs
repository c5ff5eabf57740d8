use httpwire::encoding::Encoding;
use httpwire::header::{compare, ignore_case_eq, AcceptEncoding, ContentLength, HeaderMap};

fn map_of(entries: &[(&[u8], &[u8])]) -> HeaderMap {
    let owned: Vec<(Vec<u8>, Vec<u8>)> =
        entries.iter().map(|(n, v)| (n.to_vec(), v.to_vec())).collect();
    HeaderMap::from_iter(owned)
}

#[test]
fn ignore_case_eq_letters() {
    assert!(ignore_case_eq(b'a', b'A'));
    assert!(ignore_case_eq(b'Z', b'z'));
    assert!(ignore_case_eq(b'q', b'q'));
    assert!(!ignore_case_eq(b'a', b'b'));
}

#[test]
fn ignore_case_eq_non_ascii_exact_only() {
    // 0xE9 and 0xC9 differ by the case distance but are not ASCII letters.
    assert!(!ignore_case_eq(0xE9, 0xC9));
    assert!(ignore_case_eq(0xE9, 0xE9));
    // '1' and 'Q' differ by 32 but only one is alphabetic.
    assert!(!ignore_case_eq(b'1', b'Q'));
}

#[test]
fn compare_ignores_ascii_case() {
    assert!(compare(b"Content-Length", b"content-length"));
    assert!(compare(b"CONTENT-LENGTH", b"content-length"));
    assert!(!compare(b"Content-Length", b"content-lengt"));
    assert!(!compare(b"Content-Length", b"content_length"));
}

#[test]
fn compare_empty_strings() {
    assert!(compare(b"", b""));
    assert!(!compare(b"", b"a"));
}

#[test]
fn get_is_case_insensitive() {
    let map = map_of(&[(b"CoNtEnT-LeNgTh", b"42")]);
    let a = map.get(b"content-length").cloned();
    let b = map.get(b"Content-Length").cloned();
    let c = map.get(b"CONTENT-LENGTH").cloned();
    assert_eq!(a, Some(b"42".to_vec()));
    assert_eq!(a, b);
    assert_eq!(b, c);
}

#[test]
fn get_returns_first_match() {
    let map = map_of(&[(b"X-Dup", b"one"), (b"x-dup", b"two")]);
    assert_eq!(map.get(b"X-DUP").cloned(), Some(b"one".to_vec()));
}

#[test]
fn get_missing_is_none() {
    let map = map_of(&[(b"Host", b"example")]);
    assert!(map.get(b"Content-Length").is_none());
}

#[test]
fn assoc_replaces_every_match_in_place() {
    let map = map_of(&[(b"X-Dup", b"one"), (b"Other", b"o"), (b"x-dup", b"two")]);
    let updated = map.assoc(b"X-DUP", b"three");
    let entries = updated.iter();
    assert_eq!(entries.len(), 3);
    assert_eq!(entries[0], (b"X-DUP".to_vec(), b"three".to_vec()));
    assert_eq!(entries[1], (b"Other".to_vec(), b"o".to_vec()));
    assert_eq!(entries[2], (b"X-DUP".to_vec(), b"three".to_vec()));
    // The starting map is untouched.
    assert_eq!(map.get(b"x-dup").cloned(), Some(b"one".to_vec()));
}

#[test]
fn assoc_without_match_changes_nothing() {
    let map = map_of(&[(b"Host", b"example")]);
    let updated = map.assoc(b"X-New", b"v");
    assert_eq!(updated.iter().len(), 1);
    assert!(updated.get(b"X-New").is_none());
}

#[test]
fn insert_appends_when_missing() {
    let map = map_of(&[(b"Host", b"example")]);
    let updated = map.insert_pair(b"X-New", b"v");
    assert_eq!(updated.iter().len(), 2);
    assert_eq!(updated.get(b"x-new").cloned(), Some(b"v".to_vec()));
}

#[test]
fn insert_replaces_when_present() {
    let map = map_of(&[(b"Content-Length", b"1"), (b"content-length", b"2")]);
    let updated = map.insert_pair(b"Content-Length", b"9");
    assert_eq!(updated.iter().len(), 2);
    assert_eq!(updated.get(b"CONTENT-LENGTH").cloned(), Some(b"9".to_vec()));
    assert_eq!(updated.iter()[1], (b"Content-Length".to_vec(), b"9".to_vec()));
}

#[test]
fn read_parses_decimal() {
    let map = map_of(&[(b"Content-Length", b"123")]);
    assert_eq!(map.read(b"content-length"), Some(123));
}

#[test]
fn read_accepts_leading_plus() {
    let map = map_of(&[(b"Content-Length", b"+5")]);
    assert_eq!(map.read(b"content-length"), Some(5));
}

#[test]
fn read_rejects_garbage() {
    let map = map_of(&[(b"Content-Length", b"12a")]);
    assert_eq!(map.read(b"content-length"), None);
    let map = map_of(&[(b"Content-Length", b"")]);
    assert_eq!(map.read(b"content-length"), None);
    let map = map_of(&[(b"Content-Length", b" 12")]);
    assert_eq!(map.read(b"content-length"), None);
}

#[test]
fn read_rejects_overflow() {
    let map = map_of(&[(b"Content-Length", b"18446744073709551616")]);
    assert_eq!(map.read(b"content-length"), None);
    let map = map_of(&[(b"Content-Length", b"18446744073709551615")]);
    assert_eq!(map.read(b"content-length"), Some(u64::MAX));
}

#[test]
fn builder_keeps_duplicates_and_order() {
    let mut builder = HeaderMap::builder();
    builder.assoc(b"A".to_vec(), b"1".to_vec());
    builder.assoc(b"a".to_vec(), b"2".to_vec());
    builder.assoc(b"B".to_vec(), b"3".to_vec());
    let map = builder.build();
    let entries = map.iter();
    assert_eq!(entries.len(), 3);
    assert_eq!(entries[0], (b"A".to_vec(), b"1".to_vec()));
    assert_eq!(entries[1], (b"a".to_vec(), b"2".to_vec()));
    assert_eq!(entries[2], (b"B".to_vec(), b"3".to_vec()));
    assert_eq!(map.get(b"a").cloned(), Some(b"1".to_vec()));
}

#[test]
fn content_length_formats_decimal() {
    assert_eq!(ContentLength::from_len(0).0, b"0".to_vec());
    assert_eq!(ContentLength::from_len(10485760).0, b"10485760".to_vec());
}

#[test]
fn accept_encoding_header_round_trip() {
    let parsed = AcceptEncoding::parse(b"gzip, br");
    assert_eq!(parsed.0, vec![Encoding::Gzip, Encoding::Br]);
    let value = parsed.to_header_value();
    assert_eq!(value, Some(b"gzip, br".to_vec()));
}

#[test]
fn accept_encoding_empty_has_no_value() {
    let parsed = AcceptEncoding::parse(b"identity");
    assert_eq!(parsed.to_header_value(), None);
}

#[test]
fn accept_encoding_single_token_value() {
    let parsed = AcceptEncoding::parse(b"zstd");
    assert_eq!(parsed.to_header_value(), Some(b"zstd".to_vec()));
}
