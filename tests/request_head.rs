use centarr::errors::ServeError;
use centarr::request::{parse_head, parse_header_line, parse_request_line, strip_nul, HeadReader, ReadStep};

#[test]
fn parses_complete_head() {
    let raw = b"GET /?file=%2Fa.mkv HTTP/1.1\r\nHost: example.com\r\nRange: bytes=0-99\r\n\r\n";
    let req = parse_head(raw).unwrap().unwrap();
    assert_eq!(req.method, b"GET".to_vec());
    assert_eq!(req.target, b"/?file=%2Fa.mkv".to_vec());
    assert_eq!(req.headers.len(), 2);
    assert_eq!(req.headers[0].name, b"Host".to_vec());
    assert_eq!(req.headers[0].value, b"example.com".to_vec());
    assert_eq!(req.headers[1].name, b"Range".to_vec());
    assert_eq!(req.headers[1].value, b"bytes=0-99".to_vec());
}

#[test]
fn bare_line_feeds_end_lines_too() {
    let req = parse_head(b"GET /x HTTP/1.1\nA: b\n\n").unwrap().unwrap();
    assert_eq!(req.target, b"/x".to_vec());
    assert_eq!(req.headers.len(), 1);
}

#[test]
fn head_without_blank_line_is_incomplete() {
    assert!(parse_head(b"GET / HTTP/1.1\r\nHost: a\r\n").unwrap().is_none());
    assert!(parse_head(b"GET / HTTP/1.1").unwrap().is_none());
    assert!(parse_head(b"").unwrap().is_none());
}

#[test]
fn zero_filler_is_not_content() {
    let mut raw = b"GET /f HTTP/1.1\r\nHo".to_vec();
    raw.extend_from_slice(&[0u8; 16]);
    raw.extend_from_slice(b"st: h\r\n\r\n");
    raw.extend_from_slice(&[0u8; 8]);
    let req = parse_head(&raw).unwrap().unwrap();
    assert_eq!(req.headers[0].name, b"Host".to_vec());
    assert_eq!(req.headers[0].value, b"h".to_vec());
    assert_eq!(strip_nul(&[0, 1, 0, 2, 0]), vec![1, 2]);
}

#[test]
fn header_with_bad_value_is_dropped() {
    let raw = b"GET / HTTP/1.1\r\nX-Bad: a\x01b\r\nX-Good: ok\r\n\r\n";
    let req = parse_head(raw).unwrap().unwrap();
    assert_eq!(req.headers.len(), 1);
    assert_eq!(req.headers[0].name, b"X-Good".to_vec());
}

#[test]
fn header_value_may_hold_non_ascii_bytes() {
    let raw = "GET / HTTP/1.1\r\nA: caf\u{e9}\r\nB: x\x7fy\r\nC: ok\r\n\r\n".as_bytes();
    let req = parse_head(raw).unwrap().unwrap();
    assert_eq!(req.headers.len(), 2);
    assert_eq!(req.headers[0].name, b"A".to_vec());
    assert_eq!(req.headers[0].value, "caf\u{e9}".as_bytes().to_vec());
    assert_eq!(req.headers[1].name, b"C".to_vec());
    let h = parse_header_line("A: \u{e9}".as_bytes()).unwrap();
    assert_eq!(h.value, vec![0xC3, 0xA9]);
}

#[test]
fn line_without_separator_is_skipped() {
    let raw = b"GET / HTTP/1.1\r\nnonsense\r\nA:b\r\nC: d: e\r\n\r\n";
    let req = parse_head(raw).unwrap().unwrap();
    assert_eq!(req.headers.len(), 1);
    assert_eq!(req.headers[0].name, b"C".to_vec());
    assert_eq!(req.headers[0].value, b"d: e".to_vec());
}

#[test]
fn duplicate_headers_are_kept_in_order() {
    let raw = b"GET / HTTP/1.1\r\nA: 1\r\nA: 2\r\n\r\n";
    let req = parse_head(raw).unwrap().unwrap();
    assert_eq!(req.headers.len(), 2);
    assert_eq!(req.headers[0].value, b"1".to_vec());
    assert_eq!(req.headers[1].value, b"2".to_vec());
}

#[test]
fn request_line_without_target_is_malformed() {
    assert_eq!(parse_head(b"GET\r\n\r\n").unwrap_err(), ServeError::MalformedRequest);
    assert_eq!(parse_head(b"\r\n\r\n").unwrap_err(), ServeError::MalformedRequest);
}

#[test]
fn request_line_splits_on_blanks() {
    let (m, t) = parse_request_line(b"  GET \t /a   HTTP/1.1").unwrap();
    assert_eq!(m, b"GET".to_vec());
    assert_eq!(t, b"/a".to_vec());
    assert!(parse_request_line(b"   ").is_none());
}

#[test]
fn header_line_splits_once() {
    let h = parse_header_line(b"Range: bytes=1-2").unwrap();
    assert_eq!(h.name, b"Range".to_vec());
    assert_eq!(h.value, b"bytes=1-2".to_vec());
    assert!(parse_header_line(b"Range:bytes").is_none());
    let empty = parse_header_line(b"X: ").unwrap();
    assert!(empty.value.is_empty());
}

#[test]
fn reader_assembles_head_over_reads() {
    let mut r = HeadReader::new();
    assert!(matches!(r.feed(b"GET /?file=%2Fa HTTP/1.1\r\nRa"), ReadStep::NeedMore));
    assert!(matches!(r.feed(b"nge: bytes=5-\r\n"), ReadStep::NeedMore));
    match r.feed(b"\r\n") {
        ReadStep::Ready(req) => {
            assert_eq!(req.headers[0].value, b"bytes=5-".to_vec());
        }
        _ => panic!("head not assembled"),
    }
    assert_eq!(r.reads, 3);
}

#[test]
fn reader_gives_up_after_budget() {
    let mut r = HeadReader::new();
    for _ in 0..3 {
        assert!(matches!(r.feed(b"X"), ReadStep::NeedMore));
    }
    assert!(matches!(r.feed(b"X"), ReadStep::Failed(ServeError::MalformedRequest)));
    assert!(matches!(r.feed(b"\r\n\r\n"), ReadStep::Failed(ServeError::MalformedRequest)));
    assert_eq!(r.buf, b"XXXX".to_vec());
}

#[test]
fn reader_fails_when_peer_closes() {
    let mut r = HeadReader::new();
    assert!(matches!(r.feed(b"GET / HTTP/1.1\r\n"), ReadStep::NeedMore));
    assert!(matches!(r.feed(b""), ReadStep::Failed(ServeError::MalformedRequest)));
}
