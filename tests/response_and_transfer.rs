use centarr::errors::{is_valid_status, ApiError, ServeError};
use centarr::range::RangeSpec;
use centarr::request::parse_head;
use centarr::response::{compose_head, compose_head_with_date, error_head, wants_keep_alive};
use centarr::serve::plan_response;
use centarr::transfer::{Chunk, Reaction, SendOutcome, TransferSession, TransferStatus, CHUNK_SIZE};

const DATE: &[u8] = b"Sun, 06 Nov 1994 08:49:37 GMT";

fn text(b: &[u8]) -> String {
    String::from_utf8(b.to_vec()).unwrap()
}

/// Runs a session against an in-memory file; `limit` caps what one call
/// copies, and `blocks` would-block reports precede every successful call.
fn deliver(file: &[u8], session: &mut TransferSession, limit: u64, blocks: usize) -> Vec<u8> {
    let mut body = Vec::new();
    let mut pending_blocks = blocks;
    while let Some(Chunk { offset, count }) = session.next_chunk() {
        let outcome = if pending_blocks > 0 {
            pending_blocks -= 1;
            SendOutcome::WouldBlock
        } else {
            pending_blocks = blocks;
            let n = count.min(limit);
            body.extend_from_slice(&file[offset as usize..(offset + n) as usize]);
            SendOutcome::Sent(n)
        };
        let reaction = session.record(outcome);
        if outcome == SendOutcome::WouldBlock {
            assert_eq!(reaction, Reaction::WaitWritable);
        }
        if reaction == Reaction::Stop {
            break;
        }
    }
    body
}

fn big_file() -> Vec<u8> {
    (0..10_000_000u64).map(|i| (i * 7 % 251) as u8).collect()
}

#[test]
fn ten_megabyte_file_closed_range() {
    let file = big_file();
    let req = parse_head(b"GET /?file=%2Fv HTTP/1.1\r\nRange: bytes=1000000-1999999\r\n\r\n").unwrap().unwrap();
    let plan = plan_response(&req, file.len() as u64, 784111777).unwrap();
    let head = text(&plan.head);
    assert!(head.starts_with("HTTP/1.1 206 Partial Content\r\n"));
    assert!(head.contains("\r\nContent-Range: bytes 1000000-1999999/10000000\r\n"));
    assert!(head.contains("\r\nContent-Length: 1000000\r\n"));
    let mut session = TransferSession::for_range(&plan.range);
    let body = deliver(&file, &mut session, u64::MAX, 0);
    assert_eq!(session.status, TransferStatus::Complete);
    assert_eq!(body.len(), 1_000_000);
    assert_eq!(&body[..], &file[1_000_000..2_000_000]);
}

#[test]
fn ten_megabyte_file_without_range() {
    let file = big_file();
    let req = parse_head(b"GET /?file=%2Fv HTTP/1.1\r\nHost: a\r\n\r\n").unwrap().unwrap();
    let plan = plan_response(&req, file.len() as u64, 784111777).unwrap();
    let head = text(&plan.head);
    assert!(head.contains("\r\nContent-Range: bytes 0-9999999/10000000\r\n"));
    assert!(head.contains("\r\nContent-Length: 10000000\r\n"));
    let mut session = TransferSession::for_range(&plan.range);
    let body = deliver(&file, &mut session, u64::MAX, 0);
    assert_eq!(session.status, TransferStatus::Complete);
    assert!(body == file);
}

#[test]
fn unparsable_range_gets_416() {
    let req = parse_head(b"GET /?file=%2Fv HTTP/1.1\r\nRange: bytes=abc\r\n\r\n").unwrap().unwrap();
    let err = plan_response(&req, 10_000_000, 784111777).unwrap_err();
    assert_eq!(err, ServeError::BadRange);
    assert_eq!(err.status_code(), Some(416));
    let head = text(&error_head(err).unwrap());
    assert_eq!(head, "HTTP/1.1 416 Range Not Satisfiable\r\nServer: centarr\r\nConnection: close\r\nContent-Length: 0\r\n\r\n");
}

#[test]
fn error_responses() {
    assert_eq!(text(&error_head(ServeError::BadTarget).unwrap()), "HTTP/1.1 400 Bad Request\r\nServer: centarr\r\nConnection: close\r\nContent-Length: 0\r\n\r\n");
    assert_eq!(text(&error_head(ServeError::FileNotFound).unwrap()), "HTTP/1.1 404 Not Found\r\nServer: centarr\r\nConnection: close\r\nContent-Length: 0\r\n\r\n");
    assert!(error_head(ServeError::MalformedRequest).is_none());
    assert_eq!(ServeError::MalformedRequest.status_code(), None);
    assert_eq!(ServeError::BadTarget.status_code(), Some(400));
    assert_eq!(ServeError::FileNotFound.status_code(), Some(404));
}

#[test]
fn head_has_fixed_shape() {
    let head = compose_head_with_date(&RangeSpec { start: 5, end: 10, total: 10 }, DATE, false);
    assert_eq!(text(&head), "HTTP/1.1 206 Partial Content\r\nServer: centarr\r\nDate: Sun, 06 Nov 1994 08:49:37 GMT\r\nAccept-Ranges: bytes\r\nContent-Type: application/octet-stream\r\nContent-Range: bytes 5-9/10\r\nContent-Length: 5\r\n\r\n");
    let closing = compose_head_with_date(&RangeSpec { start: 0, end: 1, total: 1 }, DATE, true);
    assert_eq!(text(&closing), "HTTP/1.1 206 Partial Content\r\nServer: centarr\r\nDate: Sun, 06 Nov 1994 08:49:37 GMT\r\nAccept-Ranges: bytes\r\nContent-Type: application/octet-stream\r\nContent-Range: bytes 0-0/1\r\nConnection: close\r\nContent-Length: 1\r\n\r\n");
    let empty = compose_head_with_date(&RangeSpec { start: 0, end: 0, total: 0 }, DATE, false);
    assert!(text(&empty).contains("\r\nContent-Range: bytes */0\r\nContent-Length: 0\r\n\r\n"));
}

#[test]
fn head_is_dated_and_closes_keep_alive() {
    let req = parse_head(b"GET /?file=%2Fv HTTP/1.1\r\nconnection: Keep-Alive\r\n\r\n").unwrap().unwrap();
    assert!(wants_keep_alive(&req));
    let head = text(&compose_head(&req, &RangeSpec { start: 0, end: 3, total: 3 }, 784111777));
    assert!(head.contains("\r\nDate: Sun, 06 Nov 1994 08:49:37 GMT\r\n"));
    assert!(head.contains("\r\nConnection: close\r\n"));
    let other = parse_head(b"GET / HTTP/1.1\r\nConnection: close\r\n\r\n").unwrap().unwrap();
    assert!(!wants_keep_alive(&other));
}

#[test]
fn repeated_request_is_identical() {
    let file = big_file();
    let raw = b"GET /?file=%2Fv HTTP/1.1\r\nRange: bytes=123-4567890\r\n\r\n";
    let a = plan_response(&parse_head(raw).unwrap().unwrap(), file.len() as u64, 784111777).unwrap();
    let b = plan_response(&parse_head(raw).unwrap().unwrap(), file.len() as u64, 784111777).unwrap();
    assert_eq!(a.head, b.head);
    let body_a = deliver(&file, &mut TransferSession::for_range(&a.range), u64::MAX, 0);
    let body_b = deliver(&file, &mut TransferSession::for_range(&b.range), 4096, 2);
    assert!(body_a == body_b);
    assert_eq!(&body_a[..], &file[123..4_567_891]);
}

#[test]
fn would_block_then_success_completes() {
    let file = big_file();
    let range = RangeSpec { start: 17, end: 3_000_017, total: file.len() as u64 };
    let mut session = TransferSession::for_range(&range);
    let body = deliver(&file, &mut session, 65_536, 5);
    assert_eq!(session.status, TransferStatus::Complete);
    assert_eq!(session.cursor, 3_000_017);
    assert_eq!(&body[..], &file[17..3_000_017]);
}

#[test]
fn chunks_are_bounded_and_contiguous() {
    let mut s = TransferSession::new(0, CHUNK_SIZE * 2 + 10);
    assert_eq!(s.next_chunk(), Some(Chunk { offset: 0, count: CHUNK_SIZE }));
    assert_eq!(s.record(SendOutcome::Sent(100)), Reaction::Continue);
    assert_eq!(s.next_chunk(), Some(Chunk { offset: 100, count: CHUNK_SIZE }));
    assert_eq!(s.record(SendOutcome::WouldBlock), Reaction::WaitWritable);
    assert_eq!(s.next_chunk(), Some(Chunk { offset: 100, count: CHUNK_SIZE }));
    assert_eq!(s.remaining(), CHUNK_SIZE * 2 - 90);
}

#[test]
fn peer_close_and_failure_stop_the_transfer() {
    let mut s = TransferSession::new(10, 20);
    assert_eq!(s.record(SendOutcome::Sent(0)), Reaction::Stop);
    assert_eq!(s.status, TransferStatus::PeerClosed);
    assert_eq!(s.next_chunk(), None);
    let mut f = TransferSession::new(10, 20);
    assert_eq!(f.record(SendOutcome::Failed), Reaction::Stop);
    assert_eq!(f.status, TransferStatus::Aborted);
    assert_eq!(f.cursor, 10);
    let mut g = TransferSession::new(10, 20);
    assert_eq!(g.record(SendOutcome::Sent(11)), Reaction::Stop);
    assert_eq!(g.status, TransferStatus::Aborted);
}

#[test]
fn empty_range_is_complete_at_once() {
    let s = TransferSession::new(0, 0);
    assert_eq!(s.status, TransferStatus::Complete);
    assert_eq!(s.next_chunk(), None);
}

#[test]
fn api_errors_hold_status_and_message() {
    let e = ApiError::new(404, "missing".to_string());
    assert_eq!(e.status_code(), 404);
    assert_eq!(e.message(), Some("missing".to_string()));
    let f = ApiError::empty(500, Some("upstream down".to_string()));
    assert_eq!(f.status_code(), 500);
    assert_eq!(f.message(), None);
    assert!(is_valid_status(100) && is_valid_status(999));
    assert!(!is_valid_status(99) && !is_valid_status(1000));
}
