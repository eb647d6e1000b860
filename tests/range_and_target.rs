use centarr::errors::ServeError;
use centarr::range::{find_header, resolve_range, resolve_range_value, RangeSpec};
use centarr::request::parse_head;
use centarr::target::{resolve_target, watch_url};

fn request_with(headers: &str) -> centarr::request::IncomingRequest {
    let raw = format!("GET /?file=%2Fm HTTP/1.1\r\n{}\r\n", headers);
    parse_head(raw.as_bytes()).unwrap().unwrap()
}

fn spec(start: u64, end: u64, total: u64) -> RangeSpec {
    RangeSpec { start, end, total }
}

#[test]
fn closed_range_is_inclusive() {
    assert_eq!(resolve_range_value(b"bytes=1000000-1999999", 10_000_000), Ok(spec(1_000_000, 2_000_000, 10_000_000)));
    assert_eq!(resolve_range_value(b"bytes=0-0", 10), Ok(spec(0, 1, 10)));
}

#[test]
fn open_range_runs_to_end_of_file() {
    assert_eq!(resolve_range_value(b"bytes=5-", 10), Ok(spec(5, 10, 10)));
    assert_eq!(resolve_range_value(b"bytes=0-", 10), Ok(spec(0, 10, 10)));
}

#[test]
fn last_byte_alone() {
    assert_eq!(resolve_range_value(b"bytes=9-", 10), Ok(spec(9, 10, 10)));
    assert_eq!(resolve_range_value(b"bytes=9-9", 10), Ok(spec(9, 10, 10)));
    assert_eq!(resolve_range_value(b"bytes=10-", 10), Err(ServeError::BadRange));
}

#[test]
fn last_position_past_end_is_cut() {
    assert_eq!(resolve_range_value(b"bytes=2-99", 10), Ok(spec(2, 10, 10)));
    assert_eq!(resolve_range_value(b"bytes=2-99999999999999999999999", 10), Ok(spec(2, 10, 10)));
}

#[test]
fn unsatisfiable_ranges_are_refused() {
    assert_eq!(resolve_range_value(b"bytes=5-4", 10), Err(ServeError::BadRange));
    assert_eq!(resolve_range_value(b"bytes=99999999999999999999-", 10), Err(ServeError::BadRange));
    assert_eq!(resolve_range_value(b"bytes=0-", 0), Err(ServeError::BadRange));
}

#[test]
fn malformed_ranges_are_refused() {
    for v in [&b"bytes=abc"[..], b"bytes=-5", b"bytes=5", b"bytes=1-2x", b"items=1-2", b"bytes=1-2,4-5", b"", b"Bytes=1-2"] {
        assert_eq!(resolve_range_value(v, 100), Err(ServeError::BadRange));
    }
}

#[test]
fn no_range_header_means_whole_file() {
    let req = request_with("Host: a\r\n");
    assert_eq!(resolve_range(&req, 10_000_000), Ok(spec(0, 10_000_000, 10_000_000)));
    assert_eq!(resolve_range(&req, 0), Ok(spec(0, 0, 0)));
}

#[test]
fn range_header_name_in_any_case() {
    let req = request_with("rAnGe: bytes=3-4\r\nRange: bytes=0-1\r\n");
    assert_eq!(resolve_range(&req, 10), Ok(spec(3, 5, 10)));
    assert_eq!(find_header(&req, b"RANGE").unwrap(), &b"bytes=3-4".to_vec());
    assert!(find_header(&req, b"Host").is_none());
}

#[test]
fn unparsable_range_header_is_a_client_error() {
    let req = request_with("Range: bytes=abc\r\n");
    assert_eq!(resolve_range(&req, 10_000_000), Err(ServeError::BadRange));
}

#[test]
fn target_decodes_to_path() {
    assert_eq!(resolve_target(b"/?file=%2Fmedia%2Fa%20b.mkv").unwrap(), b"/media/a b.mkv".to_vec());
    assert_eq!(resolve_target(b"/?file=/tv/x+y%2").unwrap(), b"/tv/x+y%2".to_vec());
    assert_eq!(resolve_target(b"/?file=%2f%C3%A9").unwrap(), vec![b'/', 0xC3, 0xA9]);
}

#[test]
fn bad_targets_are_refused() {
    assert_eq!(resolve_target(b"/file=%2Fa").unwrap_err(), ServeError::BadTarget);
    assert_eq!(resolve_target(b"/?file=").unwrap_err(), ServeError::BadTarget);
    assert_eq!(resolve_target(b"/?file=relative").unwrap_err(), ServeError::BadTarget);
    assert_eq!(resolve_target(b"/x?file=%2Fa").unwrap_err(), ServeError::BadTarget);
}

#[test]
fn watch_url_points_at_stream_port() {
    let url = watch_url(b"media.local:3000", b"/tv/Show (2020)/e1.mkv");
    assert_eq!(url, b"http://media.local:3001?file=%2Ftv%2FShow%20%282020%29%2Fe1.mkv".to_vec());
    assert_eq!(watch_url(b"h", b"/a-b_c.d~"), b"http://h?file=%2Fa-b_c.d~".to_vec());
}

#[test]
fn watch_url_round_trips_through_target() {
    let path = "/srv/media/Émission/ep 1+2.mkv".as_bytes();
    let url = watch_url(b"host:3000", path);
    let query = &url[url.iter().position(|&b| b == b'?').unwrap()..];
    let mut target = b"/".to_vec();
    target.extend_from_slice(query);
    assert_eq!(resolve_target(&target).unwrap(), path.to_vec());
}
