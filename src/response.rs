use vstd::prelude::*;
use crate::errors::ServeError;
use crate::range::{RangeSpec, first_header};
use crate::request::IncomingRequest;
use crate::text::{text, decimal, eq_ignore_case, push_text, push_decimal, push_bytes, bytes_eq_ignore_case};
use crate::range::find_header;

verus! {

/// The first second that `httpdate` cannot write: the start of the year 10000.
pub const HTTP_DATE_LIMIT: u64 = 253402300800;

/// The HTTP date (IMF-fixdate) of a time given in seconds since the Unix epoch.
pub uninterp spec fn http_date_of(secs: u64) -> Seq<u8>;

/// Relies on httpdate::fmt_http_date: the IMF-fixdate of a point in time,
/// which it refuses (panics) from the year 10000 on.
#[verifier::external_body]
fn http_date(secs: u64) -> (r: Vec<u8>)
    requires
        secs < HTTP_DATE_LIMIT,
    ensures
        r@ == http_date_of(secs),
{
    httpdate::fmt_http_date(std::time::UNIX_EPOCH + std::time::Duration::from_secs(secs)).into_bytes()
}

/// `connection`, the header name looked up (letters in any case).
pub open spec fn connection_name() -> Seq<u8> {
    seq![99u8, 111u8, 110u8, 110u8, 101u8, 99u8, 116u8, 105u8, 111u8, 110u8]
}

/// `keep-alive` (letters in any case).
pub open spec fn keep_alive() -> Seq<u8> {
    seq![107u8, 101u8, 101u8, 112u8, 45u8, 97u8, 108u8, 105u8, 118u8, 101u8]
}

/// The request asks to keep the connection open: its first `Connection`
/// header reads `keep-alive`, in any case.
pub open spec fn asks_keep_alive(hs: Seq<(Seq<u8>, Seq<u8>)>) -> bool {
    match first_header(hs, connection_name()) {
        Some(v) => eq_ignore_case(v, keep_alive()),
        None => false,
    }
}

/// The `Content-Range` value of a range: first and last byte, inclusive,
/// and the file's size; `*` for the empty range of an empty file.
pub open spec fn content_range(r: RangeSpec) -> Seq<u8> {
    if r.start < r.end {
        text("bytes ") + decimal(r.start as nat) + text("-") + decimal((r.end - 1) as nat) + text("/")
            + decimal(r.total as nat)
    } else {
        text("bytes */") + decimal(r.total as nat)
    }
}

/// The status line and headers that announce the range `r`.
pub open spec fn response_head(r: RangeSpec, date: Seq<u8>, close: bool) -> Seq<u8> {
    text("HTTP/1.1 206 Partial Content\r\n") + text("Server: centarr\r\n") + text("Date: ") + date
        + text("\r\n") + text("Accept-Ranges: bytes\r\n") + text(
        "Content-Type: application/octet-stream\r\n",
    ) + text("Content-Range: ") + content_range(r) + text("\r\n") + (if close {
        text("Connection: close\r\n")
    } else {
        Seq::empty()
    }) + text("Content-Length: ") + decimal(r.len() as nat) + text("\r\n") + text("\r\n")
}

/// Tells whether the request asks to keep the connection open.
pub fn wants_keep_alive(req: &IncomingRequest) -> (r: bool)
    ensures
        r == asks_keep_alive(req.model().headers),
{
    let name: Vec<u8> = vec![99, 111, 110, 110, 101, 99, 116, 105, 111, 110];
    assert(name@ =~= connection_name());
    let expected: Vec<u8> = vec![107, 101, 101, 112, 45, 97, 108, 105, 118, 101];
    assert(expected@ =~= keep_alive());
    match find_header(req, name.as_slice()) {
        Some(v) => bytes_eq_ignore_case(v.as_slice(), expected.as_slice()),
        None => false,
    }
}

/// The response head for the range `r`, dated `date`, with
/// `Connection: close` where `close` holds.
pub fn compose_head_with_date(r: &RangeSpec, date: &[u8], close: bool) -> (out: Vec<u8>)
    requires
        r.wf(),
    ensures
        out@ == response_head(*r, date@, close),
{
    let mut out: Vec<u8> = Vec::new();
    push_text(&mut out, "HTTP/1.1 206 Partial Content\r\n");
    push_text(&mut out, "Server: centarr\r\n");
    push_text(&mut out, "Date: ");
    push_bytes(&mut out, date);
    push_text(&mut out, "\r\n");
    push_text(&mut out, "Accept-Ranges: bytes\r\n");
    push_text(&mut out, "Content-Type: application/octet-stream\r\n");
    push_text(&mut out, "Content-Range: ");
    let ghost before_range = out@;
    if r.start < r.end {
        push_text(&mut out, "bytes ");
        push_decimal(&mut out, r.start);
        push_text(&mut out, "-");
        push_decimal(&mut out, r.end - 1);
        push_text(&mut out, "/");
        push_decimal(&mut out, r.total);
    } else {
        push_text(&mut out, "bytes */");
        push_decimal(&mut out, r.total);
    }
    assert(out@ =~= before_range + content_range(*r));
    push_text(&mut out, "\r\n");
    let ghost before_close = out@;
    if close {
        push_text(&mut out, "Connection: close\r\n");
    }
    assert(out@ =~= before_close + (if close {
        text("Connection: close\r\n")
    } else {
        Seq::empty()
    }));
    push_text(&mut out, "Content-Length: ");
    push_decimal(&mut out, r.end - r.start);
    push_text(&mut out, "\r\n");
    push_text(&mut out, "\r\n");
    assert(out@ =~= response_head(*r, date@, close));
    out
}

/// The response head that answers `req` with the range `r` at the time
/// `now_secs`, in seconds since the Unix epoch.
pub fn compose_head(req: &IncomingRequest, r: &RangeSpec, now_secs: u64) -> (out: Vec<u8>)
    requires
        r.wf(),
        now_secs < HTTP_DATE_LIMIT,
    ensures
        out@ == response_head(*r, http_date_of(now_secs), asks_keep_alive(req.model().headers)),
{
    let date = http_date(now_secs);
    let close = wants_keep_alive(req);
    compose_head_with_date(r, date.as_slice(), close)
}

/// The status that answers an error; a malformed request gets none, its
/// connection is dropped.
pub open spec fn error_status(e: ServeError) -> Option<Seq<u8>> {
    match e {
        ServeError::MalformedRequest => None,
        ServeError::BadTarget => Some(text("400 Bad Request")),
        ServeError::BadRange => Some(text("416 Range Not Satisfiable")),
        ServeError::FileNotFound => Some(text("404 Not Found")),
    }
}

/// The complete response, without a body, that answers an error before
/// the connection closes.
pub open spec fn error_head_of(e: ServeError) -> Option<Seq<u8>> {
    match error_status(e) {
        Some(status) => Some(
            text("HTTP/1.1 ") + status + text("\r\n") + text("Server: centarr\r\n") + text(
                "Connection: close\r\n",
            ) + text("Content-Length: 0\r\n") + text("\r\n"),
        ),
        None => None,
    }
}

impl ServeError {
    /// The HTTP status code that answers this error, if one does.
    pub fn status_code(&self) -> (r: Option<u16>)
        ensures
            r == match *self {
                ServeError::MalformedRequest => None,
                ServeError::BadTarget => Some(400u16),
                ServeError::BadRange => Some(416u16),
                ServeError::FileNotFound => Some(404u16),
            },
    {
        match self {
            ServeError::MalformedRequest => None,
            ServeError::BadTarget => Some(400),
            ServeError::BadRange => Some(416),
            ServeError::FileNotFound => Some(404),
        }
    }
}

/// The response that answers `e`, or `None` where the connection is
/// dropped without one.
pub fn error_head(e: ServeError) -> (r: Option<Vec<u8>>)
    ensures
        match r {
            Some(h) => error_head_of(e) == Some(h@),
            None => error_head_of(e).is_none(),
        },
{
    let mut out: Vec<u8> = Vec::new();
    push_text(&mut out, "HTTP/1.1 ");
    let ghost before = out@;
    match e {
        ServeError::MalformedRequest => {
            return None;
        },
        ServeError::BadTarget => push_text(&mut out, "400 Bad Request"),
        ServeError::BadRange => push_text(&mut out, "416 Range Not Satisfiable"),
        ServeError::FileNotFound => push_text(&mut out, "404 Not Found"),
    }
    assert(out@ =~= before + error_status(e)->0);
    push_text(&mut out, "\r\n");
    push_text(&mut out, "Server: centarr\r\n");
    push_text(&mut out, "Connection: close\r\n");
    push_text(&mut out, "Content-Length: 0\r\n");
    push_text(&mut out, "\r\n");
    assert(out@ =~= error_head_of(e)->0);
    Some(out)
}

} // verus!
