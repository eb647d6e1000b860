use vstd::prelude::*;
use crate::errors::ServeError;
use crate::range::{RangeSpec, range_of, range_syntax, first_header, range_name, bytes_prefix, digit_run, resolve_range, DASH};
use crate::request::IncomingRequest;
use crate::response::{response_head, http_date_of, asks_keep_alive, compose_head, content_range, HTTP_DATE_LIMIT};
use crate::text::{decimal, digits_value, all_digits, is_digit, text};
use crate::transfer::{TransferSession, TransferStatus, SendOutcome, run, delivered, lemma_complete_delivers_range};

verus! {

/// What answers a request for a file of a known size: the response head
/// and the range of the file that follows it.
#[derive(Debug)]
pub struct ResponsePlan {
    pub head: Vec<u8>,
    pub range: RangeSpec,
}

/// The range and the head that answer `req` for a file of `total` bytes at
/// the time `now_secs`, or `BadRange` where the `Range` header asks for no
/// byte of it or is malformed.
pub fn plan_response(req: &IncomingRequest, total: u64, now_secs: u64) -> (r: Result<ResponsePlan, ServeError>)
    requires
        now_secs < HTTP_DATE_LIMIT,
    ensures
        match range_of(first_header(req.model().headers, range_name()), total as nat) {
            Some((start, end)) => r matches Ok(plan) && plan.range == (RangeSpec {
                start: start as u64,
                end: end as u64,
                total,
            }) && plan.range.wf() && plan.head@ == response_head(
                plan.range,
                http_date_of(now_secs),
                asks_keep_alive(req.model().headers),
            ),
            None => r matches Err(e) && e == ServeError::BadRange,
        },
{
    match resolve_range(req, total) {
        Err(e) => Err(e),
        Ok(range) => {
            let head = compose_head(req, &range, now_secs);
            Ok(ResponsePlan { head, range })
        },
    }
}

impl TransferSession {
    /// The session that delivers the range `r`.
    pub fn for_range(r: &RangeSpec) -> (s: Self)
        requires
            r.wf(),
        ensures
            s == Self::initial(r.start, r.end),
            s.wf(),
    {
        Self::new(r.start, r.end)
    }
}

/// The `Range` value `bytes=<first>-<last>`, or `bytes=<first>-` without a last byte.
pub open spec fn range_value(first: nat, last: Option<nat>) -> Seq<u8> {
    bytes_prefix() + decimal(first) + seq![DASH] + match last {
        Some(l) => decimal(l),
        None => Seq::empty(),
    }
}

/// A number written in decimal is a non-empty run of digits that reads back
/// as the number.
pub proof fn lemma_decimal_reads_back(n: nat)
    ensures
        decimal(n).len() > 0,
        all_digits(decimal(n)),
        digits_value(decimal(n)) == n,
    decreases n,
{
    if n >= 10 {
        lemma_decimal_reads_back(n / 10);
        let d = decimal(n);
        assert(d.drop_last() =~= decimal(n / 10));
        assert(d.last() == (48 + n % 10) as u8);
        assert((n / 10) * 10 + n % 10 == n) by (nonlinear_arith);
        assert(digits_value(d) == digits_value(decimal(n / 10)) * 10 + (n % 10));
        assert forall|i: int| 0 <= i < d.len() implies is_digit(#[trigger] d[i]) by {
            if i < d.len() - 1 {
                assert(d[i] == decimal(n / 10)[i]);
            }
        }
    } else {
        let d = decimal(n);
        assert(d.drop_last() =~= Seq::<u8>::empty());
        assert(digits_value(d) == digits_value(Seq::<u8>::empty()) * 10 + n);
    }
}

proof fn lemma_digit_run_stops(v: Seq<u8>, i: int, k: int)
    requires
        0 <= i <= k <= v.len(),
        forall|j: int| i <= j < k ==> is_digit(#[trigger] v[j]),
        k == v.len() || !is_digit(v[k]),
    ensures
        digit_run(v, i) == k,
    decreases k - i,
{
    if i < k {
        lemma_digit_run_stops(v, i + 1, k);
    }
}

/// A value written as `bytes=<first>-<last>?` is read back as those numbers.
pub proof fn lemma_range_value_reads_back(first: nat, last: Option<nat>)
    ensures
        range_syntax(range_value(first, last)) == Some((first, last)),
{
    let d1 = decimal(first);
    let d2 = match last {
        Some(l) => decimal(l),
        None => Seq::<u8>::empty(),
    };
    let v = range_value(first, last);
    lemma_decimal_reads_back(first);
    if let Some(l) = last {
        lemma_decimal_reads_back(l);
    }
    let k: int = 6 + d1.len() as int;
    assert(v == bytes_prefix() + d1 + seq![DASH] + d2);
    assert(v.subrange(0, 6) =~= bytes_prefix());
    assert(v.subrange(6, k) =~= d1);
    assert(v.subrange(k + 1, v.len() as int) =~= d2);
    assert(v[k] == DASH);
    assert forall|j: int| 6 <= j < k implies is_digit(#[trigger] v[j]) by {
        assert(v[j] == d1[j - 6]);
    }
    lemma_digit_run_stops(v, 6, k);
}

/// `bytes=S-E` with `S <= E` inside the file serves the bytes `S` through
/// `E`, both included: `E - S + 1` of them.
pub proof fn lemma_closed_range(first: nat, last: nat, total: nat)
    requires
        first <= last < total,
    ensures
        range_of(Some(range_value(first, Some(last))), total) == Some((first, last + 1)),
{
    lemma_range_value_reads_back(first, Some(last));
}

/// `bytes=S-` with `S` inside the file serves from `S` to the end of the file.
pub proof fn lemma_open_range(first: nat, total: nat)
    requires
        first < total,
    ensures
        range_of(Some(range_value(first, None)), total) == Some((first, total)),
{
    lemma_range_value_reads_back(first, None);
}

/// The last byte of a file can be asked for on its own: `bytes=S-` with
/// `S` one before the end serves a single byte, whereas `S` at the end asks
/// for no byte and is refused.
pub proof fn lemma_last_byte_range(total: nat)
    requires
        total > 0,
    ensures
        range_of(Some(range_value((total - 1) as nat, None)), total) == Some(((total - 1) as nat, total)),
        range_of(Some(range_value(total, None)), total).is_none(),
{
    lemma_range_value_reads_back((total - 1) as nat, None);
    lemma_range_value_reads_back(total, None);
}

/// Without a `Range` header the whole file is served, and for a non-empty
/// file `Content-Range` reads `bytes 0-<total - 1>/<total>`.
pub proof fn lemma_whole_file(hs: Seq<(Seq<u8>, Seq<u8>)>, total: u64)
    requires
        first_header(hs, range_name()).is_none(),
    ensures
        range_of(first_header(hs, range_name()), total as nat) == Some((0nat, total as nat)),
        total > 0 ==> content_range(RangeSpec { start: 0, end: total, total }) == text("bytes ")
            + decimal(0) + text("-") + decimal((total - 1) as nat) + text("/") + decimal(total as nat),
{
}

/// A request for `bytes=S-E` inside a file, once its transfer completes,
/// has delivered exactly the file's bytes `S` through `E`, and as many bytes
/// as the range's length, which `Content-Length` announces.
pub proof fn lemma_closed_range_delivers(file: Seq<u8>, first: u64, last: u64, outs: Seq<SendOutcome>)
    requires
        first <= last < file.len(),
        file.len() <= u64::MAX,
        run(TransferSession::initial(first, (last + 1) as u64), outs).status == TransferStatus::Complete,
    ensures
        range_of(Some(range_value(first as nat, Some(last as nat))), file.len()) == Some(
            (first as nat, (last + 1) as nat),
        ),
        delivered(file, TransferSession::initial(first, (last + 1) as u64), outs) == file.subrange(
            first as int,
            last + 1,
        ),
        delivered(file, TransferSession::initial(first, (last + 1) as u64), outs).len() == (RangeSpec {
            start: first,
            end: (last + 1) as u64,
            total: file.len() as u64,
        }).len(),
{
    lemma_closed_range(first as nat, last as nat, file.len());
    lemma_complete_delivers_range(file, first, (last + 1) as u64, outs);
}

/// Repeating a request against an unchanged file gives the same answer: the
/// same range, the same head for the same date, and, for any two transfers
/// that complete, the same bytes, however the primitive split or delayed them.
pub proof fn lemma_repeat_request_identical(
    hs: Seq<(Seq<u8>, Seq<u8>)>,
    file: Seq<u8>,
    date: Seq<u8>,
    outs1: Seq<SendOutcome>,
    outs2: Seq<SendOutcome>,
)
    requires
        file.len() <= u64::MAX,
        range_of(first_header(hs, range_name()), file.len()) is Some,
        ({
            let (s, e) = range_of(first_header(hs, range_name()), file.len())->0;
            &&& run(TransferSession::initial(s as u64, e as u64), outs1).status == TransferStatus::Complete
            &&& run(TransferSession::initial(s as u64, e as u64), outs2).status == TransferStatus::Complete
        }),
    ensures
        ({
            let (s, e) = range_of(first_header(hs, range_name()), file.len())->0;
            let session = TransferSession::initial(s as u64, e as u64);
            delivered(file, session, outs1) == delivered(file, session, outs2)
                && delivered(file, session, outs1) == file.subrange(s as int, e as int)
        }),
{
    let (s, e) = range_of(first_header(hs, range_name()), file.len())->0;
    assert(s <= e <= file.len());
    lemma_complete_delivers_range(file, s as u64, e as u64, outs1);
    lemma_complete_delivers_range(file, s as u64, e as u64, outs2);
}

} // verus!
