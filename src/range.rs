use vstd::prelude::*;
use crate::errors::ServeError;
use crate::request::{IncomingRequest, HeaderField, fields_view};
use crate::text::{eq_ignore_case, is_digit, all_digits, digits_value, bytes_eq_ignore_case};

verus! {

pub const DASH: u8 = 45;

/// The bytes `[start, end)` of a file of `total` bytes. `end` is one past
/// the last byte sent; on the wire the last byte's position is `end - 1`.
#[derive(Clone, Copy, Debug, PartialEq, Eq, Structural)]
pub struct RangeSpec {
    pub start: u64,
    pub end: u64,
    pub total: u64,
}

impl RangeSpec {
    /// A range never runs past the file, and is empty only for an empty file.
    pub open spec fn wf(self) -> bool {
        &&& self.start <= self.end <= self.total
        &&& (self.start < self.end || self.total == 0)
    }

    /// The number of bytes that the range covers: the `Content-Length`.
    pub open spec fn len(self) -> int {
        self.end - self.start
    }
}

/// `range`, the header name looked up (letters in any case).
pub open spec fn range_name() -> Seq<u8> {
    seq![114u8, 97u8, 110u8, 103u8, 101u8]
}

/// `bytes=`, the unit prefix of a range value.
pub open spec fn bytes_prefix() -> Seq<u8> {
    seq![98u8, 121u8, 116u8, 101u8, 115u8, 61u8]
}

/// The value of the first header whose name matches `name`, in any case.
pub open spec fn first_header(hs: Seq<(Seq<u8>, Seq<u8>)>, name: Seq<u8>) -> Option<Seq<u8>>
    decreases hs.len(),
{
    if hs.len() == 0 {
        None
    } else if eq_ignore_case(hs[0].0, name) {
        Some(hs[0].1)
    } else {
        first_header(hs.skip(1), name)
    }
}

/// The first position at or after `i` that holds no digit, or the length of `s`.
pub open spec fn digit_run(s: Seq<u8>, i: int) -> int
    decreases s.len() - i,
{
    if i < 0 || i >= s.len() {
        s.len() as int
    } else if is_digit(s[i]) {
        digit_run(s, i + 1)
    } else {
        i
    }
}

/// The first and, if written, the last byte position of a value of the shape
/// `bytes=<digits>-<digits>?`; `None` for a value of any other shape.
pub open spec fn range_syntax(v: Seq<u8>) -> Option<(nat, Option<nat>)> {
    let k = digit_run(v, 6);
    if v.len() < 6 || v.subrange(0, 6) != bytes_prefix() || k == 6 || k >= v.len() || v[k]
        != DASH || !all_digits(v.subrange(k + 1, v.len() as int)) {
        None
    } else {
        let last = v.subrange(k + 1, v.len() as int);
        Some(
            (
                digits_value(v.subrange(6, k)),
                if last.len() == 0 {
                    None
                } else {
                    Some(digits_value(last))
                },
            ),
        )
    }
}

/// The range `[start, end)` to serve from a file of `total` bytes, given the
/// `Range` value if the request has one: the whole file without one; from
/// `first` to `last` inclusive, `last` cut at the end of the file, or to the
/// end of the file when `last` is not written. `None` where the value is not
/// of the shape `bytes=<digits>-<digits>?`, where `first` lies at or past
/// the end of the file, or where `last` comes before `first`.
pub open spec fn range_of(value: Option<Seq<u8>>, total: nat) -> Option<(nat, nat)> {
    match value {
        None => Some((0, total)),
        Some(v) => match range_syntax(v) {
            None => None,
            Some((first, last)) => if first >= total {
                None
            } else {
                match last {
                    None => Some((first, total)),
                    Some(l) => if l < first {
                        None
                    } else if l + 1 <= total {
                        Some((first, l + 1))
                    } else {
                        Some((first, total))
                    },
                }
            },
        },
    }
}

proof fn lemma_first_header_step(hs: Seq<(Seq<u8>, Seq<u8>)>, name: Seq<u8>, i: int)
    requires
        0 <= i < hs.len(),
        !eq_ignore_case(hs[i].0, name),
    ensures
        first_header(hs.skip(i), name) == first_header(hs.skip(i + 1), name),
{
    assert(hs.skip(i).skip(1) =~= hs.skip(i + 1));
}

/// The value of the first header of `req` whose name is `name`, letters
/// compared in any case.
pub fn find_header<'a>(req: &'a IncomingRequest, name: &[u8]) -> (r: Option<&'a Vec<u8>>)
    ensures
        match r {
            Some(v) => first_header(req.model().headers, name@) == Some(v@),
            None => first_header(req.model().headers, name@).is_none(),
        },
{
    let hs = &req.headers;
    let ghost fs = fields_view(hs@);
    let mut i: usize = 0;
    assert(fs.skip(0) =~= fs);
    while i < hs.len()
        invariant
            fs == fields_view(hs@),
            fs == req.model().headers,
            i <= hs@.len(),
            first_header(fs.skip(i as int), name@) == first_header(fs, name@),
        decreases hs@.len() - i,
    {
        let h: &HeaderField = &hs[i];
        assert(fs[i as int] == (h.name@, h.value@));
        if bytes_eq_ignore_case(h.name.as_slice(), name) {
            assert(fs.skip(i as int)[0] == fs[i as int]);
            return Some(&h.value);
        }
        proof {
            lemma_first_header_step(fs, name@, i as int);
        }
        i = i + 1;
    }
    assert(fs.skip(i as int).len() == 0);
    None
}

fn digit_run_from(v: &[u8], i: usize) -> (r: usize)
    requires
        i <= v@.len(),
    ensures
        r == digit_run(v@, i as int),
        i <= r <= v@.len(),
        all_digits(v@.subrange(i as int, r as int)),
        r < v@.len() ==> !is_digit(v@[r as int]),
{
    let mut k: usize = i;
    while k < v.len() && 48 <= v[k] && v[k] <= 57
        invariant
            i <= k <= v@.len(),
            digit_run(v@, k as int) == digit_run(v@, i as int),
            forall|j: int| i <= j < k ==> is_digit(#[trigger] v@[j]),
        decreases v@.len() - k,
    {
        k = k + 1;
    }
    k
}

fn all_digits_from(v: &[u8], i: usize) -> (r: bool)
    requires
        i <= v@.len(),
    ensures
        r == all_digits(v@.subrange(i as int, v@.len() as int)),
{
    let k = digit_run_from(v, i);
    if k < v.len() {
        assert(!is_digit(v@.subrange(i as int, v@.len() as int)[k - i]));
    }
    k == v.len()
}

/// The value of the digits `v[i..j]`, or `u64::MAX` where it is larger.
fn saturated_value(v: &[u8], i: usize, j: usize) -> (r: u64)
    requires
        i <= j <= v@.len(),
        all_digits(v@.subrange(i as int, j as int)),
    ensures
        r == if digits_value(v@.subrange(i as int, j as int)) <= u64::MAX {
            digits_value(v@.subrange(i as int, j as int))
        } else {
            u64::MAX as nat
        },
{
    let mut r: u64 = 0;
    let mut k: usize = i;
    assert(v@.subrange(i as int, i as int).len() == 0);
    while k < j
        invariant
            i <= k <= j <= v@.len(),
            all_digits(v@.subrange(i as int, j as int)),
            r == if digits_value(v@.subrange(i as int, k as int)) <= u64::MAX {
                digits_value(v@.subrange(i as int, k as int))
            } else {
                u64::MAX as nat
            },
        decreases j - k,
    {
        assert(v@.subrange(i as int, k + 1).drop_last() =~= v@.subrange(i as int, k as int));
        assert(v@.subrange(i as int, j as int)[k - i] == v@[k as int]);
        let d: u64 = (v[k] - 48) as u64;
        let ghost before = digits_value(v@.subrange(i as int, k as int));
        assert(digits_value(v@.subrange(i as int, k + 1)) == before * 10 + d);
        if r > (u64::MAX - d) / 10 {
            assert(before * 10 + d > u64::MAX) by (nonlinear_arith)
                requires
                    r > (u64::MAX - d) / 10,
                    before >= r,
                    d <= 9,
            ;
            r = u64::MAX;
        } else {
            assert(r * 10 + d <= u64::MAX) by (nonlinear_arith)
                requires
                    r <= (u64::MAX - d) / 10,
                    d <= 9,
            ;
            assert(before <= u64::MAX) by {
                if before > u64::MAX {
                    assert(r == u64::MAX);
                    assert(u64::MAX > (u64::MAX - d) / 10);
                }
            }
            r = r * 10 + d;
        }
        k = k + 1;
    }
    r
}

fn has_bytes_prefix(v: &[u8]) -> (r: bool)
    ensures
        r == (v@.len() >= 6 && v@.subrange(0, 6) == bytes_prefix()),
{
    if v.len() < 6 {
        return false;
    }
    let r = v[0] == 98 && v[1] == 121 && v[2] == 116 && v[3] == 101 && v[4] == 115 && v[5] == 61;
    if r {
        assert(v@.subrange(0, 6) =~= bytes_prefix());
    } else {
        assert(v@.subrange(0, 6) != bytes_prefix()) by {
            if v@.subrange(0, 6) == bytes_prefix() {
                assert(v@.subrange(0, 6)[0] == 98);
                assert(v@.subrange(0, 6)[1] == 121);
                assert(v@.subrange(0, 6)[2] == 116);
                assert(v@.subrange(0, 6)[3] == 101);
                assert(v@.subrange(0, 6)[4] == 115);
                assert(v@.subrange(0, 6)[5] == 61);
            }
        }
    }
    r
}

/// The range that the `Range` value `v` asks for in a file of `total`
/// bytes, or `BadRange` where it is malformed or asks for no byte of it.
pub fn resolve_range_value(v: &[u8], total: u64) -> (r: Result<RangeSpec, ServeError>)
    ensures
        match range_of(Some(v@), total as nat) {
            Some((start, end)) => r == Ok::<RangeSpec, ServeError>(
                RangeSpec { start: start as u64, end: end as u64, total },
            ),
            None => r == Err::<RangeSpec, ServeError>(ServeError::BadRange),
        },
        r matches Ok(range) ==> range.wf(),
{
    if !has_bytes_prefix(v) {
        return Err(ServeError::BadRange);
    }
    let k = digit_run_from(v, 6);
    if k == 6 || k >= v.len() || v[k] != DASH {
        return Err(ServeError::BadRange);
    }
    if !all_digits_from(v, k + 1) {
        return Err(ServeError::BadRange);
    }
    let first = saturated_value(v, 6, k);
    if first >= total {
        return Err(ServeError::BadRange);
    }
    if k + 1 == v.len() {
        return Ok(RangeSpec { start: first, end: total, total });
    }
    let last = saturated_value(v, k + 1, v.len());
    if last < first {
        Err(ServeError::BadRange)
    } else if last >= total {
        Ok(RangeSpec { start: first, end: total, total })
    } else {
        Ok(RangeSpec { start: first, end: last + 1, total })
    }
}

/// The range that `req` asks for in a file of `total` bytes: the whole file
/// without a `Range` header (its name in any case; the first one counts),
/// else what its value asks for.
pub fn resolve_range(req: &IncomingRequest, total: u64) -> (r: Result<RangeSpec, ServeError>)
    ensures
        match range_of(first_header(req.model().headers, range_name()), total as nat) {
            Some((start, end)) => r == Ok::<RangeSpec, ServeError>(
                RangeSpec { start: start as u64, end: end as u64, total },
            ),
            None => r == Err::<RangeSpec, ServeError>(ServeError::BadRange),
        },
        r matches Ok(range) ==> range.wf(),
{
    let name: Vec<u8> = vec![114, 97, 110, 103, 101];
    assert(name@ =~= range_name());
    match find_header(req, name.as_slice()) {
        None => Ok(RangeSpec { start: 0, end: total, total }),
        Some(v) => resolve_range_value(v.as_slice(), total),
    }
}

} // verus!
