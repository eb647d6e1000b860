use vstd::prelude::*;
use crate::errors::ServeError;
use crate::text::push_bytes;

verus! {

pub const NUL: u8 = 0;
pub const TAB: u8 = 9;
pub const LF: u8 = 10;
pub const CR: u8 = 13;
pub const SP: u8 = 32;
pub const COLON: u8 = 58;
pub const DEL: u8 = 127;

/// One header line of a request, split at its first `": "`.
#[derive(Debug)]
pub struct HeaderField {
    pub name: Vec<u8>,
    pub value: Vec<u8>,
}

/// A parsed request head. Header names keep the case in which they arrived;
/// repeated names are all kept, in order.
#[derive(Debug)]
pub struct IncomingRequest {
    pub method: Vec<u8>,
    pub target: Vec<u8>,
    pub headers: Vec<HeaderField>,
}

/// Number of bytes asked of the socket by one read.
pub const READ_CHUNK: usize = 1024;

/// Number of reads after which a head that is still incomplete is given up.
pub const MAX_READS: u64 = 4;

/// Accumulates the bytes of a freshly accepted connection until they hold a
/// complete request head, within `MAX_READS` reads.
#[derive(Debug)]
pub struct HeadReader {
    pub buf: Vec<u8>,
    pub reads: u64,
}

/// What a reader makes of the bytes received so far.
#[derive(Debug)]
pub enum ReadStep {
    /// Read again and hand over what arrives.
    NeedMore,
    /// The head is complete.
    Ready(IncomingRequest),
    /// The connection is to be dropped.
    Failed(ServeError),
}

/// Header fields as pairs of name and value.
pub open spec fn fields_view(hs: Seq<HeaderField>) -> Seq<(Seq<u8>, Seq<u8>)> {
    hs.map_values(|h: HeaderField| (h.name@, h.value@))
}

/// What a request head holds, as plain byte strings.
pub struct RequestModel {
    pub method: Seq<u8>,
    pub target: Seq<u8>,
    pub headers: Seq<(Seq<u8>, Seq<u8>)>,
}

impl IncomingRequest {
    pub open spec fn model(&self) -> RequestModel {
        RequestModel { method: self.method@, target: self.target@, headers: fields_view(self.headers@) }
    }
}

/// The bytes of `s` without its zero bytes, which are filler and never content.
pub open spec fn without_nul(s: Seq<u8>) -> Seq<u8>
    decreases s.len(),
{
    if s.len() == 0 {
        Seq::empty()
    } else if s.last() == NUL {
        without_nul(s.drop_last())
    } else {
        without_nul(s.drop_last()).push(s.last())
    }
}

/// The position of the first line feed at or after `i`, or the length of `s`.
pub open spec fn next_lf(s: Seq<u8>, i: int) -> int
    decreases s.len() - i,
{
    if i < 0 || i >= s.len() {
        s.len() as int
    } else if s[i] == LF {
        i
    } else {
        next_lf(s, i + 1)
    }
}

/// A line without the carriage return that may end it.
pub open spec fn chomp(l: Seq<u8>) -> Seq<u8> {
    if l.len() > 0 && l.last() == CR {
        l.drop_last()
    } else {
        l
    }
}

/// The line that starts at `i`.
pub open spec fn line_at(s: Seq<u8>, i: int) -> Seq<u8> {
    chomp(s.subrange(i, next_lf(s, i)))
}

pub open spec fn is_ws(b: u8) -> bool {
    b == SP || b == TAB
}

/// The first position at or after `i` that holds no blank, or the length of `l`.
pub open spec fn skip_ws(l: Seq<u8>, i: int) -> int
    decreases l.len() - i,
{
    if i < 0 || i >= l.len() {
        l.len() as int
    } else if is_ws(l[i]) {
        skip_ws(l, i + 1)
    } else {
        i
    }
}

/// The first position at or after `i` that holds a blank, or the length of `l`.
pub open spec fn skip_token(l: Seq<u8>, i: int) -> int
    decreases l.len() - i,
{
    if i < 0 || i >= l.len() {
        l.len() as int
    } else if is_ws(l[i]) {
        i
    } else {
        skip_token(l, i + 1)
    }
}

/// The method and the target of a request line: its first two words.
pub open spec fn request_line(l: Seq<u8>) -> Option<(Seq<u8>, Seq<u8>)> {
    let a = skip_ws(l, 0);
    let b = skip_token(l, a);
    let c = skip_ws(l, b);
    let d = skip_token(l, c);
    if a < b && c < d {
        Some((l.subrange(a, b), l.subrange(c, d)))
    } else {
        None
    }
}

/// A header value may hold tabs and any byte from the space up, but for DEL:
/// no other control byte.
pub open spec fn is_value_byte(b: u8) -> bool {
    b == TAB || (SP <= b && b != DEL)
}

pub open spec fn valid_value(v: Seq<u8>) -> bool {
    forall|i: int| 0 <= i < v.len() ==> is_value_byte(#[trigger] v[i])
}

/// The position of the first `": "` at or after `i`, or the length of `l`.
pub open spec fn find_sep(l: Seq<u8>, i: int) -> int
    decreases l.len() - i,
{
    if i < 0 || i + 1 >= l.len() {
        l.len() as int
    } else if l[i] == COLON && l[i + 1] == SP {
        i
    } else {
        find_sep(l, i + 1)
    }
}

/// The header field that a line gives: none where it holds no `": "` or
/// where its value is not text.
pub open spec fn field_of(l: Seq<u8>) -> Seq<(Seq<u8>, Seq<u8>)> {
    let p = find_sep(l, 0);
    if p < l.len() && valid_value(l.subrange(p + 2, l.len() as int)) {
        seq![(l.subrange(0, p), l.subrange(p + 2, l.len() as int))]
    } else {
        Seq::empty()
    }
}

/// The header fields of the lines from position `i` up to the first blank
/// line, after those in `acc`; `None` where no blank line ends them yet.
pub open spec fn fields_from(s: Seq<u8>, i: int, acc: Seq<(Seq<u8>, Seq<u8>)>) -> Option<
    Seq<(Seq<u8>, Seq<u8>)>,
>
    decreases s.len() - i,
    via fields_from_decreases
{
    if i < 0 || i >= s.len() {
        None
    } else {
        let j = next_lf(s, i);
        if j >= s.len() {
            None
        } else if line_at(s, i).len() == 0 {
            Some(acc)
        } else {
            fields_from(s, j + 1, acc + field_of(line_at(s, i)))
        }
    }
}

#[via_fn]
proof fn fields_from_decreases(s: Seq<u8>, i: int, acc: Seq<(Seq<u8>, Seq<u8>)>) {
    if 0 <= i < s.len() {
        lemma_next_lf_bounds(s, i);
    }
}

pub proof fn lemma_next_lf_bounds(s: Seq<u8>, i: int)
    requires
        0 <= i <= s.len(),
    ensures
        i <= next_lf(s, i) <= s.len(),
        next_lf(s, i) < s.len() ==> s[next_lf(s, i)] == LF,
    decreases s.len() - i,
{
    if i < s.len() && s[i] != LF {
        lemma_next_lf_bounds(s, i + 1);
    }
}

/// What the bytes received so far make of a request head: `Ok(None)` while
/// no blank line ends the head, an error where the head is complete but its
/// first line lacks a method or a target, and the request otherwise.
pub open spec fn parse_head_spec(s: Seq<u8>) -> Result<Option<RequestModel>, ServeError> {
    let j = next_lf(s, 0);
    if j >= s.len() {
        Ok(None)
    } else {
        match fields_from(s, j + 1, Seq::empty()) {
            None => Ok(None),
            Some(fs) => match request_line(line_at(s, 0)) {
                None => Err(ServeError::MalformedRequest),
                Some((m, t)) => Ok(Some(RequestModel { method: m, target: t, headers: fs })),
            },
        }
    }
}

/// Drops the zero bytes of `buf`.
pub fn strip_nul(buf: &[u8]) -> (r: Vec<u8>)
    ensures
        r@ == without_nul(buf@),
{
    let mut out: Vec<u8> = Vec::new();
    let mut i: usize = 0;
    while i < buf.len()
        invariant
            i <= buf@.len(),
            out@ == without_nul(buf@.subrange(0, i as int)),
        decreases buf@.len() - i,
    {
        assert(buf@.subrange(0, i + 1).drop_last() =~= buf@.subrange(0, i as int));
        if buf[i] != NUL {
            out.push(buf[i]);
        }
        i = i + 1;
    }
    assert(buf@.subrange(0, buf@.len() as int) =~= buf@);
    out
}

fn find_lf(s: &[u8], i: usize) -> (r: usize)
    requires
        i <= s@.len(),
    ensures
        r == next_lf(s@, i as int),
{
    let mut k: usize = i;
    while k < s.len() && s[k] != LF
        invariant
            i <= k <= s@.len(),
            next_lf(s@, k as int) == next_lf(s@, i as int),
        decreases s@.len() - k,
    {
        k = k + 1;
    }
    k
}

/// The end of the line `s[i..j]` once a final carriage return is dropped.
fn chomp_end(s: &[u8], i: usize, j: usize) -> (e: usize)
    requires
        i <= j <= s@.len(),
    ensures
        i <= e <= j,
        s@.subrange(i as int, e as int) == chomp(s@.subrange(i as int, j as int)),
{
    if j > i && s[j - 1] == CR {
        assert(s@.subrange(i as int, j - 1) =~= s@.subrange(i as int, j as int).drop_last());
        j - 1
    } else {
        j
    }
}

fn skip_ws_from(l: &[u8], i: usize) -> (r: usize)
    requires
        i <= l@.len(),
    ensures
        r == skip_ws(l@, i as int),
        i <= r <= l@.len(),
{
    let mut k: usize = i;
    while k < l.len() && is_ws_byte(l[k])
        invariant
            i <= k <= l@.len(),
            skip_ws(l@, k as int) == skip_ws(l@, i as int),
        decreases l@.len() - k,
    {
        k = k + 1;
    }
    k
}

fn skip_token_from(l: &[u8], i: usize) -> (r: usize)
    requires
        i <= l@.len(),
    ensures
        r == skip_token(l@, i as int),
        i <= r <= l@.len(),
{
    let mut k: usize = i;
    while k < l.len() && !is_ws_byte(l[k])
        invariant
            i <= k <= l@.len(),
            skip_token(l@, k as int) == skip_token(l@, i as int),
        decreases l@.len() - k,
    {
        k = k + 1;
    }
    k
}

fn is_ws_byte(b: u8) -> (r: bool)
    ensures
        r == is_ws(b),
{
    b == SP || b == TAB
}

fn copy_range(s: &[u8], i: usize, j: usize) -> (r: Vec<u8>)
    requires
        i <= j <= s@.len(),
    ensures
        r@ == s@.subrange(i as int, j as int),
{
    let mut out: Vec<u8> = Vec::new();
    push_bytes(&mut out, &s[i..j]);
    out
}

/// The method and the target that a request line names.
pub fn parse_request_line(l: &[u8]) -> (r: Option<(Vec<u8>, Vec<u8>)>)
    ensures
        match r {
            Some((m, t)) => request_line(l@) == Some((m@, t@)),
            None => request_line(l@).is_none(),
        },
{
    let a = skip_ws_from(l, 0);
    let b = skip_token_from(l, a);
    let c = skip_ws_from(l, b);
    let d = skip_token_from(l, c);
    if a < b && c < d {
        Some((copy_range(l, a, b), copy_range(l, c, d)))
    } else {
        None
    }
}

fn find_sep_from(l: &[u8]) -> (r: usize)
    ensures
        r == find_sep(l@, 0),
        r <= l@.len(),
        r < l@.len() ==> r + 2 <= l@.len(),
{
    let mut k: usize = 0;
    while k < l.len() && !(k + 1 < l.len() && l[k] == COLON && l[k + 1] == SP)
        invariant
            k <= l@.len(),
            find_sep(l@, k as int) == find_sep(l@, 0),
        decreases l@.len() - k,
    {
        k = k + 1;
    }
    k
}

fn is_valid_value(v: &[u8]) -> (r: bool)
    ensures
        r == valid_value(v@),
{
    let mut i: usize = 0;
    while i < v.len()
        invariant
            i <= v@.len(),
            forall|k: int| 0 <= k < i ==> is_value_byte(#[trigger] v@[k]),
        decreases v@.len() - i,
    {
        let b = v[i];
        if !(b == TAB || (SP <= b && b != DEL)) {
            return false;
        }
        i = i + 1;
    }
    true
}

/// The header field that a header line gives, if any.
pub fn parse_header_line(l: &[u8]) -> (r: Option<HeaderField>)
    ensures
        match r {
            Some(h) => field_of(l@) == seq![(h.name@, h.value@)],
            None => field_of(l@) == Seq::<(Seq<u8>, Seq<u8>)>::empty(),
        },
{
    let p = find_sep_from(l);
    if p < l.len() {
        let value = copy_range(l, p + 2, l.len());
        if is_valid_value(value.as_slice()) {
            return Some(HeaderField { name: copy_range(l, 0, p), value });
        }
    }
    None
}

/// Parses the bytes received so far, zero bytes dropped, as a request head:
/// `Ok(None)` while the head is incomplete.
pub fn parse_head(buf: &[u8]) -> (r: Result<Option<IncomingRequest>, ServeError>)
    ensures
        match r {
            Ok(Some(req)) => parse_head_spec(without_nul(buf@)) == Ok::<Option<RequestModel>, ServeError>(
                Some(req.model()),
            ),
            Ok(None) => parse_head_spec(without_nul(buf@)) == Ok::<Option<RequestModel>, ServeError>(None),
            Err(e) => parse_head_spec(without_nul(buf@)) == Err::<Option<RequestModel>, ServeError>(e),
        },
{
    let v = strip_nul(buf);
    let s = v.as_slice();
    let j0 = find_lf(s, 0);
    if j0 >= s.len() {
        return Ok(None);
    }
    proof {
        lemma_next_lf_bounds(s@, 0);
    }
    let mut headers: Vec<HeaderField> = Vec::new();
    let mut i: usize = j0 + 1;
    assert(fields_view(headers@) =~= Seq::<(Seq<u8>, Seq<u8>)>::empty());
    loop
        invariant
            s@ == without_nul(buf@),
            j0 == next_lf(s@, 0),
            j0 < s@.len(),
            j0 + 1 <= i <= s@.len(),
            fields_from(s@, i as int, fields_view(headers@)) == fields_from(
                s@,
                j0 + 1,
                Seq::empty(),
            ),
        ensures
            s@ == without_nul(buf@),
            j0 == next_lf(s@, 0),
            j0 < s@.len(),
            fields_from(s@, j0 + 1, Seq::empty()) == Some(fields_view(headers@)),
        decreases s@.len() - i,
    {
        if i >= s.len() {
            return Ok(None);
        }
        let j = find_lf(s, i);
        proof {
            lemma_next_lf_bounds(s@, i as int);
        }
        if j >= s.len() {
            return Ok(None);
        }
        let e = chomp_end(s, i, j);
        if e == i {
            assert(line_at(s@, i as int).len() == 0);
            break;
        }
        let line = copy_range(s, i, e);
        match parse_header_line(line.as_slice()) {
            Some(h) => {
                let ghost old_headers = headers@;
                headers.push(h);
                assert(fields_view(headers@) =~= fields_view(old_headers) + field_of(line@));
            },
            None => {
                assert(fields_view(headers@) =~= fields_view(headers@) + field_of(line@));
            },
        }
        i = j + 1;
    }
    let e0 = chomp_end(s, 0, j0);
    let first = copy_range(s, 0, e0);
    match parse_request_line(first.as_slice()) {
        None => Err(ServeError::MalformedRequest),
        Some((method, target)) => Ok(Some(IncomingRequest { method, target, headers })),
    }
}

impl HeadReader {
    /// A reader that has received nothing yet.
    pub fn new() -> (r: Self)
        ensures
            r.buf@ == Seq::<u8>::empty(),
            r.reads == 0,
    {
        HeadReader { buf: Vec::new(), reads: 0 }
    }

    /// Takes the bytes that one read returned; an empty read means that the
    /// peer closed the connection. Once `MAX_READS` reads are spent, or the
    /// peer has closed, a head that is still incomplete is a malformed request.
    pub fn feed(&mut self, bytes: &[u8]) -> (r: ReadStep)
        ensures
            old(self).reads >= MAX_READS ==> *final(self) == *old(self) && r is Failed && r->Failed_0
                == ServeError::MalformedRequest,
            old(self).reads < MAX_READS ==> {
                &&& final(self).buf@ == old(self).buf@ + bytes@
                &&& final(self).reads == old(self).reads + 1
                &&& match parse_head_spec(without_nul(final(self).buf@)) {
                    Ok(Some(m)) => r is Ready && r->Ready_0.model() == m,
                    Err(e) => r is Failed && r->Failed_0 == e,
                    Ok(None) => if bytes@.len() == 0 || final(self).reads >= MAX_READS {
                        r is Failed && r->Failed_0 == ServeError::MalformedRequest
                    } else {
                        r is NeedMore
                    },
                }
            },
    {
        if self.reads >= MAX_READS {
            return ReadStep::Failed(ServeError::MalformedRequest);
        }
        push_bytes(&mut self.buf, bytes);
        self.reads = self.reads + 1;
        match parse_head(self.buf.as_slice()) {
            Ok(Some(req)) => ReadStep::Ready(req),
            Err(e) => ReadStep::Failed(e),
            Ok(None) => {
                if bytes.len() == 0 || self.reads >= MAX_READS {
                    ReadStep::Failed(ServeError::MalformedRequest)
                } else {
                    ReadStep::NeedMore
                }
            },
        }
    }
}

} // verus!
