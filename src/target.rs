use vstd::prelude::*;
use crate::errors::ServeError;
use crate::text::push_bytes;

verus! {

pub const PERCENT: u8 = 37;
pub const SLASH: u8 = 47;

/// The value of a hexadecimal digit, in either case.
pub open spec fn hex_value(b: u8) -> Option<u8> {
    if 48 <= b <= 57 {
        Some((b - 48) as u8)
    } else if 65 <= b <= 70 {
        Some((b - 55) as u8)
    } else if 97 <= b <= 102 {
        Some((b - 87) as u8)
    } else {
        None
    }
}

/// `s` with each `%` that two hexadecimal digits follow replaced by the byte
/// that they write; every other byte, `+` included, stays as it is.
pub open spec fn percent_decode(s: Seq<u8>) -> Seq<u8>
    decreases s.len(),
{
    if s.len() == 0 {
        Seq::empty()
    } else if s[0] == PERCENT && s.len() >= 3 && hex_value(s[1]) is Some && hex_value(s[2]) is Some {
        seq![(hex_value(s[1])->0 * 16 + hex_value(s[2])->0) as u8] + percent_decode(s.skip(3))
    } else {
        seq![s[0]] + percent_decode(s.skip(1))
    }
}

/// Letters, digits and `-`, `.`, `_`, `~` go into a URL as they are.
pub open spec fn is_unreserved(b: u8) -> bool {
    (48 <= b <= 57) || (65 <= b <= 90) || (97 <= b <= 122) || b == 45 || b == 46 || b == 95
        || b == 126
}

/// The upper-case hexadecimal digit of `d`, below 16.
pub open spec fn hex_digit(d: u8) -> u8 {
    if d < 10 { (48 + d) as u8 } else { (55 + d) as u8 }
}

pub open spec fn encode_byte(b: u8) -> Seq<u8> {
    if is_unreserved(b) {
        seq![b]
    } else {
        seq![PERCENT, hex_digit(b / 16), hex_digit(b % 16)]
    }
}

/// `s` with every byte but the unreserved ones written as `%` and two
/// upper-case hexadecimal digits.
pub open spec fn percent_encode(s: Seq<u8>) -> Seq<u8>
    decreases s.len(),
{
    if s.len() == 0 {
        Seq::empty()
    } else {
        encode_byte(s[0]) + percent_encode(s.skip(1))
    }
}

/// Relies on urlencoding::decode_binary, which percent-decodes bytes without
/// asking that the result be UTF-8.
#[verifier::external_body]
fn decode_percent(s: &[u8]) -> (r: Vec<u8>)
    ensures
        r@ == percent_decode(s@),
{
    urlencoding::decode_binary(s).into_owned()
}

/// Relies on urlencoding::encode_binary, which percent-encodes every byte
/// but the unreserved ones.
#[verifier::external_body]
fn encode_percent(s: &[u8]) -> (r: Vec<u8>)
    ensures
        r@ == percent_encode(s@),
{
    urlencoding::encode_binary(s).into_owned().into_bytes()
}

/// `/?file=`, the fixed start of a request target.
pub open spec fn file_prefix() -> Seq<u8> {
    seq![47u8, 63u8, 102u8, 105u8, 108u8, 101u8, 61u8]
}

/// The file that a request target names: the target is `/?file=` and the
/// percent-encoded path, which must be absolute once decoded.
pub open spec fn target_path(t: Seq<u8>) -> Option<Seq<u8>> {
    if t.len() >= 7 && t.subrange(0, 7) == file_prefix() {
        let p = percent_decode(t.skip(7));
        if p.len() > 0 && p[0] == SLASH {
            Some(p)
        } else {
            None
        }
    } else {
        None
    }
}

fn has_file_prefix(t: &[u8]) -> (r: bool)
    ensures
        r == (t@.len() >= 7 && t@.subrange(0, 7) == file_prefix()),
{
    if t.len() < 7 {
        return false;
    }
    let r = t[0] == 47 && t[1] == 63 && t[2] == 102 && t[3] == 105 && t[4] == 108 && t[5] == 101
        && t[6] == 61;
    if r {
        assert(t@.subrange(0, 7) =~= file_prefix());
    } else {
        assert(t@.subrange(0, 7) != file_prefix()) by {
            if t@.subrange(0, 7) == file_prefix() {
                assert(t@.subrange(0, 7)[0] == 47);
                assert(t@.subrange(0, 7)[1] == 63);
                assert(t@.subrange(0, 7)[2] == 102);
                assert(t@.subrange(0, 7)[3] == 105);
                assert(t@.subrange(0, 7)[4] == 108);
                assert(t@.subrange(0, 7)[5] == 101);
                assert(t@.subrange(0, 7)[6] == 61);
            }
        }
    }
    r
}

/// The absolute path of the file that a request target names, or
/// `BadTarget` where the target is not `/?file=<percent-encoded path>`.
pub fn resolve_target(target: &[u8]) -> (r: Result<Vec<u8>, ServeError>)
    ensures
        match target_path(target@) {
            Some(p) => r matches Ok(path) && path@ == p,
            None => r matches Err(e) && e == ServeError::BadTarget,
        },
{
    if !has_file_prefix(target) {
        return Err(ServeError::BadTarget);
    }
    let path = decode_percent(&target[7..target.len()]);
    assert(target@.subrange(7, target@.len() as int) =~= target@.skip(7));
    if path.len() > 0 && path[0] == SLASH {
        Ok(path)
    } else {
        Err(ServeError::BadTarget)
    }
}

/// `3000`, the catalog service's port as its `Host` header writes it.
pub open spec fn catalog_port() -> Seq<u8> {
    seq![51u8, 48u8, 48u8, 48u8]
}

/// `3001`, the port of the streaming server.
pub open spec fn stream_port() -> Seq<u8> {
    seq![51u8, 48u8, 48u8, 49u8]
}

/// `h` with each `3000`, taken from left to right without overlap, replaced
/// by `3001`.
pub open spec fn swap_port(h: Seq<u8>) -> Seq<u8>
    decreases h.len(),
{
    if h.len() == 0 {
        Seq::empty()
    } else if h.len() >= 4 && h.take(4) == catalog_port() {
        stream_port() + swap_port(h.skip(4))
    } else {
        seq![h[0]] + swap_port(h.skip(1))
    }
}

/// `http://`
pub open spec fn http_scheme() -> Seq<u8> {
    seq![104u8, 116u8, 116u8, 112u8, 58u8, 47u8, 47u8]
}

/// `?file=`
pub open spec fn file_query() -> Seq<u8> {
    seq![63u8, 102u8, 105u8, 108u8, 101u8, 61u8]
}

/// The URL at which the streaming server serves the file at `path`, for a
/// client that reached the catalog at `host`.
pub open spec fn watch_url_of(host: Seq<u8>, path: Seq<u8>) -> Seq<u8> {
    http_scheme() + swap_port(host) + file_query() + percent_encode(path)
}

fn is_catalog_port_at(h: &[u8], i: usize) -> (r: bool)
    requires
        i <= h@.len(),
    ensures
        r == (h@.skip(i as int).len() >= 4 && h@.skip(i as int).take(4) == catalog_port()),
{
    if h.len() - i < 4 {
        return false;
    }
    let r = h[i] == 51 && h[i + 1] == 48 && h[i + 2] == 48 && h[i + 3] == 48;
    let ghost t = h@.skip(i as int).take(4);
    if r {
        assert(t =~= catalog_port());
    } else {
        assert(t != catalog_port()) by {
            if t == catalog_port() {
                assert(t[0] == 51 && t[1] == 48 && t[2] == 48 && t[3] == 48);
            }
        }
    }
    r
}

/// Appends `swap_port(h)` to `out`.
fn push_swapped_port(out: &mut Vec<u8>, h: &[u8])
    ensures
        final(out)@ == old(out)@ + swap_port(h@),
{
    let mut i: usize = 0;
    assert(h@.skip(0) =~= h@);
    while i < h.len()
        invariant
            i <= h@.len(),
            out@ + swap_port(h@.skip(i as int)) == old(out)@ + swap_port(h@),
        decreases h@.len() - i,
    {
        let ghost rest = h@.skip(i as int);
        if is_catalog_port_at(h, i) {
            out.push(51);
            out.push(48);
            out.push(48);
            out.push(49);
            assert(rest.skip(4) =~= h@.skip(i + 4));
            assert(out@ + swap_port(h@.skip(i + 4)) =~= old(out)@ + swap_port(h@));
            i = i + 4;
        } else {
            out.push(h[i]);
            assert(rest.skip(1) =~= h@.skip(i + 1));
            assert(rest[0] == h@[i as int]);
            assert(out@ + swap_port(h@.skip(i + 1)) =~= old(out)@ + swap_port(h@));
            i = i + 1;
        }
    }
    assert(h@.skip(i as int) =~= Seq::<u8>::empty());
    assert(out@ =~= old(out)@ + swap_port(h@));
}

/// The URL at which the streaming server serves the file at `path`: the
/// catalog's host with its port `3000` turned into `3001`, and the path
/// percent-encoded into the `file` query value.
pub fn watch_url(host: &[u8], path: &[u8]) -> (r: Vec<u8>)
    ensures
        r@ == watch_url_of(host@, path@),
{
    let mut out: Vec<u8> = vec![104, 116, 116, 112, 58, 47, 47];
    assert(out@ =~= http_scheme());
    push_swapped_port(&mut out, host);
    let query: Vec<u8> = vec![63, 102, 105, 108, 101, 61];
    assert(query@ =~= file_query());
    push_bytes(&mut out, query.as_slice());
    let encoded = encode_percent(path);
    push_bytes(&mut out, encoded.as_slice());
    out
}

proof fn lemma_hex_round_trip(d: u8)
    requires
        d < 16,
    ensures
        hex_value(hex_digit(d)) == Some(d),
{
}

/// Decoding undoes encoding: a percent-encoded path decodes to itself.
pub proof fn lemma_decode_encode(p: Seq<u8>)
    ensures
        percent_decode(percent_encode(p)) == p,
    decreases p.len(),
{
    if p.len() > 0 {
        let b = p[0];
        let rest = percent_encode(p.skip(1));
        lemma_decode_encode(p.skip(1));
        let e = encode_byte(b) + rest;
        if is_unreserved(b) {
            assert(e[0] == b);
            assert(e.skip(1) =~= rest);
        } else {
            lemma_hex_round_trip(b / 16);
            lemma_hex_round_trip(b % 16);
            assert(e[0] == PERCENT && e[1] == hex_digit(b / 16) && e[2] == hex_digit(b % 16));
            assert(e.skip(3) =~= rest);
            assert((b / 16) * 16 + b % 16 == b);
        }
        assert(seq![b] + p.skip(1) =~= p);
    } else {
        assert(p =~= Seq::<u8>::empty());
    }
}

/// The request that a watch URL leads to names the file it was made for:
/// for an absolute path, the target `/?file=` followed by the URL's query
/// value resolves to that path.
pub proof fn lemma_watch_target_resolves(p: Seq<u8>)
    requires
        p.len() > 0,
        p[0] == SLASH,
    ensures
        target_path(file_prefix() + percent_encode(p)) == Some(p),
{
    let t = file_prefix() + percent_encode(p);
    assert(t.subrange(0, 7) =~= file_prefix());
    assert(t.skip(7) =~= percent_encode(p));
    lemma_decode_encode(p);
}

} // verus!
