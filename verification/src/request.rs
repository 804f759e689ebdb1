//! Parsing of raw HTTP/1.x request bytes into a [`Request`].
use vstd::prelude::*;
use vstd::utf8::{decode_utf8, encode_utf8, valid_utf8};

use crate::http::{
    header_name_ok, header_value_ok, header_value_visible, method_from_text, utf8_bytes,
    valid_header_name, valid_header_value, visible_header_value, Method, MethodModel,
};
use crate::net::{contains_ip, parse_ip_chars, spec_parse_ip, IpAddress, SocketAddress};
use crate::errors::{FrameworkError, HttpError};
use crate::path::{is_alnum, normalize_chars, spec_normalize, PathRejection};
use crate::text::{
    decimal_chars, extend_chars, extend_str, ascii_lower, ascii_lower_chars, chars_eq, chars_of, contains_char, contains_seq,
    find_exec, occurs_at, parse_unsigned, parse_unsigned_chars, split, split_chars,
    split_once, split_once_chars, split_pat, split_pat_chars, string_of, sub_chars, trim,
    trim_chars,
};

verus! {

/// Most header lines a request may carry.
pub const MAX_HEADERS: usize = 100;

/// Most query parameters a request may carry.
pub const MAX_QUERY_PARAMS: usize = 128;

/// Longest decoded query key or value, in bytes.
pub const MAX_QUERY_VALUE_LEN: usize = 8192;

/// Why raw request bytes were refused.
#[derive(Clone, Copy, Debug, PartialEq, Eq, Structural)]
pub enum ParseError {
    MissingRequestLine,
    InvalidRequestLine,
    InvalidHttpVersion,
    InvalidPath,
    PathTraversal,
    InvalidUtf8,
    InvalidHeaderLine,
    InvalidContentLength,
    InvalidPercentEncoding,
    TooManyHeaders,
    TooManyQueryParams,
    QueryValueTooLong,
    RequestTooLarge { limit: usize },
    BodyTooShort { expected: usize, actual: usize },
}

/// The text a `ParseError` renders to.
pub open spec fn parse_error_text(e: ParseError) -> Seq<char> {
    match e {
        ParseError::MissingRequestLine => "request line is missing"@,
        ParseError::InvalidRequestLine => "request line is invalid"@,
        ParseError::InvalidHttpVersion => "http version is invalid"@,
        ParseError::InvalidPath => "request path is invalid"@,
        ParseError::PathTraversal => "request path contains traversal sequences"@,
        ParseError::InvalidUtf8 => "request headers are not valid utf-8"@,
        ParseError::InvalidHeaderLine => "request header line is invalid"@,
        ParseError::InvalidContentLength => "content-length header is invalid"@,
        ParseError::InvalidPercentEncoding => "request query percent-encoding is invalid"@,
        ParseError::TooManyHeaders => "request contains too many headers (limit: 100)"@,
        ParseError::TooManyQueryParams => "request contains too many query parameters (limit: 128)"@,
        ParseError::QueryValueTooLong => "query key or value exceeds maximum length (8192 bytes)"@,
        ParseError::RequestTooLarge { limit } => "request exceeds maximum allowed size ("@
            + crate::text::decimal(limit as nat) + " bytes)"@,
        ParseError::BodyTooShort { expected, actual } =>
            "request body is shorter than content-length (expected "@ + crate::text::decimal(
                expected as nat,
            ) + ", got "@ + crate::text::decimal(actual as nat) + ")"@,
    }
}

impl ParseError {
    /// The human-readable description of the error.
    pub fn to_string(&self) -> (r: String)
        ensures
            r@ == parse_error_text(*self),
    {
        match self {
            ParseError::MissingRequestLine => "request line is missing".to_string(),
            ParseError::InvalidRequestLine => "request line is invalid".to_string(),
            ParseError::InvalidHttpVersion => "http version is invalid".to_string(),
            ParseError::InvalidPath => "request path is invalid".to_string(),
            ParseError::PathTraversal => "request path contains traversal sequences".to_string(),
            ParseError::InvalidUtf8 => "request headers are not valid utf-8".to_string(),
            ParseError::InvalidHeaderLine => "request header line is invalid".to_string(),
            ParseError::InvalidContentLength => "content-length header is invalid".to_string(),
            ParseError::InvalidPercentEncoding => "request query percent-encoding is invalid".to_string(),
            ParseError::TooManyHeaders => "request contains too many headers (limit: 100)".to_string(),
            ParseError::TooManyQueryParams => "request contains too many query parameters (limit: 128)".to_string(),
            ParseError::QueryValueTooLong => "query key or value exceeds maximum length (8192 bytes)".to_string(),
            ParseError::RequestTooLarge { limit } => {
                let mut v: Vec<char> = Vec::new();
                extend_str(&mut v, "request exceeds maximum allowed size (");
                let d = decimal_chars(*limit as u64);
                extend_chars(&mut v, d.as_slice());
                extend_str(&mut v, " bytes)");
                string_of(v.as_slice())
            },
            ParseError::BodyTooShort { expected, actual } => {
                let mut v: Vec<char> = Vec::new();
                extend_str(&mut v, "request body is shorter than content-length (expected ");
                let d = decimal_chars(*expected as u64);
                extend_chars(&mut v, d.as_slice());
                extend_str(&mut v, ", got ");
                let d = decimal_chars(*actual as u64);
                extend_chars(&mut v, d.as_slice());
                extend_str(&mut v, ")");
                string_of(v.as_slice())
            },
        }
    }
}

/// A parsed HTTP request. Header names are stored lowercase, in the order
/// they arrived; query parameters keep the order in which each key first
/// appeared, with all of its values.
#[derive(Clone, Debug)]
pub struct Request {
    pub method: Method,
    pub path: String,
    pub version: String,
    pub headers: Vec<(String, String)>,
    pub body: Vec<u8>,
    pub query_params: Vec<(String, Vec<String>)>,
    pub remote_addr: Option<SocketAddress>,
}

/// The abstract value of a request.
pub struct RequestModel {
    pub method: MethodModel,
    pub path: Seq<char>,
    pub version: Seq<char>,
    pub headers: Seq<(Seq<char>, Seq<char>)>,
    pub body: Seq<u8>,
    pub query: Seq<(Seq<char>, Seq<Seq<char>>)>,
    pub remote_addr: Option<SocketAddress>,
}

/// The abstract value of a list of query parameters.
pub open spec fn query_pairs(q: Seq<(String, Vec<String>)>) -> Seq<(Seq<char>, Seq<Seq<char>>)> {
    q.map_values(|p: (String, Vec<String>)| (p.0@, p.1@.map_values(|s: String| s@)))
}

impl View for Request {
    type V = RequestModel;

    open spec fn view(&self) -> RequestModel {
        RequestModel {
            method: self.method@,
            path: self.path@,
            version: self.version@,
            headers: crate::http::header_pairs(self.headers@),
            body: self.body@,
            query: query_pairs(self.query_params@),
            remote_addr: self.remote_addr,
        }
    }
}

// ---------------------------------------------------------------------------
// Head and body
// ---------------------------------------------------------------------------
/// Whether a blank line (`\r\n\r\n`) starts at byte `i`.
pub open spec fn blank_line_at(b: Seq<u8>, i: int) -> bool {
    0 <= i && i + 4 <= b.len() && b[i] == 13 && b[i + 1] == 10 && b[i + 2] == 13 && b[i + 3] == 10
}

/// The first blank line at or after `from`.
pub open spec fn find_blank_line(b: Seq<u8>, from: int) -> Option<int>
    decreases b.len() + 1 - from,
{
    if from < 0 || from + 4 > b.len() {
        None
    } else if blank_line_at(b, from) {
        Some(from)
    } else {
        find_blank_line(b, from + 1)
    }
}

/// The head (before the first blank line) and body (after it); all head
/// when there is no blank line.
pub open spec fn split_head_body(b: Seq<u8>) -> (Seq<u8>, Seq<u8>) {
    match find_blank_line(b, 0) {
        Some(i) => (b.take(i), b.skip(i + 4)),
        None => (b, Seq::empty()),
    }
}

proof fn lemma_blank_line_bounds(b: Seq<u8>, from: int)
    ensures
        find_blank_line(b, from) matches Some(i) ==> from <= i && i + 4 <= b.len(),
    decreases b.len() + 1 - from,
{
    if !(from < 0 || from + 4 > b.len()) && !blank_line_at(b, from) {
        lemma_blank_line_bounds(b, from + 1);
    }
}

fn find_blank_line_exec(b: &[u8]) -> (r: Option<usize>)
    ensures
        match r {
            Some(i) => find_blank_line(b@, 0) == Some(i as int) && i + 4 <= b@.len(),
            None => find_blank_line(b@, 0) is None,
        },
{
    proof {
        lemma_blank_line_bounds(b@, 0);
    }
    let n = b.len();
    if n < 4 {
        return None;
    }
    let mut i: usize = 0;
    while i <= n - 4
        invariant
            n == b.len(),
            n >= 4,
            find_blank_line(b@, 0) == find_blank_line(b@, i as int),
        decreases n - i,
    {
        if b[i] == 13 && b[i + 1] == 10 && b[i + 2] == 13 && b[i + 3] == 10 {
            return Some(i);
        }
        i += 1;
    }
    None
}

fn copy_bytes(b: &[u8], from: usize, to: usize) -> (r: Vec<u8>)
    requires
        from <= to <= b.len(),
    ensures
        r@ == b@.subrange(from as int, to as int),
{
    let mut r: Vec<u8> = Vec::new();
    let mut i: usize = from;
    while i < to
        invariant
            from <= i <= to <= b.len(),
            r@ == b@.subrange(from as int, i as int),
        decreases to - i,
    {
        r.push(b[i]);
        assert(b@.subrange(from as int, i as int).push(b@[i as int]) =~= b@.subrange(
            from as int,
            i + 1,
        ));
        i += 1;
    }
    r
}

/// Decodes UTF-8 with `String::from_utf8`: text exactly when the bytes are
/// valid UTF-8.
#[verifier::external_body]
pub(crate) fn utf8_decode(bytes: Vec<u8>) -> (r: Option<String>)
    ensures
        r is Some <==> valid_utf8(bytes@),
        r matches Some(s) ==> s@ == decode_utf8(bytes@),
{
    String::from_utf8(bytes).ok()
}

// ---------------------------------------------------------------------------
// Request line
// ---------------------------------------------------------------------------
/// The method, target and version of a request line, or why it is refused.
pub open spec fn spec_request_line(line: Seq<char>) -> Result<(MethodModel, Seq<char>, Seq<char>), ParseError> {
    let parts = split(line, ' ');
    if line.contains('\t') || parts.len() != 3 || parts[0].len() == 0 || parts[1].len() == 0
        || parts[2].len() == 0 || contains_seq(line, "  "@) {
        Err(ParseError::InvalidRequestLine)
    } else {
        Ok((method_from_text(parts[0]), parts[1], parts[2]))
    }
}

fn request_line(line: &[char]) -> (r: Result<(Method, Vec<char>, Vec<char>), ParseError>)
    ensures
        match spec_request_line(line@) {
            Ok((m, p, v)) => r matches Ok((x, y, z)) && x@ == m && y@ == p && z@ == v,
            Err(e) => r == Err::<(Method, Vec<char>, Vec<char>), ParseError>(e),
        },
{
    if contains_char(line, '\t') {
        return Err(ParseError::InvalidRequestLine);
    }
    let parts = split_chars(line, ' ');
    if parts.len() != 3 || parts[0].len() == 0 || parts[1].len() == 0 || parts[2].len() == 0 {
        return Err(ParseError::InvalidRequestLine);
    }
    let two = chars_of("  ");
    match find_exec(line, two.as_slice(), 0) {
        Some(_) => {
            return Err(ParseError::InvalidRequestLine);
        },
        None => {
            proof {
                if contains_seq(line@, "  "@) {
                    let k = choose|k: int| occurs_at(line@, "  "@, k);
                    crate::text::lemma_find_from_none(line@, "  "@, 0, k);
                }
            }
        },
    }
    let m = Method::from_chars(parts[0].as_slice());
    let p = sub_chars(parts[1].as_slice(), 0, parts[1].len());
    let v = sub_chars(parts[2].as_slice(), 0, parts[2].len());
    assert(p@ =~= parts@[1]@);
    assert(v@ =~= parts@[2]@);
    Ok((m, p, v))
}

// ---------------------------------------------------------------------------
// Header lines
// ---------------------------------------------------------------------------
/// The header fields of the lines after the request line: blank lines are
/// skipped, at most `MAX_HEADERS` fields, each `name: value` with a valid
/// name and value (both trimmed); names are stored lowercase.
pub open spec fn header_walk(lines: Seq<Seq<char>>, count: nat, acc: Seq<(Seq<char>, Seq<char>)>) -> Result<
    Seq<(Seq<char>, Seq<char>)>,
    ParseError,
>
    decreases lines.len(),
{
    if lines.len() == 0 {
        Ok(acc)
    } else if lines[0].len() == 0 {
        header_walk(lines.drop_first(), count, acc)
    } else if count + 1 > 100 {
        Err(ParseError::TooManyHeaders)
    } else {
        match split_once(lines[0], ':') {
            None => Err(ParseError::InvalidHeaderLine),
            Some((k, v)) => {
                let key = trim(k);
                let value = trim(v);
                if key.len() == 0 || !valid_header_name(key) || !valid_header_value(value) {
                    Err(ParseError::InvalidHeaderLine)
                } else {
                    header_walk(lines.drop_first(), count + 1, acc.push((ascii_lower(key), value)))
                }
            },
        }
    }
}

// ---------------------------------------------------------------------------
// Query strings
// ---------------------------------------------------------------------------
/// The value of a hexadecimal digit byte.
pub open spec fn hex_byte(b: u8) -> Option<u8> {
    if 48 <= b && b <= 57 {
        Some((b - 48) as u8)
    } else if 97 <= b && b <= 102 {
        Some((b - 97 + 10) as u8)
    } else if 65 <= b && b <= 70 {
        Some((b - 65 + 10) as u8)
    } else {
        None
    }
}

/// Percent-decoding of bytes: `+` is a space, `%hh` a byte, anything else
/// itself; a `%` without two hex digits after it fails.
pub open spec fn pct_decode(b: Seq<u8>) -> Option<Seq<u8>>
    decreases b.len(),
{
    if b.len() == 0 {
        Some(Seq::empty())
    } else if b[0] == 37 {
        if b.len() <= 2 {
            None
        } else {
            match (hex_byte(b[1]), hex_byte(b[2])) {
                (Some(h), Some(l)) => match pct_decode(b.skip(3)) {
                    Some(r) => Some(seq![(h * 16 + l) as u8] + r),
                    None => None,
                },
                _ => None,
            }
        }
    } else {
        match pct_decode(b.drop_first()) {
            Some(r) => Some(seq![if b[0] == 43 {
                32u8
            } else {
                b[0]
            }] + r),
            None => None,
        }
    }
}

/// An ASCII hex digit's byte in lowercase (`A`-`F` become `a`-`f`).
pub open spec fn lower_hex_byte(b: u8) -> u8 {
    if 65 <= b && b <= 70 {
        (b + 32) as u8
    } else {
        b
    }
}

/// Hex digits: a byte is a digit exactly when it is `0`-`9`, `a`-`f` or
/// `A`-`F`; `0`-`9` are worth 0 to 9, and a letter is worth the same in
/// either case, `a` and `A` 10 up to `f` and `F` 15.
pub proof fn law_hex_digits(b: u8)
    ensures
        hex_byte(b) is Some <==> ((48 <= b <= 57) || (97 <= b <= 102) || (65 <= b <= 70)),
        48 <= b <= 57 ==> hex_byte(b) == Some((b - 48) as u8),
        97 <= b <= 102 ==> hex_byte(b) == Some((b - 87) as u8),
        65 <= b <= 70 ==> hex_byte(b) == Some((b - 55) as u8),
        hex_byte(lower_hex_byte(b)) == hex_byte(b),
{
}

/// Percent-decoding does not depend on the case of the hex digits: an
/// escape `%hl` decodes the same, or fails the same, as `%` followed by
/// the lowercase forms of `h` and `l`, whatever follows. With two hex
/// digits the escape is the byte `16 * h + l` followed by the rest's
/// decoding; otherwise decoding fails.
pub proof fn law_percent_decoding_ignores_case(h: u8, l: u8, rest: Seq<u8>)
    ensures
        pct_decode(seq![37u8, h, l] + rest) == pct_decode(seq![37u8, lower_hex_byte(h), lower_hex_byte(l)] + rest),
        match (hex_byte(h), hex_byte(l)) {
            (Some(x), Some(y)) => pct_decode(seq![37u8, h, l] + rest) == match pct_decode(rest) {
                Some(r) => Some(seq![(x * 16 + y) as u8] + r),
                None => None,
            },
            _ => pct_decode(seq![37u8, h, l] + rest) is None,
        },
{
    let a = seq![37u8, h, l] + rest;
    let b = seq![37u8, lower_hex_byte(h), lower_hex_byte(l)] + rest;
    assert(a.skip(3) =~= rest);
    assert(b.skip(3) =~= rest);
    assert(a[0] == 37u8 && a[1] == h && a[2] == l);
    assert(b[0] == 37u8 && b[1] == lower_hex_byte(h) && b[2] == lower_hex_byte(l));
    law_hex_digits(h);
    law_hex_digits(l);
}

/// The decoded bytes of a query component, when they decode and form UTF-8.
pub open spec fn decode_component(s: Seq<char>) -> Option<Seq<u8>> {
    match pct_decode(encode_utf8(s)) {
        Some(d) => if valid_utf8(d) {
            Some(d)
        } else {
            None
        },
        None => None,
    }
}

/// The position of key `k` among the parameters.
pub open spec fn param_index(m: Seq<(Seq<char>, Seq<Seq<char>>)>, k: Seq<char>) -> Option<int>
    decreases m.len(),
{
    if m.len() == 0 {
        None
    } else if m.last().0 == k {
        match param_index(m.drop_last(), k) {
            Some(i) => Some(i),
            None => Some(m.len() - 1),
        }
    } else {
        param_index(m.drop_last(), k)
    }
}

/// Adds value `v` under key `k`.
pub open spec fn add_param(m: Seq<(Seq<char>, Seq<Seq<char>>)>, k: Seq<char>, v: Seq<char>) -> Seq<
    (Seq<char>, Seq<Seq<char>>),
> {
    match param_index(m, k) {
        Some(i) => m.update(i, (k, m[i].1.push(v))),
        None => m.push((k, seq![v])),
    }
}

/// The parameters of the `&`-separated pairs: empty pairs are skipped, at
/// most `MAX_QUERY_PARAMS` pairs, each `key=value` (or a bare key with an
/// empty value), both percent-decoded and at most `MAX_QUERY_VALUE_LEN`
/// bytes.
pub open spec fn query_walk(pairs: Seq<Seq<char>>, count: nat, m: Seq<(Seq<char>, Seq<Seq<char>>)>) -> Result<
    Seq<(Seq<char>, Seq<Seq<char>>)>,
    ParseError,
>
    decreases pairs.len(),
{
    if pairs.len() == 0 {
        Ok(m)
    } else if pairs[0].len() == 0 {
        query_walk(pairs.drop_first(), count, m)
    } else if count + 1 > 128 {
        Err(ParseError::TooManyQueryParams)
    } else {
        let (rk, rv) = match split_once(pairs[0], '=') {
            Some((a, b)) => (a, b),
            None => (pairs[0], Seq::empty()),
        };
        match decode_component(rk) {
            None => Err(ParseError::InvalidPercentEncoding),
            Some(kb) => match decode_component(rv) {
                None => Err(ParseError::InvalidPercentEncoding),
                Some(vb) => if kb.len() > 8192 || vb.len() > 8192 {
                    Err(ParseError::QueryValueTooLong)
                } else {
                    query_walk(
                        pairs.drop_first(),
                        count + 1,
                        add_param(m, decode_utf8(kb), decode_utf8(vb)),
                    )
                },
            },
        }
    }
}

/// The parameters of a query string.
pub open spec fn spec_parse_query(q: Seq<char>) -> Result<Seq<(Seq<char>, Seq<Seq<char>>)>, ParseError> {
    query_walk(split(q, '&'), 0, Seq::empty())
}

/// Whether a query component is plain: ASCII letters and digits only.
pub open spec fn plain_component(s: Seq<char>) -> bool {
    forall|i: int| 0 <= i < s.len() ==> is_alnum(#[trigger] s[i])
}

/// Whether every character is ASCII.
pub open spec fn ascii_text(s: Seq<char>) -> bool {
    forall|i: int| 0 <= i < s.len() ==> (#[trigger] s[i]) as u32 <= 0x7F
}

/// The UTF-8 bytes of ASCII text are its characters' codes.
proof fn lemma_encode_ascii(s: Seq<char>)
    requires
        ascii_text(s),
    ensures
        encode_utf8(s).len() == s.len(),
        forall|i: int| 0 <= i < s.len() ==> #[trigger] encode_utf8(s)[i] == (s[i] as u32) as u8,
    decreases s.len(),
{
    if s.len() > 0 {
        let c = s[0] as u32;
        assert(c <= 0x7F);
        assert(c <= 0x7F ==> (c & 0x7F) == c) by (bit_vector);
        let rest = s.drop_first();
        assert(ascii_text(rest)) by {
            assert forall|i: int| 0 <= i < rest.len() implies (#[trigger] rest[i]) as u32 <= 0x7F by {
                assert(rest[i] == s[i + 1]);
            }
        }
        lemma_encode_ascii(rest);
        let e = encode_utf8(s);
        assert(e == seq![(c & 0x7F) as u8] + encode_utf8(rest));
        assert forall|i: int| 0 <= i < s.len() implies #[trigger] encode_utf8(s)[i] == (s[i] as u32) as u8 by {
            if i > 0 {
                assert(e[i] == encode_utf8(rest)[i - 1]);
                assert(rest[i - 1] == s[i]);
            }
        }
    }
}

/// Bytes without `%` or `+` percent-decode to themselves.
proof fn lemma_pct_plain(b: Seq<u8>)
    requires
        forall|i: int| 0 <= i < b.len() ==> #[trigger] b[i] != 37 && b[i] != 43,
    ensures
        pct_decode(b) == Some(b),
    decreases b.len(),
{
    if b.len() > 0 {
        let rest = b.drop_first();
        assert forall|i: int| 0 <= i < rest.len() implies #[trigger] rest[i] != 37 && rest[i] != 43 by {
            assert(rest[i] == b[i + 1]);
        }
        lemma_pct_plain(rest);
        assert(seq![b[0]] + rest =~= b);
    }
}

/// A plain component decodes to its own UTF-8 bytes, which decode back to
/// it.
proof fn lemma_decode_plain(s: Seq<char>)
    requires
        plain_component(s),
    ensures
        decode_component(s) == Some(encode_utf8(s)),
        encode_utf8(s).len() == s.len(),
        decode_utf8(encode_utf8(s)) == s,
{
    assert(ascii_text(s)) by {
        assert forall|i: int| 0 <= i < s.len() implies (#[trigger] s[i]) as u32 <= 0x7F by {
            assert(is_alnum(s[i]));
        }
    }
    lemma_encode_ascii(s);
    let b = encode_utf8(s);
    assert forall|i: int| 0 <= i < b.len() implies #[trigger] b[i] != 37 && b[i] != 43 by {
        assert(b[i] == (s[i] as u32) as u8);
        assert(is_alnum(s[i]));
    }
    lemma_pct_plain(b);
    vstd::utf8::encode_utf8_valid_utf8(s);
    vstd::utf8::encode_utf8_decode_utf8(s);
}

/// A query `key=value` of plain key and value, each at most
/// `MAX_QUERY_VALUE_LEN` long, parses to that key with that one value.
pub proof fn law_query_round_trip(key: Seq<char>, value: Seq<char>)
    requires
        key.len() > 0,
        plain_component(key),
        plain_component(value),
        key.len() <= 8192,
        value.len() <= 8192,
    ensures
        spec_parse_query(key + "="@ + value) == Ok::<Seq<(Seq<char>, Seq<Seq<char>>)>, ParseError>(
            seq![(key, seq![value])],
        ),
{
    reveal_strlit("=");
    let q = key + "="@ + value;
    assert(q.len() > 0);
    assert(crate::text::lacks(q, '&')) by {
        assert forall|i: int| 0 <= i < q.len() implies #[trigger] q[i] != '&' by {
            if i < key.len() {
                assert(q[i] == key[i]);
                assert(is_alnum(key[i]));
            } else if i > key.len() {
                assert(q[i] == value[i - key.len() - 1]);
                assert(is_alnum(value[i - key.len() - 1]));
            }
        }
    }
    crate::text::lemma_split_join(seq![q], '&');
    assert(crate::text::join(seq![q], seq!['&']) == q);
    assert(split(q, '&') =~= seq![q]);
    assert forall|k: int| 0 <= k < key.len() implies q[k] != '=' by {
        assert(q[k] == key[k]);
        assert(is_alnum(key[k]));
    }
    crate::text::lemma_first_index(q, '=', key.len() as int);
    assert(q.take(key.len() as int) =~= key);
    assert(q.skip(key.len() + 1int) =~= value);
    assert(split_once(q, '=') == Some((key, value)));
    lemma_decode_plain(key);
    lemma_decode_plain(value);
    assert(seq![q].drop_first() =~= Seq::<Seq<char>>::empty());
    let m0 = Seq::<(Seq<char>, Seq<Seq<char>>)>::empty();
    assert(param_index(m0, key) is None);
    assert(add_param(m0, key, value) =~= seq![(key, seq![value])]);
    let done = seq![(key, seq![value])];
    assert(query_walk(Seq::<Seq<char>>::empty(), 1, done) == Ok::<
        Seq<(Seq<char>, Seq<Seq<char>>)>,
        ParseError,
    >(done));
    let pairs = seq![q];
    assert(pairs[0] == q);
    assert(decode_component(key) == Some(encode_utf8(key)));
    assert(decode_component(value) == Some(encode_utf8(value)));
    assert(query_walk(pairs, 0, m0) == query_walk(
        pairs.drop_first(),
        1,
        add_param(m0, decode_utf8(encode_utf8(key)), decode_utf8(encode_utf8(value))),
    ));
}

/// The first blank line from `from` on is at `p` where one starts at `p`
/// and none before.
proof fn lemma_find_blank_first(b: Seq<u8>, from: int, p: int)
    requires
        0 <= from <= p,
        blank_line_at(b, p),
        forall|k: int| from <= k < p ==> !blank_line_at(b, k),
    ensures
        find_blank_line(b, from) == Some(p),
    decreases p - from,
{
    if from < p {
        lemma_find_blank_first(b, from + 1, p);
    }
}

/// Whether `s` is ASCII text without a carriage return.
pub open spec fn line_text(s: Seq<char>) -> bool {
    ascii_text(s) && crate::text::lacks(s, '\r')
}

/// An ASCII character other than a carriage return is not byte 13.
proof fn lemma_no_cr_byte(c: char)
    requires
        c as u32 <= 0x7F,
        c != '\r',
    ensures
        (c as u32) as u8 != 13,
{
    vstd::utf8::char_u32_cast(c, c as u32);
    if (c as u32) as u8 == 13 {
        assert(c as u32 == 13);
        assert((13u32 as char) == '\r');
    }
}

/// The bytes of a request line and one header line, each ending in CRLF,
/// then a blank line: the head is the two lines joined by CRLF, the body
/// is empty, and the head splits back into the two lines.
proof fn lemma_two_line_request(line: Seq<char>, field: Seq<char>)
    requires
        line_text(line),
        line_text(field),
        field.len() > 0,
    ensures
        ({
            let text = line + "\r\n"@ + field + "\r\n\r\n"@;
            let head = line + "\r\n"@ + field;
            &&& ascii_text(head)
            &&& split_head_body(encode_utf8(text)) == (encode_utf8(head), Seq::<u8>::empty())
            &&& split_pat(head, "\r\n"@) == seq![line, field]
        }),
{
    reveal_strlit("\r\n");
    reveal_strlit("\r\n\r\n");
    let crlf = "\r\n"@;
    let blank = "\r\n\r\n"@;
    let text = line + crlf + field + blank;
    let head = line + crlf + field;
    let l = line.len() as int;
    let f = field.len() as int;
    let p = l + 2 + f;
    assert(ascii_text(text)) by {
        assert forall|i: int| 0 <= i < text.len() implies (#[trigger] text[i]) as u32 <= 0x7F by {
            if i < l {
                assert(text[i] == line[i]);
            } else if i < l + 2 {
                assert(text[i] == crlf[i - l]);
            } else if i < p {
                assert(text[i] == field[i - l - 2]);
            } else {
                assert(text[i] == blank[i - p]);
            }
        }
    }
    lemma_encode_ascii(text);
    let b = encode_utf8(text);
    assert(blank_line_at(b, p)) by {
        assert(text[p] == blank[0]);
        assert(text[p + 1] == blank[1]);
        assert(text[p + 2] == blank[2]);
        assert(text[p + 3] == blank[3]);
    }
    assert forall|k: int| 0 <= k < p implies !blank_line_at(b, k) by {
        if k < l {
            assert(text[k] == line[k]);
            lemma_no_cr_byte(line[k]);
        } else if k == l {
            assert(text[k + 2] == field[0]);
            lemma_no_cr_byte(field[0]);
        } else if k == l + 1 {
            assert(text[k] == crlf[1]);
        } else {
            assert(text[k] == field[k - l - 2]);
            lemma_no_cr_byte(field[k - l - 2]);
        }
    }
    lemma_find_blank_first(b, 0, p);
    assert(text.take(p) =~= head);
    assert(ascii_text(head)) by {
        assert forall|i: int| 0 <= i < head.len() implies (#[trigger] head[i]) as u32 <= 0x7F by {
            assert(head[i] == text[i]);
        }
    }
    lemma_encode_ascii(head);
    assert(b.take(p) =~= encode_utf8(head));
    assert(b.skip(p + 4) =~= Seq::<u8>::empty());
    assert(head.subrange(l, l + 2) =~= crlf);
    assert forall|k: int| 0 <= k < l implies !crate::text::occurs_at(head, crlf, k) by {
        assert(head[k] == line[k]);
        assert(head.subrange(k, k + 2)[0] == head[k]);
    }
    crate::text::lemma_find_from_first(head, crlf, 0, l);
    assert(head.take(l) =~= line);
    assert(head.skip(l + 2) =~= field);
    assert forall|k: int| 0 <= k implies !crate::text::occurs_at(field, crlf, k) by {
        if k + 2 <= field.len() {
            assert(field.subrange(k, k + 2)[0] == field[k]);
        }
    }
    crate::text::lemma_find_from_absent(field, crlf, 0);
    assert(split_pat(field, crlf) == seq![field]);
    assert(split_pat(head, crlf) =~= seq![line, field]);
}

/// The request line of the probe request: `GET`, its target and
/// `HTTP/1.1`.
proof fn lemma_probe_request_line(value: Seq<char>)
    requires
        plain_component(value),
    ensures
        spec_request_line("GET /query?name="@ + value + " HTTP/1.1"@) == Ok::<
            (MethodModel, Seq<char>, Seq<char>),
            ParseError,
        >((MethodModel::Get, "/query?name="@ + value, "HTTP/1.1"@)),
{
    reveal_strlit("GET /query?name=");
    reveal_strlit(" HTTP/1.1");
    reveal_strlit("/query?name=");
    reveal_strlit("HTTP/1.1");
    reveal_strlit("GET");
    reveal_strlit("  ");
    let lv = value.len() as int;
    let target = "/query?name="@ + value;
    let line = "GET /query?name="@ + value + " HTTP/1.1"@;
    let parts = seq!["GET"@, target, "HTTP/1.1"@];
    assert(line =~= crate::text::join(parts, seq![' '])) by {
        let sp = seq![' '];
        assert(parts.drop_last() =~= seq!["GET"@, target]);
        assert(seq!["GET"@, target].drop_last() =~= seq!["GET"@]);
        assert(crate::text::join(seq!["GET"@], sp) == "GET"@);
        assert(crate::text::join(seq!["GET"@, target], sp) == "GET"@ + sp + target);
        assert(crate::text::join(parts, sp) == "GET"@ + sp + target + sp + "HTTP/1.1"@);
        assert(line =~= "GET"@ + sp + target + sp + "HTTP/1.1"@);
    }
    assert forall|k: int| 0 <= k < parts.len() implies crate::text::lacks(#[trigger] parts[k], ' ') by {
        if k == 1 {
            assert forall|i: int| 0 <= i < target.len() implies #[trigger] target[i] != ' ' by {
                if i >= 12 {
                    assert(target[i] == value[i - 12]);
                    assert(is_alnum(value[i - 12]));
                }
            }
        }
    }
    crate::text::lemma_split_join(parts, ' ');
    assert(!line.contains('\t')) by {
        assert forall|i: int| 0 <= i < line.len() implies #[trigger] line[i] != '\t' by {
            if 16 <= i < 16 + lv {
                assert(line[i] == value[i - 16]);
                assert(is_alnum(value[i - 16]));
            }
        }
    }
    assert(!crate::text::contains_seq(line, "  "@)) by {
        assert forall|i: int| !crate::text::occurs_at(line, "  "@, i) by {
            if crate::text::occurs_at(line, "  "@, i) {
                assert(line.subrange(i, i + 2)[0] == line[i]);
                assert(line.subrange(i, i + 2)[1] == line[i + 1]);
                if 16 <= i < 16 + lv {
                    assert(line[i] == value[i - 16]);
                    assert(is_alnum(value[i - 16]));
                } else if 15 <= i && i + 1 < 16 + lv {
                    assert(line[i + 1] == value[i + 1 - 16]);
                    assert(is_alnum(value[i + 1 - 16]));
                }
            }
        }
    }
}

/// The `Host: local` line of the probe request is the one field
/// `host: local`.
proof fn lemma_probe_header()
    ensures
        header_walk(seq!["Host: local"@], 0, Seq::empty()) == Ok::<
            Seq<(Seq<char>, Seq<char>)>,
            ParseError,
        >(seq![("host"@, "local"@)]),
{
    reveal_strlit("Host: local");
    reveal_strlit("Host");
    reveal_strlit(" local");
    reveal_strlit("local");
    reveal_strlit("host");
    let hdr = "Host: local"@;
    crate::text::lemma_first_index(hdr, ':', 4);
    assert(hdr.take(4) =~= "Host"@);
    assert(hdr.skip(5) =~= " local"@);
    assert(split_once(hdr, ':') == Some(("Host"@, " local"@)));
    assert(trim("Host"@) == "Host"@);
    assert(" local"@.drop_first() =~= "local"@);
    assert(trim("local"@) == "local"@);
    assert(trim(" local"@) == "local"@);
    assert(crate::http::valid_header_name("Host"@));
    assert(crate::http::valid_header_value("local"@));
    assert(ascii_lower("Host"@) =~= "host"@) by {
        assert(crate::text::lower_char('H') == 'h');
    }
    let lines = seq![hdr];
    assert(lines.drop_first() =~= Seq::<Seq<char>>::empty());
    let acc = Seq::<(Seq<char>, Seq<char>)>::empty().push((ascii_lower("Host"@), "local"@));
    assert(acc =~= seq![("host"@, "local"@)]);
    assert(header_walk(Seq::<Seq<char>>::empty(), 1, acc) == Ok::<
        Seq<(Seq<char>, Seq<char>)>,
        ParseError,
    >(acc));
    assert(header_walk(lines, 0, Seq::empty()) == header_walk(lines.drop_first(), 1, acc));
}

/// A path of one segment, `/` then the segment, is already normalized.
proof fn lemma_single_segment_path(seg: Seq<char>)
    requires
        seg.len() > 0,
        crate::text::lacks(seg, '/'),
        crate::text::lacks(seg, '\0'),
        crate::text::lacks(seg, '\\'),
        seg != "."@,
        seg != ".."@,
    ensures
        spec_normalize("/"@ + seg, false) == Ok::<Seq<char>, PathRejection>("/"@ + seg),
{
    reveal_strlit("/");
    let path = "/"@ + seg;
    let e = Seq::<char>::empty();
    assert(!path.contains('\0')) by {
        assert forall|i: int| 0 <= i < path.len() implies #[trigger] path[i] != '\0' by {
            if i > 0 {
                assert(path[i] == seg[i - 1]);
            }
        }
    }
    assert(!path.contains('\\')) by {
        assert forall|i: int| 0 <= i < path.len() implies #[trigger] path[i] != '\\' by {
            if i > 0 {
                assert(path[i] == seg[i - 1]);
            }
        }
    }
    let parts = seq![e, seg];
    assert(crate::text::join(parts, seq!['/']) =~= path) by {
        assert(parts.drop_last() =~= seq![e]);
        assert(crate::text::join(seq![e], seq!['/']) == e);
        assert(crate::text::join(parts, seq!['/']) == e + seq!['/'] + seg);
    }
    assert forall|k: int| 0 <= k < parts.len() implies crate::text::lacks(#[trigger] parts[k], '/') by {}
    crate::text::lemma_split_join(parts, '/');
    assert(split(path, '/') == parts);
    assert(parts.drop_first() =~= seq![seg]);
    assert(seq![seg].drop_first() =~= Seq::<Seq<char>>::empty());
    let params = Set::<Seq<char>>::empty();
    assert(crate::path::check_segment(seg, false, params) == Ok::<
        Set<Seq<char>>,
        crate::path::PathFault,
    >(params));
    let out = Seq::<Seq<char>>::empty().push(seg);
    assert(out =~= seq![seg]);
    assert(parts[0].len() == 0);
    assert(parts[1] == seg);
    assert(crate::path::walk_segments(Seq::<Seq<char>>::empty(), false, params, out) == Ok::<
        Seq<Seq<char>>,
        crate::path::PathFault,
    >(out));
    assert(crate::path::walk_segments(seq![seg], false, params, Seq::empty())
        == crate::path::walk_segments(Seq::<Seq<char>>::empty(), false, params, out));
    assert(crate::path::walk_segments(parts, false, params, Seq::empty())
        == crate::path::walk_segments(seq![seg], false, params, Seq::empty()));
    assert(crate::text::join(out, "/"@) == seg);
    assert(crate::path::rebuild(out) =~= path);
}

/// A request `GET /query?name=<value>` with a `Host` header, sent as
/// bytes, parses to a request whose query holds `name` with that one
/// value, for a plain value of at most `MAX_QUERY_VALUE_LEN` characters.
#[verifier::spinoff_prover]
pub proof fn law_request_query_round_trip(value: Seq<char>)
    requires
        value.len() > 0,
        plain_component(value),
        value.len() <= 8192,
    ensures
        spec_from_bytes(
            encode_utf8("GET /query?name="@ + value + " HTTP/1.1\r\nHost: local\r\n\r\n"@),
        ) matches Ok(m) && m.query == seq![("name"@, seq![value])],
{
    reveal_strlit("GET /query?name=");
    reveal_strlit(" HTTP/1.1");
    reveal_strlit("/query?name=");
    reveal_strlit("/query");
    reveal_strlit("name=");
    reveal_strlit("name");
    reveal_strlit("=");
    reveal_strlit("HTTP/1.1");
    reveal_strlit("HTTP/1.0");
    reveal_strlit("content-length");
    reveal_strlit("host");
    reveal_strlit(" HTTP/1.1\r\nHost: local\r\n\r\n");
    reveal_strlit("Host: local");
    reveal_strlit("\r\n");
    reveal_strlit("\r\n\r\n");
    let lv = value.len() as int;
    let line = "GET /query?name="@ + value + " HTTP/1.1"@;
    let hdr = "Host: local"@;
    let text = "GET /query?name="@ + value + " HTTP/1.1\r\nHost: local\r\n\r\n"@;
    assert(text =~= line + "\r\n"@ + hdr + "\r\n\r\n"@);
    assert(line_text(line)) by {
        assert forall|i: int| 0 <= i < line.len() implies (#[trigger] line[i]) as u32 <= 0x7F && line[i]
            != '\r' by {
            if 16 <= i < 16 + lv {
                assert(line[i] == value[i - 16]);
                assert(is_alnum(value[i - 16]));
            }
        }
    }
    assert(line_text(hdr)) by {
        assert forall|i: int| 0 <= i < hdr.len() implies (#[trigger] hdr[i]) as u32 <= 0x7F && hdr[i]
            != '\r' by {}
    }
    lemma_two_line_request(line, hdr);
    let h = line + "\r\n"@ + hdr;
    vstd::utf8::encode_utf8_valid_utf8(h);
    vstd::utf8::encode_utf8_decode_utf8(h);
    let lines = split_pat(decode_utf8(encode_utf8(h)), "\r\n"@);
    assert(lines == seq![line, hdr]);
    assert(lines[0] == line);
    assert(line[0] == 'G');
    assert(line.last() == '1');
    assert(trim(line) == line);
    lemma_probe_request_line(value);
    lemma_probe_header();
    assert(lines.drop_first() =~= seq![hdr]);
    let target = "/query?name="@ + value;
    crate::text::lemma_first_index(target, '?', 6);
    assert(target.take(6) =~= "/query"@);
    assert(target.skip(7) =~= "name="@ + value) by {
        assert forall|k: int| 0 <= k < target.skip(7).len() implies #[trigger] target.skip(7)[k] == ("name="@
            + value)[k] by {
            if k < 5 {
                assert(target.skip(7)[k] == target[k + 7]);
            } else {
                assert(target[k + 7] == value[k - 5]);
            }
        }
    }
    assert(split_once(target, '?') == Some(("/query"@, "name="@ + value)));
    assert(plain_component("name"@)) by {
        assert forall|i: int| 0 <= i < 4 implies is_alnum(#[trigger] "name"@[i]) by {}
    }
    law_query_round_trip("name"@, value);
    assert("name"@ + "="@ + value =~= "name="@ + value);
    reveal_strlit("query");
    reveal_strlit(".");
    reveal_strlit("..");
    let seg = "query"@;
    assert(seg != "."@ && seg != ".."@) by {
        assert(seg.len() != "."@.len());
        assert(seg.len() != ".."@.len());
    }
    assert(crate::text::lacks(seg, '/') && crate::text::lacks(seg, '\0') && crate::text::lacks(
        seg,
        '\\',
    ));
    lemma_single_segment_path(seg);
    reveal_strlit("/");
    assert("/"@ + seg =~= "/query"@);
    let headers = seq![("host"@, "local"@)];
    assert(headers[0].0 != "content-length"@) by {
        assert(headers[0].0.len() != "content-length"@.len());
    }
    assert(headers.drop_first() =~= Seq::<(Seq<char>, Seq<char>)>::empty());
    assert(first_field(Seq::<(Seq<char>, Seq<char>)>::empty(), "content-length"@) is None);
    assert(first_field(headers, "content-length"@) == first_field(
        headers.drop_first(),
        "content-length"@,
    ));
}

/// Whether a header value is plain: ASCII letters, digits and `-`.
pub open spec fn plain_header_value(s: Seq<char>) -> bool {
    forall|i: int| 0 <= i < s.len() ==> is_alnum(#[trigger] s[i]) || s[i] == '-'
}

/// The request line `GET /header HTTP/1.1` parses to its three parts.
#[verifier::spinoff_prover]
proof fn lemma_header_request_line()
    ensures
        spec_request_line("GET /header HTTP/1.1"@) == Ok::<(MethodModel, Seq<char>, Seq<char>), ParseError>(
            (MethodModel::Get, "/header"@, "HTTP/1.1"@),
        ),
{
    reveal_strlit("GET /header HTTP/1.1");
    reveal_strlit("GET");
    reveal_strlit("/header");
    reveal_strlit("HTTP/1.1");
    reveal_strlit("HTTP/1.0");
    reveal_strlit("  ");
    let line = "GET /header HTTP/1.1"@;
    assert(trim(line) == line);
    let target = "/header"@;
    let parts = seq!["GET"@, target, "HTTP/1.1"@];
    let sp = seq![' '];
    assert(parts.drop_last() =~= seq!["GET"@, target]);
    assert(seq!["GET"@, target].drop_last() =~= seq!["GET"@]);
    assert(crate::text::join(seq!["GET"@], sp) == "GET"@);
    assert(crate::text::join(seq!["GET"@, target], sp) == "GET"@ + sp + target);
    assert(crate::text::join(parts, sp) == "GET"@ + sp + target + sp + "HTTP/1.1"@);
    assert(line =~= crate::text::join(parts, sp));
    assert forall|k: int| 0 <= k < parts.len() implies crate::text::lacks(#[trigger] parts[k], ' ') by {}
    crate::text::lemma_split_join(parts, ' ');
    assert(!line.contains('\t')) by {
        assert forall|i: int| 0 <= i < line.len() implies #[trigger] line[i] != '\t' by {}
    }
    assert(!crate::text::contains_seq(line, "  "@)) by {
        assert forall|i: int| !crate::text::occurs_at(line, "  "@, i) by {
            if crate::text::occurs_at(line, "  "@, i) {
                assert(line.subrange(i, i + 2)[0] == line[i]);
                assert(line.subrange(i, i + 2)[1] == line[i + 1]);
            }
        }
    }
    assert(spec_request_line(line) == Ok::<(MethodModel, Seq<char>, Seq<char>), ParseError>(
        (MethodModel::Get, target, "HTTP/1.1"@),
    ));
}

/// A request `GET /header` with a `trace-id` header, sent as bytes,
/// parses to a request whose one header is `trace-id` with that value,
/// which is what a handler's `trace-id` header input receives, for a
/// non-empty plain value.
#[verifier::spinoff_prover]
#[verifier::rlimit(30)]
pub proof fn law_request_header_round_trip(value: Seq<char>)
    requires
        value.len() > 0,
        plain_header_value(value),
    ensures
        spec_from_bytes(encode_utf8("GET /header HTTP/1.1\r\ntrace-id: "@ + value + "\r\n\r\n"@)) matches Ok(
            m,
        ) && m.headers == seq![("trace-id"@, value)] && crate::di::spec_extractor_header(
            m.headers,
            "trace-id"@,
        ) == Ok::<Option<Seq<char>>, ()>(Some(value)),
{
    reveal_strlit("GET /header HTTP/1.1\r\ntrace-id: ");
    reveal_strlit("GET /header HTTP/1.1");
    reveal_strlit("trace-id: ");
    reveal_strlit("trace-id");
    reveal_strlit("\r\n");
    reveal_strlit("\r\n\r\n");
    reveal_strlit("GET");
    reveal_strlit("/header");
    reveal_strlit("header");
    reveal_strlit("HTTP/1.1");
    reveal_strlit("HTTP/1.0");
    reveal_strlit("  ");
    reveal_strlit("content-length");
    reveal_strlit("/");
    reveal_strlit(".");
    reveal_strlit("..");
    let line = "GET /header HTTP/1.1"@;
    let field = "trace-id: "@ + value;
    let lv = value.len() as int;
    let text = "GET /header HTTP/1.1\r\ntrace-id: "@ + value + "\r\n\r\n"@;
    assert(text =~= line + "\r\n"@ + field + "\r\n\r\n"@);
    assert(line_text(line)) by {
        assert forall|i: int| 0 <= i < line.len() implies (#[trigger] line[i]) as u32 <= 0x7F && line[i]
            != '\r' by {}
    }
    assert(line_text(field)) by {
        assert forall|i: int| 0 <= i < field.len() implies (#[trigger] field[i]) as u32 <= 0x7F
            && field[i] != '\r' by {
            if i >= 10 {
                assert(field[i] == value[i - 10]);
                assert(is_alnum(value[i - 10]) || value[i - 10] == '-');
            }
        }
    }
    lemma_two_line_request(line, field);
    let h = line + "\r\n"@ + field;
    vstd::utf8::encode_utf8_valid_utf8(h);
    vstd::utf8::encode_utf8_decode_utf8(h);
    let lines = split_pat(decode_utf8(encode_utf8(h)), "\r\n"@);
    assert(lines == seq![line, field]);
    assert(lines[0] == line);
    assert(trim(line) == line);
    // the request line
    let target = "/header"@;
    lemma_header_request_line();
    // the header line
    crate::text::lemma_first_index(field, ':', 8);
    let name = "trace-id"@;
    let rest = seq![' '] + value;
    assert(field.take(8) =~= name);
    assert(field.skip(9) =~= rest);
    assert(split_once(field, ':') == Some((name, rest)));
    assert(trim(name) == name);
    assert(rest.drop_first() =~= value);
    assert(is_alnum(value[0]) || value[0] == '-');
    assert(is_alnum(value.last()) || value.last() == '-') by {
        assert(value.last() == value[lv - 1]);
    }
    assert(trim(value) == value);
    assert(trim(rest) == value);
    assert(crate::http::valid_header_name(name));
    assert(crate::http::valid_header_value(value)) by {
        assert forall|i: int| 0 <= i < value.len() implies crate::http::is_value_char(#[trigger] value[i]) by {
            assert(is_alnum(value[i]) || value[i] == '-');
        }
    }
    assert(ascii_lower(name) =~= name);
    let fields = seq![field];
    assert(fields.drop_first() =~= Seq::<Seq<char>>::empty());
    let acc = Seq::<(Seq<char>, Seq<char>)>::empty().push((ascii_lower(name), value));
    let headers = seq![(name, value)];
    assert(acc =~= headers);
    assert(header_walk(Seq::<Seq<char>>::empty(), 1, acc) == Ok::<
        Seq<(Seq<char>, Seq<char>)>,
        ParseError,
    >(acc));
    assert(header_walk(fields, 0, Seq::empty()) == header_walk(fields.drop_first(), 1, acc));
    assert(lines.drop_first() =~= fields);
    // no query, a one-segment path, no content length
    crate::text::lemma_first_index(target, '?', 7);
    assert(split_once(target, '?') is None);
    let seg = "header"@;
    assert(seg != "."@ && seg != ".."@) by {
        assert(seg.len() != "."@.len());
        assert(seg.len() != ".."@.len());
    }
    assert(crate::text::lacks(seg, '/') && crate::text::lacks(seg, '\0') && crate::text::lacks(
        seg,
        '\\',
    ));
    lemma_single_segment_path(seg);
    assert("/"@ + seg =~= target);
    assert(headers[0].0 != "content-length"@) by {
        assert(headers[0].0.len() != "content-length"@.len());
    }
    assert(headers.drop_first() =~= Seq::<(Seq<char>, Seq<char>)>::empty());
    assert(first_field(Seq::<(Seq<char>, Seq<char>)>::empty(), "content-length"@) is None);
    assert(first_field(headers, "content-length"@) == first_field(
        headers.drop_first(),
        "content-length"@,
    ));
    // what the extractor reads
    assert(headers.drop_last() =~= Seq::<(Seq<char>, Seq<char>)>::empty());
    assert(headers.last() == (name, value));
    assert(crate::di::all_fields(Seq::<(Seq<char>, Seq<char>)>::empty(), name) =~= Seq::<Seq<char>>::empty());
    assert(crate::di::all_fields(headers, name) == crate::di::all_fields(headers.drop_last(), name).push(
        value,
    ));
    assert(crate::di::all_fields(headers, name) =~= seq![value]);
    assert(visible_header_value(value)) by {
        assert forall|i: int| 0 <= i < value.len() implies crate::http::is_visible_char(#[trigger] value[i]) by {
            assert(is_alnum(value[i]) || value[i] == '-');
        }
    }
    assert(!(exists|i: int| 0 <= i < seq![value].len() && !visible_header_value(#[trigger] seq![value][i])));
}

fn hex_byte_exec(b: u8) -> (r: Option<u8>)
    ensures
        r == hex_byte(b),
{
    if 48 <= b && b <= 57 {
        Some(b - 48)
    } else if 97 <= b && b <= 102 {
        Some(b - 97 + 10)
    } else if 65 <= b && b <= 70 {
        Some(b - 65 + 10)
    } else {
        None
    }
}

/// Prefixes a decoding outcome with already-decoded bytes.
pub open spec fn after(acc: Seq<u8>, o: Option<Seq<u8>>) -> Option<Seq<u8>> {
    match o {
        Some(r) => Some(acc + r),
        None => None,
    }
}

fn pct_decode_exec(b: &[u8]) -> (r: Option<Vec<u8>>)
    ensures
        match pct_decode(b@) {
            Some(d) => r matches Some(v) && v@ == d,
            None => r is None,
        },
{
    let mut out: Vec<u8> = Vec::new();
    let mut i: usize = 0;
    assert(b@.skip(0) =~= b@);
    assert(after(Seq::empty(), pct_decode(b@)) =~= pct_decode(b@)) by {
        match pct_decode(b@) {
            Some(r) => assert(Seq::<u8>::empty() + r =~= r),
            None => {},
        }
    }
    while i < b.len()
        invariant
            i <= b.len(),
            pct_decode(b@) == after(out@, pct_decode(b@.skip(i as int))),
        decreases b.len() - i,
    {
        let ghost rest = b@.skip(i as int);
        let c = b[i];
        if c == 37 {
            if b.len() - i <= 2 {
                return None;
            }
            let h = hex_byte_exec(b[i + 1]);
            let l = hex_byte_exec(b[i + 2]);
            match (h, l) {
                (Some(h), Some(l)) => {
                    let byte = h * 16 + l;
                    proof {
                        assert(rest.skip(3) =~= b@.skip(i + 3));
                        assert((h * 16 + l) as u8 == byte);
                        match pct_decode(rest.skip(3)) {
                            Some(r) => {
                                assert(out@ + (seq![byte] + r) =~= out@.push(byte) + r);
                            },
                            None => {},
                        }
                    }
                    out.push(byte);
                    i += 3;
                },
                _ => {
                    return None;
                },
            }
        } else {
            let byte = if c == 43 {
                32u8
            } else {
                c
            };
            proof {
                assert(rest.drop_first() =~= b@.skip(i + 1));
                match pct_decode(rest.drop_first()) {
                    Some(r) => {
                        assert(out@ + (seq![byte] + r) =~= out@.push(byte) + r);
                    },
                    None => {},
                }
            }
            out.push(byte);
            i += 1;
        }
    }
    assert(b@.skip(i as int) =~= Seq::<u8>::empty());
    assert(out@ + Seq::<u8>::empty() =~= out@);
    Some(out)
}

/// A query component decoded to text, with its byte length.
fn decode_component_exec(s: &[char]) -> (r: Option<(Vec<char>, usize)>)
    ensures
        match decode_component(s@) {
            Some(d) => r matches Some((t, n)) && t@ == decode_utf8(d) && n == d.len(),
            None => r is None,
        },
{
    let bytes = utf8_bytes(s);
    match pct_decode_exec(bytes.as_slice()) {
        None => None,
        Some(d) => {
            let n = d.len();
            let ghost dv = d@;
            match utf8_decode(d) {
                Some(t) => {
                    let c = chars_of(t.as_str());
                    Some((c, n))
                },
                None => None,
            }
        },
    }
}

fn find_param(m: &Vec<(String, Vec<String>)>, k: &[char]) -> (r: Option<usize>)
    ensures
        match r {
            Some(i) => param_index(query_pairs(m@), k@) == Some(i as int) && i < m@.len()
                && query_pairs(m@)[i as int].0 == k@,
            None => param_index(query_pairs(m@), k@) is None,
        },
{
    let ghost q = query_pairs(m@);
    let mut i: usize = 0;
    while i < m.len()
        invariant
            i <= m.len(),
            q == query_pairs(m@),
            forall|j: int| 0 <= j < i ==> q[j].0 != k@,
        decreases m.len() - i,
    {
        let name = chars_of(m[i].0.as_str());
        if chars_eq(name.as_slice(), k) {
            proof {
                lemma_param_index_first(q, k@, i as int);
            }
            return Some(i);
        }
        i += 1;
    }
    proof {
        lemma_param_index_first(q, k@, m@.len() as int);
    }
    None
}

/// Where no earlier parameter has key `k` and the one at `i` has it (or `i`
/// is the end), the position of `k` is `i` (or none).
pub proof fn lemma_param_index_first(m: Seq<(Seq<char>, Seq<Seq<char>>)>, k: Seq<char>, i: int)
    requires
        0 <= i <= m.len(),
        forall|j: int| 0 <= j < i ==> m[j].0 != k,
        i < m.len() ==> m[i].0 == k,
    ensures
        i < m.len() ==> param_index(m, k) == Some(i),
        i == m.len() ==> param_index(m, k) is None,
    decreases m.len(),
{
    if m.len() > 0 {
        if i < m.len() - 1 {
            lemma_param_index_first(m.drop_last(), k, i);
        } else if i == m.len() - 1 {
            lemma_param_index_first(m.drop_last(), k, i);
        } else {
            lemma_param_index_first(m.drop_last(), k, i - 1);
        }
    }
}

fn add_param_exec(m: &mut Vec<(String, Vec<String>)>, k: Vec<char>, v: Vec<char>)
    ensures
        query_pairs(final(m)@) == add_param(query_pairs(old(m)@), k@, v@),
{
    let ghost q = query_pairs(m@);
    match find_param(m, k.as_slice()) {
        Some(i) => {
            let ghost old_m = m@;
            let mut entry = m.remove(i);
            entry.1.push(string_of(v.as_slice()));
            let ghost e = entry;
            m.insert(i, entry);
            proof {
                assert(m@ =~= old_m.update(i as int, e));
                assert(e.1@.map_values(|s: String| s@) =~= q[i as int].1.push(v@));
                assert(query_pairs(m@) =~= q.update(i as int, (k@, q[i as int].1.push(v@))));
                assert(param_index(q, k@) == Some(i as int));
                assert(add_param(q, k@, v@) == q.update(i as int, (k@, q[i as int].1.push(v@))));
            }
        },
        None => {
            let name = string_of(k.as_slice());
            let mut vals: Vec<String> = Vec::new();
            vals.push(string_of(v.as_slice()));
            let ghost vs = vals;
            m.push((name, vals));
            proof {
                assert(vs@.map_values(|s: String| s@) =~= seq![v@]);
                assert(query_pairs(m@) =~= q.push((k@, seq![v@])));
                assert(add_param(q, k@, v@) == q.push((k@, seq![v@])));
            }
        },
    }
}

/// Parses a query string into its parameters.
pub fn parse_query(q: &[char]) -> (r: Result<Vec<(String, Vec<String>)>, ParseError>)
    ensures
        match spec_parse_query(q@) {
            Ok(m) => r matches Ok(v) && query_pairs(v@) == m,
            Err(e) => r == Err::<Vec<(String, Vec<String>)>, ParseError>(e),
        },
{
    let pairs = split_chars(q, '&');
    let ghost ps = split(q@, '&');
    let mut m: Vec<(String, Vec<String>)> = Vec::new();
    let mut count: usize = 0;
    let mut i: usize = 0;
    assert(ps.skip(0) =~= ps);
    assert(query_pairs(m@) =~= Seq::<(Seq<char>, Seq<Seq<char>>)>::empty());
    while i < pairs.len()
        invariant
            i <= pairs.len(),
            ps == split(q@, '&'),
            pairs@.len() == ps.len(),
            forall|k: int| 0 <= k < pairs@.len() ==> #[trigger] pairs@[k]@ == ps[k],
            count <= 128,
            spec_parse_query(q@) == query_walk(ps.skip(i as int), count as nat, query_pairs(m@)),
        decreases pairs.len() - i,
    {
        let pair = pairs[i].as_slice();
        assert(ps.skip(i as int)[0] == pair@);
        assert(ps.skip(i as int).drop_first() =~= ps.skip(i + 1));
        if pair.len() == 0 {
            i += 1;
            continue;
        }
        if count + 1 > 128 {
            return Err(ParseError::TooManyQueryParams);
        }
        let (rk, rv) = match split_once_chars(pair, '=') {
            Some((a, b)) => (a, b),
            None => (sub_chars(pair, 0, pair.len()), Vec::new()),
        };
        assert(rk@ == (match split_once(pair@, '=') {
            Some((a, b)) => a,
            None => pair@,
        })) by {
            if split_once(pair@, '=') is None {
                assert(rk@ =~= pair@);
            }
        }
        assert(rv@ == (match split_once(pair@, '=') {
            Some((a, b)) => b,
            None => Seq::<char>::empty(),
        })) by {
            if split_once(pair@, '=') is None {
                assert(rv@ =~= Seq::<char>::empty());
            }
        }
        let key = match decode_component_exec(rk.as_slice()) {
            None => {
                return Err(ParseError::InvalidPercentEncoding);
            },
            Some(x) => x,
        };
        let value = match decode_component_exec(rv.as_slice()) {
            None => {
                return Err(ParseError::InvalidPercentEncoding);
            },
            Some(x) => x,
        };
        if key.1 > 8192 || value.1 > 8192 {
            return Err(ParseError::QueryValueTooLong);
        }
        add_param_exec(&mut m, key.0, value.0);
        count += 1;
        i += 1;
    }
    assert(ps.skip(i as int) =~= Seq::<Seq<char>>::empty());
    Ok(m)
}

// ---------------------------------------------------------------------------
// Whole requests
// ---------------------------------------------------------------------------
/// The first value stored under header name `name`.
pub open spec fn first_field(h: Seq<(Seq<char>, Seq<char>)>, name: Seq<char>) -> Option<Seq<char>>
    decreases h.len(),
{
    if h.len() == 0 {
        None
    } else if h[0].0 == name {
        Some(h[0].1)
    } else {
        first_field(h.drop_first(), name)
    }
}

/// The path refusal as a parse error.
pub open spec fn path_parse_error(j: PathRejection) -> ParseError {
    match j {
        PathRejection::Shape => ParseError::InvalidPath,
        PathRejection::Fault(_) => ParseError::PathTraversal,
    }
}

/// The request that raw bytes denote, or why they are refused. The checks
/// run in this order: head encoding, request line, version, header lines,
/// query string, path, `Content-Length`.
pub open spec fn spec_from_bytes(bytes: Seq<u8>) -> Result<RequestModel, ParseError> {
    let (head, body) = split_head_body(bytes);
    if !valid_utf8(head) {
        Err(ParseError::InvalidUtf8)
    } else {
        let lines = split_pat(decode_utf8(head), "\r\n"@);
        if trim(lines[0]).len() == 0 {
            Err(ParseError::MissingRequestLine)
        } else {
            match spec_request_line(lines[0]) {
                Err(e) => Err(e),
                Ok((method, target, version)) => if !(version == "HTTP/1.0"@ || version
                    == "HTTP/1.1"@) {
                    Err(ParseError::InvalidHttpVersion)
                } else {
                    match header_walk(lines.drop_first(), 0, Seq::empty()) {
                        Err(e) => Err(e),
                        Ok(headers) => {
                            let (raw, query) = match split_once(target, '?') {
                                Some((a, b)) => (a, spec_parse_query(b)),
                                None => (target, Ok(Seq::empty())),
                            };
                            match query {
                                Err(e) => Err(e),
                                Ok(query) => match spec_normalize(raw, false) {
                                    Err(j) => Err(path_parse_error(j)),
                                    Ok(path) => {
                                        let cl = match first_field(headers, "content-length"@) {
                                            Some(v) => if visible_header_value(v) {
                                                Some(v)
                                            } else {
                                                None
                                            },
                                            None => None,
                                        };
                                        match cl {
                                            None => Ok(
                                                RequestModel {
                                                    method,
                                                    path,
                                                    version,
                                                    headers,
                                                    body,
                                                    query,
                                                    remote_addr: None,
                                                },
                                            ),
                                            Some(v) => match parse_unsigned(
                                                v,
                                                usize::MAX as nat,
                                            ) {
                                                None => Err(ParseError::InvalidContentLength),
                                                Some(n) => if body.len() < n {
                                                    Err(
                                                        ParseError::BodyTooShort {
                                                            expected: n as usize,
                                                            actual: body.len() as usize,
                                                        },
                                                    )
                                                } else {
                                                    Ok(
                                                        RequestModel {
                                                            method,
                                                            path,
                                                            version,
                                                            headers,
                                                            body: body.take(n as int),
                                                            query,
                                                            remote_addr: None,
                                                        },
                                                    )
                                                },
                                            },
                                        }
                                    },
                                },
                            }
                        },
                    }
                },
            }
        }
    }
}

fn header_lines(lines: &Vec<Vec<char>>) -> (r: Result<Vec<(String, String)>, ParseError>)
    requires
        lines@.len() >= 1,
    ensures
        match header_walk(lines@.map_values(|l: Vec<char>| l@).drop_first(), 0, Seq::empty()) {
            Ok(h) => r matches Ok(v) && crate::http::header_pairs(v@) == h,
            Err(e) => r == Err::<Vec<(String, String)>, ParseError>(e),
        },
{
    let ghost all = lines@.map_values(|l: Vec<char>| l@).drop_first();
    let mut out: Vec<(String, String)> = Vec::new();
    let mut count: usize = 0;
    let mut i: usize = 1;
    assert(all.skip(0) =~= all);
    assert(crate::http::header_pairs(out@) =~= Seq::<(Seq<char>, Seq<char>)>::empty());
    while i < lines.len()
        invariant
            1 <= i <= lines.len(),
            all == lines@.map_values(|l: Vec<char>| l@).drop_first(),
            count <= 100,
            header_walk(all, 0, Seq::empty()) == header_walk(
                all.skip(i - 1),
                count as nat,
                crate::http::header_pairs(out@),
            ),
        decreases lines.len() - i,
    {
        let line = lines[i].as_slice();
        assert(all.skip(i - 1)[0] == line@);
        assert(all.skip(i - 1).drop_first() =~= all.skip(i as int));
        if line.len() == 0 {
            i += 1;
            continue;
        }
        if count + 1 > 100 {
            return Err(ParseError::TooManyHeaders);
        }
        match split_once_chars(line, ':') {
            None => {
                return Err(ParseError::InvalidHeaderLine);
            },
            Some((k, v)) => {
                let key = trim_chars(k.as_slice());
                let value = trim_chars(v.as_slice());
                if key.len() == 0 || !header_name_ok(key.as_slice()) || !header_value_ok(
                    value.as_slice(),
                ) {
                    return Err(ParseError::InvalidHeaderLine);
                }
                let lk = ascii_lower_chars(key.as_slice());
                let ghost before = crate::http::header_pairs(out@);
                out.push((string_of(lk.as_slice()), string_of(value.as_slice())));
                assert(crate::http::header_pairs(out@) =~= before.push((lk@, value@)));
            },
        }
        count += 1;
        i += 1;
    }
    assert(all.skip(i - 1) =~= Seq::<Seq<char>>::empty());
    Ok(out)
}

impl Request {
    /// Parses raw HTTP/1.0 or HTTP/1.1 request bytes.
    pub fn from_bytes(bytes: &[u8]) -> (r: Result<Request, ParseError>)
        ensures
            match spec_from_bytes(bytes@) {
                Ok(m) => r matches Ok(req) && req@ == m,
                Err(e) => r matches Err(x) && x == e,
            },
    {
        let found = find_blank_line_exec(bytes);
        let (head, body) = match found {
            Some(i) => {
                let n = bytes.len();
                assert(i + 4 <= n);
                (copy_bytes(bytes, 0, i), copy_bytes(bytes, i + 4, n))
            },
            None => (copy_bytes(bytes, 0, bytes.len()), Vec::new()),
        };
        assert(head@ == split_head_body(bytes@).0 && body@ == split_head_body(bytes@).1) by {
            match find_blank_line(bytes@, 0) {
                Some(i) => {
                    assert(head@ =~= bytes@.take(i));
                    assert(body@ =~= bytes@.skip(i + 4));
                },
                None => {
                    assert(head@ =~= bytes@);
                    assert(body@ =~= Seq::<u8>::empty());
                },
            }
        }
        let text = match utf8_decode(head) {
            Some(t) => t,
            None => {
                return Err(ParseError::InvalidUtf8);
            },
        };
        let text = chars_of(text.as_str());
        let crlf = chars_of("\r\n");
        proof {
            reveal_strlit("\r\n");
        }
        let lines = split_pat_chars(text.as_slice(), crlf.as_slice());
        proof {
            crate::text::lemma_split_pat_nonempty(text@, "\r\n"@);
        }
        let first = trim_chars(lines[0].as_slice());
        if first.len() == 0 {
            return Err(ParseError::MissingRequestLine);
        }
        let (method, target, version) = match request_line(lines[0].as_slice()) {
            Ok(x) => x,
            Err(e) => {
                return Err(e);
            },
        };
        let v10 = chars_of("HTTP/1.0");
        let v11 = chars_of("HTTP/1.1");
        if !(chars_eq(version.as_slice(), v10.as_slice()) || chars_eq(
            version.as_slice(),
            v11.as_slice(),
        )) {
            return Err(ParseError::InvalidHttpVersion);
        }
        assert(lines@.map_values(|l: Vec<char>| l@) =~= split_pat(text@, "\r\n"@));
        let headers = match header_lines(&lines) {
            Ok(h) => h,
            Err(e) => {
                return Err(e);
            },
        };
        let (raw, query) = match split_once_chars(target.as_slice(), '?') {
            Some((a, b)) => {
                match parse_query(b.as_slice()) {
                    Ok(q) => (a, q),
                    Err(e) => {
                        return Err(e);
                    },
                }
            },
            None => {
                let q: Vec<(String, Vec<String>)> = Vec::new();
                assert(query_pairs(q@) =~= Seq::<(Seq<char>, Seq<Seq<char>>)>::empty());
                (target, q)
            },
        };
        let path = match normalize_chars(raw.as_slice(), false) {
            Ok(p) => p,
            Err(j) => {
                proof {
                    match j.view() {
                        PathRejection::Shape => {},
                        PathRejection::Fault(_) => {},
                    }
                }
                return match j {
                    crate::path::FaultReport::Shape => Err(ParseError::InvalidPath),
                    _ => Err(ParseError::PathTraversal),
                };
            },
        };
        let cl = chars_of("content-length");
        let content_length = first_value(&headers, cl.as_slice());
        let visible = match &content_length {
            Some(v) => header_value_visible(v.as_slice()),
            None => false,
        };
        let body = if visible {
            let v = match content_length {
                Some(v) => v,
                None => Vec::new(),
            };
            match parse_unsigned_chars(v.as_slice(), usize::MAX as u64) {
                None => {
                    return Err(ParseError::InvalidContentLength);
                },
                Some(n) => {
                    let n = n as usize;
                    if body.len() < n {
                        return Err(ParseError::BodyTooShort { expected: n, actual: body.len() });
                    }
                    copy_bytes(body.as_slice(), 0, n)
                },
            }
        } else {
            body
        };
        Ok(
            Request {
                method,
                path: string_of(path.as_slice()),
                version: string_of(version.as_slice()),
                headers,
                body,
                query_params: query,
                remote_addr: None,
            },
        )
    }
}

/// The value of the first header named `name`.
pub fn first_value(h: &Vec<(String, String)>, name: &[char]) -> (r: Option<Vec<char>>)
    ensures
        match first_field(crate::http::header_pairs(h@), name@) {
            Some(v) => r matches Some(x) && x@ == v,
            None => r is None,
        },
{
    let ghost hs = crate::http::header_pairs(h@);
    let mut i: usize = 0;
    assert(hs.skip(0) =~= hs);
    while i < h.len()
        invariant
            i <= h.len(),
            hs == crate::http::header_pairs(h@),
            first_field(hs, name@) == first_field(hs.skip(i as int), name@),
        decreases h.len() - i,
    {
        assert(hs.skip(i as int).drop_first() =~= hs.skip(i + 1));
        let k = chars_of(h[i].0.as_str());
        if chars_eq(k.as_slice(), name) {
            return Some(chars_of(h[i].1.as_str()));
        }
        i += 1;
    }
    None
}


// ---------------------------------------------------------------------------
// Accessors
// ---------------------------------------------------------------------------
/// Every value stored under header name `name` that is visible ASCII, in
/// arrival order.
pub open spec fn visible_fields(h: Seq<(Seq<char>, Seq<char>)>, name: Seq<char>) -> Seq<Seq<char>>
    decreases h.len(),
{
    if h.len() == 0 {
        Seq::empty()
    } else {
        let rest = visible_fields(h.drop_last(), name);
        if h.last().0 == name && visible_header_value(h.last().1) {
            rest.push(h.last().1)
        } else {
            rest
        }
    }
}

/// The first value under a header name (looked up case-insensitively),
/// when the name is a valid header name and that value is visible ASCII.
pub open spec fn spec_header(h: Seq<(Seq<char>, Seq<char>)>, key: Seq<char>) -> Option<Seq<char>> {
    if !valid_header_name(key) {
        None
    } else {
        match first_field(h, ascii_lower(key)) {
            Some(v) => if visible_header_value(v) {
                Some(v)
            } else {
                None
            },
            None => None,
        }
    }
}

/// All visible values under a header name (looked up case-insensitively).
pub open spec fn spec_header_values(h: Seq<(Seq<char>, Seq<char>)>, key: Seq<char>) -> Seq<Seq<char>> {
    if !valid_header_name(key) {
        Seq::empty()
    } else {
        visible_fields(h, ascii_lower(key))
    }
}

/// The comma-separated items of a list of header values, in order.
pub open spec fn list_items(vals: Seq<Seq<char>>) -> Seq<Seq<char>>
    decreases vals.len(),
{
    if vals.len() == 0 {
        Seq::empty()
    } else {
        list_items(vals.drop_last()) + split(vals.last(), ',')
    }
}

/// The items that parse as IP addresses once trimmed, in order.
pub open spec fn parsed_ips(items: Seq<Seq<char>>) -> Seq<IpAddress>
    decreases items.len(),
{
    if items.len() == 0 {
        Seq::empty()
    } else {
        let rest = parsed_ips(items.drop_last());
        match spec_parse_ip(trim(items.last())) {
            Some(ip) => rest.push(ip),
            None => rest,
        }
    }
}

/// The last address of `ips` that is not trusted.
pub open spec fn rightmost_untrusted(ips: Seq<IpAddress>, trusted: Seq<IpAddress>) -> Option<IpAddress>
    decreases ips.len(),
{
    if ips.len() == 0 {
        None
    } else if !trusted.contains(ips.last()) {
        Some(ips.last())
    } else {
        rightmost_untrusted(ips.drop_last(), trusted)
    }
}

/// The client address of a request: the peer itself unless it is a trusted
/// proxy; behind a trusted proxy, the rightmost `X-Forwarded-For` entry that
/// is not trusted, or the peer when every entry is.
pub open spec fn spec_client_ip(r: RequestModel, trusted: Seq<IpAddress>) -> Option<IpAddress> {
    match r.remote_addr {
        None => None,
        Some(a) => if !trusted.contains(a.ip) {
            Some(a.ip)
        } else {
            match rightmost_untrusted(
                parsed_ips(list_items(spec_header_values(r.headers, "x-forwarded-for"@))),
                trusted,
            ) {
                Some(ip) => Some(ip),
                None => Some(a.ip),
            }
        },
    }
}

/// The rightmost untrusted address is listed, untrusted, and followed only
/// by trusted ones; with none, every listed address is trusted.
proof fn lemma_rightmost_untrusted(ips: Seq<IpAddress>, trusted: Seq<IpAddress>)
    ensures
        rightmost_untrusted(ips, trusted) matches Some(ip) ==> exists|i: int|
            0 <= i < ips.len() && ips[i] == ip && !trusted.contains(ip) && forall|j: int|
                i < j < ips.len() ==> trusted.contains(#[trigger] ips[j]),
        rightmost_untrusted(ips, trusted) is None ==> forall|j: int|
            0 <= j < ips.len() ==> trusted.contains(#[trigger] ips[j]),
    decreases ips.len(),
{
    if ips.len() > 0 {
        let front = ips.drop_last();
        lemma_rightmost_untrusted(front, trusted);
        if !trusted.contains(ips.last()) {
            let i = ips.len() - 1;
            assert(ips[i] == ips.last());
        } else {
            match rightmost_untrusted(front, trusted) {
                Some(ip) => {
                    let i = choose|i: int|
                        0 <= i < front.len() && front[i] == ip && !trusted.contains(ip) && forall|j: int|
                            i < j < front.len() ==> trusted.contains(#[trigger] front[j]);
                    assert(ips[i] == ip);
                    assert forall|j: int| i < j < ips.len() implies trusted.contains(#[trigger] ips[j]) by {
                        if j < ips.len() - 1 {
                            assert(ips[j] == front[j]);
                        }
                    }
                },
                None => {
                    assert forall|j: int| 0 <= j < ips.len() implies trusted.contains(#[trigger] ips[j]) by {
                        if j < ips.len() - 1 {
                            assert(ips[j] == front[j]);
                        }
                    }
                },
            }
        }
    }
}

/// The client address cannot be forged: a peer that is not a trusted
/// proxy is the client; behind a trusted proxy the client is the peer or
/// an untrusted address of `X-Forwarded-For` that only trusted addresses
/// follow.
pub proof fn law_client_ip_not_spoofable(r: RequestModel, trusted: Seq<IpAddress>)
    ensures
        match r.remote_addr {
            Some(a) => !trusted.contains(a.ip) ==> spec_client_ip(r, trusted) == Some(a.ip),
            None => spec_client_ip(r, trusted) is None,
        },
        spec_client_ip(r, trusted) matches Some(ip) ==> r.remote_addr matches Some(a) && (ip == a.ip
            || ({
            let fwd = parsed_ips(list_items(spec_header_values(r.headers, "x-forwarded-for"@)));
            &&& trusted.contains(a.ip)
            &&& !trusted.contains(ip)
            &&& exists|i: int|
                0 <= i < fwd.len() && fwd[i] == ip && forall|j: int|
                    i < j < fwd.len() ==> trusted.contains(#[trigger] fwd[j])
        })),
{
    let fwd = parsed_ips(list_items(spec_header_values(r.headers, "x-forwarded-for"@)));
    lemma_rightmost_untrusted(fwd, trusted);
}

fn visible_values(h: &Vec<(String, String)>, name: &[char]) -> (r: Vec<Vec<char>>)
    ensures
        r@.len() == visible_fields(crate::http::header_pairs(h@), name@).len(),
        forall|k: int|
            0 <= k < r@.len() ==> #[trigger] r@[k]@ == visible_fields(
                crate::http::header_pairs(h@),
                name@,
            )[k],
{
    let ghost hs = crate::http::header_pairs(h@);
    let mut out: Vec<Vec<char>> = Vec::new();
    let mut i: usize = 0;
    while i < h.len()
        invariant
            i <= h.len(),
            hs == crate::http::header_pairs(h@),
            out@.len() == visible_fields(hs.take(i as int), name@).len(),
            forall|k: int|
                0 <= k < out@.len() ==> #[trigger] out@[k]@ == visible_fields(
                    hs.take(i as int),
                    name@,
                )[k],
        decreases h.len() - i,
    {
        assert(hs.take(i + 1).drop_last() =~= hs.take(i as int));
        let k = chars_of(h[i].0.as_str());
        let v = chars_of(h[i].1.as_str());
        if chars_eq(k.as_slice(), name) && header_value_visible(v.as_slice()) {
            out.push(v);
        }
        i += 1;
    }
    assert(hs.take(h.len() as int) =~= hs);
    out
}

fn header_key_chars(key: &str) -> (r: Option<Vec<char>>)
    ensures
        match r {
            Some(k) => valid_header_name(key@) && k@ == ascii_lower(key@),
            None => !valid_header_name(key@),
        },
{
    let k = chars_of(key);
    if header_name_ok(k.as_slice()) {
        Some(ascii_lower_chars(k.as_slice()))
    } else {
        None
    }
}

/// Decodes UTF-8 the way `String::from_utf8_lossy` does: valid input is
/// decoded as is, and each invalid sequence becomes U+FFFD.
pub uninterp spec fn lossy_text(bytes: Seq<u8>) -> Seq<char>;

/// `String::from_utf8_lossy`: its text is `lossy_text` of the bytes, which
/// is the plain decoding where the bytes are valid UTF-8. Which characters
/// replace invalid sequences is left to the name.
#[verifier::external_body]
pub(crate) fn utf8_lossy(bytes: &[u8]) -> (r: String)
    ensures
        r@ == lossy_text(bytes@),
        valid_utf8(bytes@) ==> r@ == decode_utf8(bytes@),
{
    String::from_utf8_lossy(bytes).into_owned()
}

impl Request {
    /// The first value of a header (case-insensitive name), when it is
    /// visible ASCII.
    pub fn header(&self, key: &str) -> (r: Option<String>)
        ensures
            match spec_header(self@.headers, key@) {
                Some(v) => r matches Some(s) && s@ == v,
                None => r is None,
            },
    {
        match header_key_chars(key) {
            None => None,
            Some(k) => match first_value(&self.headers, k.as_slice()) {
                Some(v) => if header_value_visible(v.as_slice()) {
                    Some(string_of(v.as_slice()))
                } else {
                    None
                },
                None => None,
            },
        }
    }

    /// Every visible value of a header (case-insensitive name), in arrival
    /// order.
    pub fn header_values(&self, key: &str) -> (r: Vec<String>)
        ensures
            r@.map_values(|s: String| s@) == spec_header_values(self@.headers, key@),
    {
        let mut out: Vec<String> = Vec::new();
        match header_key_chars(key) {
            None => {
                assert(out@.map_values(|s: String| s@) =~= Seq::<Seq<char>>::empty());
            },
            Some(k) => {
                let vals = visible_values(&self.headers, k.as_slice());
                let ghost want = visible_fields(self@.headers, k@);
                let mut i: usize = 0;
                while i < vals.len()
                    invariant
                        i <= vals.len(),
                        vals@.len() == want.len(),
                        forall|j: int| 0 <= j < vals@.len() ==> #[trigger] vals@[j]@ == want[j],
                        out@.map_values(|s: String| s@) == want.take(i as int),
                    decreases vals.len() - i,
                {
                    let ghost pre = out@;
                    out.push(string_of(vals[i].as_slice()));
                    assert(out@.map_values(|s: String| s@) =~= pre.map_values(|s: String| s@).push(
                        vals@[i as int]@,
                    ));
                    assert(out@.map_values(|s: String| s@) =~= want.take(i + 1));
                    i += 1;
                }
                assert(want.take(vals.len() as int) =~= want);
            },
        }
        out
    }

    /// The body as text, when it is valid UTF-8.
    pub fn body_str(&self) -> (r: Option<String>)
        ensures
            r is Some <==> valid_utf8(self@.body),
            r matches Some(s) ==> s@ == decode_utf8(self@.body),
    {
        let b = copy_bytes(self.body.as_slice(), 0, self.body.len());
        assert(b@ =~= self@.body);
        utf8_decode(b)
    }

    /// The body as text, with invalid UTF-8 sequences replaced.
    pub fn body_as_string(&self) -> (r: String)
        ensures
            r@ == lossy_text(self@.body),
            valid_utf8(self@.body) ==> r@ == decode_utf8(self@.body),
    {
        utf8_lossy(self.body.as_slice())
    }

    /// The address of the client, looking through trusted proxies at the
    /// `X-Forwarded-For` header.
    #[verifier::spinoff_prover]
    #[verifier::rlimit(40)]
    pub fn client_ip(&self, trusted_proxies: &[IpAddress]) -> (r: Option<IpAddress>)
        ensures
            r == spec_client_ip(self@, trusted_proxies@),
    {
        let remote = match self.remote_addr {
            None => {
                return None;
            },
            Some(a) => a,
        };
        if !contains_ip(trusted_proxies, remote.ip) {
            return Some(remote.ip);
        }
        let values = self.header_values("x-forwarded-for");
        let ghost vals = spec_header_values(self@.headers, "x-forwarded-for"@);
        // every comma-separated item, in order
        let mut items: Vec<Vec<char>> = Vec::new();
        let mut i: usize = 0;
        while i < values.len()
            invariant
                i <= values.len(),
                values@.map_values(|s: String| s@) == vals,
                items@.len() == list_items(vals.take(i as int)).len(),
                forall|k: int|
                    0 <= k < items@.len() ==> #[trigger] items@[k]@ == list_items(
                        vals.take(i as int),
                    )[k],
            decreases values.len() - i,
        {
            let v = chars_of(values[i].as_str());
            assert(vals.take(i + 1).drop_last() =~= vals.take(i as int));
            assert(vals.take(i + 1).last() == v@);
            let parts = split_chars(v.as_slice(), ',');
            let ghost before = items@;
            let mut j: usize = 0;
            while j < parts.len()
                invariant
                    j <= parts.len(),
                    parts@.len() == split(v@, ',').len(),
                    forall|k: int| 0 <= k < parts@.len() ==> #[trigger] parts@[k]@ == split(v@, ',')[k],
                    items@.len() == before.len() + j,
                    forall|k: int| 0 <= k < before.len() ==> #[trigger] items@[k] == before[k],
                    forall|k: int| 0 <= k < j ==> #[trigger] items@[before.len() + k]@ == parts@[k]@,
                decreases parts.len() - j,
            {
                items.push(sub_chars(parts[j].as_slice(), 0, parts[j].len()));
                j += 1;
            }
            proof {
                let want = list_items(vals.take(i + 1));
                assert(want =~= list_items(vals.take(i as int)) + split(v@, ','));
                assert forall|k: int| 0 <= k < items@.len() implies #[trigger] items@[k]@ == want[k] by {
                    if k >= before.len() {
                        assert(items@[before.len() + (k - before.len())]@ == parts@[k - before.len()]@);
                    }
                }
            }
            i += 1;
        }
        assert(vals.take(values.len() as int) =~= vals);
        let ghost all = list_items(vals);
        // the items that parse as addresses
        let mut ips: Vec<IpAddress> = Vec::new();
        let mut j: usize = 0;
        while j < items.len()
            invariant
                j <= items.len(),
                items@.len() == all.len(),
                forall|k: int| 0 <= k < items@.len() ==> #[trigger] items@[k]@ == all[k],
                ips@ == parsed_ips(all.take(j as int)),
            decreases items.len() - j,
        {
            assert(all.take(j + 1).drop_last() =~= all.take(j as int));
            let t = trim_chars(items[j].as_slice());
            match parse_ip_chars(t.as_slice()) {
                Some(ip) => {
                    ips.push(ip);
                },
                None => {},
            }
            j += 1;
        }
        assert(all.take(items.len() as int) =~= all);
        // the rightmost address that is not trusted
        let mut k: usize = ips.len();
        let ghost seen = ips@;
        assert(seen.take(k as int) =~= seen);
        while k > 0
            invariant
                k <= ips.len(),
                seen == ips@,
                seen == parsed_ips(list_items(spec_header_values(self@.headers, "x-forwarded-for"@))),
                self.remote_addr == Some(remote),
                trusted_proxies@.contains(remote.ip),
                rightmost_untrusted(seen, trusted_proxies@) == rightmost_untrusted(
                    seen.take(k as int),
                    trusted_proxies@,
                ),
            decreases k,
        {
            assert(seen.take(k as int).last() == ips@[k - 1]);
            assert(seen.take(k as int).drop_last() =~= seen.take(k - 1));
            if !contains_ip(trusted_proxies, ips[k - 1]) {
                return Some(ips[k - 1]);
            }
            k -= 1;
        }
        Some(remote.ip)
    }
}
impl Request {
    /// A request from parts already read by a server, with its path
    /// normalized again; a path that does not normalize is refused.
    pub fn from_normalized_parts(
        method: Method,
        path: &str,
        version: String,
        headers: Vec<(String, String)>,
        body: Vec<u8>,
        query_params: Vec<(String, Vec<String>)>,
        remote_addr: Option<SocketAddress>,
    ) -> (r: Result<Request, ParseError>)
        ensures
            match spec_normalize(path@, false) {
                Ok(p) => r matches Ok(req) && req@ == (RequestModel {
                    method: method@,
                    path: p,
                    version: version@,
                    headers: crate::http::header_pairs(headers@),
                    body: body@,
                    query: query_pairs(query_params@),
                    remote_addr,
                }),
                Err(j) => r == Err::<Request, ParseError>(path_parse_error(j)),
            },
    {
        let pc = chars_of(path);
        let p = match normalize_chars(pc.as_slice(), false) {
            Ok(p) => p,
            Err(j) => {
                proof {
                    match j.view() {
                        PathRejection::Shape => {},
                        PathRejection::Fault(_) => {},
                    }
                }
                return match j {
                    crate::path::FaultReport::Shape => Err(ParseError::InvalidPath),
                    _ => Err(ParseError::PathTraversal),
                };
            },
        };
        Ok(
            Request {
                method,
                path: string_of(p.as_slice()),
                version,
                headers,
                body,
                query_params,
                remote_addr,
            },
        )
    }
}


impl vstd::std_specs::convert::FromSpecImpl<ParseError> for FrameworkError {
    open spec fn obeys_from_spec() -> bool {
        false
    }

    open spec fn from_spec(v: ParseError) -> Self {
        vstd::pervasive::arbitrary()
    }
}

impl From<ParseError> for FrameworkError {
    /// A malformed request surfaces as `400 Bad Request` with the parse
    /// error's text as its message.
    fn from(v: ParseError) -> (r: Self)
        ensures
            r matches FrameworkError::Http(h) && h.status_code == 400 && h.status_text@
                == "Bad Request"@ && h.message@ == parse_error_text(v),
    {
        let text = v.to_string();
        FrameworkError::Http(HttpError::bad_request(text.as_str()))
    }
}

} // verus!
