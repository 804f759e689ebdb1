//! What the framework writes to logs: levels, request events, and the
//! scrubbing of secrets and identifiers from headers, paths and messages.
use vstd::prelude::*;

use crate::text::{
    lemma_find_from_before, lemma_find_from_bounds, lemma_find_from_prefix, lemma_find_from_shift,
    lemma_lower_concat, lower_char, all_digits, ascii_lower, ascii_lower_chars, chars_of, contains_seq, extend_chars, extend_str,
    find_exec, find_from, is_space, join, occurs_at, space, split, split_chars, str_eq_chars,
    string_of, sub_chars,
};

verus! {

/// Coarse log level.
#[derive(Clone, Copy, Debug, PartialEq, Eq, Structural)]
pub enum LogLevel {
    Info,
    Warn,
    Error,
}

/// The label of a level.
pub open spec fn level_text(l: LogLevel) -> Seq<char> {
    match l {
        LogLevel::Info => "INFO"@,
        LogLevel::Warn => "WARN"@,
        LogLevel::Error => "ERROR"@,
    }
}

impl LogLevel {
    /// The label of the level: `INFO`, `WARN` or `ERROR`.
    pub fn as_str(self) -> (r: &'static str)
        ensures
            r@ == level_text(self),
    {
        match self {
            LogLevel::Info => "INFO",
            LogLevel::Warn => "WARN",
            LogLevel::Error => "ERROR",
        }
    }
}

/// A structured request log entry.
#[derive(Clone, Debug)]
pub struct RequestLogEvent {
    /// The request identifier, when one was assigned.
    pub request_id: Option<String>,
    /// The request method.
    pub method: String,
    /// The request path, scrubbed for logs.
    pub path: String,
    /// The response status code.
    pub status_code: u16,
    /// The time the request took, in milliseconds.
    pub duration_ms: u128,
    /// The client address, when it is known.
    pub client_ip: Option<String>,
    /// Headers with sensitive values redacted.
    pub headers: Vec<(String, String)>,
}

/// The client address of a request as it is logged.
pub open spec fn logged_client_ip(r: crate::request::RequestModel, trusted: Seq<crate::net::IpAddress>) -> Option<Seq<char>> {
    match crate::request::spec_client_ip(r, trusted) {
        Some(ip) => Some(crate::net::spec_ip_text(ip)),
        None => None,
    }
}

/// The log event of a request: its method, its path scrubbed for logs and
/// its client address (looking through the trusted proxies), with the
/// given request id, status, duration and headers.
pub fn request_log_event(
    request: &crate::request::Request,
    trusted_proxies: &[crate::net::IpAddress],
    request_id: Option<String>,
    status_code: u16,
    duration_ms: u128,
    headers: Vec<(String, String)>,
) -> (r: RequestLogEvent)
    requires
        log_path_cuttable(request@.path),
    ensures
        r.request_id == request_id,
        r.method@ == crate::http::method_text(request@.method),
        r.path@ == spec_sanitize_path(request@.path),
        r.status_code == status_code,
        r.duration_ms == duration_ms,
        crate::cli::opt_view(r.client_ip) == logged_client_ip(request@, trusted_proxies@),
        r.headers == headers,
{
    let client_ip = match request.client_ip(trusted_proxies) {
        Some(ip) => Some(crate::net::ip_to_string(ip)),
        None => None,
    };
    RequestLogEvent {
        request_id,
        method: request.method.to_string(),
        path: sanitize_path_for_logs(request.path.as_str()),
        status_code,
        duration_ms,
        client_ip,
        headers,
    }
}

/// A destination for framework logs.
pub trait LogSink {
    /// Writes a text log line; the message is scrubbed of secrets first.
    fn log_text(&self, level: LogLevel, target: &str, message: &str);

    /// Writes a structured request event.
    fn log_request(&self, target: &str, event: &RequestLogEvent);
}

// ---------------------------------------------------------------------------
// Headers
// ---------------------------------------------------------------------------
/// Whether a header's value must not reach logs: its lowercase name holds
/// `authorization`, `cookie`, `token` or `secret`, or is `x-api-key` or
/// `api-key`.
pub open spec fn spec_sensitive_header(name: Seq<char>) -> bool {
    let n = ascii_lower(name);
    contains_seq(n, "authorization"@) || contains_seq(n, "cookie"@) || contains_seq(n, "token"@)
        || contains_seq(n, "secret"@) || n == "x-api-key"@ || n == "api-key"@
}

fn contains_text(s: &[char], p: &str) -> (r: bool)
    ensures
        r == contains_seq(s@, p@),
{
    let pc = chars_of(p);
    match find_exec(s, pc.as_slice(), 0) {
        Some(_) => true,
        None => {
            proof {
                if contains_seq(s@, p@) {
                    let k = choose|k: int| occurs_at(s@, p@, k);
                    crate::text::lemma_find_from_none(s@, p@, 0, k);
                }
            }
            false
        },
    }
}

/// Whether a header's value must be redacted in logs.
pub fn is_sensitive_header(header_name: &str) -> (r: bool)
    ensures
        r == spec_sensitive_header(header_name@),
{
    let c = chars_of(header_name);
    let n = ascii_lower_chars(c.as_slice());
    let n = n.as_slice();
    contains_text(n, "authorization") || contains_text(n, "cookie") || contains_text(n, "token")
        || contains_text(n, "secret") || str_eq_chars("x-api-key", n) || str_eq_chars("api-key", n)
}

/// A header as it is logged: sensitive values become `<redacted>`, values
/// that are not visible ASCII become empty.
pub open spec fn redacted_field(h: (Seq<char>, Seq<char>)) -> (Seq<char>, Seq<char>) {
    if spec_sensitive_header(h.0) {
        (h.0, "<redacted>"@)
    } else if crate::http::visible_header_value(h.1) {
        (h.0, h.1)
    } else {
        (h.0, Seq::empty())
    }
}

/// Header redaction in logs: every header keeps its name and place; the
/// value of a header whose lowercased name contains `authorization`,
/// `cookie`, `token` or `secret`, or is `x-api-key` or `api-key`, is logged
/// as `<redacted>`; any other header's visible ASCII value is logged as it
/// is, and a value that is not visible ASCII is logged empty.
pub proof fn law_sensitive_headers_redacted(hs: Seq<(Seq<char>, Seq<char>)>, i: int)
    requires
        0 <= i < hs.len(),
    ensures
        ({
            let out = hs.map_values(|h: (Seq<char>, Seq<char>)| redacted_field(h));
            let n = ascii_lower(hs[i].0);
            let marked = contains_seq(n, "authorization"@) || contains_seq(n, "cookie"@) || contains_seq(
                n,
                "token"@,
            ) || contains_seq(n, "secret"@) || n == "x-api-key"@ || n == "api-key"@;
            &&& out.len() == hs.len()
            &&& out[i].0 == hs[i].0
            &&& marked ==> out[i].1 == "<redacted>"@
            &&& (!marked && crate::http::visible_header_value(hs[i].1)) ==> out[i].1 == hs[i].1
            &&& (!marked && !crate::http::visible_header_value(hs[i].1)) ==> out[i].1.len() == 0
        }),
{
}

/// Copies headers for logging with sensitive values redacted.
pub fn redact_headers(headers: &[(String, String)]) -> (r: Vec<(String, String)>)
    ensures
        crate::config::entry_pairs(r@) == crate::config::entry_pairs(headers@).map_values(
            |h: (Seq<char>, Seq<char>)| redacted_field(h),
        ),
{
    let ghost hs = crate::config::entry_pairs(headers@);
    let mut out: Vec<(String, String)> = Vec::new();
    let mut i: usize = 0;
    while i < headers.len()
        invariant
            i <= headers.len(),
            hs == crate::config::entry_pairs(headers@),
            crate::config::entry_pairs(out@) == hs.take(i as int).map_values(
                |h: (Seq<char>, Seq<char>)| redacted_field(h),
            ),
        decreases headers.len() - i,
    {
        let name = headers[i].0.clone();
        let value = if is_sensitive_header(name.as_str()) {
            "<redacted>".to_string()
        } else {
            let v = chars_of(headers[i].1.as_str());
            if crate::http::header_value_visible(v.as_slice()) {
                headers[i].1.clone()
            } else {
                String::new()
            }
        };
        let ghost pre = crate::config::entry_pairs(out@);
        out.push((name, value));
        assert(crate::config::entry_pairs(out@) =~= pre.push(redacted_field(hs[i as int])));
        assert(hs.take(i + 1).map_values(|h: (Seq<char>, Seq<char>)| redacted_field(h))
            =~= hs.take(i as int).map_values(|h: (Seq<char>, Seq<char>)| redacted_field(h)).push(
            redacted_field(hs[i as int]),
        ));
        i += 1;
    }
    assert(hs.take(headers.len() as int) =~= hs);
    out
}

// ---------------------------------------------------------------------------
// Paths
// ---------------------------------------------------------------------------
/// The number of UTF-8 bytes of a character.
pub open spec fn char_bytes(c: char) -> nat {
    if (c as u32) < 0x80 {
        1
    } else if (c as u32) < 0x800 {
        2
    } else if (c as u32) < 0x10000 {
        3
    } else {
        4
    }
}

/// The number of UTF-8 bytes of a text (`str::len`).
pub open spec fn utf8_len(s: Seq<char>) -> nat
    decreases s.len(),
{
    if s.len() == 0 {
        0
    } else {
        utf8_len(s.drop_last()) + char_bytes(s.last())
    }
}

/// Whether `c` is an ASCII hexadecimal digit.
pub open spec fn is_hex_digit(c: char) -> bool {
    ('0' <= c && c <= '9') || ('a' <= c && c <= 'f') || ('A' <= c && c <= 'F')
}

/// `s` without its `-` characters.
pub open spec fn without_dashes(s: Seq<char>) -> Seq<char>
    decreases s.len(),
{
    if s.len() == 0 {
        s
    } else if s.last() == '-' {
        without_dashes(s.drop_last())
    } else {
        without_dashes(s.drop_last()).push(s.last())
    }
}

/// Whether a path segment looks like an identifier: without its dashes it
/// is at least 16 hexadecimal digits.
pub open spec fn spec_looks_like_identifier(segment: Seq<char>) -> bool {
    let c = without_dashes(segment);
    c.len() >= 16 && forall|i: int| 0 <= i < c.len() ==> is_hex_digit(#[trigger] c[i])
}

/// Whether a segment looks like an identifier (a UUID or a long hex id).
pub fn looks_like_identifier(segment: &str) -> (r: bool)
    ensures
        r == spec_looks_like_identifier(segment@),
{
    let s = chars_of(segment);
    let mut compact: Vec<char> = Vec::new();
    let mut i: usize = 0;
    while i < s.len()
        invariant
            i <= s.len(),
            s@ == segment@,
            compact@ == without_dashes(s@.take(i as int)),
        decreases s.len() - i,
    {
        assert(s@.take(i + 1).drop_last() =~= s@.take(i as int));
        if s[i] != '-' {
            compact.push(s[i]);
        }
        i += 1;
    }
    assert(s@.take(s.len() as int) =~= s@);
    assert(compact@ == without_dashes(segment@));
    if compact.len() < 16 {
        return false;
    }
    let mut j: usize = 0;
    while j < compact.len()
        invariant
            j <= compact.len(),
            compact@ == without_dashes(segment@),
            forall|k: int| 0 <= k < j ==> is_hex_digit(#[trigger] compact@[k]),
        decreases compact.len() - j,
    {
        let c = compact[j];
        if !(('0' <= c && c <= '9') || ('a' <= c && c <= 'f') || ('A' <= c && c <= 'F')) {
            return false;
        }
        j += 1;
    }
    true
}

/// A path segment as logged: empty stays empty; one longer than 32 bytes,
/// all digits, or that looks like an identifier becomes `:redacted`.
pub open spec fn sanitized_segment(seg: Seq<char>) -> Seq<char> {
    if seg.len() == 0 {
        seg
    } else if utf8_len(seg) > 32 || all_digits(seg) || spec_looks_like_identifier(seg) {
        ":redacted"@
    } else {
        seg
    }
}

/// The path with each segment sanitized, before truncation.
pub open spec fn sanitized_path(path: Seq<char>) -> Seq<char> {
    join(split(path, '/').map_values(|s: Seq<char>| sanitized_segment(s)), "/"@)
}

/// The number of leading characters whose UTF-8 bytes total `n`, looking
/// from the `k`th on.
pub open spec fn byte_cut_from(s: Seq<char>, n: nat, k: int) -> Option<int>
    decreases s.len() + 1 - k,
{
    if k < 0 || k > s.len() {
        None
    } else if utf8_len(s.take(k)) == n {
        Some(k)
    } else {
        byte_cut_from(s, n, k + 1)
    }
}

/// Whether the sanitized path can be cut after its first 128 bytes: it is
/// no longer than that, or a character ends exactly there.
pub open spec fn log_path_cuttable(path: Seq<char>) -> bool {
    let t = sanitized_path(path);
    utf8_len(t) <= 128 || byte_cut_from(t, 128, 0) is Some
}

/// A path as logged: sanitized, and past 128 bytes cut to its first 128
/// bytes followed by `...`.
pub open spec fn spec_sanitize_path(path: Seq<char>) -> Seq<char> {
    let t = sanitized_path(path);
    if utf8_len(t) > 128 {
        t.take(byte_cut_from(t, 128, 0)->0) + "..."@
    } else {
        t
    }
}

fn char_bytes_exec(c: char) -> (r: usize)
    ensures
        r == char_bytes(c),
{
    let u = c as u32;
    if u < 0x80 {
        1
    } else if u < 0x800 {
        2
    } else if u < 0x10000 {
        3
    } else {
        4
    }
}

/// The UTF-8 byte count of characters, saturating at `usize::MAX`.
pub fn utf8_len_exec(s: &[char]) -> (r: usize)
    ensures
        utf8_len(s@) <= usize::MAX ==> r == utf8_len(s@),
        utf8_len(s@) > usize::MAX ==> r == usize::MAX,
{
    let mut n: usize = 0;
    let mut i: usize = 0;
    while i < s.len()
        invariant
            i <= s.len(),
            utf8_len(s@.take(i as int)) <= usize::MAX ==> n == utf8_len(s@.take(i as int)),
            utf8_len(s@.take(i as int)) > usize::MAX ==> n == usize::MAX,
        decreases s.len() - i,
    {
        assert(s@.take(i + 1).drop_last() =~= s@.take(i as int));
        let b = char_bytes_exec(s[i]);
        n = n.saturating_add(b);
        i += 1;
    }
    assert(s@.take(s.len() as int) =~= s@);
    n
}

fn all_digits_exec(s: &[char]) -> (r: bool)
    ensures
        r == all_digits(s@),
{
    let mut i: usize = 0;
    while i < s.len()
        invariant
            i <= s.len(),
            forall|k: int| 0 <= k < i ==> crate::text::is_digit(#[trigger] s@[k]),
        decreases s.len() - i,
    {
        if !('0' <= s[i] && s[i] <= '9') {
            return false;
        }
        i += 1;
    }
    true
}

/// Scrubs path segments that look like identifiers before logging, e.g.
/// `/users/123456/orders/0123456789abcdef0123456789abcdef` becomes
/// `/users/:redacted/orders/:redacted`. A result longer than 128 bytes is
/// cut there, which must fall between characters.
pub fn sanitize_path_for_logs(path: &str) -> (r: String)
    requires
        log_path_cuttable(path@),
    ensures
        r@ == spec_sanitize_path(path@),
{
    match try_sanitize_path_for_logs(path) {
        Some(s) => s,
        None => String::new(),
    }
}

/// The path as logged, or none where the cut after 128 bytes would fall
/// inside a character.
pub fn try_sanitize_path_for_logs(path: &str) -> (r: Option<String>)
    ensures
        log_path_cuttable(path@) ==> (r matches Some(s) && s@ == spec_sanitize_path(path@)),
        !log_path_cuttable(path@) ==> r is None,
{
    let p = chars_of(path);
    let segs = split_chars(p.as_slice(), '/');
    let ghost ss = split(path@, '/');
    let mut parts: Vec<Vec<char>> = Vec::new();
    let mut i: usize = 0;
    while i < segs.len()
        invariant
            i <= segs.len(),
            ss == split(path@, '/'),
            segs@.len() == ss.len(),
            forall|k: int| 0 <= k < segs@.len() ==> #[trigger] segs@[k]@ == ss[k],
            parts@.map_values(|v: Vec<char>| v@) == ss.take(i as int).map_values(
                |s: Seq<char>| sanitized_segment(s),
            ),
        decreases segs.len() - i,
    {
        let seg = segs[i].as_slice();
        let out = if seg.len() == 0 {
            Vec::new()
        } else if utf8_len_exec(seg) > 32 || all_digits_exec(seg) || looks_like_identifier(
            string_of(seg).as_str(),
        ) {
            chars_of(":redacted")
        } else {
            sub_chars(seg, 0, seg.len())
        };
        proof {
            assert(seg@ == ss[i as int]);
            if seg@.len() == 0 {
                assert(out@ =~= seg@);
            } else if !(utf8_len(seg@) > 32 || all_digits(seg@) || spec_looks_like_identifier(seg@)) {
                assert(out@ =~= seg@);
            }
            assert(out@ == sanitized_segment(ss[i as int]));
        }
        let ghost pre = parts@;
        parts.push(out);
        assert(parts@.map_values(|v: Vec<char>| v@) =~= pre.map_values(|v: Vec<char>| v@).push(
            sanitized_segment(ss[i as int]),
        ));
        assert(ss.take(i + 1).map_values(|s: Seq<char>| sanitized_segment(s)) =~= ss.take(
            i as int,
        ).map_values(|s: Seq<char>| sanitized_segment(s)).push(sanitized_segment(ss[i as int])));
        i += 1;
    }
    assert(ss.take(segs.len() as int) =~= ss);
    let slash = chars_of("/");
    let t = crate::text::join_chars(&parts, slash.as_slice());
    let total = utf8_len_exec(t.as_slice());
    if total <= 128 {
        return Some(string_of(t.as_slice()));
    }
    // find where the first 128 bytes end
    let mut k: usize = 0;
    let mut n: usize = 0;
    while k < t.len() && n < 128
        invariant
            k <= t.len(),
            n == utf8_len(t@.take(k as int)),
            n <= 128 + 3,
            byte_cut_from(t@, 128, 0) == byte_cut_from(t@, 128, k as int),
        decreases t.len() - k,
    {
        assert(t@.take(k + 1).drop_last() =~= t@.take(k as int));
        let b = char_bytes_exec(t[k]);
        n = n + b;
        k += 1;
    }
    if n != 128 {
        proof {
            lemma_byte_cut_none_past(t@, k as int);
        }
        return None;
    }
    let mut out = sub_chars(t.as_slice(), 0, k);
    extend_str(&mut out, "...");
    Some(string_of(out.as_slice()))
}

/// Past a point where the bytes exceed 128, or at the end, no cut is found.
proof fn lemma_byte_cut_none_past(s: Seq<char>, k: int)
    requires
        0 <= k <= s.len(),
        k == s.len() || utf8_len(s.take(k)) >= 128,
        utf8_len(s.take(k)) != 128,
    ensures
        byte_cut_from(s, 128, k) is None,
    decreases s.len() - k,
{
    if k < s.len() {
        assert(s.take(k + 1).drop_last() =~= s.take(k));
        assert(s.take(k + 1).last() == s[k]);
        lemma_byte_cut_none_past(s, k + 1);
    } else {
        assert(byte_cut_from(s, 128, k + 1) is None);
    }
}

// ---------------------------------------------------------------------------
// Messages
// ---------------------------------------------------------------------------
/// The first position at or after `i` that is not whitespace.
pub open spec fn skip_space(s: Seq<char>, i: int) -> int
    decreases s.len() - i,
{
    if 0 <= i < s.len() && is_space(s[i]) {
        skip_space(s, i + 1)
    } else {
        i
    }
}

/// The first position at or after `i` that holds `,`, `;` or `&`, or the
/// end.
pub open spec fn value_end(s: Seq<char>, i: int) -> int
    decreases s.len() - i,
{
    if 0 <= i < s.len() && !(s[i] == ',' || s[i] == ';' || s[i] == '&') {
        value_end(s, i + 1)
    } else {
        i
    }
}

/// Skipping whitespace stays within the text.
pub proof fn lemma_skip_space_bounds(s: Seq<char>, i: int)
    requires
        0 <= i <= s.len(),
    ensures
        i <= skip_space(s, i) <= s.len(),
    decreases s.len() - i,
{
    if 0 <= i < s.len() && is_space(s[i]) {
        lemma_skip_space_bounds(s, i + 1);
    }
}

/// The end of a value lies within the text.
pub proof fn lemma_value_end_bounds(s: Seq<char>, i: int)
    requires
        0 <= i <= s.len(),
    ensures
        i <= value_end(s, i) <= s.len(),
    decreases s.len() - i,
{
    if 0 <= i < s.len() && !(s[i] == ',' || s[i] == ';' || s[i] == '&') {
        lemma_value_end_bounds(s, i + 1);
    }
}

/// The text from `cursor` on with the value of each `key=` or `key:`
/// assignment (the key matched case-insensitively) replaced by
/// `<redacted>`: whitespace after the separator is kept, and the value runs
/// to the next `,`, `;` or `&`.
pub open spec fn redact_from(input: Seq<char>, key: Seq<char>, cursor: int) -> Seq<char>
    decreases input.len() - cursor,
{
    let low = ascii_lower(input);
    if cursor < 0 || cursor > input.len() || key.len() == 0 {
        Seq::empty()
    } else {
        match find_from(low, key, cursor) {
            None => input.subrange(cursor, input.len() as int),
            Some(ks) => {
                proof {
                    crate::text::lemma_find_from_bounds(low, key, cursor);
                }
                let sep = ks + key.len();
                if sep < input.len() && (low[sep] == '=' || low[sep] == ':') {
                    let vs = skip_space(input, sep + 1);
                    let ve = value_end(input, vs);
                    proof {
                        lemma_skip_space_bounds(input, sep + 1);
                        lemma_value_end_bounds(input, vs);
                    }
                    input.subrange(cursor, vs) + "<redacted>"@ + redact_from(input, key, ve)
                } else {
                    input.subrange(cursor, sep) + redact_from(input, key, sep)
                }
            },
        }
    }
}

/// The text with the values assigned to `key` redacted.
pub open spec fn spec_redact_assignment(input: Seq<char>, key: Seq<char>) -> Seq<char> {
    redact_from(input, key, 0)
}

/// Whether `c` ends an assigned value.
pub open spec fn is_value_end(c: char) -> bool {
    c == ',' || c == ';' || c == '&'
}

proof fn lemma_skip_space_shift(a: Seq<char>, b: Seq<char>, c: int)
    requires
        0 <= c,
    ensures
        skip_space(a + b, a.len() + c) == a.len() + skip_space(b, c),
    decreases b.len() - c,
{
    if c < b.len() {
        assert((a + b)[a.len() + c] == b[c]);
        if is_space(b[c]) {
            lemma_skip_space_shift(a, b, c + 1);
        }
    }
}

proof fn lemma_value_end_shift(a: Seq<char>, b: Seq<char>, c: int)
    requires
        0 <= c,
    ensures
        value_end(a + b, a.len() + c) == a.len() + value_end(b, c),
    decreases b.len() - c,
{
    if c < b.len() {
        assert((a + b)[a.len() + c] == b[c]);
        if !is_value_end(b[c]) {
            lemma_value_end_shift(a, b, c + 1);
        }
    }
}

proof fn lemma_skip_space_spaces(s: Seq<char>, i: int)
    requires
        0 <= i,
    ensures
        forall|j: int| i <= j < skip_space(s, i) ==> is_space(#[trigger] s[j]),
    decreases s.len() - i,
{
    if i < s.len() && is_space(s[i]) {
        lemma_skip_space_spaces(s, i + 1);
    }
}

proof fn lemma_skip_space_to(x: Seq<char>, i: int, m: int)
    requires
        0 <= i <= m <= x.len(),
        forall|j: int| i <= j < m ==> is_space(#[trigger] x[j]),
        m == x.len() || !is_space(x[m]),
    ensures
        skip_space(x, i) == m,
    decreases m - i,
{
    if i < m {
        lemma_skip_space_to(x, i + 1, m);
    }
}

proof fn lemma_value_end_stops(s: Seq<char>, i: int)
    requires
        0 <= i <= s.len(),
    ensures
        value_end(s, i) < s.len() ==> is_value_end(s[value_end(s, i)]),
    decreases s.len() - i,
{
    if i < s.len() && !is_value_end(s[i]) {
        lemma_value_end_stops(s, i + 1);
    }
}

proof fn lemma_value_end_to(x: Seq<char>, i: int, m: int)
    requires
        0 <= i <= m <= x.len(),
        forall|j: int| i <= j < m ==> !is_value_end(#[trigger] x[j]),
        m == x.len() || is_value_end(x[m]),
    ensures
        value_end(x, i) == m,
    decreases m - i,
{
    if i < m {
        lemma_value_end_to(x, i + 1, m);
    }
}

/// Redacting `a + b` from a position inside `b` gives what redacting `b`
/// gives.
proof fn lemma_redact_shift(a: Seq<char>, b: Seq<char>, key: Seq<char>, c: int)
    requires
        0 <= c,
    ensures
        redact_from(a + b, key, a.len() + c) == redact_from(b, key, c),
    decreases b.len() - c,
{
    let s = a + b;
    let n = a.len() as int;
    if c <= b.len() && key.len() > 0 {
        let lb = ascii_lower(b);
        lemma_lower_concat(a, b);
        lemma_find_from_shift(ascii_lower(a), lb, key, c);
        match find_from(lb, key, c) {
            None => {
                assert(s.subrange(n + c, s.len() as int) =~= b.subrange(c, b.len() as int));
            },
            Some(ks) => {
                lemma_find_from_bounds(lb, key, c);
                let sep = ks + key.len();
                if sep < b.len() {
                    assert(ascii_lower(s)[n + sep] == lb[sep]);
                }
                if sep < b.len() && (lb[sep] == '=' || lb[sep] == ':') {
                    lemma_skip_space_bounds(b, sep + 1);
                    lemma_skip_space_shift(a, b, sep + 1);
                    let vs = skip_space(b, sep + 1);
                    lemma_value_end_bounds(b, vs);
                    lemma_value_end_shift(a, b, vs);
                    let ve = value_end(b, vs);
                    assert(s.subrange(n + c, n + vs) =~= b.subrange(c, vs));
                    lemma_redact_shift(a, b, key, ve);
                } else {
                    assert(s.subrange(n + c, n + sep) =~= b.subrange(c, sep));
                    lemma_redact_shift(a, b, key, sep);
                }
            },
        }
    }
}

/// Redacting from a position starts with the character there, and gives
/// nothing at the end.
proof fn lemma_redact_head(s: Seq<char>, key: Seq<char>, c: int)
    requires
        0 <= c <= s.len(),
        key.len() > 0,
    ensures
        c == s.len() ==> redact_from(s, key, c).len() == 0,
        c < s.len() ==> redact_from(s, key, c).len() > 0 && redact_from(s, key, c)[0] == s[c],
{
    let low = ascii_lower(s);
    match find_from(low, key, c) {
        None => {},
        Some(ks) => {
            lemma_find_from_bounds(low, key, c);
            let sep = ks + key.len();
            if sep < s.len() && (low[sep] == '=' || low[sep] == ':') {
                lemma_skip_space_bounds(s, sep + 1);
            }
        },
    }
}

/// The search for the key in the part of `s` from `c` on finds it `e` on.
proof fn lemma_found_in_tail(s: Seq<char>, key: Seq<char>, c: int, ks: int)
    requires
        0 <= c <= s.len(),
        find_from(ascii_lower(s), key, c) == Some(ks),
    ensures
        find_from(ascii_lower(s.subrange(c, s.len() as int)), key, 0) == Some(ks - c),
{
    let head = s.subrange(0, c);
    let tail = s.subrange(c, s.len() as int);
    assert(s =~= head + tail);
    lemma_lower_concat(head, tail);
    lemma_find_from_shift(ascii_lower(head), ascii_lower(tail), key, 0);
}

/// The stable case where the key is followed by `=` or `:`.
#[verifier::spinoff_prover]
#[verifier::rlimit(40)]
proof fn lemma_stable_assignment(s: Seq<char>, key: Seq<char>, c: int, ks: int)
    requires
        0 <= c <= s.len(),
        key.len() > 0,
        find_from(ascii_lower(s), key, c) == Some(ks),
        c <= ks,
        ks + key.len() < s.len(),
        ascii_lower(s)[ks + key.len()] == '=' || ascii_lower(s)[ks + key.len()] == ':',
        ({
            let ve = value_end(s, skip_space(s, ks + key.len() + 1));
            redact_from(redact_from(s, key, ve), key, 0) == redact_from(s, key, ve)
        }),
    ensures
        redact_from(redact_from(s, key, c), key, 0) == redact_from(s, key, c),
{
    let low = ascii_lower(s);
    let o = redact_from(s, key, c);
    let sep = ks + key.len();
    let e = ks - c;
    lemma_skip_space_bounds(s, sep + 1);
    let vs = skip_space(s, sep + 1);
    lemma_value_end_bounds(s, vs);
    let ve = value_end(s, vs);
    let r = "<redacted>"@;
    reveal_strlit("<redacted>");
    let p = s.subrange(c, vs);
    let rest = redact_from(s, key, ve);
    assert(o == p + r + rest);
    let sep2 = e + key.len();
    assert(find_from(ascii_lower(o), key, 0) == Some(e)) by {
        let after = s.subrange(vs, s.len() as int);
        let q = r + rest;
        lemma_found_in_tail(s, key, c, ks);
        assert(o =~= p + q);
        assert(s.subrange(c, s.len() as int) =~= p + after);
        lemma_lower_concat(p, after);
        lemma_lower_concat(p, q);
        lemma_find_from_prefix(ascii_lower(p), ascii_lower(after), ascii_lower(q), key, e);
    }
    assert(sep2 < o.len() && ascii_lower(o)[sep2] == low[sep]) by {
        assert(o[sep2] == s[sep]);
    }
    assert(skip_space(o, sep2 + 1) == p.len()) by {
        lemma_skip_space_spaces(s, sep + 1);
        assert forall|j: int| sep2 + 1 <= j < p.len() implies is_space(#[trigger] o[j]) by {
            assert(o[j] == s[c + j]);
        }
        assert(o[p.len() as int] == '<');
        lemma_skip_space_to(o, sep2 + 1, p.len() as int);
    }
    assert(value_end(o, p.len() as int) == p.len() + r.len()) by {
        lemma_value_end_stops(s, vs);
        lemma_redact_head(s, key, ve);
        assert forall|j: int| p.len() <= j < p.len() + r.len() implies !is_value_end(#[trigger] o[j]) by {
            assert(o[j] == r[j - p.len()]);
        }
        if ve < s.len() {
            assert(o[(p.len() + r.len()) as int] == rest[0]);
        } else {
            assert(o.len() == p.len() + r.len());
        }
        lemma_value_end_to(o, p.len() as int, (p.len() + r.len()) as int);
    }
    assert(redact_from(o, key, (p.len() + r.len()) as int) == rest) by {
        assert(o =~= (p + r) + rest);
        lemma_redact_shift(p + r, rest, key, 0);
    }
    assert(o.subrange(0, p.len() as int) =~= p);
    assert(redact_from(o, key, 0) == o.subrange(0, p.len() as int) + r + redact_from(
        o,
        key,
        (p.len() + r.len()) as int,
    ));
}

/// The stable case where the key is not followed by `=` or `:`.
#[verifier::spinoff_prover]
#[verifier::rlimit(40)]
proof fn lemma_stable_mention(s: Seq<char>, key: Seq<char>, c: int, ks: int)
    requires
        0 <= c <= s.len(),
        key.len() > 0,
        find_from(ascii_lower(s), key, c) == Some(ks),
        c <= ks,
        ks + key.len() <= s.len(),
        !(ks + key.len() < s.len() && (ascii_lower(s)[ks + key.len()] == '='
            || ascii_lower(s)[ks + key.len()] == ':')),
        redact_from(redact_from(s, key, ks + key.len()), key, 0) == redact_from(s, key, ks + key.len()),
    ensures
        redact_from(redact_from(s, key, c), key, 0) == redact_from(s, key, c),
{
    let low = ascii_lower(s);
    let o = redact_from(s, key, c);
    let sep = ks + key.len();
    let e = ks - c;
    lemma_found_in_tail(s, key, c, ks);
    let p = s.subrange(c, sep);
    let rest = redact_from(s, key, sep);
    let after = s.subrange(sep, s.len() as int);
    assert(o == p + rest);
    assert(s.subrange(c, s.len() as int) =~= p + after);
    lemma_lower_concat(p, after);
    lemma_lower_concat(p, rest);
    lemma_find_from_prefix(ascii_lower(p), ascii_lower(after), ascii_lower(rest), key, e);
    assert(find_from(ascii_lower(o), key, 0) == Some(e));
    lemma_redact_head(s, key, sep);
    if sep < s.len() {
        assert(o[p.len() as int] == s[sep]);
        assert(ascii_lower(o)[p.len() as int] == low[sep]);
    }
    lemma_redact_shift(p, rest, key, 0);
    assert(o.subrange(0, p.len() as int) =~= p);
}

/// Redacting the output of a redaction from `c` with the same key changes
/// nothing.
proof fn lemma_redact_from_stable(s: Seq<char>, key: Seq<char>, c: int)
    requires
        0 <= c <= s.len(),
        key.len() > 0,
    ensures
        redact_from(redact_from(s, key, c), key, 0) == redact_from(s, key, c),
    decreases s.len() - c,
{
    let low = ascii_lower(s);
    match find_from(low, key, c) {
        None => {
            let o = redact_from(s, key, c);
            let head = s.subrange(0, c);
            assert(s =~= head + o);
            lemma_lower_concat(head, o);
            lemma_find_from_shift(ascii_lower(head), ascii_lower(o), key, 0);
            assert(o.subrange(0, o.len() as int) =~= o);
        },
        Some(ks) => {
            lemma_find_from_bounds(low, key, c);
            let sep = ks + key.len();
            if sep < s.len() && (low[sep] == '=' || low[sep] == ':') {
                lemma_skip_space_bounds(s, sep + 1);
                let vs = skip_space(s, sep + 1);
                lemma_value_end_bounds(s, vs);
                lemma_redact_from_stable(s, key, value_end(s, vs));
                lemma_stable_assignment(s, key, c, ks);
            } else {
                lemma_redact_from_stable(s, key, sep);
                lemma_stable_mention(s, key, c, ks);
            }
        },
    }
}

/// Redacting the values assigned to a key a second time changes nothing.
pub proof fn law_redaction_idempotent(input: Seq<char>, key: Seq<char>)
    requires
        key.len() > 0,
    ensures
        spec_redact_assignment(spec_redact_assignment(input, key), key) == spec_redact_assignment(
            input,
            key,
        ),
{
    lemma_redact_from_stable(input, key, 0);
}

/// Redacts the value of every `key=value` or `key: value` assignment in a
/// text, matching the key case-insensitively.
pub fn redact_assignment_value(input: &str, key: &str) -> (r: String)
    requires
        key@.len() > 0,
    ensures
        r@ == spec_redact_assignment(input@, key@),
{
    let s = chars_of(input);
    let low = ascii_lower_chars(s.as_slice());
    let k = chars_of(key);
    let n = s.len();
    let mut out: Vec<char> = Vec::new();
    let mut cursor: usize = 0;
    assert(out@ + redact_from(input@, key@, 0) =~= redact_from(input@, key@, 0));
    loop
        invariant
            n == s@.len(),
            s@ == input@,
            k@ == key@,
            key@.len() > 0,
            low@ == ascii_lower(input@),
            low@.len() == n,
            cursor <= n,
            out@ + redact_from(input@, key@, cursor as int) == spec_redact_assignment(input@, key@),
        decreases n - cursor,
    {
        proof {
            crate::text::lemma_find_from_bounds(low@, key@, cursor as int);
        }
        match find_exec(low.as_slice(), k.as_slice(), cursor) {
            None => {
                let rest = sub_chars(s.as_slice(), cursor, n);
                extend_chars(&mut out, rest.as_slice());
                return string_of(out.as_slice());
            },
            Some(ks) => {
                let sep = ks + k.len();
                if sep < n && (low[sep] == '=' || low[sep] == ':') {
                    let mut vs = sep + 1;
                    while vs < n && space(s[vs])
                        invariant
                            sep + 1 <= vs <= n,
                            n == s@.len(),
                            skip_space(input@, sep + 1) == skip_space(input@, vs as int),
                            s@ == input@,
                        decreases n - vs,
                    {
                        vs += 1;
                    }
                    let mut ve = vs;
                    while ve < n && !(s[ve] == ',' || s[ve] == ';' || s[ve] == '&')
                        invariant
                            vs <= ve <= n,
                            n == s@.len(),
                            value_end(input@, vs as int) == value_end(input@, ve as int),
                            s@ == input@,
                        decreases n - ve,
                    {
                        ve += 1;
                    }
                    let head = sub_chars(s.as_slice(), cursor, vs);
                    let ghost pre = out@;
                    extend_chars(&mut out, head.as_slice());
                    extend_str(&mut out, "<redacted>");
                    assert(out@ =~= pre + input@.subrange(cursor as int, vs as int) + "<redacted>"@);
                    assert(out@ + redact_from(input@, key@, ve as int) =~= pre + redact_from(
                        input@,
                        key@,
                        cursor as int,
                    ));
                    cursor = ve;
                } else {
                    let head = sub_chars(s.as_slice(), cursor, sep);
                    let ghost pre = out@;
                    extend_chars(&mut out, head.as_slice());
                    assert(out@ + redact_from(input@, key@, sep as int) =~= pre + redact_from(
                        input@,
                        key@,
                        cursor as int,
                    ));
                    cursor = sep;
                }
            },
        }
    }
}

/// The keys whose assigned values are redacted from log messages, in the
/// order they are applied.
pub open spec fn secret_keys() -> Seq<Seq<char>> {
    seq!["token"@, "secret"@, "passwd"@, "password"@, "cookie"@, "authorization"@]
}

/// The message with the values of each of `keys` redacted in turn.
pub open spec fn redact_all(message: Seq<char>, keys: Seq<Seq<char>>) -> Seq<char>
    decreases keys.len(),
{
    if keys.len() == 0 {
        message
    } else {
        spec_redact_assignment(redact_all(message, keys.drop_last()), keys.last())
    }
}

/// A log message with secret values redacted.
pub open spec fn spec_sanitize_log_message(message: Seq<char>) -> Seq<char> {
    redact_all(message, secret_keys())
}

/// Best-effort secret scrubbing for log messages: the values assigned to
/// `token`, `secret`, `passwd`, `password`, `cookie` and `authorization`
/// are redacted.
pub fn sanitize_log_message(message: &str) -> (r: String)
    ensures
        r@ == spec_sanitize_log_message(message@),
{
    let keys: [&'static str; 6] = ["token", "secret", "passwd", "password", "cookie", "authorization"];
    let ghost ks = secret_keys();
    proof {
        reveal_strlit("token");
        reveal_strlit("secret");
        reveal_strlit("passwd");
        reveal_strlit("password");
        reveal_strlit("cookie");
        reveal_strlit("authorization");
    }
    assert(keys@.map_values(|k: &str| k@) =~= ks);
    let mut sanitized = message.to_string();
    let mut i: usize = 0;
    assert(ks.take(0) =~= Seq::<Seq<char>>::empty());
    while i < 6
        invariant
            i <= 6,
            keys@.len() == 6,
            ks == secret_keys(),
            keys@.map_values(|k: &str| k@) == ks,
            forall|j: int| 0 <= j < 6 ==> (#[trigger] ks[j]).len() > 0,
            sanitized@ == redact_all(message@, ks.take(i as int)),
        decreases 6 - i,
    {
        assert(ks.take(i + 1).drop_last() =~= ks.take(i as int));
        assert(keys@[i as int]@ == ks[i as int]);
        sanitized = redact_assignment_value(sanitized.as_str(), keys[i]);
        i += 1;
    }
    assert(ks.take(6) =~= ks);
    sanitized
}

} // verus!
