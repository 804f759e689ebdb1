//! HTTP methods, responses and header-field rules.
use vstd::prelude::*;
use vstd::utf8::encode_utf8;

use crate::text::{
    ascii_lower, ascii_lower_chars, chars_eq, chars_of, decimal, decimal_chars, extend_chars,
    extend_str, string_of,
};

verus! {

/// An HTTP request method.
#[derive(Clone, Debug, Eq, Hash, PartialEq)]
pub enum Method {
    Get,
    Post,
    Put,
    Delete,
    Patch,
    Head,
    Options,
    Other(String),
}

/// The abstract value of a method: its name for the standard ones.
pub enum MethodModel {
    Get,
    Post,
    Put,
    Delete,
    Patch,
    Head,
    Options,
    Other(Seq<char>),
}

impl View for Method {
    type V = MethodModel;

    open spec fn view(&self) -> MethodModel {
        match self {
            Method::Get => MethodModel::Get,
            Method::Post => MethodModel::Post,
            Method::Put => MethodModel::Put,
            Method::Delete => MethodModel::Delete,
            Method::Patch => MethodModel::Patch,
            Method::Head => MethodModel::Head,
            Method::Options => MethodModel::Options,
            Method::Other(s) => MethodModel::Other(s@),
        }
    }
}

/// The method a request-line token names.
pub open spec fn method_from_text(s: Seq<char>) -> MethodModel {
    if s == "GET"@ {
        MethodModel::Get
    } else if s == "POST"@ {
        MethodModel::Post
    } else if s == "PUT"@ {
        MethodModel::Put
    } else if s == "DELETE"@ {
        MethodModel::Delete
    } else if s == "PATCH"@ {
        MethodModel::Patch
    } else if s == "HEAD"@ {
        MethodModel::Head
    } else if s == "OPTIONS"@ {
        MethodModel::Options
    } else {
        MethodModel::Other(s)
    }
}

/// The wire name of a method.
pub open spec fn method_text(m: MethodModel) -> Seq<char> {
    match m {
        MethodModel::Get => "GET"@,
        MethodModel::Post => "POST"@,
        MethodModel::Put => "PUT"@,
        MethodModel::Delete => "DELETE"@,
        MethodModel::Patch => "PATCH"@,
        MethodModel::Head => "HEAD"@,
        MethodModel::Options => "OPTIONS"@,
        MethodModel::Other(s) => s,
    }
}

/// Method tokens: writing a parsed token back gives the token; a token
/// parses to `Other` exactly when it is none of the seven standard names,
/// and each standard name parses to its own method.
pub proof fn law_method_tokens(s: Seq<char>)
    ensures
        method_text(method_from_text(s)) == s,
        (method_from_text(s) is Other) <==> !(s == "GET"@ || s == "POST"@ || s == "PUT"@ || s
            == "DELETE"@ || s == "PATCH"@ || s == "HEAD"@ || s == "OPTIONS"@),
        s == "GET"@ ==> method_from_text(s) == MethodModel::Get,
        s == "POST"@ ==> method_from_text(s) == MethodModel::Post,
        s == "PUT"@ ==> method_from_text(s) == MethodModel::Put,
        s == "DELETE"@ ==> method_from_text(s) == MethodModel::Delete,
        s == "PATCH"@ ==> method_from_text(s) == MethodModel::Patch,
        s == "HEAD"@ ==> method_from_text(s) == MethodModel::Head,
        s == "OPTIONS"@ ==> method_from_text(s) == MethodModel::Options,
{
    reveal_strlit("GET");
    reveal_strlit("POST");
    reveal_strlit("PUT");
    reveal_strlit("DELETE");
    reveal_strlit("PATCH");
    reveal_strlit("HEAD");
    reveal_strlit("OPTIONS");
    assert("GET"@ != "PUT"@) by {
        assert("GET"@[0] != "PUT"@[0]);
    }
    assert("POST"@ != "HEAD"@) by {
        assert("POST"@[0] != "HEAD"@[0]);
    }
}

/// Writing a standard method and parsing it back gives the same method.
pub proof fn law_standard_method_round_trip(m: MethodModel)
    requires
        !(m is Other),
    ensures
        method_from_text(method_text(m)) == m,
{
    law_method_tokens(method_text(m));
}

impl Method {
    /// The method named by a request-line token.
    pub fn from_http_str(value: &str) -> (r: Method)
        ensures
            r@ == method_from_text(value@),
    {
        let v = chars_of(value);
        Self::from_chars(v.as_slice())
    }

    /// The method named by a request-line token, given as characters.
    pub fn from_chars(v: &[char]) -> (r: Method)
        ensures
            r@ == method_from_text(v@),
    {
        if chars_eq(v, chars_of("GET").as_slice()) {
            Method::Get
        } else if chars_eq(v, chars_of("POST").as_slice()) {
            Method::Post
        } else if chars_eq(v, chars_of("PUT").as_slice()) {
            Method::Put
        } else if chars_eq(v, chars_of("DELETE").as_slice()) {
            Method::Delete
        } else if chars_eq(v, chars_of("PATCH").as_slice()) {
            Method::Patch
        } else if chars_eq(v, chars_of("HEAD").as_slice()) {
            Method::Head
        } else if chars_eq(v, chars_of("OPTIONS").as_slice()) {
            Method::Options
        } else {
            Method::Other(string_of(v))
        }
    }

    /// The wire name of the method.
    pub fn to_string(&self) -> (r: String)
        ensures
            r@ == method_text(self@),
    {
        match self {
            Method::Get => "GET".to_string(),
            Method::Post => "POST".to_string(),
            Method::Put => "PUT".to_string(),
            Method::Delete => "DELETE".to_string(),
            Method::Patch => "PATCH".to_string(),
            Method::Head => "HEAD".to_string(),
            Method::Options => "OPTIONS".to_string(),
            Method::Other(s) => s.clone(),
        }
    }

    /// Whether two methods are the same.
    pub fn same(&self, other: &Method) -> (r: bool)
        ensures
            r == (self@ == other@),
    {
        match (self, other) {
            (Method::Get, Method::Get) => true,
            (Method::Post, Method::Post) => true,
            (Method::Put, Method::Put) => true,
            (Method::Delete, Method::Delete) => true,
            (Method::Patch, Method::Patch) => true,
            (Method::Head, Method::Head) => true,
            (Method::Options, Method::Options) => true,
            (Method::Other(a), Method::Other(b)) => {
                let x = chars_of(a.as_str());
                let y = chars_of(b.as_str());
                chars_eq(x.as_slice(), y.as_slice())
            },
            _ => false,
        }
    }

    /// A copy of the method.
    pub fn duplicate(&self) -> (r: Method)
        ensures
            r@ == self@,
    {
        match self {
            Method::Get => Method::Get,
            Method::Post => Method::Post,
            Method::Put => Method::Put,
            Method::Delete => Method::Delete,
            Method::Patch => Method::Patch,
            Method::Head => Method::Head,
            Method::Options => Method::Options,
            Method::Other(s) => Method::Other(s.clone()),
        }
    }
}

// ---------------------------------------------------------------------------
// Header field rules (those of the `http` crate's `HeaderName::from_bytes`,
// `HeaderValue::from_str` and `HeaderValue::to_str`)
// ---------------------------------------------------------------------------
/// Whether `c` may appear in a header name (an RFC 9110 token character).
pub open spec fn is_token_char(c: char) -> bool {
    ||| ('a' <= c && c <= 'z')
    ||| ('A' <= c && c <= 'Z')
    ||| ('0' <= c && c <= '9')
    ||| c == '!' || c == '#' || c == '$' || c == '%' || c == '&' || c == '\''
    ||| c == '*' || c == '+' || c == '-' || c == '.' || c == '^' || c == '_'
    ||| c == '`' || c == '|' || c == '~'
}

/// Whether `s` is accepted as a header name: non-empty, shorter than 64 KiB,
/// all token characters.
pub open spec fn valid_header_name(s: Seq<char>) -> bool {
    0 < s.len() < 65536 && forall|i: int| 0 <= i < s.len() ==> is_token_char(#[trigger] s[i])
}

/// Whether `c` may appear in a header value: a tab, or any character other
/// than the ASCII control characters.
pub open spec fn is_value_char(c: char) -> bool {
    c == '\t' || (' ' <= c && c != '\u{7f}')
}

/// Whether `s` is accepted as a header value.
pub open spec fn valid_header_value(s: Seq<char>) -> bool {
    forall|i: int| 0 <= i < s.len() ==> is_value_char(#[trigger] s[i])
}

/// Whether `c` is visible ASCII or a tab.
pub open spec fn is_visible_char(c: char) -> bool {
    c == '\t' || (' ' <= c && c <= '~')
}

/// Whether a header value reads back as text (visible ASCII and tabs only).
pub open spec fn visible_header_value(s: Seq<char>) -> bool {
    forall|i: int| 0 <= i < s.len() ==> is_visible_char(#[trigger] s[i])
}

fn token_char(c: char) -> (r: bool)
    ensures
        r == is_token_char(c),
{
    ('a' <= c && c <= 'z') || ('A' <= c && c <= 'Z') || ('0' <= c && c <= '9') || c == '!' || c
        == '#' || c == '$' || c == '%' || c == '&' || c == '\'' || c == '*' || c == '+' || c
        == '-' || c == '.' || c == '^' || c == '_' || c == '`' || c == '|' || c == '~'
}

/// Whether the characters form a valid header name.
pub fn header_name_ok(s: &[char]) -> (r: bool)
    ensures
        r == valid_header_name(s@),
{
    if s.len() == 0 || s.len() >= 65536 {
        return false;
    }
    let mut i: usize = 0;
    while i < s.len()
        invariant
            i <= s.len(),
            forall|k: int| 0 <= k < i ==> is_token_char(#[trigger] s@[k]),
        decreases s.len() - i,
    {
        if !token_char(s[i]) {
            return false;
        }
        i += 1;
    }
    true
}

/// Whether the characters form a valid header value.
pub fn header_value_ok(s: &[char]) -> (r: bool)
    ensures
        r == valid_header_value(s@),
{
    let mut i: usize = 0;
    while i < s.len()
        invariant
            i <= s.len(),
            forall|k: int| 0 <= k < i ==> is_value_char(#[trigger] s@[k]),
        decreases s.len() - i,
    {
        let c = s[i];
        if !(c == '\t' || (' ' <= c && c != '\u{7f}')) {
            return false;
        }
        i += 1;
    }
    true
}

/// Whether the characters are visible ASCII (or tabs).
pub fn header_value_visible(s: &[char]) -> (r: bool)
    ensures
        r == visible_header_value(s@),
{
    let mut i: usize = 0;
    while i < s.len()
        invariant
            i <= s.len(),
            forall|k: int| 0 <= k < i ==> is_visible_char(#[trigger] s@[k]),
        decreases s.len() - i,
    {
        let c = s[i];
        if !(c == '\t' || (' ' <= c && c <= '~')) {
            return false;
        }
        i += 1;
    }
    true
}

// ---------------------------------------------------------------------------
// Responses
// ---------------------------------------------------------------------------
/// An HTTP response: status line, header fields in order, body bytes.
#[derive(Clone, Debug)]
pub struct Response {
    pub status_code: u16,
    pub status_text: String,
    pub headers: Vec<(String, String)>,
    pub body: Vec<u8>,
}

/// The abstract value of a response.
pub struct ResponseModel {
    pub status_code: u16,
    pub status_text: Seq<char>,
    pub headers: Seq<(Seq<char>, Seq<char>)>,
    pub body: Seq<u8>,
}

/// The abstract value of a list of header fields.
pub open spec fn header_pairs(h: Seq<(String, String)>) -> Seq<(Seq<char>, Seq<char>)> {
    h.map_values(|p: (String, String)| (p.0@, p.1@))
}

impl View for Response {
    type V = ResponseModel;

    open spec fn view(&self) -> ResponseModel {
        ResponseModel {
            status_code: self.status_code,
            status_text: self.status_text@,
            headers: header_pairs(self.headers@),
            body: self.body@,
        }
    }
}

/// What `with_header(key, value)` does to a response: a valid field is
/// appended (its value kept only when it reads back as visible text); an
/// invalid one is dropped.
pub open spec fn spec_with_header(r: ResponseModel, key: Seq<char>, value: Seq<char>) -> ResponseModel {
    if valid_header_name(key) && valid_header_value(value) {
        ResponseModel {
            headers: r.headers.push(
                (key, if visible_header_value(value) {
                    value
                } else {
                    Seq::empty()
                }),
            ),
            ..r
        }
    } else {
        r
    }
}

/// A response with the given status, no header fields and the given body.
pub open spec fn spec_response(status_code: u16, status_text: Seq<char>, body: Seq<u8>) -> ResponseModel {
    ResponseModel { status_code, status_text, headers: Seq::empty(), body }
}

/// A plain-text error response.
pub open spec fn spec_response_from_error(
    status_code: u16,
    status_text: Seq<char>,
    body: Seq<char>,
) -> ResponseModel {
    spec_with_header(
        spec_response(status_code, status_text, encode_utf8(body)),
        "Content-Type"@,
        "text/plain; charset=utf-8"@,
    )
}

/// A `200 OK` response with the given content type.
pub open spec fn spec_typed_ok(body: Seq<u8>, content_type: Seq<char>) -> ResponseModel {
    spec_with_header(spec_response(200, "OK"@, body), "Content-Type"@, content_type)
}

/// The UTF-8 encoding of the characters.
pub fn utf8_bytes(v: &[char]) -> (r: Vec<u8>)
    ensures
        r@ == encode_utf8(v@),
{
    let s = string_of(v);
    let b = s.as_str().as_bytes();
    let mut r: Vec<u8> = Vec::new();
    let mut i: usize = 0;
    while i < b.len()
        invariant
            i <= b.len(),
            b@ == encode_utf8(v@),
            r@ == b@.take(i as int),
        decreases b.len() - i,
    {
        r.push(b[i]);
        assert(b@.take(i + 1) =~= b@.take(i as int).push(b@[i as int]));
        i += 1;
    }
    assert(b@.take(b.len() as int) =~= b@);
    r
}

/// `200 Internal Server Error` body text and other fixed bodies are built
/// from literals through this helper.
fn literal_bytes(s: &str) -> (r: Vec<u8>)
    ensures
        r@ == encode_utf8(s@),
{
    let v = chars_of(s);
    utf8_bytes(v.as_slice())
}

/// Builds an error response (free-function form shared with the error types).
pub fn response_from_error(status_code: u16, status_text: &str, body: &str) -> (r: Response)
    ensures
        r@ == spec_response_from_error(status_code, status_text@, body@),
{
    Response::from_error(status_code, status_text, body)
}

impl Response {
    pub fn new(status_code: u16, status_text: &str, body: Vec<u8>) -> (r: Self)
        ensures
            r@ == spec_response(status_code, status_text@, body@),
    {
        let r = Response {
            status_code,
            status_text: status_text.to_string(),
            headers: Vec::new(),
            body,
        };
        assert(header_pairs(r.headers@) =~= Seq::empty());
        r
    }

    pub fn ok(body: Vec<u8>) -> (r: Self)
        ensures
            r@ == spec_response(200, "OK"@, body@),
    {
        Self::new(200, "OK", body)
    }

    /// The `404 Not Found` response.
    pub fn not_found() -> (r: Self)
        ensures
            r@ == spec_response_from_error(404, "Not Found"@, "404 Not Found"@),
    {
        Self::from_error(404, "Not Found", "404 Not Found")
    }

    /// A `400 Bad Request` response whose body is the message, read as
    /// UTF-8 with invalid sequences replaced.
    pub fn bad_request(message: Vec<u8>) -> (r: Self)
        ensures
            r@ == spec_response_from_error(400, "Bad Request"@, crate::request::lossy_text(message@)),
    {
        let text = crate::request::utf8_lossy(message.as_slice());
        Self::from_error(400, "Bad Request", text.as_str())
    }

    /// The `500 Internal Server Error` response.
    pub fn internal_server_error() -> (r: Self)
        ensures
            r@ == spec_response_from_error(
                500,
                "Internal Server Error"@,
                "500 Internal Server Error"@,
            ),
    {
        Self::from_error(500, "Internal Server Error", "500 Internal Server Error")
    }

    /// A plain-text error response.
    pub fn from_error(status_code: u16, status_text: &str, body: &str) -> (r: Self)
        ensures
            r@ == spec_response_from_error(status_code, status_text@, body@),
    {
        let bytes = literal_bytes(body);
        Self::new(status_code, status_text, bytes).with_header(
            "Content-Type",
            "text/plain; charset=utf-8",
        )
    }

    /// Appends a header field when both its name and value are valid;
    /// drops it otherwise.
    pub fn with_header(self, key: &str, value: &str) -> (r: Self)
        ensures
            r@ == spec_with_header(self@, key@, value@),
    {
        let k = chars_of(key);
        let v = chars_of(value);
        self.with_header_chars(k.as_slice(), v.as_slice())
    }

    /// `with_header` for names and values given as characters.
    pub fn with_header_chars(self, key: &[char], value: &[char]) -> (r: Self)
        ensures
            r@ == spec_with_header(self@, key@, value@),
    {
        let mut this = self;
        if header_name_ok(key) && header_value_ok(value) {
            let stored = if header_value_visible(value) {
                string_of(value)
            } else {
                String::new()
            };
            let ghost old_headers = this.headers@;
            this.headers.push((string_of(key), stored));
            assert(header_pairs(this.headers@) =~= header_pairs(old_headers).push(
                (key@, stored@),
            ));
        }
        this
    }

    /// A `200` text response.
    pub fn text(body: &str) -> (r: Self)
        ensures
            r@ == spec_typed_ok(encode_utf8(body@), "text/plain; charset=utf-8"@),
    {
        Self::ok(literal_bytes(body)).with_header("Content-Type", "text/plain; charset=utf-8")
    }

    /// A `200` HTML response.
    pub fn html(body: &str) -> (r: Self)
        ensures
            r@ == spec_typed_ok(encode_utf8(body@), "text/html; charset=utf-8"@),
    {
        Self::ok(literal_bytes(body)).with_header("Content-Type", "text/html; charset=utf-8")
    }

    /// A `200` JSON response whose body is the given text.
    pub fn json(body: &str) -> (r: Self)
        ensures
            r@ == spec_typed_ok(encode_utf8(body@), "application/json; charset=utf-8"@),
    {
        Self::json_bytes(literal_bytes(body))
    }

    /// A `200` JSON response whose body is the given bytes.
    pub fn json_bytes(body: Vec<u8>) -> (r: Self)
        ensures
            r@ == spec_typed_ok(body@, "application/json; charset=utf-8"@),
    {
        Self::ok(body).with_header("Content-Type", "application/json; charset=utf-8")
    }

    /// A `200` response for file contents, typed by the file's extension.
    pub fn file_bytes(extension: Option<&str>, content: Vec<u8>) -> (r: Self)
        ensures
            r@ == (match extension {
                Some(e) => spec_with_header(
                    spec_response(200, "OK"@, content@),
                    "Content-Type"@,
                    mime_text(e@),
                ),
                None => spec_response(200, "OK"@, content@),
            }),
    {
        let res = Self::ok(content);
        match extension {
            Some(e) => res.with_header("Content-Type", mime_for_ext(e)),
            None => res,
        }
    }
}

/// The content type served for a file extension.
pub open spec fn mime_text(ext: Seq<char>) -> Seq<char> {
    if ext == "png"@ {
        "image/png"@
    } else if ext == "jpg"@ || ext == "jpeg"@ {
        "image/jpeg"@
    } else if ext == "gif"@ {
        "image/gif"@
    } else if ext == "svg"@ {
        "image/svg+xml"@
    } else if ext == "webp"@ {
        "image/webp"@
    } else if ext == "css"@ {
        "text/css; charset=utf-8"@
    } else if ext == "js"@ || ext == "mjs"@ {
        "application/javascript; charset=utf-8"@
    } else if ext == "html"@ || ext == "htm"@ {
        "text/html; charset=utf-8"@
    } else if ext == "json"@ {
        "application/json; charset=utf-8"@
    } else if ext == "txt"@ {
        "text/plain; charset=utf-8"@
    } else {
        "application/octet-stream"@
    }
}

fn is(e: &[char], lit: &str) -> (r: bool)
    ensures
        r == (e@ == lit@),
{
    let l = chars_of(lit);
    chars_eq(e, l.as_slice())
}

/// The content type served for a file extension.
pub fn mime_for_ext(ext: &str) -> (r: &'static str)
    ensures
        r@ == mime_text(ext@),
{
    let e = chars_of(ext);
    let e = e.as_slice();
    if is(e, "png") {
        "image/png"
    } else if is(e, "jpg") || is(e, "jpeg") {
        "image/jpeg"
    } else if is(e, "gif") {
        "image/gif"
    } else if is(e, "svg") {
        "image/svg+xml"
    } else if is(e, "webp") {
        "image/webp"
    } else if is(e, "css") {
        "text/css; charset=utf-8"
    } else if is(e, "js") || is(e, "mjs") {
        "application/javascript; charset=utf-8"
    } else if is(e, "html") || is(e, "htm") {
        "text/html; charset=utf-8"
    } else if is(e, "json") {
        "application/json; charset=utf-8"
    } else if is(e, "txt") {
        "text/plain; charset=utf-8"
    } else {
        "application/octet-stream"
    }
}

// ---------------------------------------------------------------------------
// Wire serialization
// ---------------------------------------------------------------------------
/// The header lines written for the given fields: each valid field as
/// `name: value\r\n`, invalid ones skipped.
pub open spec fn header_lines(h: Seq<(Seq<char>, Seq<char>)>) -> Seq<char>
    decreases h.len(),
{
    if h.len() == 0 {
        Seq::empty()
    } else {
        let (k, v) = h.last();
        header_lines(h.drop_last()) + if valid_header_name(k) && valid_header_value(v) {
            k + ": "@ + v + "\r\n"@
        } else {
            Seq::empty()
        }
    }
}

/// Whether some valid field among `h` has the given (lowercase) name,
/// compared case-insensitively.
pub open spec fn has_valid_field(h: Seq<(Seq<char>, Seq<char>)>, name: Seq<char>) -> bool {
    exists|i: int|
        0 <= i < h.len() && valid_header_name(#[trigger] h[i].0) && valid_header_value(h[i].1)
            && ascii_lower(h[i].0) == name
}

/// The text of the status line and header block of a serialized response.
pub open spec fn wire_head(r: ResponseModel) -> Seq<char> {
    "HTTP/1.1 "@ + decimal(r.status_code as nat) + " "@ + r.status_text + "\r\n"@ + header_lines(
        r.headers,
    ) + (if has_valid_field(r.headers, "content-length"@) {
        Seq::empty()
    } else {
        "Content-Length: "@ + decimal(r.body.len()) + "\r\n"@
    }) + (if has_valid_field(r.headers, "connection"@) {
        Seq::empty()
    } else {
        "Connection: close\r\n"@
    }) + "\r\n"@
}

impl Response {
    /// The HTTP/1.1 wire form of the response: status line, the valid header
    /// fields, `Content-Length` and `Connection: close` unless present, a
    /// blank line, then the body.
    pub fn to_http_bytes(&self) -> (r: Vec<u8>)
        ensures
            r@ == encode_utf8(wire_head(self@)) + self.body@,
    {
        let ghost hs = header_pairs(self.headers@);
        let mut out: Vec<char> = Vec::new();
        extend_str(&mut out, "HTTP/1.1 ");
        let code = decimal_chars(self.status_code as u64);
        extend_chars(&mut out, code.as_slice());
        extend_str(&mut out, " ");
        extend_str(&mut out, self.status_text.as_str());
        extend_str(&mut out, "\r\n");
        let ghost start = out@;
        let mut has_content_length = false;
        let mut has_connection = false;
        let cl = chars_of("content-length");
        let cn = chars_of("connection");
        let mut i: usize = 0;
        while i < self.headers.len()
            invariant
                i <= self.headers.len(),
                hs == header_pairs(self.headers@),
                cl@ == "content-length"@,
                cn@ == "connection"@,
                out@ == start + header_lines(hs.take(i as int)),
                has_content_length == has_valid_field(hs.take(i as int), "content-length"@),
                has_connection == has_valid_field(hs.take(i as int), "connection"@),
            decreases self.headers.len() - i,
        {
            let k = chars_of(self.headers[i].0.as_str());
            let v = chars_of(self.headers[i].1.as_str());
            let ghost prev = hs.take(i as int);
            assert(hs.take(i + 1).drop_last() =~= prev);
            assert(hs.take(i + 1).last() == (k@, v@));
            let valid = header_name_ok(k.as_slice()) && header_value_ok(v.as_slice());
            if valid {
                let lk = ascii_lower_chars(k.as_slice());
                if chars_eq(lk.as_slice(), cl.as_slice()) {
                    has_content_length = true;
                }
                if chars_eq(lk.as_slice(), cn.as_slice()) {
                    has_connection = true;
                }
                extend_chars(&mut out, k.as_slice());
                extend_str(&mut out, ": ");
                extend_chars(&mut out, v.as_slice());
                extend_str(&mut out, "\r\n");
            }
            proof {
                let next = hs.take(i + 1);
                assert(out@ =~= start + header_lines(next));
                assert(has_content_length == has_valid_field(next, "content-length"@)) by {
                    if has_valid_field(next, "content-length"@) {
                        let j = choose|j: int|
                            0 <= j < next.len() && valid_header_name(#[trigger] next[j].0)
                                && valid_header_value(next[j].1) && ascii_lower(next[j].0)
                                == "content-length"@;
                        if j < i {
                            assert(prev[j] == next[j]);
                        }
                    }
                    if has_valid_field(prev, "content-length"@) {
                        let j = choose|j: int|
                            0 <= j < prev.len() && valid_header_name(#[trigger] prev[j].0)
                                && valid_header_value(prev[j].1) && ascii_lower(prev[j].0)
                                == "content-length"@;
                        assert(prev[j] == next[j]);
                    }
                    if valid && ascii_lower(k@) == "content-length"@ {
                        assert(next[i as int] == (k@, v@));
                    }
                }
                assert(has_connection == has_valid_field(next, "connection"@)) by {
                    if has_valid_field(next, "connection"@) {
                        let j = choose|j: int|
                            0 <= j < next.len() && valid_header_name(#[trigger] next[j].0)
                                && valid_header_value(next[j].1) && ascii_lower(next[j].0)
                                == "connection"@;
                        if j < i {
                            assert(prev[j] == next[j]);
                        }
                    }
                    if has_valid_field(prev, "connection"@) {
                        let j = choose|j: int|
                            0 <= j < prev.len() && valid_header_name(#[trigger] prev[j].0)
                                && valid_header_value(prev[j].1) && ascii_lower(prev[j].0)
                                == "connection"@;
                        assert(prev[j] == next[j]);
                    }
                    if valid && ascii_lower(k@) == "connection"@ {
                        assert(next[i as int] == (k@, v@));
                    }
                }
            }
            i += 1;
        }
        assert(hs.take(self.headers.len() as int) =~= hs);
        if !has_content_length {
            extend_str(&mut out, "Content-Length: ");
            let n = decimal_chars(self.body.len() as u64);
            extend_chars(&mut out, n.as_slice());
            extend_str(&mut out, "\r\n");
        }
        if !has_connection {
            extend_str(&mut out, "Connection: close\r\n");
        }
        extend_str(&mut out, "\r\n");
        assert(out@ =~= wire_head(self@));
        let mut bytes = utf8_bytes(out.as_slice());
        let mut j: usize = 0;
        let ghost head = bytes@;
        while j < self.body.len()
            invariant
                j <= self.body.len(),
                bytes@ == head + self.body@.take(j as int),
            decreases self.body.len() - j,
        {
            bytes.push(self.body[j]);
            assert(head + self.body@.take(j + 1) =~= (head + self.body@.take(j as int)).push(
                self.body@[j as int],
            ));
            j += 1;
        }
        assert(self.body@.take(self.body.len() as int) =~= self.body@);
        bytes
    }
}

} // verus!
