//! Handler inputs: the extractor wrappers, the lookups they make in a
//! request, and the conversion of handler results into responses.
use std::sync::Arc;
use vstd::prelude::*;

use crate::errors::{ExtractorError, FrameworkError, HttpError};
use crate::http::{valid_header_name, visible_header_value, Response};
use crate::request::{param_index, query_pairs, Request};
use crate::text::{ascii_lower, chars_of, string_of};

verus! {

/// A named path segment of the matched route.
#[derive(Clone, Debug)]
pub struct Path<T>(pub T);

impl<T> Path<T> {
    /// The extracted value.
    pub fn into_inner(self) -> (r: T)
        ensures
            r == self.0,
    {
        self.0
    }
}

/// A named query-string value.
#[derive(Clone, Debug)]
pub struct Query<T>(pub T);

impl<T> Query<T> {
    /// The extracted value.
    pub fn into_inner(self) -> (r: T)
        ensures
            r == self.0,
    {
        self.0
    }
}

/// A named request header, parsed.
#[derive(Clone, Debug)]
pub struct Header<T>(pub T);

impl<T> Header<T> {
    /// The extracted value.
    pub fn into_inner(self) -> (r: T)
        ensures
            r == self.0,
    {
        self.0
    }
}

/// A parsed JSON request body.
#[derive(Clone, Debug)]
pub struct JsonBody<T>(pub T);

impl<T> JsonBody<T> {
    /// The extracted value.
    pub fn into_inner(self) -> (r: T)
        ensures
            r == self.0,
    {
        self.0
    }
}

/// Typed request-local state inserted by middleware.
#[derive(Clone, Debug)]
pub struct RequestState<T>(pub Arc<T>);

impl<T> RequestState<T> {
    /// The shared state.
    pub fn into_inner(self) -> (r: Arc<T>)
        ensures
            r == self.0,
    {
        self.0
    }
}

/// A marker for types that identify the caller of a request.
pub trait Identity: Send + Sync + 'static {}

/// A typed request identity inserted by middleware.
#[derive(Clone, Debug)]
pub struct IdentityState<T>(pub Arc<T>);

impl<T> IdentityState<T> {
    /// The shared identity.
    pub fn into_inner(self) -> (r: Arc<T>)
        ensures
            r == self.0,
    {
        self.0
    }
}

/// The request body as bytes.
#[derive(Clone, Debug)]
pub struct BodyBytes(pub Vec<u8>);

impl BodyBytes {
    /// The bytes of the body.
    pub fn as_slice(&self) -> (r: &[u8])
        ensures
            r@ == self.0@,
    {
        self.0.as_slice()
    }
}

/// The request body as UTF-8 text.
#[derive(Clone, Debug)]
pub struct TextBody(pub String);

impl TextBody {
    /// The text of the body.
    pub fn as_str(&self) -> (r: &str)
        ensures
            r@ == self.0@,
    {
        self.0.as_str()
    }
}

/// The whole query map of a request.
#[derive(Clone, Debug)]
pub struct QueryMap(pub Vec<(String, Vec<String>)>);

/// The first value of a query key.
pub open spec fn first_query_value(q: Seq<(Seq<char>, Seq<Seq<char>>)>, key: Seq<char>) -> Option<Seq<char>> {
    match param_index(q, key) {
        Some(i) => if q[i].1.len() > 0 {
            Some(q[i].1[0])
        } else {
            None
        },
        None => None,
    }
}

fn find_query(q: &Vec<(String, Vec<String>)>, key: &str) -> (r: Option<usize>)
    ensures
        match r {
            Some(i) => param_index(query_pairs(q@), key@) == Some(i as int) && i < q@.len(),
            None => param_index(query_pairs(q@), key@) is None,
        },
{
    let k = chars_of(key);
    let mut i: usize = 0;
    while i < q.len()
        invariant
            i <= q.len(),
            k@ == key@,
            forall|j: int| 0 <= j < i ==> #[trigger] query_pairs(q@)[j].0 != key@,
        decreases q.len() - i,
    {
        if crate::text::str_eq_chars(q[i].0.as_str(), k.as_slice()) {
            proof {
                crate::request::lemma_param_index_first(query_pairs(q@), key@, i as int);
            }
            return Some(i);
        }
        i += 1;
    }
    proof {
        crate::request::lemma_param_index_first(query_pairs(q@), key@, q@.len() as int);
    }
    None
}

impl QueryMap {
    /// The first value of a query key.
    pub fn get(&self, key: &str) -> (r: Option<&str>)
        ensures
            match first_query_value(query_pairs(self.0@), key@) {
                Some(v) => r matches Some(x) && x@ == v,
                None => r is None,
            },
    {
        match find_query(&self.0, key) {
            Some(i) => {
                if self.0[i].1.len() > 0 {
                    assert(query_pairs(self.0@)[i as int].1[0] == self.0@[i as int].1@[0]@);
                    Some(self.0[i].1[0].as_str())
                } else {
                    None
                }
            },
            None => None,
        }
    }
}

// ---------------------------------------------------------------------------
// Lookups of the extractors
// ---------------------------------------------------------------------------
/// The value of a path parameter, or a missing-field error.
pub fn path_param(params: &[(String, String)], name: &str) -> (r: Result<String, FrameworkError>)
    ensures
        match crate::request::first_field(crate::config::entry_pairs(params@), name@) {
            Some(v) => r matches Ok(x) && x@ == v,
            None => r matches Err(FrameworkError::Extractor(ExtractorError::Missing(f))) && f@ == name@,
        },
{
    let ghost ps = crate::config::entry_pairs(params@);
    let k = chars_of(name);
    let mut i: usize = 0;
    assert(ps.skip(0) =~= ps);
    while i < params.len()
        invariant
            i <= params.len(),
            ps == crate::config::entry_pairs(params@),
            k@ == name@,
            crate::request::first_field(ps, name@) == crate::request::first_field(ps.skip(i as int), name@),
        decreases params.len() - i,
    {
        assert(ps.skip(i as int).drop_first() =~= ps.skip(i + 1));
        if crate::text::str_eq_chars(params[i].0.as_str(), k.as_slice()) {
            return Ok(params[i].1.clone());
        }
        i += 1;
    }
    Err(FrameworkError::Extractor(ExtractorError::Missing(name.to_string())))
}

/// The first value of a query key, or a missing-field error.
pub fn query_param(query: &Vec<(String, Vec<String>)>, name: &str) -> (r: Result<String, FrameworkError>)
    ensures
        match first_query_value(query_pairs(query@), name@) {
            Some(v) => r matches Ok(x) && x@ == v,
            None => r matches Err(FrameworkError::Extractor(ExtractorError::Missing(f))) && f@ == name@,
        },
{
    match find_query(query, name) {
        Some(i) => {
            if query[i].1.len() > 0 {
                assert(query_pairs(query@)[i as int].1[0] == query@[i as int].1@[0]@);
                return Ok(query[i].1[0].clone());
            }
        },
        None => {},
    }
    Err(FrameworkError::Extractor(ExtractorError::Missing(name.to_string())))
}

/// A handler's header parameter name as a header name: lowercase, with
/// `_` turned into `-`.
pub open spec fn spec_header_name(name: Seq<char>) -> Seq<char> {
    ascii_lower(name).map_values(|c: char| if c == '_' {
        '-'
    } else {
        c
    })
}

/// Turns a handler's parameter name into a header name.
pub fn normalize_header_name(name: &str) -> (r: String)
    ensures
        r@ == spec_header_name(name@),
{
    let low = crate::text::ascii_lower_chars(chars_of(name).as_slice());
    let mut out: Vec<char> = Vec::new();
    let mut i: usize = 0;
    while i < low.len()
        invariant
            i <= low.len(),
            low@ == ascii_lower(name@),
            out@ == low@.take(i as int).map_values(|c: char| if c == '_' {
                '-'
            } else {
                c
            }),
        decreases low.len() - i,
    {
        let c = if low[i] == '_' {
            '-'
        } else {
            low[i]
        };
        out.push(c);
        assert(out@ =~= low@.take(i + 1).map_values(|c: char| if c == '_' {
            '-'
        } else {
            c
        }));
        i += 1;
    }
    assert(low@.take(low.len() as int) =~= low@);
    string_of(out.as_slice())
}

/// All values stored under a header name, in order.
pub open spec fn all_fields(h: Seq<(Seq<char>, Seq<char>)>, name: Seq<char>) -> Seq<Seq<char>>
    decreases h.len(),
{
    if h.len() == 0 {
        Seq::empty()
    } else {
        let rest = all_fields(h.drop_last(), name);
        if h.last().0 == name {
            rest.push(h.last().1)
        } else {
            rest
        }
    }
}

/// The values of a header for an extractor: none for a name that is not a
/// header name; a value that is not visible ASCII, or more than one value,
/// fails to parse.
pub open spec fn spec_extractor_header(h: Seq<(Seq<char>, Seq<char>)>, name: Seq<char>) -> Result<Option<Seq<char>>, ()> {
    if !valid_header_name(name) {
        Ok(None)
    } else {
        let vals = all_fields(h, ascii_lower(name));
        if exists|i: int| 0 <= i < vals.len() && !visible_header_value(#[trigger] vals[i]) {
            Err(())
        } else if vals.len() > 1 {
            Err(())
        } else if vals.len() == 0 {
            Ok(None)
        } else {
            Ok(Some(vals[0]))
        }
    }
}

/// The single value of a header for an extractor; the error names the
/// header.
pub fn extractor_header_value(request: &Request, name: &str) -> (r: Result<Option<String>, FrameworkError>)
    ensures
        match spec_extractor_header(request@.headers, name@) {
            Ok(Some(v)) => r matches Ok(Some(x)) && x@ == v,
            Ok(None) => r matches Ok(None),
            Err(()) => r matches Err(FrameworkError::Extractor(ExtractorError::ParseFailed(f))) && f@
                == name@,
        },
{
    let nc = chars_of(name);
    if !crate::http::header_name_ok(nc.as_slice()) {
        return Ok(None);
    }
    let key = crate::text::ascii_lower_chars(nc.as_slice());
    let ghost hs = request@.headers;
    let mut vals: Vec<String> = Vec::new();
    let mut all_visible = true;
    let mut i: usize = 0;
    assert(hs.take(0) =~= Seq::<(Seq<char>, Seq<char>)>::empty());
    while i < request.headers.len()
        invariant
            i <= request.headers.len(),
            hs == request@.headers,
            hs.len() == request.headers@.len(),
            key@ == ascii_lower(name@),
            vals@.map_values(|s: String| s@) == all_fields(hs.take(i as int), key@),
            all_visible == forall|j: int|
                0 <= j < vals@.len() ==> visible_header_value(#[trigger] vals@[j]@),
        decreases request.headers.len() - i,
    {
        assert(hs.take(i + 1).drop_last() =~= hs.take(i as int));
        assert(hs[i as int] == (request.headers@[i as int].0@, request.headers@[i as int].1@));
        if crate::text::str_eq_chars(request.headers[i].0.as_str(), key.as_slice()) {
            let v = request.headers[i].1.clone();
            let visible = crate::http::header_value_visible(chars_of(v.as_str()).as_slice());
            let ghost pre = vals@;
            let ghost vv = v@;
            let ghost was = all_visible;
            vals.push(v);
            assert(vals@.map_values(|s: String| s@) =~= pre.map_values(|s: String| s@).push(
                hs[i as int].1,
            ));
            all_visible = all_visible && visible;
            proof {
                assert(vals@[pre.len() as int]@ == vv);
                if all_visible {
                    assert forall|j: int| 0 <= j < vals@.len() implies visible_header_value(
                        #[trigger] vals@[j]@,
                    ) by {
                        if j < pre.len() {
                            assert(vals@[j] == pre[j]);
                        }
                    }
                } else if !was {
                    let j = choose|j: int| 0 <= j < pre.len() && !visible_header_value(#[trigger] pre[j]@);
                    assert(vals@[j] == pre[j]);
                }
            }
        }
        i += 1;
    }
    assert(hs.take(request.headers.len() as int) =~= hs);
    let ghost fs = all_fields(hs, key@);
    assert(fs.len() == vals@.len());
    assert forall|j: int| 0 <= j < vals@.len() implies fs[j] == #[trigger] vals@[j]@ by {}
    if !all_visible || vals.len() > 1 {
        return Err(FrameworkError::Extractor(ExtractorError::ParseFailed(name.to_string())));
    }
    if vals.len() == 0 {
        return Ok(None);
    }
    Ok(Some(vals[0].clone()))
}

/// The body as text for a text extractor; a body that is not UTF-8 fails
/// to parse as `body`.
pub fn text_body(request: &Request) -> (r: Result<TextBody, FrameworkError>)
    ensures
        vstd::utf8::valid_utf8(request@.body) ==> (r matches Ok(t) && t.0@ == vstd::utf8::decode_utf8(
            request@.body,
        )),
        !vstd::utf8::valid_utf8(request@.body) ==> (r matches Err(
            FrameworkError::Extractor(ExtractorError::ParseFailed(f)),
        ) && f@ == "body"@),
{
    match request.body_str() {
        Some(s) => Ok(TextBody(s)),
        None => Err(FrameworkError::Extractor(ExtractorError::ParseFailed("body".to_string()))),
    }
}

/// The error for a value that did not parse into the handler's type.
pub fn parse_failed(name: &str) -> (r: FrameworkError)
    ensures
        r matches FrameworkError::Extractor(ExtractorError::ParseFailed(f)) && f@ == name@,
{
    FrameworkError::Extractor(ExtractorError::ParseFailed(name.to_string()))
}

// ---------------------------------------------------------------------------
// Handler results
// ---------------------------------------------------------------------------
/// Conversion of a handler's return value into a response.
pub trait IntoResponse {
    fn into_response(self) -> Result<Response, FrameworkError>;
}

impl IntoResponse for Response {
    /// A response is itself.
    fn into_response(self) -> (r: Result<Response, FrameworkError>)
        ensures
            r matches Ok(x) && x@ == self@,
    {
        Ok(self)
    }
}

impl IntoResponse for FrameworkError {
    /// An error is answered with its response.
    fn into_response(self) -> (r: Result<Response, FrameworkError>)
        ensures
            r matches Ok(x) && x@ == crate::errors::framework_error_response(self),
    {
        Ok(self.to_response())
    }
}

impl IntoResponse for HttpError {
    /// An HTTP error is answered with its response.
    fn into_response(self) -> (r: Result<Response, FrameworkError>)
        ensures
            r matches Ok(x) && x@ == crate::http::spec_response_from_error(
                self.status_code,
                self.status_text@,
                self.message@,
            ),
    {
        Ok(self.to_response())
    }
}

/// The older name of the conversion of a handler's return value.
pub trait IntoHandlerResult {
    fn into_handler_result(self) -> Result<Response, FrameworkError>;
}

impl<T: IntoResponse> IntoHandlerResult for T {
    /// The conversion is the value's own `into_response`: its result is one
    /// that `into_response` gives for the same value.
    fn into_handler_result(self) -> (r: Result<Response, FrameworkError>)
        ensures
            call_ensures(T::into_response, (self,), r),
    {
        self.into_response()
    }
}

} // verus!
