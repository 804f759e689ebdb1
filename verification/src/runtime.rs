//! The decisions of the request runtime: counters, limits, request
//! normalization, content-type contracts and the routing step. The server
//! loop, timers and sockets drive these from outside.
use vstd::prelude::*;

use crate::errors::{is_bad_request, is_http_error, FrameworkError, HttpError};
use crate::http::{spec_response_from_error, spec_with_header, Method, Response, ResponseModel};
use crate::request::{spec_header_values, Request};
use crate::routing::{
    format_allow_header, method_models, spec_allow_header, spec_required_content_type,
    RequestBodyKind, RouteContract, RouteMatch, RouteResolution, RouteTable,
};
use crate::text::{
    ascii_lower, ascii_lower_chars, chars_of, contains_char, split, split_chars, string_of, trim,
    trim_chars,
};

verus! {

// ---------------------------------------------------------------------------
// Counters
// ---------------------------------------------------------------------------
/// A point-in-time copy of the runtime counters and gauges.
#[derive(Clone, Copy, Debug, PartialEq, Eq, Structural)]
pub struct RuntimeSnapshot {
    pub started_at_unix: u64,
    pub concurrency_limit: usize,
    pub active_connections: usize,
    pub active_requests: usize,
    pub total_requests: u64,
    pub limiter_saturated_total: u64,
    pub rate_limit_rejections_total: u64,
    pub request_timeout_total: u64,
    pub read_timeout_total: u64,
    pub handler_timeout_total: u64,
    pub method_not_allowed_total: u64,
    pub content_type_rejections_total: u64,
    pub body_rejections_total: u64,
}

/// Runtime counters and gauges of a host.
#[derive(Debug)]
pub struct RuntimeState {
    counters: RuntimeSnapshot,
}

impl View for RuntimeState {
    type V = RuntimeSnapshot;

    closed spec fn view(&self) -> RuntimeSnapshot {
        self.counters
    }
}

/// A counter after one more event; counters wrap around.
pub open spec fn bumped(x: u64) -> u64 {
    if x == u64::MAX {
        0
    } else {
        (x + 1) as u64
    }
}

/// A gauge after one more; gauges wrap around.
pub open spec fn gauge_up(x: usize) -> usize {
    if x == usize::MAX {
        0
    } else {
        (x + 1) as usize
    }
}

/// A gauge after one fewer; gauges wrap around.
pub open spec fn gauge_down(x: usize) -> usize {
    if x == 0 {
        usize::MAX
    } else {
        (x - 1) as usize
    }
}

fn bump(x: u64) -> (r: u64)
    ensures
        r == bumped(x),
{
    if x == u64::MAX {
        0
    } else {
        x + 1
    }
}

/// All counters at zero.
pub open spec fn zero_snapshot() -> RuntimeSnapshot {
    RuntimeSnapshot {
        started_at_unix: 0,
        concurrency_limit: 0,
        active_connections: 0,
        active_requests: 0,
        total_requests: 0,
        limiter_saturated_total: 0,
        rate_limit_rejections_total: 0,
        request_timeout_total: 0,
        read_timeout_total: 0,
        handler_timeout_total: 0,
        method_not_allowed_total: 0,
        content_type_rejections_total: 0,
        body_rejections_total: 0,
    }
}

impl Default for RuntimeState {
    fn default() -> (r: Self)
        ensures
            r@ == zero_snapshot(),
    {
        RuntimeState {
            counters: RuntimeSnapshot {
                started_at_unix: 0,
                concurrency_limit: 0,
                active_connections: 0,
                active_requests: 0,
                total_requests: 0,
                limiter_saturated_total: 0,
                rate_limit_rejections_total: 0,
                request_timeout_total: 0,
                read_timeout_total: 0,
                handler_timeout_total: 0,
                method_not_allowed_total: 0,
                content_type_rejections_total: 0,
                body_rejections_total: 0,
            },
        }
    }
}

impl RuntimeState {
    /// The current counters.
    pub fn snapshot(&self) -> (r: RuntimeSnapshot)
        ensures
            r == self@,
    {
        self.counters
    }

    /// Records the start of serving: the clock time and concurrency limit.
    pub fn mark_started(&mut self, concurrency_limit: usize, now_unix: u64)
        ensures
            final(self)@ == (RuntimeSnapshot {
                started_at_unix: now_unix,
                concurrency_limit,
                ..old(self)@
            }),
    {
        self.counters.started_at_unix = now_unix;
        self.counters.concurrency_limit = concurrency_limit;
    }

    /// Counts a received request.
    pub fn record_request(&mut self)
        ensures
            final(self)@ == (RuntimeSnapshot {
                total_requests: bumped(old(self)@.total_requests),
                ..old(self)@
            }),
    {
        self.counters.total_requests = bump(self.counters.total_requests);
    }

    /// Counts a request that waited for the concurrency limiter.
    pub fn record_limiter_saturated(&mut self)
        ensures
            final(self)@ == (RuntimeSnapshot {
                limiter_saturated_total: bumped(old(self)@.limiter_saturated_total),
                ..old(self)@
            }),
    {
        self.counters.limiter_saturated_total = bump(self.counters.limiter_saturated_total);
    }

    /// Counts a request refused by the rate limiter.
    pub fn record_rate_limit_rejection(&mut self)
        ensures
            final(self)@ == (RuntimeSnapshot {
                rate_limit_rejections_total: bumped(old(self)@.rate_limit_rejections_total),
                ..old(self)@
            }),
    {
        self.counters.rate_limit_rejections_total = bump(self.counters.rate_limit_rejections_total);
    }

    /// Counts a request that exceeded the overall request timeout.
    pub fn record_request_timeout(&mut self)
        ensures
            final(self)@ == (RuntimeSnapshot {
                request_timeout_total: bumped(old(self)@.request_timeout_total),
                ..old(self)@
            }),
    {
        self.counters.request_timeout_total = bump(self.counters.request_timeout_total);
    }

    /// Counts a request whose reading timed out.
    pub fn record_read_timeout(&mut self)
        ensures
            final(self)@ == (RuntimeSnapshot {
                read_timeout_total: bumped(old(self)@.read_timeout_total),
                ..old(self)@
            }),
    {
        self.counters.read_timeout_total = bump(self.counters.read_timeout_total);
    }

    /// Counts a request whose handler timed out.
    pub fn record_handler_timeout(&mut self)
        ensures
            final(self)@ == (RuntimeSnapshot {
                handler_timeout_total: bumped(old(self)@.handler_timeout_total),
                ..old(self)@
            }),
    {
        self.counters.handler_timeout_total = bump(self.counters.handler_timeout_total);
    }

    /// Counts a `405 Method Not Allowed` answer.
    pub fn record_method_not_allowed(&mut self)
        ensures
            final(self)@ == (RuntimeSnapshot {
                method_not_allowed_total: bumped(old(self)@.method_not_allowed_total),
                ..old(self)@
            }),
    {
        self.counters.method_not_allowed_total = bump(self.counters.method_not_allowed_total);
    }

    /// Counts a request refused for its body.
    pub fn record_body_rejection(&mut self)
        ensures
            final(self)@ == (RuntimeSnapshot {
                body_rejections_total: bumped(old(self)@.body_rejections_total),
                ..old(self)@
            }),
    {
        self.counters.body_rejections_total = bump(self.counters.body_rejections_total);
    }

    /// Counts a request refused for its content type.
    pub fn record_content_type_rejection(&mut self)
        ensures
            final(self)@ == (RuntimeSnapshot {
                content_type_rejections_total: bumped(old(self)@.content_type_rejections_total),
                ..old(self)@
            }),
    {
        self.counters.content_type_rejections_total = bump(
            self.counters.content_type_rejections_total,
        );
    }

    /// Counts an opened connection.
    pub fn connection_opened(&mut self)
        ensures
            final(self)@ == (RuntimeSnapshot {
                active_connections: gauge_up(old(self)@.active_connections),
                ..old(self)@
            }),
    {
        let c = self.counters.active_connections;
        self.counters.active_connections = if c == usize::MAX {
            0
        } else {
            c + 1
        };
    }

    /// Counts a closed connection.
    pub fn connection_closed(&mut self)
        ensures
            final(self)@ == (RuntimeSnapshot {
                active_connections: gauge_down(old(self)@.active_connections),
                ..old(self)@
            }),
    {
        let c = self.counters.active_connections;
        self.counters.active_connections = if c == 0 {
            usize::MAX
        } else {
            c - 1
        };
    }

    /// Counts a request entering its handler.
    pub fn request_started(&mut self)
        ensures
            final(self)@ == (RuntimeSnapshot {
                active_requests: gauge_up(old(self)@.active_requests),
                ..old(self)@
            }),
    {
        let c = self.counters.active_requests;
        self.counters.active_requests = if c == usize::MAX {
            0
        } else {
            c + 1
        };
    }

    /// Counts a request leaving its handler.
    pub fn request_finished(&mut self)
        ensures
            final(self)@ == (RuntimeSnapshot {
                active_requests: gauge_down(old(self)@.active_requests),
                ..old(self)@
            }),
    {
        let c = self.counters.active_requests;
        self.counters.active_requests = if c == 0 {
            usize::MAX
        } else {
            c - 1
        };
    }
}

/// What a route-contract refusal adds to the counters: a `415` counts as a
/// content-type rejection, a `400` as a body rejection.
pub open spec fn after_contract_error(s: RuntimeSnapshot, e: FrameworkError) -> RuntimeSnapshot {
    match e {
        FrameworkError::Http(h) => if h.status_code == 415 {
            RuntimeSnapshot {
                content_type_rejections_total: bumped(s.content_type_rejections_total),
                ..s
            }
        } else if h.status_code == 400 {
            RuntimeSnapshot { body_rejections_total: bumped(s.body_rejections_total), ..s }
        } else {
            s
        },
        _ => s,
    }
}

/// Counts a route-contract refusal.
pub fn record_contract_error(runtime_state: &mut RuntimeState, error: &FrameworkError)
    ensures
        final(runtime_state)@ == after_contract_error(old(runtime_state)@, *error),
{
    match error {
        FrameworkError::Http(e) => {
            if e.status_code == 415 {
                runtime_state.record_content_type_rejection();
            } else if e.status_code == 400 {
                runtime_state.record_body_rejection();
            }
        },
        _ => {},
    }
}

/// Counts a `405 Method Not Allowed` answer.
pub fn record_method_not_allowed(runtime_state: &mut RuntimeState)
    ensures
        final(runtime_state)@ == (RuntimeSnapshot {
            method_not_allowed_total: bumped(old(runtime_state)@.method_not_allowed_total),
            ..old(runtime_state)@
        }),
{
    runtime_state.record_method_not_allowed();
}

// ---------------------------------------------------------------------------
// Rate-limiter housekeeping
// ---------------------------------------------------------------------------
/// `a * b`, or `u64::MAX` when it does not fit.
pub open spec fn saturating_product(a: u64, b: u64) -> u64 {
    if a * b > u64::MAX {
        u64::MAX
    } else {
        (a * b) as u64
    }
}

/// How often idle rate-limit buckets are pruned, in seconds: four refill
/// intervals (counted as at least one second), and at least 30 seconds.
pub open spec fn spec_cleanup_interval(refill_secs: u64) -> u64 {
    let m = saturating_product(if refill_secs == 0 { 1 } else { refill_secs }, 4);
    if m < 30 {
        30
    } else {
        m
    }
}

/// How long a full bucket may stay idle before it is pruned, in seconds:
/// sixteen refill intervals (counted as at least one second), and at least
/// 60 seconds.
pub open spec fn spec_idle_ttl(refill_secs: u64) -> u64 {
    let m = saturating_product(if refill_secs == 0 { 1 } else { refill_secs }, 16);
    if m < 60 {
        60
    } else {
        m
    }
}

fn saturating_times(a: u64, b: u64) -> (r: u64)
    requires
        b > 0,
    ensures
        r == saturating_product(a, b),
{
    if a > u64::MAX / b {
        proof {
            assert(a * b > u64::MAX) by (nonlinear_arith)
                requires
                    a > u64::MAX / b,
                    b > 0,
            ;
        }
        u64::MAX
    } else {
        proof {
            assert(a * b <= u64::MAX) by (nonlinear_arith)
                requires
                    a <= u64::MAX / b,
                    b > 0,
            ;
        }
        a * b
    }
}

/// The interval between prunings of idle rate-limit buckets, in seconds.
pub fn cleanup_interval_secs(refill_interval_secs: u64) -> (r: u64)
    ensures
        r == spec_cleanup_interval(refill_interval_secs),
{
    let s = if refill_interval_secs == 0 {
        1
    } else {
        refill_interval_secs
    };
    let m = saturating_times(s, 4);
    if m < 30 {
        30
    } else {
        m
    }
}

/// The idle time after which a full rate-limit bucket is pruned, in seconds.
pub fn idle_bucket_ttl(refill_interval_secs: u64) -> (r: u64)
    ensures
        r == spec_idle_ttl(refill_interval_secs),
{
    let s = if refill_interval_secs == 0 {
        1
    } else {
        refill_interval_secs
    };
    let m = saturating_times(s, 16);
    if m < 60 {
        60
    } else {
        m
    }
}

/// Adds a chunk of a request body as it arrives, refusing a body that
/// grows past the limit with `413`; the bytes so far are then unchanged.
pub fn append_body_chunk(collected: &mut Vec<u8>, chunk: &[u8], max_request_bytes: usize) -> (r: Result<
    (),
    FrameworkError,
>)
    ensures
        old(collected)@.len() + chunk@.len() > max_request_bytes ==> (r matches Err(e) && is_http_error(
            e,
            413,
            "Payload Too Large"@,
            "request exceeds maximum allowed size"@,
        )) && final(collected)@ == old(collected)@,
        old(collected)@.len() + chunk@.len() <= max_request_bytes ==> r is Ok && final(collected)@
            == old(collected)@ + chunk@,
{
    if collected.len() > max_request_bytes || chunk.len() > max_request_bytes - collected.len() {
        return Err(
            FrameworkError::Http(HttpError::payload_too_large("request exceeds maximum allowed size")),
        );
    }
    let ghost before = collected@;
    let mut i: usize = 0;
    while i < chunk.len()
        invariant
            i <= chunk.len(),
            collected@ == before + chunk@.take(i as int),
        decreases chunk.len() - i,
    {
        collected.push(chunk[i]);
        assert(chunk@.take(i + 1) =~= chunk@.take(i as int).push(chunk@[i as int]));
        i += 1;
    }
    assert(chunk@.take(chunk.len() as int) =~= chunk@);
    Ok(())
}

/// Whether idle rate-limit buckets are due for pruning: there are at least
/// 4096 of them, and a cleanup interval has passed since the last pruning
/// (a clock that went back counts as no time passed).
pub open spec fn spec_prune_due(bucket_count: usize, now_unix: u64, last_cleanup_unix: u64, refill_secs: u64) -> bool {
    &&& bucket_count >= 4096
    &&& (if now_unix >= last_cleanup_unix {
        now_unix - last_cleanup_unix
    } else {
        0
    }) >= spec_cleanup_interval(refill_secs)
}

/// Whether idle rate-limit buckets are due for pruning.
pub fn prune_due(bucket_count: usize, now_unix: u64, last_cleanup_unix: u64, refill_interval_secs: u64) -> (r: bool)
    ensures
        r == spec_prune_due(bucket_count, now_unix, last_cleanup_unix, refill_interval_secs),
{
    if bucket_count < 4096 {
        return false;
    }
    let elapsed = now_unix.saturating_sub(last_cleanup_unix);
    elapsed >= cleanup_interval_secs(refill_interval_secs)
}

// ---------------------------------------------------------------------------
// Limits before middleware
// ---------------------------------------------------------------------------
/// Refuses a request whose body exceeds the limit, counting the refusal.
pub fn check_body_size(request: &Request, max_body_size: usize, runtime_state: &mut RuntimeState) -> (r:
    Result<(), FrameworkError>)
    ensures
        request@.body.len() > max_body_size ==> (r matches Err(e) && is_http_error(
            e,
            413,
            "Payload Too Large"@,
            "request exceeds maximum allowed size"@,
        )) && final(runtime_state)@ == (RuntimeSnapshot {
            body_rejections_total: bumped(old(runtime_state)@.body_rejections_total),
            ..old(runtime_state)@
        }),
        request@.body.len() <= max_body_size ==> r is Ok && final(runtime_state)@ == old(
            runtime_state,
        )@,
{
    if request.body.len() > max_body_size {
        runtime_state.record_body_rejection();
        return Err(
            FrameworkError::Http(HttpError::payload_too_large("request exceeds maximum allowed size")),
        );
    }
    Ok(())
}

/// Applies the rate limiter's verdict on a request's client, counting a
/// refusal.
pub fn check_rate_limit(admitted: bool, runtime_state: &mut RuntimeState) -> (r: Result<(), FrameworkError>)
    ensures
        admitted ==> r is Ok && final(runtime_state)@ == old(runtime_state)@,
        !admitted ==> (r matches Err(e) && is_http_error(
            e,
            429,
            "Too Many Requests"@,
            "too many requests"@,
        )) && final(runtime_state)@ == (RuntimeSnapshot {
            rate_limit_rejections_total: bumped(old(runtime_state)@.rate_limit_rejections_total),
            ..old(runtime_state)@
        }),
{
    if !admitted {
        runtime_state.record_rate_limit_rejection();
        return Err(FrameworkError::Http(HttpError::too_many_requests("too many requests")));
    }
    Ok(())
}

/// The limits checked before middleware: the body size first, then the
/// rate limiter's verdict on the client (`None` where there is no limiter
/// or no client address); a refusal is counted.
pub fn enforce_pre_middleware_limits(
    request: &Request,
    max_body_size: usize,
    admitted: Option<bool>,
    runtime_state: &mut RuntimeState,
) -> (r: Result<(), FrameworkError>)
    ensures
        request@.body.len() > max_body_size ==> (r matches Err(e) && is_http_error(
            e,
            413,
            "Payload Too Large"@,
            "request exceeds maximum allowed size"@,
        )) && final(runtime_state)@ == (RuntimeSnapshot {
            body_rejections_total: bumped(old(runtime_state)@.body_rejections_total),
            ..old(runtime_state)@
        }),
        request@.body.len() <= max_body_size && admitted == Some(false) ==> (r matches Err(e)
            && is_http_error(e, 429, "Too Many Requests"@, "too many requests"@))
            && final(runtime_state)@ == (RuntimeSnapshot {
            rate_limit_rejections_total: bumped(old(runtime_state)@.rate_limit_rejections_total),
            ..old(runtime_state)@
        }),
        request@.body.len() <= max_body_size && admitted != Some(false) ==> r is Ok
            && final(runtime_state)@ == old(runtime_state)@,
{
    match check_body_size(request, max_body_size, runtime_state) {
        Ok(()) => {},
        Err(e) => {
            return Err(e);
        },
    }
    match admitted {
        Some(verdict) => check_rate_limit(verdict, runtime_state),
        None => Ok(()),
    }
}

// ---------------------------------------------------------------------------
// Route contracts
// ---------------------------------------------------------------------------
/// The non-blank `Content-Type` values of a request, trimmed.
pub open spec fn content_type_values(vals: Seq<Seq<char>>) -> Seq<Seq<char>>
    decreases vals.len(),
{
    if vals.len() == 0 {
        Seq::empty()
    } else {
        let rest = content_type_values(vals.drop_last());
        if trim(vals.last()).len() == 0 {
            rest
        } else {
            rest.push(trim(vals.last()))
        }
    }
}

/// The media type of a request: none without a `Content-Type`; refused
/// when there are several, or when the part before any `;`, trimmed and
/// lowercased, is empty or has no `/`.
pub open spec fn spec_content_type(r: crate::request::RequestModel) -> Result<Option<Seq<char>>, Seq<char>> {
    let vals = content_type_values(spec_header_values(r.headers, "content-type"@));
    if vals.len() == 0 {
        Ok(None)
    } else if vals.len() > 1 {
        Err("duplicate content-type headers are not allowed"@)
    } else {
        let media = ascii_lower(trim(split(vals[0], ';')[0]));
        if media.len() == 0 || !media.contains('/') {
            Err("content-type header is invalid"@)
        } else {
            Ok(Some(media))
        }
    }
}

/// The media type of a request's `Content-Type`, lowercased without
/// parameters.
pub fn extract_content_type(request: &Request) -> (r: Result<Option<String>, FrameworkError>)
    ensures
        match spec_content_type(request@) {
            Ok(Some(m)) => r matches Ok(Some(x)) && x@ == m,
            Ok(None) => r matches Ok(None),
            Err(msg) => r matches Err(e) && is_bad_request(e, msg),
        },
{
    let raw = request.header_values("content-type");
    let ghost rv = spec_header_values(request@.headers, "content-type"@);
    let mut values: Vec<Vec<char>> = Vec::new();
    let mut i: usize = 0;
    assert(rv.take(0) =~= Seq::<Seq<char>>::empty());
    while i < raw.len()
        invariant
            i <= raw.len(),
            raw@.map_values(|s: String| s@) == rv,
            values@.map_values(|v: Vec<char>| v@) == content_type_values(rv.take(i as int)),
        decreases raw.len() - i,
    {
        assert(rv.take(i + 1).drop_last() =~= rv.take(i as int));
        assert(rv[i as int] == raw@[i as int]@);
        let t = trim_chars(chars_of(raw[i].as_str()).as_slice());
        if t.len() > 0 {
            let ghost pre = values@;
            values.push(t);
            assert(values@.map_values(|v: Vec<char>| v@) =~= pre.map_values(|v: Vec<char>| v@).push(
                trim(rv[i as int]),
            ));
        }
        i += 1;
    }
    assert(rv.take(raw.len() as int) =~= rv);
    let ghost vs = content_type_values(rv);
    if values.len() == 0 {
        return Ok(None);
    }
    if values.len() > 1 {
        return Err(
            FrameworkError::Http(
                HttpError::bad_request("duplicate content-type headers are not allowed"),
            ),
        );
    }
    assert(values@[0]@ == vs[0]);
    let parts = split_chars(values[0].as_slice(), ';');
    proof {
        crate::text::lemma_split_nonempty(vs[0], ';');
    }
    let media = ascii_lower_chars(trim_chars(parts[0].as_slice()).as_slice());
    if media.len() == 0 || !contains_char(media.as_slice(), '/') {
        return Err(FrameworkError::Http(HttpError::bad_request("content-type header is invalid")));
    }
    Ok(Some(string_of(media.as_slice())))
}

/// What a route's contract says of a request: no body for a route without
/// one; for a text or JSON route, the matching media type (a missing one,
/// or another, is a `415`).
pub open spec fn contract_outcome(r: crate::request::RequestModel, c: RouteContract, out: Result<(), FrameworkError>) -> bool {
    match c.body {
        RequestBodyKind::NoBody => if r.body.len() > 0 {
            out matches Err(e) && is_bad_request(e, "request body is not allowed for this route"@)
        } else {
            out is Ok
        },
        RequestBodyKind::Bytes => out is Ok,
        _ => {
            let expected = spec_required_content_type(c.body)->0;
            match spec_content_type(r) {
                Err(msg) => out matches Err(e) && is_bad_request(e, msg),
                Ok(None) => out matches Err(e) && is_http_error(
                    e,
                    415,
                    "Unsupported Media Type"@,
                    "missing content-type header"@,
                ),
                Ok(Some(m)) => if m == expected {
                    out is Ok
                } else {
                    out matches Err(e) && is_http_error(
                        e,
                        415,
                        "Unsupported Media Type"@,
                        "expected content-type "@ + expected,
                    )
                },
            }
        },
    }
}

/// Checks a request against its route's body contract.
pub fn enforce_route_contract(request: &Request, contract: RouteContract) -> (r: Result<(), FrameworkError>)
    ensures
        contract_outcome(request@, contract, r),
{
    match contract.body {
        RequestBodyKind::NoBody => {
            if request.body.len() > 0 {
                return Err(
                    FrameworkError::Http(
                        HttpError::bad_request("request body is not allowed for this route"),
                    ),
                );
            }
            Ok(())
        },
        RequestBodyKind::Bytes => Ok(()),
        _ => {
            let expected = match contract.required_content_type() {
                Some(t) => t,
                None => "",
            };
            let media = match extract_content_type(request) {
                Err(e) => {
                    return Err(e);
                },
                Ok(None) => {
                    return Err(
                        FrameworkError::Http(
                            HttpError::unsupported_media_type("missing content-type header"),
                        ),
                    );
                },
                Ok(Some(m)) => m,
            };
            let mc = chars_of(media.as_str());
            if crate::text::str_eq_chars(expected, mc.as_slice()) {
                Ok(())
            } else {
                let mut msg = chars_of("expected content-type ");
                crate::text::extend_str(&mut msg, expected);
                let m = string_of(msg.as_slice());
                Err(FrameworkError::Http(HttpError::unsupported_media_type(m.as_str())))
            }
        },
    }
}

// ---------------------------------------------------------------------------
// Responses of the runtime
// ---------------------------------------------------------------------------
/// The `405` answer: the error response with an `Allow` header listing the
/// methods that would match.
pub open spec fn spec_method_not_allowed(allow: Seq<crate::http::MethodModel>) -> ResponseModel {
    spec_with_header(
        spec_response_from_error(405, "Method Not Allowed"@, "method not allowed"@),
        "Allow"@,
        spec_allow_header(allow),
    )
}

/// The `405 Method Not Allowed` response for the allowed methods.
pub fn method_not_allowed_response(allow: &[Method]) -> (r: Response)
    ensures
        r@ == spec_method_not_allowed(method_models(allow@)),
{
    let header = format_allow_header(allow);
    HttpError::method_not_allowed("method not allowed").to_response().with_header(
        "Allow",
        header.as_str(),
    )
}

/// The `408 Request Timeout` response.
pub fn request_timeout_response() -> (r: Response)
    ensures
        r@ == spec_response_from_error(408, "Request Timeout"@, "408 Request Timeout"@),
{
    Response::from_error(408, "Request Timeout", "408 Request Timeout")
}

/// The step after routing: answer at once, or run the matched route.
pub enum RouteStep {
    Respond(Response),
    Handle(RouteMatch),
}

/// Whether a step answers with this response.
pub open spec fn responds_with(r: RouteStep, m: ResponseModel) -> bool {
    r matches RouteStep::Respond(resp) && resp@ == m
}

/// Whether a step runs the route with this handler, parameters and
/// template.
pub open spec fn runs_route(r: RouteStep, handler: usize, params: Seq<(Seq<char>, Seq<char>)>, pattern: Seq<char>) -> bool {
    r matches RouteStep::Handle(m) && m.handler == handler && crate::config::entry_pairs(
        m.path_params@,
    ) == params && m.route_pattern@ == pattern
}

/// What routing a request does: the step and the counters after it.
pub open spec fn route_step_outcome(
    res: crate::routing::ResolutionModel,
    req: crate::request::RequestModel,
    before: RuntimeSnapshot,
    r: RouteStep,
    after: RuntimeSnapshot,
) -> bool {
    match res {
        crate::routing::ResolutionModel::NotFound => responds_with(
            r,
            spec_response_from_error(404, "Not Found"@, "404 Not Found"@),
        ) && after == before,
        crate::routing::ResolutionModel::MethodNotAllowed { allow } => responds_with(
            r,
            spec_method_not_allowed(allow),
        ) && after == (RuntimeSnapshot {
            method_not_allowed_total: bumped(before.method_not_allowed_total),
            ..before
        }),
        crate::routing::ResolutionModel::Matched { handler, params, pattern, contract } => {
            &&& contract_outcome(req, contract, Ok(())) ==> runs_route(r, handler, params, pattern)
                && after == before
            &&& !contract_outcome(req, contract, Ok(())) ==> exists|e: FrameworkError|
                #[trigger] contract_outcome(req, contract, Err(e)) && responds_with(
                    r,
                    crate::errors::framework_error_response(e),
                ) && after == after_contract_error(before, e)
        },
    }
}

/// Resolves a request to its route and checks the route's contract: a
/// `405` (counted) or `404` is answered at once, and so is a contract
/// refusal (counted); otherwise the matched route is run.
pub fn route_request(router: &RouteTable, request: &Request, runtime_state: &mut RuntimeState) -> (r: RouteStep)
    ensures
        route_step_outcome(
            crate::routing::spec_resolve(router@, request@.method, request@.path),
            request@,
            old(runtime_state)@,
            r,
            final(runtime_state)@,
        ),
{
    match router.resolve(&request.method, request.path.as_str()) {
        RouteResolution::NotFound => RouteStep::Respond(Response::not_found()),
        RouteResolution::MethodNotAllowed { allow } => {
            runtime_state.record_method_not_allowed();
            RouteStep::Respond(method_not_allowed_response(allow.as_slice()))
        },
        RouteResolution::Matched(route) => {
            match enforce_route_contract(request, route.contract) {
                Ok(()) => RouteStep::Handle(route),
                Err(e) => {
                    record_contract_error(runtime_state, &e);
                    let resp = e.to_response();
                    RouteStep::Respond(resp)
                },
            }
        },
    }
}

// ---------------------------------------------------------------------------
// Normalizing requests read by the server
// ---------------------------------------------------------------------------
/// The HTTP versions a server reads requests in.
#[derive(Clone, Copy, Debug, PartialEq, Eq, Structural)]
pub enum HttpVersion {
    Http09,
    Http10,
    Http11,
    Http2,
    Http3,
}

/// The text of a version.
pub open spec fn version_text(v: HttpVersion) -> Seq<char> {
    match v {
        HttpVersion::Http09 => "HTTP/0.9"@,
        HttpVersion::Http10 => "HTTP/1.0"@,
        HttpVersion::Http11 => "HTTP/1.1"@,
        HttpVersion::Http2 => "HTTP/2"@,
        HttpVersion::Http3 => "HTTP/3"@,
    }
}

/// The text of a version, as requests carry it.
pub fn normalize_version(version: HttpVersion) -> (r: String)
    ensures
        r@ == version_text(version),
{
    match version {
        HttpVersion::Http09 => "HTTP/0.9".to_string(),
        HttpVersion::Http10 => "HTTP/1.0".to_string(),
        HttpVersion::Http11 => "HTTP/1.1".to_string(),
        HttpVersion::Http2 => "HTTP/2".to_string(),
        HttpVersion::Http3 => "HTTP/3".to_string(),
    }
}

/// Whether a header value's bytes are visible ASCII or tabs (what
/// `HeaderValue::to_str` accepts).
pub open spec fn visible_bytes(v: Seq<u8>) -> bool {
    forall|i: int| 0 <= i < v.len() ==> (#[trigger] v[i] == 9 || (32 <= v[i] && v[i] < 127))
}

/// The text of visible ASCII bytes.
pub open spec fn ascii_text(v: Seq<u8>) -> Seq<char> {
    v.map_values(|b: u8| b as char)
}

/// Whether a header name is `content-length`, in any case.
pub open spec fn is_content_length(k: Seq<char>) -> bool {
    ascii_lower(k) == "content-length"@
}

/// The headers of a request, checked in order: at most `max_count` of
/// them, each value visible ASCII, names and values together at most
/// `max_bytes` bytes, and one `Content-Length` at most; the refusal is the
/// message of a `400`.
pub open spec fn header_norm(
    hs: Seq<(Seq<char>, Seq<u8>)>,
    max_count: nat,
    max_bytes: nat,
    count: nat,
    bytes: nat,
    seen: bool,
    acc: Seq<(Seq<char>, Seq<char>)>,
) -> Result<Seq<(Seq<char>, Seq<char>)>, Seq<char>>
    decreases hs.len(),
{
    if hs.len() == 0 {
        Ok(acc)
    } else {
        let k = hs[0].0;
        let v = hs[0].1;
        if count + 1 > max_count {
            Err("too many request headers"@)
        } else if !visible_bytes(v) {
            Err("request header value is invalid"@)
        } else if bytes + vstd::utf8::encode_utf8(k).len() + v.len() > max_bytes {
            Err("request headers exceed maximum allowed size"@)
        } else if is_content_length(k) && seen {
            Err("duplicate content-length headers are not allowed"@)
        } else {
            header_norm(
                hs.drop_first(),
                max_count,
                max_bytes,
                count + 1,
                bytes + vstd::utf8::encode_utf8(k).len() + v.len(),
                seen || is_content_length(k),
                acc.push((k, ascii_text(v))),
            )
        }
    }
}

/// The abstract value of raw headers.
pub open spec fn raw_pairs(h: Seq<(String, Vec<u8>)>) -> Seq<(Seq<char>, Seq<u8>)> {
    h.map_values(|p: (String, Vec<u8>)| (p.0@, p.1@))
}

fn visible_bytes_exec(v: &[u8]) -> (r: bool)
    ensures
        r == visible_bytes(v@),
{
    let mut i: usize = 0;
    while i < v.len()
        invariant
            i <= v.len(),
            forall|k: int| 0 <= k < i ==> (#[trigger] v@[k] == 9 || (32 <= v@[k] && v@[k] < 127)),
        decreases v.len() - i,
    {
        if !(v[i] == 9 || (32 <= v[i] && v[i] < 127)) {
            return false;
        }
        i += 1;
    }
    true
}

fn ascii_string(v: &[u8]) -> (r: String)
    ensures
        r@ == ascii_text(v@),
{
    let mut out: Vec<char> = Vec::new();
    let mut i: usize = 0;
    while i < v.len()
        invariant
            i <= v.len(),
            out@ == ascii_text(v@.take(i as int)),
        decreases v.len() - i,
    {
        out.push(v[i] as char);
        assert(ascii_text(v@.take(i + 1)) =~= ascii_text(v@.take(i as int)).push(v@[i as int] as char));
        i += 1;
    }
    assert(v@.take(v.len() as int) =~= v@);
    string_of(out.as_slice())
}

fn is_content_length_exec(k: &str) -> (r: bool)
    ensures
        r == is_content_length(k@),
{
    let low = ascii_lower_chars(chars_of(k).as_slice());
    crate::text::str_eq_chars("content-length", low.as_slice())
}

/// Checks and converts the headers of a request read by the server.
pub fn normalize_headers(headers: &[(String, Vec<u8>)], max_header_count: usize, max_header_bytes: usize) -> (r:
    Result<Vec<(String, String)>, FrameworkError>)
    ensures
        match header_norm(
            raw_pairs(headers@),
            max_header_count as nat,
            max_header_bytes as nat,
            0,
            0,
            false,
            Seq::empty(),
        ) {
            Ok(h) => r matches Ok(v) && crate::http::header_pairs(v@) == h,
            Err(msg) => r matches Err(e) && is_bad_request(e, msg),
        },
{
    let ghost hs = raw_pairs(headers@);
    let mut out: Vec<(String, String)> = Vec::new();
    let mut count: usize = 0;
    let mut bytes: usize = 0;
    let mut seen = false;
    let mut i: usize = 0;
    assert(hs.skip(0) =~= hs);
    assert(crate::http::header_pairs(out@) =~= Seq::<(Seq<char>, Seq<char>)>::empty());
    while i < headers.len()
        invariant
            i <= headers.len(),
            hs == raw_pairs(headers@),
            count == i,
            bytes <= max_header_bytes,
            header_norm(hs, max_header_count as nat, max_header_bytes as nat, 0, 0, false, Seq::empty())
                == header_norm(
                hs.skip(i as int),
                max_header_count as nat,
                max_header_bytes as nat,
                count as nat,
                bytes as nat,
                seen,
                crate::http::header_pairs(out@),
            ),
        decreases headers.len() - i,
    {
        assert(hs.skip(i as int)[0] == hs[i as int]);
        assert(hs.skip(i as int).drop_first() =~= hs.skip(i + 1));
        if count >= max_header_count {
            return Err(FrameworkError::Http(HttpError::bad_request("too many request headers")));
        }
        let key = &headers[i].0;
        let value = headers[i].1.as_slice();
        if !visible_bytes_exec(value) {
            return Err(FrameworkError::Http(HttpError::bad_request("request header value is invalid")));
        }
        let kb = key.as_str().as_bytes().len();
        let room = max_header_bytes - bytes;
        if kb > room || value.len() > room - kb {
            return Err(
                FrameworkError::Http(
                    HttpError::bad_request("request headers exceed maximum allowed size"),
                ),
            );
        }
        let cl = is_content_length_exec(key.as_str());
        if cl && seen {
            return Err(
                FrameworkError::Http(
                    HttpError::bad_request("duplicate content-length headers are not allowed"),
                ),
            );
        }
        seen = seen || cl;
        bytes = bytes + kb + value.len();
        let ghost pre = crate::http::header_pairs(out@);
        out.push((key.clone(), ascii_string(value)));
        assert(crate::http::header_pairs(out@) =~= pre.push((hs[i as int].0, ascii_text(hs[i as int].1))));
        count += 1;
        i += 1;
    }
    assert(hs.skip(i as int) =~= Seq::<(Seq<char>, Seq<u8>)>::empty());
    Ok(out)
}

/// The values of the `host` headers, trimmed.
pub open spec fn host_values(h: Seq<(Seq<char>, Seq<char>)>) -> Seq<Seq<char>>
    decreases h.len(),
{
    if h.len() == 0 {
        Seq::empty()
    } else {
        let rest = host_values(h.drop_last());
        if h.last().0 == "host"@ {
            rest.push(trim(h.last().1))
        } else {
            rest
        }
    }
}

/// The `Host` rule of HTTP/1.1: exactly one, not blank; other versions
/// need none.
pub open spec fn spec_host_check(version: HttpVersion, h: Seq<(Seq<char>, Seq<char>)>) -> Result<(), Seq<char>> {
    if version != HttpVersion::Http11 {
        Ok(())
    } else {
        let vals = host_values(h);
        if vals.len() == 0 {
            Err("host header is required for HTTP/1.1"@)
        } else if vals.len() > 1 {
            Err("duplicate host headers are not allowed"@)
        } else if vals[0].len() == 0 {
            Err("host header is invalid"@)
        } else {
            Ok(())
        }
    }
}

/// Checks the `Host` header of a request read by the server.
pub fn validate_host_header(version: HttpVersion, headers: &[(String, String)]) -> (r: Result<(), FrameworkError>)
    ensures
        match spec_host_check(version, crate::http::header_pairs(headers@)) {
            Ok(()) => r is Ok,
            Err(msg) => r matches Err(e) && is_bad_request(e, msg),
        },
{
    if version != HttpVersion::Http11 {
        return Ok(());
    }
    let ghost hs = crate::http::header_pairs(headers@);
    let mut vals: Vec<Vec<char>> = Vec::new();
    let mut i: usize = 0;
    assert(hs.take(0) =~= Seq::<(Seq<char>, Seq<char>)>::empty());
    while i < headers.len()
        invariant
            i <= headers.len(),
            hs == crate::http::header_pairs(headers@),
            vals@.map_values(|v: Vec<char>| v@) == host_values(hs.take(i as int)),
        decreases headers.len() - i,
    {
        assert(hs.take(i + 1).drop_last() =~= hs.take(i as int));
        if crate::text::str_eq_chars("host", chars_of(headers[i].0.as_str()).as_slice()) {
            let t = trim_chars(chars_of(headers[i].1.as_str()).as_slice());
            let ghost pre = vals@;
            vals.push(t);
            assert(vals@.map_values(|v: Vec<char>| v@) =~= pre.map_values(|v: Vec<char>| v@).push(
                trim(hs[i as int].1),
            ));
        }
        i += 1;
    }
    assert(hs.take(headers.len() as int) =~= hs);
    if vals.len() == 0 {
        return Err(FrameworkError::Http(HttpError::bad_request("host header is required for HTTP/1.1")));
    }
    if vals.len() > 1 {
        return Err(
            FrameworkError::Http(HttpError::bad_request("duplicate host headers are not allowed")),
        );
    }
    assert(vals@[0]@ == host_values(hs)[0]);
    if vals[0].len() == 0 {
        return Err(FrameworkError::Http(HttpError::bad_request("host header is invalid")));
    }
    Ok(())
}

/// A request head read by a server and checked: method, normalized path,
/// version, headers and query parameters.
#[derive(Debug)]
pub struct RequestHead {
    pub method: Method,
    pub path: String,
    pub version: HttpVersion,
    pub headers: Vec<(String, String)>,
    pub query_params: Vec<(String, Vec<String>)>,
}

/// The abstract value of a request head.
pub struct HeadModel {
    pub method: crate::http::MethodModel,
    pub path: Seq<char>,
    pub version: HttpVersion,
    pub headers: Seq<(Seq<char>, Seq<char>)>,
    pub query: Seq<(Seq<char>, Seq<Seq<char>>)>,
}

impl View for RequestHead {
    type V = HeadModel;

    open spec fn view(&self) -> HeadModel {
        HeadModel {
            method: self.method@,
            path: self.path@,
            version: self.version,
            headers: crate::http::header_pairs(self.headers@),
            query: crate::request::query_pairs(self.query_params@),
        }
    }
}

/// The number of raw headers named exactly `content-length`.
pub open spec fn content_length_count(hs: Seq<(Seq<char>, Seq<u8>)>) -> nat
    decreases hs.len(),
{
    if hs.len() == 0 {
        0
    } else {
        content_length_count(hs.drop_last()) + if hs.last().0 == "content-length"@ {
            1nat
        } else {
            0nat
        }
    }
}

/// How a server-read request head is checked, in order: the method must be
/// a standard one (else `405`); the path must normalize, the query must
/// parse, one `Content-Length` at most, the headers must pass their limits
/// and HTTP/1.1 needs one `Host` (else `400` with the reason).
pub open spec fn spec_normalize_head(
    method: Seq<char>,
    path: Seq<char>,
    query: Option<Seq<char>>,
    hs: Seq<(Seq<char>, Seq<u8>)>,
    version: HttpVersion,
    max_count: nat,
    max_bytes: nat,
) -> Result<HeadModel, (u16, Seq<char>)> {
    let m = crate::http::method_from_text(method);
    if m is Other {
        Err((405u16, "unsupported http method"@))
    } else {
        match crate::path::spec_normalize(path, false) {
            Err(j) => Err((400u16, crate::path::rejection_text(path, false, j))),
            Ok(p) => {
                let q = match query {
                    Some(t) => crate::request::spec_parse_query(t),
                    None => Ok(Seq::empty()),
                };
                match q {
                    Err(pe) => Err((400u16, crate::request::parse_error_text(pe))),
                    Ok(query) => if content_length_count(hs) > 1 {
                        Err((400u16, "duplicate content-length headers are not allowed"@))
                    } else {
                        match header_norm(hs, max_count, max_bytes, 0, 0, false, Seq::empty()) {
                            Err(msg) => Err((400u16, msg)),
                            Ok(headers) => match spec_host_check(version, headers) {
                                Err(msg) => Err((400u16, msg)),
                                Ok(()) => Ok(HeadModel { method: m, path: p, version, headers, query }),
                            },
                        }
                    },
                }
            },
        }
    }
}

/// Whether an error is the runtime's refusal with this status and message.
pub open spec fn is_refusal(e: FrameworkError, fault: (u16, Seq<char>)) -> bool {
    if fault.0 == 405 {
        is_http_error(e, 405, "Method Not Allowed"@, fault.1)
    } else {
        is_bad_request(e, fault.1)
    }
}

fn count_content_length(headers: &[(String, Vec<u8>)]) -> (r: usize)
    ensures
        r as nat == content_length_count(raw_pairs(headers@)),
{
    let ghost hs = raw_pairs(headers@);
    let mut n: usize = 0;
    let mut i: usize = 0;
    while i < headers.len()
        invariant
            i <= headers.len(),
            hs == raw_pairs(headers@),
            n as nat == content_length_count(hs.take(i as int)),
            n <= i,
        decreases headers.len() - i,
    {
        assert(hs.take(i + 1).drop_last() =~= hs.take(i as int));
        if crate::text::str_eq_chars("content-length", chars_of(headers[i].0.as_str()).as_slice()) {
            n += 1;
        }
        i += 1;
    }
    assert(hs.take(headers.len() as int) =~= hs);
    n
}

/// Checks the head of a request read by the server.
pub fn normalize_head(
    method: &str,
    path: &str,
    query: Option<&str>,
    headers: &[(String, Vec<u8>)],
    version: HttpVersion,
    max_header_count: usize,
    max_header_bytes: usize,
) -> (r: Result<RequestHead, FrameworkError>)
    ensures
        match spec_normalize_head(
            method@,
            path@,
            match query {
                Some(q) => Some(q@),
                None => None,
            },
            raw_pairs(headers@),
            version,
            max_header_count as nat,
            max_header_bytes as nat,
        ) {
            Ok(h) => r matches Ok(x) && x@ == h,
            Err(f) => r matches Err(e) && is_refusal(e, f),
        },
{
    let m = Method::from_http_str(method);
    if let Method::Other(_) = m {
        return Err(FrameworkError::Http(HttpError::method_not_allowed("unsupported http method")));
    }
    let p = match crate::path::normalize_request_path(path) {
        Ok(p) => p,
        Err(e) => {
            let msg = e.to_string();
            return Err(FrameworkError::Http(HttpError::bad_request(msg.as_str())));
        },
    };
    let query_params = match query {
        Some(q) => match crate::request::parse_query(chars_of(q).as_slice()) {
            Ok(v) => v,
            Err(pe) => {
                let msg = pe.to_string();
                return Err(FrameworkError::Http(HttpError::bad_request(msg.as_str())));
            },
        },
        None => {
            let v: Vec<(String, Vec<String>)> = Vec::new();
            assert(crate::request::query_pairs(v@) =~= Seq::<(Seq<char>, Seq<Seq<char>>)>::empty());
            v
        },
    };
    if count_content_length(headers) > 1 {
        return Err(
            FrameworkError::Http(
                HttpError::bad_request("duplicate content-length headers are not allowed"),
            ),
        );
    }
    let normalized = match normalize_headers(headers, max_header_count, max_header_bytes) {
        Ok(h) => h,
        Err(e) => {
            return Err(e);
        },
    };
    match validate_host_header(version, normalized.as_slice()) {
        Ok(()) => {},
        Err(e) => {
            return Err(e);
        },
    }
    Ok(RequestHead { method: m, path: p, version, headers: normalized, query_params })
}

/// How a checked head and its body become a request: a `Content-Length`
/// must hold one number equal to the body's length; the path is normalized
/// once more.
pub open spec fn spec_finish_request(
    head: HeadModel,
    body: Seq<u8>,
    remote: crate::net::SocketAddress,
) -> Result<crate::request::RequestModel, Seq<char>> {
    let length_ok = match crate::request::first_field(head.headers, "content-length"@) {
        None => Ok(()),
        Some(v) => if v.contains(',') {
            Err("duplicate content-length headers are not allowed"@)
        } else {
            match crate::text::parse_unsigned(v, usize::MAX as nat) {
                None => Err("content-length header is invalid"@),
                Some(n) => if n != body.len() {
                    Err("request body length does not match content-length"@)
                } else {
                    Ok(())
                },
            }
        },
    };
    match length_ok {
        Err(msg) => Err(msg),
        Ok(()) => match crate::path::spec_normalize(head.path, false) {
            Err(j) => Err(crate::request::parse_error_text(crate::request::path_parse_error(j))),
            Ok(p) => Ok(
                crate::request::RequestModel {
                    method: head.method,
                    path: p,
                    version: version_text(head.version),
                    headers: head.headers,
                    body,
                    query: head.query,
                    remote_addr: Some(remote),
                },
            ),
        },
    }
}

/// Completes a server-read request with its body.
pub fn finish_request(head: RequestHead, body: Vec<u8>, remote_addr: crate::net::SocketAddress) -> (r: Result<
    Request,
    FrameworkError,
>)
    ensures
        match spec_finish_request(head@, body@, remote_addr) {
            Ok(m) => r matches Ok(req) && req@ == m,
            Err(msg) => r matches Err(e) && is_bad_request(e, msg),
        },
{
    let cl = crate::request::first_value(&head.headers, chars_of("content-length").as_slice());
    match cl {
        None => {},
        Some(v) => {
            if contains_char(v.as_slice(), ',') {
                return Err(
                    FrameworkError::Http(
                        HttpError::bad_request("duplicate content-length headers are not allowed"),
                    ),
                );
            }
            match crate::text::parse_unsigned_chars(v.as_slice(), usize::MAX as u64) {
                None => {
                    return Err(
                        FrameworkError::Http(HttpError::bad_request("content-length header is invalid")),
                    );
                },
                Some(n) => {
                    if n as usize != body.len() {
                        return Err(
                            FrameworkError::Http(
                                HttpError::bad_request(
                                    "request body length does not match content-length",
                                ),
                            ),
                        );
                    }
                },
            }
        },
    }
    let version = normalize_version(head.version);
    match Request::from_normalized_parts(
        head.method,
        head.path.as_str(),
        version,
        head.headers,
        body,
        head.query_params,
        Some(remote_addr),
    ) {
        Ok(req) => Ok(req),
        Err(pe) => {
            let msg = pe.to_string();
            Err(FrameworkError::Http(HttpError::bad_request(msg.as_str())))
        },
    }
}

} // verus!
