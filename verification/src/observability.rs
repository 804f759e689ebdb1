//! Request metrics and their Prometheus text, request identifiers and
//! readiness checks.
use vstd::prelude::*;

use crate::errors::FrameworkError;
use crate::http::{header_pairs, method_text, spec_typed_ok, spec_with_header, Method, Response, ResponseModel};
use vstd::utf8::encode_utf8;
use crate::runtime::{bumped, RuntimeSnapshot};
use crate::text::{
    ascii_lower, ascii_lower_chars, chars_of, decimal, decimal_chars, extend_chars, extend_str,
    str_eq_chars, string_of,
};

verus! {

/// A request identifier.
#[derive(Clone, Debug, PartialEq, Eq)]
pub struct RequestId(pub String);

impl RequestId {
    /// The identifier's text.
    pub fn as_str(&self) -> (r: &str)
        ensures
            r@ == self.0@,
    {
        self.0.as_str()
    }

    /// The identifier's text, owned.
    pub fn to_string(&self) -> (r: String)
        ensures
            r@ == self.0@,
    {
        self.0.clone()
    }
}

/// The outcome of one readiness check.
#[derive(Clone, Debug, PartialEq, Eq)]
pub struct ReadinessCheck {
    pub name: String,
    pub healthy: bool,
    pub detail: String,
}

impl ReadinessCheck {
    /// A passing check.
    pub fn healthy(name: &str, detail: &str) -> (r: Self)
        ensures
            r.name@ == name@ && r.healthy && r.detail@ == detail@,
    {
        ReadinessCheck { name: name.to_string(), healthy: true, detail: detail.to_string() }
    }

    /// A failing check.
    pub fn unhealthy(name: &str, detail: &str) -> (r: Self)
        ensures
            r.name@ == name@ && !r.healthy && r.detail@ == detail@,
    {
        ReadinessCheck { name: name.to_string(), healthy: false, detail: detail.to_string() }
    }
}

/// Whether every readiness check passed (the service is `ok` rather than
/// `degraded`).
pub fn all_healthy(checks: &[ReadinessCheck]) -> (r: bool)
    ensures
        r == forall|i: int| 0 <= i < checks@.len() ==> #[trigger] checks@[i].healthy,
{
    let mut i: usize = 0;
    while i < checks.len()
        invariant
            i <= checks.len(),
            forall|k: int| 0 <= k < i ==> #[trigger] checks@[k].healthy,
        decreases checks.len() - i,
    {
        if !checks[i].healthy {
            return false;
        }
        i += 1;
    }
    true
}

/// The status a handler's outcome is answered with: the response's, an
/// HTTP error's, or `500`.
pub open spec fn spec_status_code(result: Result<Response, FrameworkError>) -> u16 {
    match result {
        Ok(r) => r.status_code,
        Err(FrameworkError::Http(e)) => e.status_code,
        Err(_) => 500,
    }
}

/// The status code of a handler's outcome.
pub fn status_code_for_result(result: &Result<Response, FrameworkError>) -> (r: u16)
    ensures
        r == spec_status_code(*result),
{
    match result {
        Ok(response) => response.status_code,
        Err(FrameworkError::Http(error)) => error.status_code,
        Err(_) => 500,
    }
}

// ---------------------------------------------------------------------------
// Labels
// ---------------------------------------------------------------------------
/// The escaped form of one character of a label value.
pub open spec fn escaped_char(c: char) -> Seq<char> {
    if c == '\\' {
        seq!['\\', '\\']
    } else if c == '"' {
        seq!['\\', '"']
    } else if c == '\n' {
        seq!['\\', 'n']
    } else {
        seq![c]
    }
}

/// A Prometheus label value with `\`, `"` and newlines escaped.
pub open spec fn spec_escape_label(s: Seq<char>) -> Seq<char>
    decreases s.len(),
{
    if s.len() == 0 {
        Seq::empty()
    } else {
        spec_escape_label(s.drop_last()) + escaped_char(s.last())
    }
}

/// Escapes a Prometheus label value.
pub fn escape_metric_label(value: &str) -> (r: String)
    ensures
        r@ == spec_escape_label(value@),
{
    let s = chars_of(value);
    let mut out: Vec<char> = Vec::new();
    let mut i: usize = 0;
    while i < s.len()
        invariant
            i <= s.len(),
            s@ == value@,
            out@ == spec_escape_label(s@.take(i as int)),
        decreases s.len() - i,
    {
        assert(s@.take(i + 1).drop_last() =~= s@.take(i as int));
        let c = s[i];
        let ghost pre = out@;
        if c == '\\' {
            out.push('\\');
            out.push('\\');
        } else if c == '"' {
            out.push('\\');
            out.push('"');
        } else if c == '\n' {
            out.push('\\');
            out.push('n');
        } else {
            out.push(c);
        }
        assert(out@ =~= pre + escaped_char(c));
        i += 1;
    }
    assert(s@.take(s.len() as int) =~= s@);
    string_of(out.as_slice())
}

// ---------------------------------------------------------------------------
// The per-route table
// ---------------------------------------------------------------------------
#[verifier::external_type_specification]
#[verifier::external_body]
#[verifier::reject_recursive_types(K)]
#[verifier::reject_recursive_types(V)]
#[verifier::reject_recursive_types(S)]
pub struct ExDashMap<K, V, S>(dashmap::DashMap<K, V, S>);

/// The key of a route metric: method, route template and status, as text.
pub type MetricKey = (String, String, String);

/// The abstract value of a metric key.
pub open spec fn key_view(k: MetricKey) -> (Seq<char>, Seq<char>, Seq<char>) {
    (k.0@, k.1@, k.2@)
}

/// What a route-metrics map holds: per key, the request count and the
/// total duration in milliseconds.
pub uninterp spec fn metric_table(m: dashmap::DashMap<MetricKey, (u64, u64)>) -> Map<
    (Seq<char>, Seq<char>, Seq<char>),
    (u64, u64),
>;

/// No route metrics.
pub open spec fn no_metrics() -> Map<(Seq<char>, Seq<char>, Seq<char>), (u64, u64)> {
    Map::empty()
}

/// `DashMap::new`: an empty map.
#[verifier::external_body]
fn metrics_new() -> (r: dashmap::DashMap<MetricKey, (u64, u64)>)
    ensures
        metric_table(r) == no_metrics(),
{
    dashmap::DashMap::new()
}

/// `DashMap::get`: the value stored under the key, if any (keys compare as
/// their texts do).
#[verifier::external_body]
fn metrics_get(m: &dashmap::DashMap<MetricKey, (u64, u64)>, key: &MetricKey) -> (r: Option<(u64, u64)>)
    ensures
        metric_table(*m).dom().contains(key_view(*key)) ==> r == Some(metric_table(*m)[key_view(*key)]),
        !metric_table(*m).dom().contains(key_view(*key)) ==> r is None,
{
    m.get(key).map(|entry| *entry)
}

/// `DashMap::insert`: the map then holds the value under the key.
#[verifier::external_body]
fn metrics_put(m: &mut dashmap::DashMap<MetricKey, (u64, u64)>, key: MetricKey, value: (u64, u64))
    ensures
        metric_table(*final(m)) == metric_table(*old(m)).insert(key_view(key), value),
{
    m.insert(key, value);
}

/// The abstract value of listed metric entries.
pub open spec fn entry_views(v: Seq<(MetricKey, (u64, u64))>) -> Seq<((Seq<char>, Seq<char>, Seq<char>), (u64, u64))> {
    v.map_values(|e: (MetricKey, (u64, u64))| (key_view(e.0), e.1))
}

/// Whether listed entries are exactly the entries of a table, each once.
pub open spec fn lists_table(
    v: Seq<((Seq<char>, Seq<char>, Seq<char>), (u64, u64))>,
    t: Map<(Seq<char>, Seq<char>, Seq<char>), (u64, u64)>,
) -> bool {
    &&& forall|i: int, j: int| 0 <= i < j < v.len() ==> #[trigger] v[i].0 != #[trigger] v[j].0
    &&& forall|i: int| 0 <= i < v.len() ==> t.dom().contains(#[trigger] v[i].0) && t[v[i].0] == v[i].1
    &&& forall|k: (Seq<char>, Seq<char>, Seq<char>)|
        t.dom().contains(k) ==> exists|i: int| 0 <= i < v.len() && #[trigger] v[i].0 == k
}

/// `DashMap::iter`: every entry once, in an order that depends on the
/// map's hashing and is left unsaid.
#[verifier::external_body]
fn metrics_entries(m: &dashmap::DashMap<MetricKey, (u64, u64)>) -> (r: Vec<(MetricKey, (u64, u64))>)
    ensures
        lists_table(entry_views(r@), metric_table(*m)),
{
    m.iter().map(|entry| (entry.key().clone(), *entry.value())).collect()
}

// ---------------------------------------------------------------------------
// Metrics
// ---------------------------------------------------------------------------
/// Request metrics of the observability module.
pub struct ObservabilityMetrics {
    in_flight_requests: usize,
    requests_total: u64,
    errors_4xx_total: u64,
    errors_5xx_total: u64,
    route_metrics: dashmap::DashMap<MetricKey, (u64, u64)>,
}

/// The abstract value of the metrics.
pub struct MetricsModel {
    pub in_flight_requests: usize,
    pub requests_total: u64,
    pub errors_4xx_total: u64,
    pub errors_5xx_total: u64,
    pub routes: Map<(Seq<char>, Seq<char>, Seq<char>), (u64, u64)>,
}

impl View for ObservabilityMetrics {
    type V = MetricsModel;

    closed spec fn view(&self) -> MetricsModel {
        MetricsModel {
            in_flight_requests: self.in_flight_requests,
            requests_total: self.requests_total,
            errors_4xx_total: self.errors_4xx_total,
            errors_5xx_total: self.errors_5xx_total,
            routes: metric_table(self.route_metrics),
        }
    }
}

/// `a + b`, wrapping around.
pub open spec fn wrapping_sum(a: u64, b: u64) -> u64 {
    if a + b > u64::MAX {
        (a + b - u64::MAX - 1) as u64
    } else {
        (a + b) as u64
    }
}

/// The metrics after a finished request: one fewer in flight, one more in
/// total and for its route and status (with its duration), and one more
/// client or server error for a `4xx` or `5xx` status.
pub open spec fn spec_finish(
    m: MetricsModel,
    route: Seq<char>,
    method: crate::http::MethodModel,
    status: u16,
    duration_ms: u64,
) -> MetricsModel {
    let key = (method_text(method), route, decimal(status as nat));
    let old_entry = if m.routes.dom().contains(key) {
        m.routes[key]
    } else {
        (0u64, 0u64)
    };
    MetricsModel {
        in_flight_requests: crate::runtime::gauge_down(m.in_flight_requests),
        requests_total: bumped(m.requests_total),
        errors_4xx_total: if 400 <= status && status < 500 {
            bumped(m.errors_4xx_total)
        } else {
            m.errors_4xx_total
        },
        errors_5xx_total: if status >= 500 {
            bumped(m.errors_5xx_total)
        } else {
            m.errors_5xx_total
        },
        routes: m.routes.insert(key, (bumped(old_entry.0), wrapping_sum(old_entry.1, duration_ms))),
    }
}

fn wrapping_add_u64(a: u64, b: u64) -> (r: u64)
    ensures
        r == wrapping_sum(a, b),
{
    if a > u64::MAX - b {
        b - (u64::MAX - a) - 1
    } else {
        a + b
    }
}

impl ObservabilityMetrics {
    /// Empty metrics.
    pub fn new() -> (r: Self)
        ensures
            r@ == (MetricsModel {
                in_flight_requests: 0,
                requests_total: 0,
                errors_4xx_total: 0,
                errors_5xx_total: 0,
                routes: no_metrics(),
            }),
    {
        ObservabilityMetrics {
            in_flight_requests: 0,
            requests_total: 0,
            errors_4xx_total: 0,
            errors_5xx_total: 0,
            route_metrics: metrics_new(),
        }
    }

    /// Counts a request entering the pipeline.
    pub fn begin_request(&mut self)
        ensures
            final(self)@ == (MetricsModel {
                in_flight_requests: crate::runtime::gauge_up(old(self)@.in_flight_requests),
                ..old(self)@
            }),
    {
        self.in_flight_requests = if self.in_flight_requests == usize::MAX {
            0
        } else {
            self.in_flight_requests + 1
        };
    }

    /// Counts a finished request for its route, method and status.
    pub fn finish_request(&mut self, route: &str, method: &Method, status_code: u16, duration_ms: u64)
        ensures
            final(self)@ == spec_finish(old(self)@, route@, method@, status_code, duration_ms),
    {
        self.in_flight_requests = if self.in_flight_requests == 0 {
            usize::MAX
        } else {
            self.in_flight_requests - 1
        };
        self.requests_total = if self.requests_total == u64::MAX {
            0
        } else {
            self.requests_total + 1
        };
        if 400 <= status_code && status_code < 500 {
            self.errors_4xx_total = if self.errors_4xx_total == u64::MAX {
                0
            } else {
                self.errors_4xx_total + 1
            };
        }
        if status_code >= 500 {
            self.errors_5xx_total = if self.errors_5xx_total == u64::MAX {
                0
            } else {
                self.errors_5xx_total + 1
            };
        }
        let key: MetricKey = (
            method.to_string(),
            route.to_string(),
            crate::text::decimal_string(status_code as u64),
        );
        let (count, total) = match metrics_get(&self.route_metrics, &key) {
            Some(v) => v,
            None => (0, 0),
        };
        let count = if count == u64::MAX {
            0
        } else {
            count + 1
        };
        let total = wrapping_add_u64(total, duration_ms);
        metrics_put(&mut self.route_metrics, key, (count, total));
    }
}

// ---------------------------------------------------------------------------
// Prometheus text
// ---------------------------------------------------------------------------
/// A line of the exposition: the text and a newline.
pub open spec fn text_line(t: Seq<char>) -> Seq<char> {
    t + "\n"@
}

/// A sample line: name, a space, the value.
pub open spec fn sample(name: Seq<char>, value: nat) -> Seq<char> {
    text_line(name + " "@ + decimal(value))
}

/// The labels of a route metric.
pub open spec fn metric_labels(k: (Seq<char>, Seq<char>, Seq<char>)) -> Seq<char> {
    "method=\""@ + spec_escape_label(k.0) + "\",route=\""@ + spec_escape_label(k.1) + "\",status=\""@
        + spec_escape_label(k.2) + "\""@
}

/// The two sample lines of one route metric.
pub open spec fn route_samples(e: ((Seq<char>, Seq<char>, Seq<char>), (u64, u64))) -> Seq<char> {
    sample("vantus_route_requests_total{"@ + metric_labels(e.0) + "}"@, e.1.0 as nat) + sample(
        "vantus_route_request_duration_ms_total{"@ + metric_labels(e.0) + "}"@,
        e.1.1 as nat,
    )
}

/// The sample lines of the route metrics, in the listed order.
pub open spec fn routes_text(v: Seq<((Seq<char>, Seq<char>, Seq<char>), (u64, u64))>) -> Seq<char>
    decreases v.len(),
{
    if v.len() == 0 {
        Seq::empty()
    } else {
        routes_text(v.drop_last()) + route_samples(v.last())
    }
}

/// The header of the exposition: the framework's totals.
pub open spec fn totals_text(m: MetricsModel) -> Seq<char> {
    text_line("# TYPE vantus_requests_total counter"@) + sample(
        "vantus_requests_total"@,
        m.requests_total as nat,
    ) + text_line("# TYPE vantus_request_errors_4xx_total counter"@) + sample(
        "vantus_request_errors_4xx_total"@,
        m.errors_4xx_total as nat,
    ) + text_line("# TYPE vantus_request_errors_5xx_total counter"@) + sample(
        "vantus_request_errors_5xx_total"@,
        m.errors_5xx_total as nat,
    ) + text_line("# TYPE vantus_in_flight_requests gauge"@) + sample(
        "vantus_in_flight_requests"@,
        m.in_flight_requests as nat,
    ) + text_line("# TYPE vantus_route_requests_total counter"@) + text_line(
        "# TYPE vantus_route_request_duration_ms_total counter"@,
    )
}

/// The runtime's counters, at the end of the exposition.
pub open spec fn runtime_text(s: RuntimeSnapshot) -> Seq<char> {
    sample("vantus_runtime_total_requests"@, s.total_requests as nat) + sample(
        "vantus_runtime_active_requests"@,
        s.active_requests as nat,
    ) + sample("vantus_runtime_active_connections"@, s.active_connections as nat) + sample(
        "vantus_runtime_request_timeout_total"@,
        s.request_timeout_total as nat,
    ) + sample("vantus_runtime_read_timeout_total"@, s.read_timeout_total as nat) + sample(
        "vantus_runtime_handler_timeout_total"@,
        s.handler_timeout_total as nat,
    ) + sample("vantus_runtime_rate_limit_rejections_total"@, s.rate_limit_rejections_total as nat)
        + sample("vantus_runtime_method_not_allowed_total"@, s.method_not_allowed_total as nat)
        + sample(
        "vantus_runtime_content_type_rejections_total"@,
        s.content_type_rejections_total as nat,
    ) + sample("vantus_runtime_body_rejections_total"@, s.body_rejections_total as nat)
}

/// The Prometheus exposition for the metrics, with the route metrics in the
/// listed order.
pub open spec fn spec_render(
    m: MetricsModel,
    routes: Seq<((Seq<char>, Seq<char>, Seq<char>), (u64, u64))>,
    s: RuntimeSnapshot,
) -> Seq<char> {
    totals_text(m) + routes_text(routes) + runtime_text(s)
}

fn push_line(out: &mut Vec<char>, t: &str)
    ensures
        final(out)@ == old(out)@ + text_line(t@),
{
    extend_str(out, t);
    extend_str(out, "\n");
}

fn push_sample(out: &mut Vec<char>, name: &[char], value: u64)
    ensures
        final(out)@ == old(out)@ + sample(name@, value as nat),
{
    extend_chars(out, name);
    extend_str(out, " ");
    let d = decimal_chars(value);
    extend_chars(out, d.as_slice());
    extend_str(out, "\n");
}

fn labels_text(k: &MetricKey) -> (r: Vec<char>)
    ensures
        r@ == metric_labels(key_view(*k)),
{
    let mut v = chars_of("method=\"");
    extend_str(&mut v, escape_metric_label(k.0.as_str()).as_str());
    extend_str(&mut v, "\",route=\"");
    extend_str(&mut v, escape_metric_label(k.1.as_str()).as_str());
    extend_str(&mut v, "\",status=\"");
    extend_str(&mut v, escape_metric_label(k.2.as_str()).as_str());
    extend_str(&mut v, "\"");
    v
}

fn named(prefix: &str, labels: &[char]) -> (r: Vec<char>)
    ensures
        r@ == prefix@ + labels@ + "}"@,
{
    let mut v = chars_of(prefix);
    extend_chars(&mut v, labels);
    extend_str(&mut v, "}");
    v
}

/// The Prometheus exposition for given totals, route entries (in the given
/// order) and runtime counters.
pub fn render_metrics_text(
    totals: &ObservabilityMetrics,
    routes: &[(MetricKey, (u64, u64))],
    snapshot: &RuntimeSnapshot,
) -> (r: String)
    ensures
        r@ == spec_render(totals@, entry_views(routes@), *snapshot),
{
    let ghost m = totals@;
    let mut out: Vec<char> = Vec::new();
    push_line(&mut out, "# TYPE vantus_requests_total counter");
    push_sample(&mut out, chars_of("vantus_requests_total").as_slice(), totals.requests_total);
    push_line(&mut out, "# TYPE vantus_request_errors_4xx_total counter");
    push_sample(&mut out, chars_of("vantus_request_errors_4xx_total").as_slice(), totals.errors_4xx_total);
    push_line(&mut out, "# TYPE vantus_request_errors_5xx_total counter");
    push_sample(&mut out, chars_of("vantus_request_errors_5xx_total").as_slice(), totals.errors_5xx_total);
    push_line(&mut out, "# TYPE vantus_in_flight_requests gauge");
    push_sample(
        &mut out,
        chars_of("vantus_in_flight_requests").as_slice(),
        totals.in_flight_requests as u64,
    );
    push_line(&mut out, "# TYPE vantus_route_requests_total counter");
    push_line(&mut out, "# TYPE vantus_route_request_duration_ms_total counter");
    assert(out@ =~= totals_text(m));
    let ghost head = out@;
    let ghost ev = entry_views(routes@);
    let mut i: usize = 0;
    assert(ev.take(0) =~= Seq::<((Seq<char>, Seq<char>, Seq<char>), (u64, u64))>::empty());
    assert(out@ =~= head + routes_text(ev.take(0)));
    while i < routes.len()
        invariant
            i <= routes.len(),
            ev == entry_views(routes@),
            out@ == head + routes_text(ev.take(i as int)),
        decreases routes.len() - i,
    {
        assert(ev.take(i + 1).drop_last() =~= ev.take(i as int));
        assert(ev[i as int] == (key_view(routes@[i as int].0), routes@[i as int].1));
        let labels = labels_text(&routes[i].0);
        let ghost pre = out@;
        push_sample(&mut out, named("vantus_route_requests_total{", labels.as_slice()).as_slice(), routes[i].1.0);
        push_sample(
            &mut out,
            named("vantus_route_request_duration_ms_total{", labels.as_slice()).as_slice(),
            routes[i].1.1,
        );
        assert(out@ =~= pre + route_samples(ev[i as int]));
        i += 1;
    }
    assert(ev.take(routes.len() as int) =~= ev);
    let ghost mid = out@;
    push_sample(&mut out, chars_of("vantus_runtime_total_requests").as_slice(), snapshot.total_requests);
    push_sample(
        &mut out,
        chars_of("vantus_runtime_active_requests").as_slice(),
        snapshot.active_requests as u64,
    );
    push_sample(
        &mut out,
        chars_of("vantus_runtime_active_connections").as_slice(),
        snapshot.active_connections as u64,
    );
    push_sample(
        &mut out,
        chars_of("vantus_runtime_request_timeout_total").as_slice(),
        snapshot.request_timeout_total,
    );
    push_sample(&mut out, chars_of("vantus_runtime_read_timeout_total").as_slice(), snapshot.read_timeout_total);
    push_sample(
        &mut out,
        chars_of("vantus_runtime_handler_timeout_total").as_slice(),
        snapshot.handler_timeout_total,
    );
    push_sample(
        &mut out,
        chars_of("vantus_runtime_rate_limit_rejections_total").as_slice(),
        snapshot.rate_limit_rejections_total,
    );
    push_sample(
        &mut out,
        chars_of("vantus_runtime_method_not_allowed_total").as_slice(),
        snapshot.method_not_allowed_total,
    );
    push_sample(
        &mut out,
        chars_of("vantus_runtime_content_type_rejections_total").as_slice(),
        snapshot.content_type_rejections_total,
    );
    push_sample(
        &mut out,
        chars_of("vantus_runtime_body_rejections_total").as_slice(),
        snapshot.body_rejections_total,
    );
    assert(out@ =~= mid + runtime_text(*snapshot));
    string_of(out.as_slice())
}

impl ObservabilityMetrics {
    /// The Prometheus exposition of the metrics and the runtime counters.
    /// The route metrics come in the map's iteration order, which is left
    /// unsaid; each appears once.
    pub fn render_prometheus(&self, snapshot: &RuntimeSnapshot) -> (r: String)
        ensures
            exists|v: Seq<((Seq<char>, Seq<char>, Seq<char>), (u64, u64))>|
                lists_table(v, self@.routes) && r@ == spec_render(self@, v, *snapshot),
    {
        let entries = metrics_entries(&self.route_metrics);
        let r = render_metrics_text(self, entries.as_slice(), snapshot);
        assert(lists_table(entry_views(entries@), self@.routes));
        r
    }
}

// ---------------------------------------------------------------------------
// Diagnostic routes
// ---------------------------------------------------------------------------
/// The status the `/live` route reports: `ok` while the host runs, else
/// `stopped`.
pub fn liveness_status(live: bool) -> (r: &'static str)
    ensures
        r@ == if live {
            "ok"@
        } else {
            "stopped"@
        },
{
    if live {
        "ok"
    } else {
        "stopped"
    }
}

/// Whether the service is ready: an error with status 503 while the host
/// shuts down, else whether all readiness checks passed.
pub fn readiness_verdict(live: bool, checks: &[ReadinessCheck]) -> (r: Result<bool, FrameworkError>)
    ensures
        !live ==> (r matches Err(e) && crate::errors::is_http_error(
            e,
            503,
            "Service Unavailable"@,
            "service is stopping"@,
        )),
        live ==> r == Ok::<bool, FrameworkError>(
            forall|i: int| 0 <= i < checks@.len() ==> #[trigger] checks@[i].healthy,
        ),
{
    if !live {
        return Err(
            FrameworkError::Http(
                crate::errors::HttpError::new(503, "Service Unavailable", "service is stopping"),
            ),
        );
    }
    Ok(all_healthy(checks))
}

/// The status the `/ready` route reports: `ok`, or `degraded` when a check
/// failed.
pub fn readiness_status(healthy: bool) -> (r: &'static str)
    ensures
        r@ == if healthy {
            "ok"@
        } else {
            "degraded"@
        },
{
    if healthy {
        "ok"
    } else {
        "degraded"
    }
}

/// The `/ready` answer: marked `X-Readiness-State: degraded` when a check
/// failed.
pub fn mark_readiness(response: Response, healthy: bool) -> (r: Response)
    ensures
        r@ == if healthy {
            response@
        } else {
            spec_with_header(response@, "X-Readiness-State"@, "degraded"@)
        },
{
    if healthy {
        response
    } else {
        response.with_header("X-Readiness-State", "degraded")
    }
}

/// The `/metrics` answer: the exposition as Prometheus text.
pub fn metrics_response(body: &str) -> (r: Response)
    ensures
        r@ == spec_with_header(
            spec_typed_ok(encode_utf8(body@), "text/plain; charset=utf-8"@),
            "Content-Type"@,
            "text/plain; version=0.0.4; charset=utf-8"@,
        ),
{
    Response::text(body).with_header("Content-Type", "text/plain; version=0.0.4; charset=utf-8")
}

/// The value of the first header named `x-request-id` in any case.
pub open spec fn first_request_id_header(h: Seq<(Seq<char>, Seq<char>)>) -> Option<Seq<char>>
    decreases h.len(),
{
    if h.len() == 0 {
        None
    } else if ascii_lower(h[0].0) == "x-request-id"@ {
        Some(h[0].1)
    } else {
        first_request_id_header(h.drop_first())
    }
}

/// The request id a finished request is logged with: the response's
/// `X-Request-Id` header, else the id the request was given.
pub open spec fn spec_logged_request_id(r: Result<ResponseModel, ()>, assigned: Option<Seq<char>>) -> Option<Seq<char>> {
    match r {
        Ok(m) => match first_request_id_header(m.headers) {
            Some(v) => Some(v),
            None => assigned,
        },
        Err(_) => assigned,
    }
}

/// A handler's outcome, with the response by its abstract value.
pub open spec fn outcome_model(r: Result<Response, FrameworkError>) -> Result<ResponseModel, ()> {
    match r {
        Ok(resp) => Ok(resp@),
        Err(_) => Err(()),
    }
}

/// The text of an assigned request id.
pub open spec fn assigned_id(a: Option<&RequestId>) -> Option<Seq<char>> {
    match a {
        Some(id) => Some(id.0@),
        None => None,
    }
}

/// The request id a finished request is logged with: the response's first
/// `X-Request-Id` header (the name in any case), else the id the request
/// was given.
pub fn logged_request_id(result: &Result<Response, FrameworkError>, assigned: Option<&RequestId>) -> (r:
    Option<String>)
    ensures
        crate::cli::opt_view(r) == spec_logged_request_id(outcome_model(*result), assigned_id(assigned)),
{
    let fallback = match assigned {
        Some(id) => Some(id.to_string()),
        None => None,
    };
    match result {
        Ok(response) => {
            assert(outcome_model(*result) == Ok::<ResponseModel, ()>(response@));
            let h = &response.headers;
            let ghost hs = response@.headers;
            let mut i: usize = 0;
            assert(hs.skip(0) =~= hs);
            while i < h.len()
                invariant
                    i <= h.len(),
                    hs == header_pairs(h@),
                    hs == response@.headers,
                    outcome_model(*result) == Ok::<ResponseModel, ()>(response@),
                    first_request_id_header(hs) == first_request_id_header(hs.skip(i as int)),
                decreases h.len() - i,
            {
                assert(hs.skip(i as int)[0] == hs[i as int]);
                assert(hs.skip(i as int).drop_first() =~= hs.skip(i + 1));
                assert(hs[i as int] == (h@[i as int].0@, h@[i as int].1@));
                let name = ascii_lower_chars(chars_of(h[i].0.as_str()).as_slice());
                if str_eq_chars("x-request-id", name.as_slice()) {
                    let v = h[i].1.clone();
                    assert(first_request_id_header(hs) == Some(v@));
                    return Some(v);
                }
                i += 1;
            }
            assert(hs.skip(h.len() as int) =~= Seq::<(Seq<char>, Seq<char>)>::empty());
            fallback
        },
        Err(_) => fallback,
    }
}

} // verus!
