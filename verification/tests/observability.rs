use vantus::observability::{liveness_status, mark_readiness, readiness_status, readiness_verdict};
use vantus::observability::logged_request_id;
use vantus::errors::{FrameworkError, HttpError};
use vantus::http::{Method, Response};
use vantus::observability::{
    all_healthy, escape_metric_label, status_code_for_result, ObservabilityMetrics,
    ReadinessCheck, RequestId,
};
use vantus::runtime::RuntimeState;

#[test]
fn metric_labels_are_escaped() {
    assert_eq!(escape_metric_label("a\"b\\c\nd"), "a\\\"b\\\\c\\nd");
    assert_eq!(escape_metric_label("plain"), "plain");
}

#[test]
fn readiness_is_ok_only_when_every_check_passes() {
    assert!(all_healthy(&[]));
    assert!(all_healthy(&[ReadinessCheck::healthy("db", "up")]));
    assert!(!all_healthy(&[
        ReadinessCheck::healthy("db", "up"),
        ReadinessCheck::unhealthy("cache", "down"),
    ]));
}

#[test]
fn status_codes_of_handler_outcomes() {
    assert_eq!(status_code_for_result(&Ok(Response::text("ok"))), 200);
    assert_eq!(
        status_code_for_result(&Err(FrameworkError::Http(HttpError::bad_request("x")))),
        400
    );
    assert_eq!(status_code_for_result(&Err(FrameworkError::internal("boom"))), 500);
}

#[test]
fn request_ids_render_their_text() {
    let id = RequestId("req-1".to_string());
    assert_eq!(id.as_str(), "req-1");
    assert_eq!(id.to_string(), "req-1");
}

#[test]
fn metrics_text_counts_requests_per_route() {
    let mut metrics = ObservabilityMetrics::new();
    metrics.begin_request();
    metrics.finish_request("/users/{id}", &Method::Get, 200, 5);
    metrics.begin_request();
    metrics.finish_request("/users/{id}", &Method::Get, 200, 7);
    metrics.begin_request();
    metrics.finish_request("/users/{id}", &Method::Get, 404, 1);
    metrics.begin_request();
    metrics.finish_request("/boom", &Method::Post, 503, 2);
    let state = RuntimeState::default();
    let text = metrics.render_prometheus(&state.snapshot());

    assert!(text.starts_with("# TYPE vantus_requests_total counter\nvantus_requests_total 4\n"), "{text}");
    assert!(text.contains("vantus_request_errors_4xx_total 1\n"), "{text}");
    assert!(text.contains("vantus_request_errors_5xx_total 1\n"), "{text}");
    assert!(text.contains("vantus_in_flight_requests 0\n"), "{text}");
    assert!(
        text.contains(
            "vantus_route_requests_total{method=\"GET\",route=\"/users/{id}\",status=\"200\"} 2\n"
        ),
        "{text}"
    );
    assert!(
        text.contains(
            "vantus_route_request_duration_ms_total{method=\"GET\",route=\"/users/{id}\",status=\"200\"} 12\n"
        ),
        "{text}"
    );
    assert!(
        text.contains("vantus_route_requests_total{method=\"POST\",route=\"/boom\",status=\"503\"} 1\n"),
        "{text}"
    );
    assert!(text.ends_with("vantus_runtime_body_rejections_total 0\n"), "{text}");
}

#[test]
fn diagnostic_answers_follow_liveness_and_checks() {
    assert_eq!(liveness_status(true), "ok");
    assert_eq!(liveness_status(false), "stopped");
    match readiness_verdict(false, &[]) {
        Err(FrameworkError::Http(e)) => {
            assert_eq!(e.status_code, 503);
            assert_eq!(e.message, "service is stopping");
        }
        other => panic!("unexpected {:?}", other),
    }
    assert_eq!(readiness_verdict(true, &[ReadinessCheck::healthy("db", "up")]).unwrap(), true);
    let degraded = readiness_verdict(true, &[ReadinessCheck::unhealthy("db", "down")]).unwrap();
    assert!(!degraded);
    assert_eq!(readiness_status(degraded), "degraded");
    let response = mark_readiness(Response::json("{}"), degraded);
    assert!(response
        .headers
        .iter()
        .any(|(k, v)| k == "X-Readiness-State" && v == "degraded"));
    let response = mark_readiness(Response::json("{}"), true);
    assert!(!response.headers.iter().any(|(k, _)| k == "X-Readiness-State"));
}

#[test]
fn metrics_route_answers_prometheus_text() {
    let response = vantus::observability::metrics_response("vantus_requests_total 1\n");
    assert_eq!(response.status_code, 200);
    assert!(response
        .headers
        .iter()
        .any(|(k, v)| k == "Content-Type" && v == "text/plain; version=0.0.4; charset=utf-8"));
    assert_eq!(response.body, b"vantus_requests_total 1\n".to_vec());
}

#[test]
fn logged_request_id_prefers_the_response_header() {
    let assigned = RequestId("req-7".to_string());
    let answered = Ok(Response::text("ok").with_header("x-REQUEST-id", "from-header"));
    assert_eq!(logged_request_id(&answered, Some(&assigned)).as_deref(), Some("from-header"));
    let plain = Ok(Response::text("ok"));
    assert_eq!(logged_request_id(&plain, Some(&assigned)).as_deref(), Some("req-7"));
    let failed: Result<Response, FrameworkError> = Err(FrameworkError::internal("x"));
    assert_eq!(logged_request_id(&failed, Some(&assigned)).as_deref(), Some("req-7"));
    assert_eq!(logged_request_id(&failed, None), None);
}
