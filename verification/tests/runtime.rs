use vantus::runtime::append_body_chunk;
use vantus::runtime::prune_due;
use vantus::runtime::enforce_pre_middleware_limits;
use vantus::errors::FrameworkError;
use vantus::http::Method;
use vantus::request::Request;
use vantus::routing::{RequestBodyKind, RouteContract, RouteDefinition, RouteTable};
use vantus::runtime::{
    check_body_size, check_rate_limit, cleanup_interval_secs, enforce_route_contract,
    extract_content_type, idle_bucket_ttl, method_not_allowed_response, request_timeout_response,
    route_request, RouteStep, RuntimeState,
};

fn http_status(result: Result<(), FrameworkError>) -> Option<(u16, String)> {
    match result {
        Ok(()) => None,
        Err(FrameworkError::Http(e)) => Some((e.status_code, e.message)),
        Err(other) => panic!("unexpected error {:?}", other),
    }
}

fn request(raw: &[u8]) -> Request {
    Request::from_bytes(raw).unwrap()
}

#[test]
fn body_size_limit_counts_rejections() {
    let mut state = RuntimeState::default();
    let req = request(b"POST / HTTP/1.1\r\nContent-Length: 5\r\n\r\nhello");
    assert!(check_body_size(&req, 5, &mut state).is_ok());
    assert_eq!(state.snapshot().body_rejections_total, 0);
    let result = check_body_size(&req, 4, &mut state);
    assert_eq!(
        http_status(result),
        Some((413, "request exceeds maximum allowed size".to_string()))
    );
    assert_eq!(state.snapshot().body_rejections_total, 1);
}

#[test]
fn rate_limit_refusals_are_counted() {
    let mut state = RuntimeState::default();
    assert!(check_rate_limit(true, &mut state).is_ok());
    assert_eq!(http_status(check_rate_limit(false, &mut state)), Some((429, "too many requests".to_string())));
    assert_eq!(state.snapshot().rate_limit_rejections_total, 1);
}

#[test]
fn limiter_intervals_have_floors() {
    assert_eq!(cleanup_interval_secs(0), 30);
    assert_eq!(cleanup_interval_secs(10), 40);
    assert_eq!(idle_bucket_ttl(0), 60);
    assert_eq!(idle_bucket_ttl(10), 160);
    assert_eq!(cleanup_interval_secs(u64::MAX), u64::MAX);
}

#[test]
fn content_types_are_lowercased_without_parameters() {
    let req = request(b"POST / HTTP/1.1\r\nContent-Type: Application/JSON; charset=utf-8\r\n\r\n");
    assert_eq!(extract_content_type(&req).unwrap().as_deref(), Some("application/json"));
    let req = request(b"POST / HTTP/1.1\r\n\r\n");
    assert_eq!(extract_content_type(&req).unwrap(), None);
    let req = request(b"POST / HTTP/1.1\r\nContent-Type: a/b\r\nContent-Type: c/d\r\n\r\n");
    assert!(extract_content_type(&req).is_err());
    let req = request(b"POST / HTTP/1.1\r\nContent-Type: json\r\n\r\n");
    assert!(extract_content_type(&req).is_err());
}

#[test]
fn body_contracts_refuse_wrong_bodies_and_media_types() {
    let json = RouteContract::new(RequestBodyKind::Json);
    let none = RouteContract::new(RequestBodyKind::NoBody);
    let body = request(b"POST / HTTP/1.1\r\nContent-Type: text/plain\r\nContent-Length: 2\r\n\r\nhi");
    assert_eq!(
        http_status(enforce_route_contract(&body, json)),
        Some((415, "expected content-type application/json".to_string()))
    );
    assert_eq!(
        http_status(enforce_route_contract(&body, none)),
        Some((400, "request body is not allowed for this route".to_string()))
    );
    let bare = request(b"POST / HTTP/1.1\r\n\r\n");
    assert_eq!(
        http_status(enforce_route_contract(&bare, json)),
        Some((415, "missing content-type header".to_string()))
    );
    assert!(enforce_route_contract(&bare, none).is_ok());
    assert!(enforce_route_contract(&body, RouteContract::new(RequestBodyKind::Text)).is_ok());
    assert!(enforce_route_contract(&body, RouteContract::new(RequestBodyKind::Bytes)).is_ok());
}

#[test]
fn routing_a_wrong_method_answers_405_with_allow() {
    let mut router = RouteTable::new();
    router.add_definition(RouteDefinition::new(Method::Get, "/method", 0)).unwrap();
    router.add_definition(RouteDefinition::new(Method::Post, "/method", 1)).unwrap();
    let mut state = RuntimeState::default();
    let req = request(b"DELETE /method HTTP/1.1\r\nHost: x\r\n\r\n");
    match route_request(&router, &req, &mut state) {
        RouteStep::Respond(response) => {
            assert_eq!(response.status_code, 405);
            assert!(response
                .headers
                .iter()
                .any(|(key, value)| key == "Allow" && value == "GET, POST"));
        }
        RouteStep::Handle(_) => panic!("expected a 405"),
    }
    assert_eq!(state.snapshot().method_not_allowed_total, 1);
}

#[test]
fn routing_answers_404_or_runs_the_route() {
    let mut router = RouteTable::new();
    router.add_definition(RouteDefinition::new(Method::Get, "/users/{id}", 3)).unwrap();
    let mut state = RuntimeState::default();
    match route_request(&router, &request(b"GET /nothing HTTP/1.1\r\n\r\n"), &mut state) {
        RouteStep::Respond(response) => assert_eq!(response.status_code, 404),
        RouteStep::Handle(_) => panic!("expected a 404"),
    }
    match route_request(&router, &request(b"GET /users//7 HTTP/1.1\r\n\r\n"), &mut state) {
        RouteStep::Handle(m) => {
            assert_eq!(m.handler, 3);
            assert_eq!(m.path_params, vec![("id".to_string(), "7".to_string())]);
        }
        RouteStep::Respond(r) => panic!("unexpected response {}", r.status_code),
    }
}

#[test]
fn canned_responses() {
    let response = method_not_allowed_response(&[Method::Put]);
    assert_eq!(response.status_code, 405);
    assert!(response.headers.iter().any(|(k, v)| k == "Allow" && v == "PUT"));
    let response = request_timeout_response();
    assert_eq!(response.status_code, 408);
    assert_eq!(response.body, b"408 Request Timeout".to_vec());
}

#[test]
fn connection_and_request_gauges_track_events() {
    let mut state = RuntimeState::default();
    state.mark_started(8, 1_700_000_000);
    state.connection_opened();
    state.request_started();
    state.record_request();
    let snapshot = state.snapshot();
    assert_eq!(snapshot.concurrency_limit, 8);
    assert_eq!(snapshot.started_at_unix, 1_700_000_000);
    assert_eq!(snapshot.active_connections, 1);
    assert_eq!(snapshot.active_requests, 1);
    assert_eq!(snapshot.total_requests, 1);
    state.request_finished();
    state.connection_closed();
    assert_eq!(state.snapshot().active_requests, 0);
    assert_eq!(state.snapshot().active_connections, 0);
}

#[test]
fn pre_middleware_limits_check_body_then_rate() {
    let mut state = RuntimeState::default();
    let req = request(b"POST / HTTP/1.1\r\nContent-Length: 3\r\n\r\nabc");
    assert!(enforce_pre_middleware_limits(&req, 3, None, &mut state).is_ok());
    assert!(enforce_pre_middleware_limits(&req, 3, Some(true), &mut state).is_ok());
    assert_eq!(
        http_status(enforce_pre_middleware_limits(&req, 3, Some(false), &mut state)),
        Some((429, "too many requests".to_string()))
    );
    assert_eq!(
        http_status(enforce_pre_middleware_limits(&req, 2, Some(false), &mut state)),
        Some((413, "request exceeds maximum allowed size".to_string()))
    );
    let snapshot = state.snapshot();
    assert_eq!(snapshot.rate_limit_rejections_total, 1);
    assert_eq!(snapshot.body_rejections_total, 1);
}

#[test]
fn body_chunks_stop_at_the_limit() {
    let mut collected = b"ab".to_vec();
    assert!(append_body_chunk(&mut collected, b"cd", 4).is_ok());
    assert_eq!(collected, b"abcd".to_vec());
    assert_eq!(
        http_status(append_body_chunk(&mut collected, b"e", 4)),
        Some((413, "request exceeds maximum allowed size".to_string()))
    );
    assert_eq!(collected, b"abcd".to_vec());
}

#[test]
fn idle_buckets_are_pruned_only_when_many_and_due() {
    assert!(!prune_due(4095, 1_000, 0, 1));
    assert!(prune_due(4096, 1_000, 0, 1));
    assert!(!prune_due(4096, 1_000, 990, 1));
    assert!(prune_due(4096, 1_040, 1_000, 10));
    assert!(!prune_due(4096, 900, 1_000, 1));
}
