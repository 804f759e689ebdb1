use vantus::di::{extractor_header_value, normalize_header_name, IntoResponse};
use vantus::errors::{FrameworkError, HttpError};
use vantus::http::{Method, Response};
use vantus::net::{ip_to_string, parse_ip, parse_socket};
use vantus::request::{parse_query, ParseError, Request};

#[test]
fn parses_simple_get_request_with_query() {
    let raw = b"GET /hello?name=world HTTP/1.1\r\nHost: example\r\n\r\n";
    let request = Request::from_bytes(raw).unwrap();
    assert_eq!(request.method, Method::Get);
    assert_eq!(request.path, "/hello");
}

#[test]
fn rejects_invalid_percent_encoding() {
    let err = Request::from_bytes(b"GET /bad?value=%ZZ HTTP/1.1\r\n\r\n").unwrap_err();
    assert!(matches!(err, ParseError::InvalidPercentEncoding));
}

#[test]
fn typed_error_into_response_renders_custom_status() {
    #[derive(Debug)]
    struct Teapot;

    impl IntoResponse for Teapot {
        fn into_response(self) -> Result<Response, FrameworkError> {
            Ok(HttpError::new(418, "I'm a teapot", "teapot").to_response())
        }
    }

    let response = Teapot.into_response().unwrap();
    assert_eq!(response.status_code, 418);
    assert_eq!(String::from_utf8(response.body).unwrap(), "teapot");
}

#[test]
fn preserves_multi_value_headers_and_body_bytes() {
    let raw = b"GET /hello HTTP/1.1\r\nAccept: text/plain\r\nAccept: application/json\r\nX-Forwarded-For: 203.0.113.10\r\nX-Forwarded-For: 198.51.100.8\r\nContent-Length: 5\r\n\r\nhello";
    let request = Request::from_bytes(raw).unwrap();

    let accept_values = request.header_values("accept");
    assert_eq!(accept_values, vec!["text/plain", "application/json"]);
    assert_eq!(request.body.as_slice(), b"hello");
}

#[test]
fn client_ip_uses_first_forwarded_for_value_from_multi_value_headers() {
    let raw = b"GET /hello HTTP/1.1\r\nX-Forwarded-For: 203.0.113.10\r\nX-Forwarded-For: 198.51.100.8\r\n\r\n";
    let mut request = Request::from_bytes(raw).unwrap();
    request.remote_addr = Some(parse_socket("127.0.0.1:8080").unwrap());

    let client_ip = ip_to_string(request.client_ip(&[parse_ip("127.0.0.1").unwrap()]).unwrap());
    assert_eq!(client_ip, "198.51.100.8");
}

#[test]
fn client_ip_ignores_spoofed_leftmost_forwarded_value() {
    let raw = b"GET /hello HTTP/1.1\r\nX-Forwarded-For: 9.9.9.9, 198.51.100.8\r\n\r\n";
    let mut request = Request::from_bytes(raw).unwrap();
    request.remote_addr = Some(parse_socket("127.0.0.1:8080").unwrap());

    let client_ip = ip_to_string(request.client_ip(&[parse_ip("127.0.0.1").unwrap()]).unwrap());
    assert_eq!(client_ip, "198.51.100.8");
}

#[test]
fn rejects_invalid_request_line_spacing() {
    let err = Request::from_bytes(b"GET  /hello HTTP/1.1\r\n\r\n").unwrap_err();
    assert!(matches!(err, ParseError::InvalidRequestLine));
}

#[test]
fn rejects_unsupported_http_versions() {
    let err = Request::from_bytes(b"GET /hello HTTP/2\r\n\r\n").unwrap_err();
    assert!(matches!(err, ParseError::InvalidHttpVersion));
}

#[test]
fn rejects_path_traversal_segments() {
    let err = Request::from_bytes(b"GET /../../etc/passwd HTTP/1.1\r\n\r\n").unwrap_err();
    assert!(matches!(err, ParseError::PathTraversal));
}

#[test]
fn rejects_too_many_headers() {
    let mut raw = b"GET /hello HTTP/1.1\r\n".to_vec();
    for index in 0..101 {
        raw.extend_from_slice(format!("X-Test-{index}: value\r\n").as_bytes());
    }
    raw.extend_from_slice(b"\r\n");

    let err = Request::from_bytes(&raw).unwrap_err();
    assert!(matches!(err, ParseError::TooManyHeaders));
}

#[test]
fn rejects_too_many_query_params() {
    let params = (0..129)
        .map(|index| format!("k{index}=v"))
        .collect::<Vec<_>>()
        .join("&");
    let raw = format!("GET /hello?{params} HTTP/1.1\r\n\r\n");

    let err = Request::from_bytes(raw.as_bytes()).unwrap_err();
    assert!(matches!(err, ParseError::TooManyQueryParams));
}

#[test]
fn rejects_query_values_that_are_too_long() {
    let long_value = "a".repeat(8_193);
    let raw = format!("GET /hello?key={long_value} HTTP/1.1\r\n\r\n");

    let err = Request::from_bytes(raw.as_bytes()).unwrap_err();
    assert!(matches!(err, ParseError::QueryValueTooLong));
}

#[test]
fn body_str_borrows_utf8_without_allocating() {
    let request =
        Request::from_bytes(b"POST /hello HTTP/1.1\r\nContent-Length: 5\r\n\r\nhello").unwrap();
    assert_eq!(request.body_str().as_deref(), Some("hello"));
}

#[test]
fn invalid_response_headers_are_ignored() {
    let response = Response::text("ok").with_header("bad\nheader", "value");
    let wire = String::from_utf8(response.to_http_bytes()).unwrap();

    assert!(!wire.contains("bad\nheader"));
    assert!(wire.contains("Content-Length: 2"));
}

#[test]
fn response_wire_format_is_exact() {
    let response = Response::text("ok");
    let wire = String::from_utf8(response.to_http_bytes()).unwrap();
    assert!(wire.starts_with("HTTP/1.1 200 OK\r\n"), "{wire}");
    assert!(wire.ends_with("\r\n\r\nok"), "{wire}");
    assert!(wire.contains("Content-Type: text/plain; charset=utf-8\r\n"), "{wire}");
}

#[test]
fn query_values_are_percent_decoded_and_grouped() {
    let query: Vec<char> = "a=1&b=x%20y&a=2&c".chars().collect();
    let parsed = parse_query(&query).unwrap();
    assert_eq!(
        parsed,
        vec![
            ("a".to_string(), vec!["1".to_string(), "2".to_string()]),
            ("b".to_string(), vec!["x y".to_string()]),
            ("c".to_string(), vec!["".to_string()]),
        ]
    );
}

#[test]
fn body_shorter_than_content_length_is_refused() {
    let err = Request::from_bytes(b"POST /x HTTP/1.1\r\nContent-Length: 10\r\n\r\nabc").unwrap_err();
    assert_eq!(err, ParseError::BodyTooShort { expected: 10, actual: 3 });
    assert_eq!(
        err.to_string(),
        "request body is shorter than content-length (expected 10, got 3)"
    );
    let err = Request::from_bytes(b"").unwrap_err();
    assert_eq!(err, ParseError::MissingRequestLine);
}

#[test]
fn header_names_are_case_insensitive_and_first_value_wins() {
    let request =
        Request::from_bytes(b"GET / HTTP/1.0\r\nX-A: one\r\nx-a: two\r\n\r\n").unwrap();
    assert_eq!(request.header("X-A").as_deref(), Some("one"));
    assert_eq!(request.header("missing"), None);
    assert_eq!(request.version, "HTTP/1.0");
}

#[test]
fn client_ip_without_trusted_proxy_is_the_peer() {
    let raw = b"GET / HTTP/1.1\r\nX-Forwarded-For: 9.9.9.9\r\n\r\n";
    let mut request = Request::from_bytes(raw).unwrap();
    assert_eq!(request.client_ip(&[]), None);
    request.remote_addr = Some(parse_socket("10.0.0.1:1234").unwrap());
    assert_eq!(request.client_ip(&[]), parse_ip("10.0.0.1"));
}

#[test]
fn request_parser_round_trips_query_values() {
    for value in ["a", "abc123", "0", "zz9zz9zz9zz9"] {
        let raw = format!("GET /query?name={value} HTTP/1.1\r\nHost: local\r\n\r\n");
        let request = Request::from_bytes(raw.as_bytes()).expect("request parses");
        let found = request
            .query_params
            .iter()
            .find(|(key, _)| key == "name")
            .and_then(|(_, values)| values.first())
            .map(String::as_str);
        assert_eq!(found, Some(value));
    }
}

#[test]
fn typed_header_extractor_round_trips_values() {
    for value in ["a", "trace-123", "0-0", "abcdefghijklmnop"] {
        let raw = format!("GET /header HTTP/1.1\r\ntrace-id: {value}\r\n\r\n");
        let request = Request::from_bytes(raw.as_bytes()).unwrap();
        let name = normalize_header_name("trace_id");
        assert_eq!(name, "trace-id");
        let extracted = extractor_header_value(&request, &name).unwrap();
        assert_eq!(extracted.as_deref(), Some(value));
    }
}
