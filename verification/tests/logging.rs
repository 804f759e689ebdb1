use vantus::logging::request_log_event;
use vantus::net::{parse_ip, parse_socket};
use vantus::request::Request;
use vantus::logging::try_sanitize_path_for_logs;
use vantus::logging::{
    is_sensitive_header, looks_like_identifier, redact_assignment_value, redact_headers,
    sanitize_log_message, sanitize_path_for_logs, utf8_len_exec, LogLevel,
};

fn pair(key: &str, value: &str) -> (String, String) {
    (key.to_string(), value.to_string())
}

#[test]
fn redacts_sensitive_headers() {
    let headers = vec![
        pair("authorization", "Bearer secret-token"),
        pair("x-api-key", "super-secret"),
        pair("accept", "application/json"),
    ];

    let redacted = redact_headers(&headers);
    assert!(redacted
        .iter()
        .any(|(key, value)| key == "authorization" && value == "<redacted>"));
    assert!(redacted
        .iter()
        .any(|(key, value)| key == "x-api-key" && value == "<redacted>"));
    assert!(redacted
        .iter()
        .any(|(key, value)| key == "accept" && value == "application/json"));
}

#[test]
fn sanitizes_sensitive_log_message_values() {
    let sanitized = sanitize_log_message(
        "login failed authorization: Bearer abc123 password=hunter2 token=secret",
    );
    assert!(!sanitized.contains("abc123"));
    assert!(!sanitized.contains("hunter2"));
    assert!(!sanitized.contains("secret"));
    assert!(sanitized.contains("<redacted>"));
}

#[test]
fn sanitizes_log_paths() {
    let sanitized =
        sanitize_path_for_logs("/users/123456/orders/0123456789abcdef0123456789abcdef");
    assert_eq!(sanitized, "/users/:redacted/orders/:redacted");
}

#[test]
fn sensitive_header_names_match_case_insensitively() {
    assert!(is_sensitive_header("Authorization"));
    assert!(is_sensitive_header("SET-COOKIE"));
    assert!(is_sensitive_header("x-auth-token"));
    assert!(!is_sensitive_header("accept"));
    assert!(!is_sensitive_header("x-request-id"));
}

#[test]
fn redacted_headers_keep_order_and_names() {
    let headers = vec![pair("Cookie", "a=b"), pair("Host", "example")];
    let redacted = redact_headers(&headers);
    assert_eq!(redacted, vec![pair("Cookie", "<redacted>"), pair("Host", "example")]);
}

#[test]
fn identifier_segments_are_recognised() {
    assert!(!looks_like_identifier("123456"));
    assert!(looks_like_identifier("0123456789abcdef0123456789abcdef"));
    assert!(looks_like_identifier("550e8400-e29b-41d4-a716-446655440000"));
    assert!(!looks_like_identifier("12345"));
    assert!(!looks_like_identifier("orders"));
    assert!(!looks_like_identifier("abcdef"));
}

#[test]
fn sanitized_paths_keep_plain_segments_and_cut_long_ones() {
    assert_eq!(sanitize_path_for_logs("/health"), "/health");
    assert_eq!(sanitize_path_for_logs("/"), "/");
    assert_eq!(sanitize_path_for_logs("/users/42/x"), "/users/:redacted/x");
    let long = "/abcd".repeat(40);
    let sanitized = sanitize_path_for_logs(&long);
    assert_eq!(sanitized, format!("{}...", &long[..128]));
}

#[test]
fn assignment_values_are_redacted_up_to_the_next_separator() {
    assert_eq!(
        redact_assignment_value("user=bob Password=hunter2 next", "password"),
        "user=bob Password=<redacted>"
    );
    assert_eq!(
        redact_assignment_value("token:   abc def", "token"),
        "token:   <redacted>"
    );
    assert_eq!(
        redact_assignment_value("a=1, token=x; b=2", "token"),
        "a=1, token=<redacted>; b=2"
    );
    assert_eq!(redact_assignment_value("tokenizer ok", "token"), "tokenizer ok");
    assert_eq!(redact_assignment_value("no secrets here", "cookie"), "no secrets here");
}

#[test]
fn log_message_without_secrets_is_unchanged() {
    assert_eq!(sanitize_log_message("GET /health 200"), "GET /health 200");
    assert_eq!(
        sanitize_log_message("cookie=abc; secret=xyz"),
        "cookie=<redacted>; secret=<redacted>"
    );
}

#[test]
fn utf8_length_counts_bytes() {
    let chars: Vec<char> = "aé€😀".chars().collect();
    assert_eq!(utf8_len_exec(&chars), 1 + 2 + 3 + 4);
}

#[test]
fn log_levels_render_their_names() {
    assert_eq!(LogLevel::Info.as_str(), "INFO");
    assert_eq!(LogLevel::Error.as_str(), "ERROR");
}

#[test]
fn request_log_event_carries_context_and_scrubbed_path() {
    let mut request = Request::from_bytes(
        b"GET /users/123456 HTTP/1.1\r\nX-Forwarded-For: 198.51.100.8\r\n\r\n",
    )
    .unwrap();
    request.remote_addr = Some(parse_socket("127.0.0.1:9000").unwrap());
    let event = request_log_event(
        &request,
        &[parse_ip("127.0.0.1").unwrap()],
        Some("req-1".to_string()),
        200,
        12,
        Vec::new(),
    );
    assert_eq!(event.method, "GET");
    assert_eq!(event.path, "/users/:redacted");
    assert_eq!(event.status_code, 200);
    assert_eq!(event.duration_ms, 12);
    assert_eq!(event.client_ip.as_deref(), Some("198.51.100.8"));
    assert_eq!(event.request_id.as_deref(), Some("req-1"));
}

#[test]
fn paths_whose_cut_falls_inside_a_character_are_refused() {
    let cut_inside = format!("{}/xxxxxé", "/xxxxxxxxxx".repeat(11));
    assert_eq!(cut_inside.len(), 129);
    assert!(!cut_inside.is_char_boundary(128));
    assert_eq!(try_sanitize_path_for_logs(&cut_inside), None);
    let cut_between = format!("{}/xxxxxxé", "/xxxxxxxxxx".repeat(11));
    assert_eq!(
        try_sanitize_path_for_logs(&cut_between),
        Some(format!("{}...", &cut_between[..128]))
    );
    assert_eq!(
        try_sanitize_path_for_logs("/users/42").as_deref(),
        Some("/users/:redacted")
    );
}

#[test]
fn redacting_a_key_twice_changes_nothing() {
    let inputs = [
        "token=abc; Token : xyz & other=1",
        "tokentoken=1,token",
        "password=  hunter2, passwd=x",
        "no secrets here",
    ];
    for input in inputs {
        for key in ["token", "password", "passwd"] {
            let once = redact_assignment_value(input, key);
            assert_eq!(redact_assignment_value(&once, key), once);
        }
        let scrubbed = sanitize_log_message(input);
        assert_eq!(sanitize_log_message(&scrubbed), scrubbed);
    }
}
