use vantus::errors::FrameworkError;
use vantus::path::{normalize_path_template, normalize_request_path};

fn startup_text(result: Result<String, FrameworkError>) -> String {
    match result {
        Err(FrameworkError::Startup { context }) => context,
        other => panic!("expected a startup error, got {:?}", other),
    }
}

#[test]
fn normalizes_route_templates() {
    let normalized = normalize_path_template("//users//{id}//").unwrap();
    assert_eq!(normalized, "/users/{id}");
}

#[test]
fn normalizes_request_paths() {
    let normalized = normalize_request_path("/users//42/").unwrap();
    assert_eq!(normalized, "/users/42");
}

#[test]
fn rejects_traversal_sequences() {
    assert!(normalize_request_path("/users/../admin").is_err());
    assert!(normalize_path_template("/users/../{id}").is_err());
}

#[test]
fn root_and_empty_segments_collapse_to_slash() {
    assert_eq!(normalize_request_path("/").unwrap(), "/");
    assert_eq!(normalize_request_path("///").unwrap(), "/");
    assert_eq!(normalize_path_template("/").unwrap(), "/");
}

#[test]
fn paths_must_start_with_a_slash() {
    assert_eq!(
        startup_text(normalize_request_path("users")),
        "invalid request path: users"
    );
    assert_eq!(
        startup_text(normalize_path_template("users")),
        "invalid route path: users"
    );
}

#[test]
fn traversal_errors_name_the_path() {
    assert_eq!(
        startup_text(normalize_request_path("/a/./b")),
        "request path contains traversal sequences: /a/./b"
    );
    assert_eq!(
        startup_text(normalize_path_template("/a/../b")),
        "route path contains traversal sequences: /a/../b"
    );
}

#[test]
fn template_parameter_names_are_checked() {
    assert_eq!(
        startup_text(normalize_path_template("/users/{1d-x}")),
        "invalid route parameter name: 1d-x"
    );
    assert_eq!(
        startup_text(normalize_path_template("/users/{id}/{id}")),
        "duplicate route parameter name: id"
    );
    assert_eq!(
        startup_text(normalize_path_template("/users/x{id}")),
        "invalid route path segment: x{id}"
    );
}

#[test]
fn request_paths_keep_braces_as_plain_text() {
    assert_eq!(normalize_request_path("/users/{id}").unwrap(), "/users/{id}");
}

#[test]
fn normalizing_twice_changes_nothing() {
    for raw in ["//a//b//", "/", "/users/42", "///x"] {
        let once = normalize_request_path(raw).unwrap();
        assert_eq!(normalize_request_path(&once).unwrap(), once);
    }
    let once = normalize_path_template("//users//{id}//").unwrap();
    assert_eq!(normalize_path_template(&once).unwrap(), once);
}
