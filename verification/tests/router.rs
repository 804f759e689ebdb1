use vantus::errors::FrameworkError;
use vantus::host::{HostBuildError, ModulePhase};
use vantus::http::Method;
use vantus::routing::{
    format_allow_header, sort_dedup_methods, RequestBodyKind, RouteContract, RouteDefinition,
    RouteResolution, RouteTable,
};

fn param<'a>(params: &'a [(String, String)], name: &str) -> Option<&'a str> {
    params
        .iter()
        .find(|(key, _)| key == name)
        .map(|(_, value)| value.as_str())
}

fn table_with(routes: &[(Method, &str, usize)]) -> RouteTable {
    let mut router = RouteTable::new();
    for (method, path, handler) in routes {
        router
            .add_definition(RouteDefinition::new(method.clone(), path, *handler))
            .unwrap();
    }
    router
}

#[test]
fn matches_static_routes() {
    let router = table_with(&[(Method::Get, "/health", 0)]);
    assert!(router.route(&Method::Get, "/health").is_some());
}

#[test]
fn matches_parameter_routes() {
    let router = table_with(&[(Method::Get, "/users/{id}", 0)]);
    let matched = router.route(&Method::Get, "/users/42").unwrap();
    assert_eq!(param(&matched.path_params, "id"), Some("42"));
}

#[test]
fn matches_root_routes() {
    let router = table_with(&[(Method::Get, "/", 0)]);
    assert!(router.route(&Method::Get, "/").is_some());
}

#[test]
fn isolates_methods() {
    let router = table_with(&[(Method::Post, "/users/{id}", 0)]);
    assert!(router.route(&Method::Get, "/users/42").is_none());
    assert!(router.route(&Method::Post, "/users/42").is_some());
}

#[test]
fn reports_equivalent_parameter_conflicts() {
    let mut router = table_with(&[(Method::Get, "/users/{id}", 0)]);
    let error = router
        .add_definition(RouteDefinition::new(Method::Get, "/users/{name}", 1))
        .unwrap_err();
    let message = error.to_string();

    assert!(message.contains("/users/{id}"));
    assert!(message.contains("/users/{name}"));
}

#[test]
fn normalizes_lookup_paths_before_matching() {
    let router = table_with(&[(Method::Get, "/users/{id}", 0)]);
    let matched = router.route(&Method::Get, "/users//42/").unwrap();
    assert_eq!(param(&matched.path_params, "id"), Some("42"));
}

#[test]
fn prefers_static_routes_over_dynamic_routes() {
    let router = table_with(&[(Method::Get, "/users/{id}", 0), (Method::Get, "/users/me", 1)]);
    let matched = router.route(&Method::Get, "/users/me").unwrap();
    assert!(matched.path_params.is_empty());
    assert_eq!(matched.handler, 1);
}

#[test]
#[should_panic(expected = "Module registration failed")]
fn duplicate_routes_fail_with_build_error() {
    let mut router = RouteTable::new();
    let mut register = |router: &mut RouteTable| {
        router
            .add_definition(RouteDefinition::new(Method::Get, "/users/{id}", 0))
            .map_err(|err| HostBuildError::module("RoutingModule", ModulePhase::ConfigureRoutes, err))
    };
    register(&mut router).expect("Module registration failed");
    register(&mut router).expect("Module registration failed");
}

#[test]
fn semantically_equivalent_parameterized_routes_conflict() {
    let mut router = table_with(&[(Method::Get, "/users/{id}", 0)]);
    let error = router
        .add_definition(RouteDefinition::new(Method::Get, "/users/{name}", 1))
        .err()
        .expect("build should fail");
    let message = error.to_string();

    assert!(message.contains("duplicate route registration"));
    assert!(message.contains("/users/{id}"));
    assert!(message.contains("/users/{name}"));
}

#[test]
fn conflict_error_names_method_and_both_paths() {
    let mut router = table_with(&[(Method::Get, "/users/{id}", 0)]);
    let error = router
        .add_definition(RouteDefinition::new(Method::Get, "/users/{name}", 1))
        .unwrap_err();
    assert!(matches!(error, FrameworkError::RouteConflict { .. }));
    assert_eq!(
        error.to_string(),
        "duplicate route registration for GET /users/{name} (conflicts with /users/{id})"
    );
}

#[test]
fn invalid_templates_are_refused_and_leave_the_table_empty() {
    let mut router = RouteTable::new();
    let error = router
        .add_definition(RouteDefinition::new(Method::Get, "/users/../x", 0))
        .unwrap_err();
    assert_eq!(
        error.to_string(),
        "route path contains traversal sequences: /users/../x"
    );
    assert!(matches!(router.resolve(&Method::Get, "/users/x"), RouteResolution::NotFound));
}

#[test]
fn wrong_method_lists_the_allowed_methods() {
    let router = table_with(&[
        (Method::Post, "/items", 0),
        (Method::Get, "/items", 1),
        (Method::Delete, "/other", 2),
    ]);
    match router.resolve(&Method::Put, "/items") {
        RouteResolution::MethodNotAllowed { allow } => {
            assert_eq!(allow, vec![Method::Get, Method::Post]);
            assert_eq!(format_allow_header(&allow), "GET, POST");
        }
        other => panic!("unexpected resolution {:?}", other),
    }
    assert!(matches!(router.resolve(&Method::Put, "/missing"), RouteResolution::NotFound));
}

#[test]
fn matched_routes_carry_pattern_and_contract() {
    let mut router = RouteTable::new();
    router
        .add_definition(
            RouteDefinition::new(Method::Post, "//orders//{id}", 7)
                .with_contract(RouteContract::new(RequestBodyKind::Json)),
        )
        .unwrap();
    let matched = router.route(&Method::Post, "/orders/9").unwrap();
    assert_eq!(matched.handler, 7);
    assert_eq!(matched.route_pattern, "/orders/{id}");
    assert_eq!(matched.contract, RouteContract::new(RequestBodyKind::Json));
}

#[test]
fn allow_lists_are_sorted_and_deduplicated() {
    let methods = vec![
        Method::Options,
        Method::Get,
        Method::Post,
        Method::Get,
        Method::Head,
    ];
    let sorted = sort_dedup_methods(&methods);
    assert_eq!(
        sorted,
        vec![Method::Get, Method::Head, Method::Post, Method::Options]
    );
    assert_eq!(format_allow_header(&sorted), "GET, HEAD, POST, OPTIONS");
}

#[test]
fn normalized_paths_resolve_to_the_same_route() {
    let router = table_with(&[(Method::Get, "/items/{id}", 0)]);
    for id in ["a", "42", "abc123"] {
        let messy = router.route(&Method::Get, &format!("//items//{id}//")).unwrap();
        let clean = router.route(&Method::Get, &format!("/items/{id}")).unwrap();
        assert_eq!(messy.path_params, clean.path_params);
        assert_eq!(param(&messy.path_params, "id"), Some(id));
    }
}

#[test]
fn registering_a_route_twice_is_refused_and_keeps_the_first() {
    let mut router = table_with(&[(Method::Get, "/health", 0)]);
    assert!(router
        .add_definition(RouteDefinition::new(Method::Get, "//health/", 1))
        .is_err());
    assert_eq!(router.route(&Method::Get, "/health").unwrap().handler, 0);
    router
        .add_definition(RouteDefinition::new(Method::Post, "/health", 2))
        .unwrap();
    assert_eq!(router.route(&Method::Post, "/health").unwrap().handler, 2);
}

#[test]
fn allow_header_depends_only_on_the_set_of_methods() {
    let expected = "GET, HEAD, POST, DELETE, OPTIONS";
    let orders = vec![
        vec![Method::Options, Method::Delete, Method::Post, Method::Head, Method::Get],
        vec![Method::Get, Method::Head, Method::Post, Method::Delete, Method::Options],
        vec![Method::Post, Method::Post, Method::Options, Method::Get, Method::Delete, Method::Head, Method::Get],
    ];
    for methods in orders {
        assert_eq!(format_allow_header(&methods), expected);
    }
    assert_eq!(format_allow_header(&[Method::Post, Method::Get, Method::Post]), "GET, POST");
}
