use vantus::extraction::{
    check_route_method, classify_parameter, route_attribute, ExtractionRefusal, ExtractorKind,
    HttpMethodKind, ParamPlan, RouteMethodRefusal,
};
use vantus::errors::FrameworkError;
use vantus::routing::RequestBodyKind;

fn plan(name: &str, outer: &str, inner: Option<&str>) -> ParamPlan {
    classify_parameter(name, outer, inner).expect("supported parameter")
}

#[test]
fn path_parameters_are_named_by_the_parameter() {
    let p = plan("id", "Path", None);
    assert_eq!(p.kind, ExtractorKind::Named);
    assert_eq!(p.body, None);
    assert_eq!(p.path_param.as_deref(), Some("id"));
}

#[test]
fn query_and_header_are_named_extractors() {
    for outer in ["Query", "Header"] {
        let p = plan("q", outer, None);
        assert_eq!(p.kind, ExtractorKind::Named);
        assert_eq!(p.body, None);
        assert_eq!(p.path_param, None);
    }
}

#[test]
fn request_wide_extractors_read_no_body() {
    for outer in ["RequestContext", "QueryMap", "RequestState", "IdentityState"] {
        let p = plan("x", outer, None);
        assert_eq!(p.kind, ExtractorKind::Whole);
        assert_eq!(p.body, None);
        assert_eq!(p.path_param, None);
    }
}

#[test]
fn body_extractors_record_their_body_kind() {
    assert_eq!(plan("b", "BodyBytes", None).body, Some(RequestBodyKind::Bytes));
    assert_eq!(plan("b", "TextBody", None).body, Some(RequestBodyKind::Text));
    assert_eq!(plan("b", "JsonBody", None).body, Some(RequestBodyKind::Json));
    assert_eq!(plan("b", "JsonBody", None).kind, ExtractorKind::Whole);
}

#[test]
fn optional_forms_are_limited_to_four_extractors() {
    assert_eq!(plan("q", "Option", Some("Query")).kind, ExtractorKind::OptionalNamed);
    assert_eq!(plan("h", "Option", Some("Header")).kind, ExtractorKind::OptionalNamed);
    assert_eq!(plan("s", "Option", Some("RequestState")).kind, ExtractorKind::OptionalWhole);
    assert_eq!(plan("i", "Option", Some("IdentityState")).kind, ExtractorKind::OptionalWhole);
    assert!(matches!(
        classify_parameter("p", "Option", Some("Path")),
        Err(ExtractionRefusal::UnsupportedOptional)
    ));
    assert!(matches!(
        classify_parameter("b", "Option", Some("TextBody")),
        Err(ExtractionRefusal::UnsupportedOptional)
    ));
    assert!(matches!(classify_parameter("o", "Option", None), Err(ExtractionRefusal::MissingInner)));
}

#[test]
fn service_parameters_are_refused() {
    let refusal = classify_parameter("generator", "Service", None).err().expect("refused");
    assert_eq!(refusal, ExtractionRefusal::Unsupported);
    assert!(refusal.to_string().starts_with("unsupported handler parameter type"));
}

#[test]
fn route_attributes_name_the_seven_methods() {
    assert_eq!(route_attribute("get"), Some(HttpMethodKind::Get));
    assert_eq!(route_attribute("post"), Some(HttpMethodKind::Post));
    assert_eq!(route_attribute("put"), Some(HttpMethodKind::Put));
    assert_eq!(route_attribute("delete"), Some(HttpMethodKind::Delete));
    assert_eq!(route_attribute("patch"), Some(HttpMethodKind::Patch));
    assert_eq!(route_attribute("head"), Some(HttpMethodKind::Head));
    assert_eq!(route_attribute("options"), Some(HttpMethodKind::Options));
    assert_eq!(route_attribute("middleware"), None);
}

#[test]
fn body_extractor_on_get_is_refused() {
    let params = vec![plan("_body", "TextBody", None)];
    let refusal = check_route_method(HttpMethodKind::Get, "/bad", &params).err().expect("refused");
    assert!(matches!(refusal, RouteMethodRefusal::BodyOnSafeMethod));
    match refusal.to_error("/bad") {
        FrameworkError::Startup { context } => {
            assert_eq!(context, "GET, HEAD, and OPTIONS handlers may not declare body extractors")
        }
        _ => panic!("expected a startup error"),
    }
    for kind in [HttpMethodKind::Head, HttpMethodKind::Options] {
        assert!(matches!(
            check_route_method(kind, "/bad", &params),
            Err(RouteMethodRefusal::BodyOnSafeMethod)
        ));
    }
}

#[test]
fn multiple_body_extractors_are_refused() {
    let params = vec![plan("_text", "TextBody", None), plan("_json", "JsonBody", None)];
    assert!(matches!(
        check_route_method(HttpMethodKind::Post, "/bad", &params),
        Err(RouteMethodRefusal::MultipleBodies)
    ));
}

#[test]
fn path_parameter_mismatch_is_refused() {
    let params = vec![plan("name", "Path", None)];
    let refusal = check_route_method(HttpMethodKind::Get, "/users/{id}", &params).err().expect("refused");
    match &refusal {
        RouteMethodRefusal::PathParamMissing(name) => assert_eq!(name, "name"),
        _ => panic!("expected a missing path parameter"),
    }
    match refusal.to_error("/users/{id}") {
        FrameworkError::Startup { context } => assert_eq!(
            context,
            "path parameter `name` is not present in route template `/users/{id}`"
        ),
        _ => panic!("expected a startup error"),
    }
}

#[test]
fn invalid_templates_are_refused_first() {
    let params = vec![plan("id", "Path", None), plan("a", "TextBody", None), plan("b", "BodyBytes", None)];
    let refusal = check_route_method(HttpMethodKind::Get, "users/{id}", &params).err().expect("refused");
    assert!(matches!(refusal, RouteMethodRefusal::Template(_)));
    match refusal.to_error("users/{id}") {
        FrameworkError::Startup { context } => assert_eq!(context, "invalid route path: users/{id}"),
        _ => panic!("expected a startup error"),
    }
    assert!(matches!(
        check_route_method(HttpMethodKind::Get, "/users/{id}/{id}", &[]),
        Err(RouteMethodRefusal::Template(_))
    ));
}

#[test]
fn missing_path_parameter_is_reported_before_body_rules() {
    let params = vec![plan("a", "TextBody", None), plan("b", "BodyBytes", None), plan("slug", "Path", None)];
    assert!(matches!(
        check_route_method(HttpMethodKind::Get, "/posts/{id}", &params),
        Err(RouteMethodRefusal::PathParamMissing(_))
    ));
}

#[test]
fn accepted_routes_carry_their_body_contract() {
    let params = vec![plan("id", "Path", None), plan("payload", "JsonBody", None), plan("ctx", "RequestContext", None)];
    let contract = check_route_method(HttpMethodKind::Put, "//items//{id}/", &params).expect("accepted");
    assert_eq!(contract.body, RequestBodyKind::Json);
    let none = check_route_method(HttpMethodKind::Get, "/items/{id}", &[plan("id", "Path", None)]).expect("accepted");
    assert_eq!(none.body, RequestBodyKind::NoBody);
}
