use vantus::config::{AppConfig, ConfigurationBuilder, FromConfiguration};
use vantus::errors::{FrameworkError, HttpError};
use vantus::host::{
    host_config_candidates, join_paths, normalize_prefix, security_limits, HealthModule,
    HostBuildError, HostError, InfoModule, Lifecycle, LifecycleAction, LifecycleEvent,
    ModulePhase, RuntimeSettings, SecurityHeaders, SecurityLimits, WebPlatformModule,
};
use vantus::http::Response;

fn default_app() -> AppConfig {
    let config = ConfigurationBuilder::new().build_with_env(&[], &[], &[]);
    AppConfig::from_configuration(&config).unwrap()
}

#[test]
fn group_prefixes_are_normalized_and_joined() {
    assert_eq!(normalize_prefix(""), "");
    assert_eq!(normalize_prefix("/"), "");
    assert_eq!(normalize_prefix("api/v1/"), "/api/v1");
    assert_eq!(join_paths("/api/", "/users"), "/api/users");
    assert_eq!(join_paths("", "users/"), "/users");
    assert_eq!(join_paths("/", "/"), "/");
    assert_eq!(join_paths("api", "/"), "/api");
}

#[test]
fn security_headers_are_added() {
    let response = SecurityHeaders::apply(Response::text("ok"));
    let has = |k: &str, v: &str| response.headers.iter().any(|(a, b)| a == k && b == v);
    assert!(has("X-Content-Type-Options", "nosniff"));
    assert!(has("X-Frame-Options", "DENY"));
    assert!(has("Referrer-Policy", "no-referrer"));
    assert!(has("Cache-Control", "no-store"));
}

#[test]
fn health_and_info_gates() {
    let platform = WebPlatformModule::new();
    assert_eq!(platform.health.status(), "starting");
    assert!(platform.info.gate().is_err());
    assert_eq!(HealthModule { ready: true }.status(), "ok");
    assert!(InfoModule { enabled: true }.gate().is_ok());
}

#[test]
fn security_limits_prefer_overrides_and_must_be_positive() {
    let app = default_app();
    let limits = security_limits(&app, Some(10), Some(250)).unwrap();
    assert_eq!(limits, SecurityLimits { max_body_size: 10, request_timeout_ms: 250 });
    let limits = security_limits(&app, None, None).unwrap();
    assert_eq!(limits.max_body_size, app.server.max_request_bytes);
    assert_eq!(limits.request_timeout_ms, app.server.request_timeout_secs as u128 * 1000);
    let error = security_limits(&app, Some(0), None).unwrap_err();
    assert_eq!(
        error.to_string(),
        "invalid value for builder.max-body-size: 0 (positive usize)"
    );
    assert!(security_limits(&app, None, Some(0)).is_err());
}

#[test]
fn runtime_settings_validate_the_server_section() {
    let app = default_app();
    let settings = RuntimeSettings::from_config(&app).unwrap();
    assert_eq!(settings.server.bind_address.port, app.server.bind_port);
}

#[test]
fn host_probes_config_files_in_order() {
    assert_eq!(
        host_config_candidates(),
        vec!["application.toml", "application.yaml", "application.json", "application.properties"]
    );
}

#[test]
fn host_errors_render_their_cause() {
    let error = HostBuildError::module(
        "UsersModule",
        ModulePhase::ConfigureRoutes,
        FrameworkError::route_conflict("GET", "/a", "/a"),
    );
    let text = error.to_string();
    assert!(text.contains("UsersModule"), "{text}");
    assert!(text.contains("configure_routes"), "{text}");
    assert!(text.contains("duplicate route registration for GET /a"), "{text}");
    let host: HostError = error.into();
    let framework = FrameworkError::from(host);
    assert!(matches!(framework, FrameworkError::Internal { .. }));
    assert!(framework.to_string().contains("UsersModule"));
    let response = FrameworkError::from(HttpError::not_found("gone")).to_response();
    assert_eq!(response.status_code, 404);
}

fn drive(modules: usize, fail_at: Option<usize>, shutdown: bool) -> Vec<LifecycleAction> {
    let mut lifecycle = Lifecycle::new(modules);
    let mut actions = Vec::new();
    let mut shut = false;
    loop {
        let action = lifecycle.action();
        actions.push(action);
        let event = match action {
            LifecycleAction::Start(i) if Some(i) == fail_at => LifecycleEvent::StartFailed,
            LifecycleAction::Start(_) => LifecycleEvent::Started,
            LifecycleAction::Stop(_) => LifecycleEvent::Stopped,
            LifecycleAction::CancelBackground => LifecycleEvent::BackgroundCancelled,
            LifecycleAction::Serve if shutdown && !shut => {
                shut = true;
                LifecycleEvent::ShutdownRequested
            }
            LifecycleAction::Serve | LifecycleAction::Finish => return actions,
        };
        lifecycle = lifecycle.next(event);
    }
}

#[test]
fn lifecycle_starts_modules_in_registration_order() {
    assert_eq!(drive(3, None, false), vec![LifecycleAction::Start(0), LifecycleAction::Start(1), LifecycleAction::Start(2), LifecycleAction::Serve]);
    assert_eq!(drive(0, None, false), vec![LifecycleAction::Serve]);
}

#[test]
fn lifecycle_rolls_back_started_modules_on_failure() {
    assert_eq!(
        drive(4, Some(2), false),
        vec![LifecycleAction::Start(0), LifecycleAction::Start(1), LifecycleAction::Start(2), LifecycleAction::CancelBackground, LifecycleAction::Stop(1), LifecycleAction::Stop(0), LifecycleAction::Finish]
    );
    assert_eq!(drive(2, Some(0), false), vec![LifecycleAction::Start(0), LifecycleAction::CancelBackground, LifecycleAction::Finish]);
}

#[test]
fn graceful_shutdown_stops_modules_in_reverse_order() {
    assert_eq!(
        drive(3, None, true),
        vec![LifecycleAction::Start(0), LifecycleAction::Start(1), LifecycleAction::Start(2), LifecycleAction::Serve, LifecycleAction::CancelBackground, LifecycleAction::Stop(2), LifecycleAction::Stop(1), LifecycleAction::Stop(0), LifecycleAction::Finish]
    );
}

#[test]
fn recorded_registration_errors_refuse_the_build() {
    assert!(HostBuildError::check_registration(Vec::new()).is_ok());
    let one = HostBuildError::module("A", ModulePhase::ConfigureRoutes, FrameworkError::startup("x"));
    match HostBuildError::check_registration(vec![one]) {
        Err(HostBuildError::Module { module, .. }) => assert_eq!(module, "A"),
        other => panic!("unexpected {other:?}"),
    }
    let a = HostBuildError::module("A", ModulePhase::ConfigureRoutes, FrameworkError::startup("x"));
    let b = HostBuildError::module("B", ModulePhase::ConfigureRoutes, FrameworkError::startup("y"));
    match HostBuildError::check_registration(vec![a, b]) {
        Err(HostBuildError::Combined(errors)) => assert_eq!(errors.len(), 2),
        other => panic!("unexpected {other:?}"),
    }
}
