use vantus::config::{
    config_format, flatten_document, parse_properties, profile_config_path, AppConfig,
    ConfigFormat, Configuration, ConfigurationBuilder, FromConfig, FromConfiguration, JsonValue,
    ServerOptions, ServerProtocol, layer_from_text,
};
use vantus::errors::{ConfigError, FrameworkError, HttpError};
use vantus::request::ParseError;

fn env(pairs: &[(&str, &str)]) -> Vec<(String, String)> {
    pairs
        .iter()
        .map(|(k, v)| (k.to_string(), v.to_string()))
        .collect()
}

fn object(fields: Vec<(&str, JsonValue)>) -> JsonValue {
    JsonValue::Object(fields.into_iter().map(|(k, v)| (k.to_string(), v)).collect())
}

fn build(builder: &ConfigurationBuilder, vars: &[(&str, &str)]) -> Configuration {
    builder.build_with_env(&env(vars), &[], &[])
}

#[test]
fn configuration_layers_base_profile_and_env() {
    let base = parse_properties(
        "service.name=base-service\nservice.enable-info=true\nserver.address=127.0.0.1:9000\n",
    );
    let profile = parse_properties("service.name=profile-service\nservice.readiness=false\n");

    let mut builder = ConfigurationBuilder::new();
    builder.config_file("tests/application.properties").profile("production");
    assert_eq!(
        profile_config_path("tests/application.properties", "production"),
        "tests/application.production.properties"
    );
    let config = builder.build_with_env(
        &env(&[("APP_SERVER_CONCURRENCY_LIMIT", "64"), ("APP_ENVIRONMENT", "production")]),
        &base,
        &profile,
    );
    let app = AppConfig::from_configuration(&config).unwrap();

    assert_eq!(app.service_name, "profile-service");
    assert_eq!(app.environment, "production");
    assert!(!app.readiness);
    assert_eq!(app.server.address, "127.0.0.1:9000");
    assert_eq!(app.server.concurrency_limit, 64);
}

#[test]
fn environment_variables_override_profile_and_base_values() {
    let base = parse_properties(
        "service.name=base-service\nserver.bind-port=7000\nserver.concurrency-limit=16\n",
    );
    let profile = parse_properties(
        "service.name=profile-service\nserver.bind-port=7100\nserver.concurrency-limit=24\n",
    );

    let mut builder = ConfigurationBuilder::new();
    builder.config_file("/tmp/vantus-config-env-override-base.properties").profile("production");
    let config = builder.build_with_env(
        &env(&[
            ("APP_SERVICE_NAME", "env-service"),
            ("APP_SERVER_BIND_PORT", "7200"),
            ("APP_SERVER_CONCURRENCY_LIMIT", "64"),
        ]),
        &base,
        &profile,
    );
    let app = AppConfig::from_configuration(&config).unwrap();

    assert_eq!(app.service_name, "env-service");
    assert_eq!(app.server.bind_port, 7200);
    assert_eq!(app.server.concurrency_limit, 64);
}

#[test]
fn profile_specific_toml_files_are_loaded() {
    let base = flatten_document(&object(vec![
        ("service", object(vec![("name", JsonValue::Str("base-service".to_string()))])),
        (
            "server",
            object(vec![
                ("bind-port", JsonValue::Number("8080".to_string())),
                ("tcp-nodelay", JsonValue::Bool(true)),
            ]),
        ),
    ]));
    let profile = flatten_document(&object(vec![
        ("service", object(vec![("name", JsonValue::Str("staging-service".to_string()))])),
        (
            "server",
            object(vec![
                ("bind-port", JsonValue::Number("9090".to_string())),
                ("tcp-nodelay", JsonValue::Bool(false)),
            ]),
        ),
    ]));
    assert_eq!(
        profile_config_path("/tmp/vantus-config-profile-toml.toml", "staging"),
        "/tmp/vantus-config-profile-toml.staging.toml"
    );
    assert_eq!(config_format("/tmp/vantus-config-profile-toml.toml"), ConfigFormat::Toml);

    let mut builder = ConfigurationBuilder::new();
    builder.config_file("/tmp/vantus-config-profile-toml.toml").profile("staging");
    let config = builder.build_with_env(&[], &base, &profile);
    let app = AppConfig::from_configuration(&config).unwrap();

    assert_eq!(app.profile, "staging");
    assert_eq!(app.service_name, "staging-service");
    assert_eq!(app.server.bind_port, 9090);
    assert!(!app.server.tcp_nodelay);
}

#[test]
fn invalid_boolean_values_fail_fast() {
    let builder = ConfigurationBuilder::new();
    let config = build(&builder, &[("APP_SERVICE_ENABLE_INFO", "maybe")]);
    let error = AppConfig::from_configuration(&config).unwrap_err();
    assert!(error.to_string().contains("service.enable-info"));
}

#[test]
fn production_environment_disables_info_by_default() {
    let base = parse_properties("service.name=prod-service\n");
    let mut builder = ConfigurationBuilder::new();
    builder.config_file("/tmp/vantus-config-production-defaults.properties");
    let config = builder.build_with_env(&env(&[("APP_ENVIRONMENT", "production")]), &base, &[]);
    let app = AppConfig::from_configuration(&config).unwrap();
    assert!(!app.enable_info);
}

#[test]
fn invalid_bind_host_fails_fast() {
    let builder = ConfigurationBuilder::new();
    let config = build(&builder, &[("APP_SERVER_BIND_HOST", "localhost")]);
    let error = AppConfig::from_configuration(&config).unwrap_err();
    assert!(error.to_string().contains("server.bind-host"));
}

#[test]
fn runtime_tuning_config_is_bound() {
    let builder = ConfigurationBuilder::new();
    let config = build(
        &builder,
        &[
            ("APP_SERVER_PROTOCOL", "http2"),
            ("APP_SERVER_READ_TIMEOUT_SECONDS", "7"),
            ("APP_SERVER_HANDLER_TIMEOUT_SECONDS", "9"),
            ("APP_SERVER_TCP_NODELAY", "false"),
        ],
    );
    let app = AppConfig::from_configuration(&config).unwrap();

    assert_eq!(app.server.protocol, ServerProtocol::Http2);
    assert_eq!(app.server.read_timeout_secs, 7);
    assert_eq!(app.server.handler_timeout_secs, 9);
    assert!(!app.server.tcp_nodelay);
}

#[test]
fn framework_error_preserves_config_error_text() {
    let error = FrameworkError::from(ConfigError::MissingKey("service.name"));
    assert!(matches!(&error, FrameworkError::Startup { .. }));
    assert!(error.to_string().contains("missing config key service.name"));
}

#[test]
fn framework_error_wraps_parse_errors_as_bad_request() {
    let error = FrameworkError::from(ParseError::InvalidPercentEncoding);

    match error {
        FrameworkError::Http(http) => assert_eq!(http.status_code, 400),
        other => panic!("expected http error, got {other:?}"),
    }
}

#[test]
fn framework_error_exposes_http_source() {
    let error = FrameworkError::from(HttpError::bad_request("bad input"));
    assert!(matches!(&error, FrameworkError::Http(_)));
    assert_eq!(error.to_string(), "400 Bad Request");
}

#[derive(Clone, Debug)]
struct ProjectionRoot {
    feature: ProjectionLeaf,
}

#[derive(Clone, Debug, PartialEq, Eq)]
struct ProjectionLeaf {
    name: String,
}

impl FromConfiguration for ProjectionRoot {
    fn from_configuration(configuration: &Configuration) -> Result<Self, ConfigError> {
        let name = configuration
            .get("feature.name")
            .ok_or(ConfigError::MissingKey("feature.name"))?;
        Ok(ProjectionRoot { feature: ProjectionLeaf { name: name.to_string() } })
    }
}

impl FromConfig<ProjectionRoot> for ProjectionLeaf {
    fn from_config(root: &ProjectionRoot) -> Result<Self, ConfigError> {
        Ok(root.feature.clone())
    }
}

#[test]
fn from_config_projects_nested_settings() {
    let builder = ConfigurationBuilder::new();
    let config = build(&builder, &[("APP_FEATURE_NAME", "lens-ready")]);

    let root = ProjectionRoot::from_configuration(&config).unwrap();
    let leaf = ProjectionLeaf::from_config(&root).unwrap();

    assert_eq!(leaf, ProjectionLeaf { name: "lens-ready".to_string() });
}

#[test]
fn properties_skip_comments_and_blank_lines() {
    let entries = parse_properties("# comment\n\n key = value \nflag\nempty=\nx=a=b\n");
    assert_eq!(entries, env(&[("key", "value"), ("empty", ""), ("x", "a=b")]));
}

#[test]
fn later_layers_and_env_take_precedence() {
    let builder = ConfigurationBuilder::new();
    let base = env(&[("a", "1"), ("b", "1")]);
    let profile = env(&[("b", "2")]);
    let config = builder.build_with_env(&env(&[("APP_A", "3"), ("OTHER_B", "9")]), &base, &profile);
    assert_eq!(config.get("a"), Some("3"));
    assert_eq!(config.get("b"), Some("2"));
    assert_eq!(config.get("missing"), None);
    assert_eq!(config.environment(), "development");
    assert_eq!(config.profile(), "development");
}

#[test]
fn custom_prefix_and_explicit_environment() {
    let mut builder = ConfigurationBuilder::new();
    builder.env_prefix("SVC").environment("staging");
    let config = builder.build_with_env(&env(&[("SVC_SERVICE_NAME", "x"), ("APP_SERVICE_NAME", "y")]), &[], &[]);
    assert_eq!(config.get("service.name"), Some("x"));
    assert_eq!(config.environment(), "staging");
    assert_eq!(config.profile(), "staging");
}

#[test]
fn typed_getters_report_invalid_values() {
    let config = Configuration::from_parts(
        "p".to_string(),
        "e".to_string(),
        env(&[("n", "12"), ("b", "yes"), ("bad", "x1")]),
    );
    assert_eq!(config.get_u64("n", 0).unwrap(), 12);
    assert_eq!(config.get_u64("missing", 5).unwrap(), 5);
    assert!(config.get_bool("b", false).unwrap());
    let error = config.get_usize("bad", 1).unwrap_err();
    assert!(error.to_string().starts_with("invalid value for bad: x1"));
    assert_eq!(config.get_string("missing", "dflt"), "dflt");
}

#[test]
fn nested_documents_flatten_to_dotted_keys() {
    let doc = object(vec![
        ("a", object(vec![("b", JsonValue::Str("x".to_string()))])),
        (
            "list",
            JsonValue::Array(vec![JsonValue::Number("1".to_string()), JsonValue::Null]),
        ),
    ]);
    let entries = flatten_document(&doc);
    assert_eq!(entries, env(&[("a.b", "x"), ("list[0]", "1"), ("list[1]", "null")]));
}

#[test]
fn server_protocol_and_options_validate() {
    assert_eq!(ServerProtocol::parse("AUTO").unwrap(), ServerProtocol::Auto);
    assert!(ServerProtocol::parse("spdy").is_err());
    let config = build(&ConfigurationBuilder::new(), &[]);
    let app = AppConfig::from_configuration(&config).unwrap();
    let options = ServerOptions::try_from(&app.server).unwrap();
    assert_eq!(options.bind_address.port, app.server.bind_port);
}

#[test]
fn string_scalars_are_stored_as_escaped_json_text() {
    let doc = object(vec![(
        "s",
        JsonValue::Str("a\"b\\c\nd\te\u{1}f\u{8}é".to_string()),
    )]);
    let entries = flatten_document(&doc);
    assert_eq!(entries, vec![("s".to_string(), "a\\\"b\\\\c\\nd\\te\\u0001f\\bé".to_string())]);
}

fn sorted(mut entries: Vec<(String, String)>) -> Vec<(String, String)> {
    entries.sort();
    entries
}

fn pairs(items: &[(&str, &str)]) -> Vec<(String, String)> {
    items.iter().map(|(k, v)| (k.to_string(), v.to_string())).collect()
}

#[test]
fn toml_text_is_parsed_and_flattened() {
    let text = "[service]\nname = \"toml-service\"\n[server]\nbind-port = 9090\ntcp-nodelay = true\n";
    let entries = layer_from_text(ConfigFormat::Toml, text).expect("valid toml");
    assert_eq!(
        sorted(entries),
        pairs(&[("server.bind-port", "9090"), ("server.tcp-nodelay", "true"), ("service.name", "toml-service")])
    );
    assert!(matches!(layer_from_text(ConfigFormat::Toml, "[service\nname ="), Err(ConfigError::InvalidFormat)));
}

#[test]
fn json_text_is_parsed_and_flattened() {
    let text = r#"{"service": {"name": "json-service", "tags": ["a", "b"]}, "limit": 7}"#;
    let entries = layer_from_text(ConfigFormat::Json, text).expect("valid json");
    assert_eq!(
        sorted(entries),
        pairs(&[("limit", "7"), ("service.name", "json-service"), ("service.tags[0]", "a"), ("service.tags[1]", "b")])
    );
    assert!(matches!(layer_from_text(ConfigFormat::Json, "{\"service\": "), Err(ConfigError::InvalidFormat)));
}

#[test]
fn yaml_text_is_parsed_and_flattened() {
    let text = "service:\n  name: yaml-service\n  readiness: false\n";
    let entries = layer_from_text(ConfigFormat::Yaml, text).expect("valid yaml");
    assert_eq!(
        sorted(entries),
        pairs(&[("service.name", "yaml-service"), ("service.readiness", "false")])
    );
    assert!(matches!(layer_from_text(ConfigFormat::Yaml, "service: [unclosed"), Err(ConfigError::InvalidFormat)));
}

#[test]
fn properties_text_is_read_line_by_line() {
    let entries = layer_from_text(ConfigFormat::Properties, "# c\nservice.name = p\n\nbad line\n").expect("always");
    assert_eq!(entries, pairs(&[("service.name", "p")]));
}

#[test]
fn only_setting_a_file_marks_the_file_as_set() {
    let mut builder = ConfigurationBuilder::new();
    builder.profile("staging").environment("production").env_prefix("SVC");
    assert!(!builder.is_file_set());
    builder.config_file("first.toml").profile("p").config_file("second.toml").env_prefix("X");
    assert!(builder.is_file_set());
    assert_eq!(builder.file().as_deref(), Some("second.toml"));
}
