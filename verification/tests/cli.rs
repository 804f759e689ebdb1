use vantus::cli::{
    resolve_toggle, CliError, CliFeatureDefaults, IdGeneratorKind, RateLimitSettings, RuntimeMode,
    ServerCli,
};

fn bare() -> ServerCli {
    ServerCli {
        config: None,
        environment: None,
        profile: None,
        env_prefix: None,
        mode: None,
        web_platform: false,
        no_web_platform: false,
        observability: false,
        no_observability: false,
        max_body_bytes: None,
        request_timeout_ms: None,
        rate_limit_capacity: None,
        rate_limit_refill_tokens: None,
        rate_limit_refill_seconds: None,
        id_generator: None,
        print_startup_plan: false,
        dry_run: false,
    }
}

#[test]
fn cli_parses_runtime_mode_and_feature_toggles() {
    let cli = ServerCli {
        mode: Some(RuntimeMode::Production),
        web_platform: true,
        no_observability: true,
        id_generator: Some(IdGeneratorKind::Atomic),
        ..bare()
    };

    assert_eq!(cli.effective_mode(), RuntimeMode::Production);
    assert!(cli.web_platform_enabled(false));
    assert!(!cli.observability_enabled(true));
    assert_eq!(cli.id_generator_kind(), IdGeneratorKind::Atomic);
}

#[test]
fn cli_requires_complete_rate_limit_configuration() {
    let cli = ServerCli { rate_limit_capacity: Some(100), ..bare() };
    let error = cli
        .startup_plan(CliFeatureDefaults::default())
        .expect_err("rate limiting should require all fields");

    assert_eq!(error, CliError::IncompleteRateLimit);
}

#[test]
fn cli_renders_human_readable_startup_plan() {
    let cli = ServerCli {
        mode: Some(RuntimeMode::Development),
        observability: true,
        request_timeout_ms: Some(2500),
        dry_run: true,
        ..bare()
    };
    let plan = cli
        .startup_plan(CliFeatureDefaults { web_platform: true, observability: false })
        .expect("plan should render");

    assert!(plan.contains("mode=development"), "{plan}");
    assert!(plan.contains("environment=development (mode)"), "{plan}");
    assert!(plan.contains("web_platform=true (default)"), "{plan}");
    assert!(plan.contains("observability=true (cli)"), "{plan}");
    assert!(plan.contains("request_timeout_ms=2500 (cli)"), "{plan}");
    assert!(plan.contains("dry_run=true"), "{plan}");
}

#[test]
fn cli_marks_config_backed_runtime_values_as_pending() {
    let cli = bare();
    let plan = cli
        .startup_plan(CliFeatureDefaults::default())
        .expect("plan should render");

    assert!(plan.contains("environment=development (env/default)"), "{plan}");
    assert!(plan.contains("env_prefix=APP (default)"), "{plan}");
    assert!(plan.contains("max_body_bytes=<config/default: 65536> (pending)"), "{plan}");
    assert!(plan.contains("request_timeout_ms=<config/default: 5000> (pending)"), "{plan}");
}

#[test]
fn cli_rejects_zero_rate_limit_capacity() {
    let cli = ServerCli {
        rate_limit_capacity: Some(0),
        rate_limit_refill_tokens: Some(10),
        rate_limit_refill_seconds: Some(60),
        ..bare()
    };
    let error = cli
        .startup_plan(CliFeatureDefaults::default())
        .expect_err("zero capacity should be rejected");

    assert_eq!(error, CliError::InvalidRateLimitCapacity);
}

#[test]
fn cli_rejects_zero_rate_limit_refill_tokens() {
    let cli = ServerCli {
        rate_limit_capacity: Some(10),
        rate_limit_refill_tokens: Some(0),
        rate_limit_refill_seconds: Some(60),
        ..bare()
    };
    let error = cli
        .startup_plan(CliFeatureDefaults::default())
        .expect_err("zero refill tokens should be rejected");

    assert_eq!(error, CliError::InvalidRateLimitRefillTokens);
}

#[test]
fn cli_rejects_zero_refill_seconds_and_timeouts() {
    let cli = ServerCli {
        rate_limit_capacity: Some(10),
        rate_limit_refill_tokens: Some(10),
        rate_limit_refill_seconds: Some(0),
        ..bare()
    };
    assert_eq!(cli.rate_limit(), Err(CliError::InvalidRefillSeconds));
    let cli = ServerCli { request_timeout_ms: Some(0), ..bare() };
    assert_eq!(
        cli.builder_settings(CliFeatureDefaults::default()).err(),
        Some(CliError::InvalidRequestTimeout)
    );
    assert!(cli.startup_plan(CliFeatureDefaults::default()).unwrap().contains("request_timeout_ms=0 (cli)"));
    let cli = ServerCli { max_body_bytes: Some(0), ..bare() };
    assert_eq!(
        cli.builder_settings(CliFeatureDefaults::default()).err(),
        Some(CliError::InvalidMaxBodyBytes)
    );
}

#[test]
fn complete_rate_limit_is_returned() {
    let cli = ServerCli {
        rate_limit_capacity: Some(5),
        rate_limit_refill_tokens: Some(2),
        rate_limit_refill_seconds: Some(30),
        ..bare()
    };
    assert_eq!(
        cli.rate_limit(),
        Ok(Some(RateLimitSettings { capacity: 5, refill_tokens: 2, refill_seconds: 30 }))
    );
    assert_eq!(bare().rate_limit(), Ok(None));
}

#[test]
fn toggles_prefer_the_enabling_flag_then_the_disabling_one() {
    assert!(resolve_toggle(true, true, false));
    assert!(resolve_toggle(true, false, false));
    assert!(!resolve_toggle(false, true, true));
    assert!(resolve_toggle(false, false, true));
    assert!(!resolve_toggle(false, false, false));
}

#[test]
fn production_mode_selects_its_presets() {
    assert_eq!(RuntimeMode::Production.default_environment(), "production");
    assert_eq!(RuntimeMode::Production.default_request_timeout_ms(), 5000);
    assert_eq!(RuntimeMode::Production.default_max_body_bytes(), 65536);
    assert_eq!(RuntimeMode::Development.default_request_timeout_ms(), 10000);
    assert_eq!(RuntimeMode::Development.default_max_body_bytes(), 131072);
    assert_eq!(bare().effective_mode(), RuntimeMode::Development);
    assert_eq!(bare().id_generator_kind(), IdGeneratorKind::Uuid);
}

#[test]
fn builder_settings_follow_the_mode_and_the_flags() {
    let cli = ServerCli {
        mode: Some(RuntimeMode::Production),
        env_prefix: Some("SVC".to_string()),
        no_web_platform: true,
        ..bare()
    };
    let settings = cli
        .builder_settings(CliFeatureDefaults { web_platform: true, observability: true })
        .unwrap();
    assert_eq!(settings.environment.as_deref(), Some("production"));
    assert_eq!(settings.env_prefix.as_deref(), Some("SVC"));
    assert_eq!(settings.request_timeout_ms, Some(5000));
    assert_eq!(settings.max_body_bytes, Some(65536));
    assert!(!settings.web_platform);
    assert!(settings.observability);
    assert_eq!(settings.rate_limit, None);
}

#[test]
fn error_messages_name_the_flags() {
    assert_eq!(
        CliError::InvalidRateLimitCapacity.to_string(),
        "rate-limit-capacity must be positive"
    );
    assert!(CliError::IncompleteRateLimit
        .to_string()
        .contains("--rate-limit-refill-seconds"));
}

#[test]
fn default_startup_plan_text_is_exact() {
    let plan = bare().startup_plan(CliFeatureDefaults::default()).unwrap();
    assert_eq!(
        plan,
        "mode=development\nconfig=<auto-discover>\nenvironment=development (env/default)\nprofile=development (env/default)\nenv_prefix=APP (default)\nweb_platform=false (default)\nobservability=false (default)\nmax_body_bytes=<config/default: 65536> (pending)\nrequest_timeout_ms=<config/default: 5000> (pending)\nid_generator=uuid (default)\nrate_limit=disabled\nprint_startup_plan=false\ndry_run=false"
    );
    let cli = ServerCli {
        rate_limit_capacity: Some(3),
        rate_limit_refill_tokens: Some(1),
        rate_limit_refill_seconds: Some(9),
        config: Some("conf/app.toml".to_string()),
        ..bare()
    };
    let plan = cli.startup_plan(CliFeatureDefaults::default()).unwrap();
    assert!(plan.contains("\nconfig=conf/app.toml\n"), "{plan}");
    assert!(plan.contains("rate_limit=capacity=3, refill_tokens=1, refill_seconds=9 (cli)"), "{plan}");
}

#[test]
fn refused_options_keep_what_was_set_before_the_refusing_check() {
    let accepted = ServerCli { mode: Some(RuntimeMode::Production), ..bare() };
    assert!(accepted.settings_before_refusal(CliFeatureDefaults::default()).is_none());

    let zero_body = ServerCli {
        mode: Some(RuntimeMode::Production),
        environment: Some("staging".to_string()),
        max_body_bytes: Some(0),
        request_timeout_ms: Some(250),
        ..bare()
    };
    let partial = zero_body.settings_before_refusal(CliFeatureDefaults::default()).expect("refused");
    assert_eq!(partial.environment.as_deref(), Some("staging"));
    assert_eq!(partial.profile.as_deref(), Some("production"));
    assert_eq!(partial.max_body_bytes, None);
    assert_eq!(partial.request_timeout_ms, None);
    assert_eq!(partial.rate_limit, None);

    let zero_timeout = ServerCli { mode: Some(RuntimeMode::Development), request_timeout_ms: Some(0), ..bare() };
    let partial = zero_timeout.settings_before_refusal(CliFeatureDefaults::default()).expect("refused");
    assert_eq!(partial.max_body_bytes, Some(131072));
    assert_eq!(partial.request_timeout_ms, None);

    let bad_rate = ServerCli { request_timeout_ms: Some(250), rate_limit_capacity: Some(5), ..bare() };
    let partial = bad_rate.settings_before_refusal(CliFeatureDefaults::default()).expect("refused");
    assert_eq!(partial.request_timeout_ms, Some(250));
    assert_eq!(partial.rate_limit, None);
}
