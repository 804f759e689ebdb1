//! The command-line layer: runtime mode presets, module toggles, limits,
//! the settings they give the host builder, and the startup plan printed
//! for `--dry-run`.
use vstd::prelude::*;

use crate::text::{decimal, decimal_chars, extend_chars, extend_str, string_of};

verus! {

/// The options a Vantus application accepts on its command line.
#[derive(Clone, Debug)]
pub struct ServerCli {
    /// Base configuration file to load instead of auto-discovery.
    pub config: Option<String>,
    /// Overrides the runtime environment name.
    pub environment: Option<String>,
    /// Overrides the active profile used for profile-specific config files.
    pub profile: Option<String>,
    /// Overrides the environment variable prefix used for config loading.
    pub env_prefix: Option<String>,
    /// Applies runtime defaults for development or production behaviour.
    pub mode: Option<RuntimeMode>,
    /// Enables the built-in web platform module.
    pub web_platform: bool,
    /// Disables the built-in web platform module.
    pub no_web_platform: bool,
    /// Enables the first-party observability module.
    pub observability: bool,
    /// Disables the first-party observability module.
    pub no_observability: bool,
    /// Overrides the maximum accepted request body size in bytes.
    pub max_body_bytes: Option<usize>,
    /// Overrides the outer request timeout in milliseconds.
    pub request_timeout_ms: Option<u64>,
    /// Token bucket capacity for the global rate limiter.
    pub rate_limit_capacity: Option<usize>,
    /// Number of tokens restored per refill interval.
    pub rate_limit_refill_tokens: Option<usize>,
    /// Rate-limiter refill interval in seconds.
    pub rate_limit_refill_seconds: Option<u64>,
    /// Chooses the shared request-ID generator implementation.
    pub id_generator: Option<IdGeneratorKind>,
    /// Prints the resolved startup plan before booting.
    pub print_startup_plan: bool,
    /// Prints the startup plan and exits without starting the server.
    pub dry_run: bool,
}

/// Default states for first-party modules when the CLI does not override
/// them.
#[derive(Clone, Copy, Debug, PartialEq, Eq, Structural)]
pub struct CliFeatureDefaults {
    pub web_platform: bool,
    pub observability: bool,
}

impl Default for CliFeatureDefaults {
    fn default() -> (r: Self)
        ensures
            r == (CliFeatureDefaults { web_platform: false, observability: false }),
    {
        CliFeatureDefaults { web_platform: false, observability: false }
    }
}

/// Runtime preset applied by the CLI.
#[derive(Clone, Copy, Debug, PartialEq, Eq, Structural)]
pub enum RuntimeMode {
    Development,
    Production,
}

/// The environment name a mode selects.
pub open spec fn mode_environment(m: RuntimeMode) -> Seq<char> {
    match m {
        RuntimeMode::Development => "development"@,
        RuntimeMode::Production => "production"@,
    }
}

/// The request timeout a mode selects, in milliseconds.
pub open spec fn mode_timeout_ms(m: RuntimeMode) -> u64 {
    match m {
        RuntimeMode::Development => 10000,
        RuntimeMode::Production => 5000,
    }
}

/// The body size limit a mode selects, in bytes.
pub open spec fn mode_max_body(m: RuntimeMode) -> usize {
    match m {
        RuntimeMode::Development => 131072,
        RuntimeMode::Production => 65536,
    }
}

impl RuntimeMode {
    /// The environment name the mode selects.
    pub fn default_environment(self) -> (r: &'static str)
        ensures
            r@ == mode_environment(self),
    {
        match self {
            RuntimeMode::Development => "development",
            RuntimeMode::Production => "production",
        }
    }

    /// The request timeout the mode selects, in milliseconds: 10 s in
    /// development, 5 s in production.
    pub fn default_request_timeout_ms(self) -> (r: u64)
        ensures
            r == mode_timeout_ms(self),
    {
        match self {
            RuntimeMode::Development => 10_000,
            RuntimeMode::Production => 5_000,
        }
    }

    /// The body size limit the mode selects: 128 KiB in development, 64 KiB
    /// in production.
    pub fn default_max_body_bytes(self) -> (r: usize)
        ensures
            r == mode_max_body(self),
    {
        match self {
            RuntimeMode::Development => 128 * 1024,
            RuntimeMode::Production => 64 * 1024,
        }
    }
}

/// Shared ID generator choices exposed by the CLI.
#[derive(Clone, Copy, Debug, PartialEq, Eq, Structural)]
pub enum IdGeneratorKind {
    Uuid,
    Atomic,
}

/// Why the command line was refused.
#[derive(Clone, Copy, Debug, PartialEq, Eq, Structural)]
pub enum CliError {
    IncompleteRateLimit,
    InvalidRequestTimeout,
    InvalidMaxBodyBytes,
    InvalidRateLimitCapacity,
    InvalidRateLimitRefillTokens,
    InvalidRefillSeconds,
}

/// The message of a command-line error.
pub open spec fn cli_error_text(e: CliError) -> Seq<char> {
    match e {
        CliError::IncompleteRateLimit =>
            "rate limiting requires --rate-limit-capacity, --rate-limit-refill-tokens, and --rate-limit-refill-seconds together"@,
        CliError::InvalidRequestTimeout => "request timeout must be positive"@,
        CliError::InvalidMaxBodyBytes => "max body size must be positive"@,
        CliError::InvalidRateLimitCapacity => "rate-limit-capacity must be positive"@,
        CliError::InvalidRateLimitRefillTokens => "rate-limit-refill-tokens must be positive"@,
        CliError::InvalidRefillSeconds => "rate-limit-refill-seconds must be positive"@,
    }
}

impl CliError {
    /// The message of the error.
    pub fn to_string(&self) -> (r: String)
        ensures
            r@ == cli_error_text(*self),
    {
        match self {
            CliError::IncompleteRateLimit =>
                "rate limiting requires --rate-limit-capacity, --rate-limit-refill-tokens, and --rate-limit-refill-seconds together".to_string(),
            CliError::InvalidRequestTimeout => "request timeout must be positive".to_string(),
            CliError::InvalidMaxBodyBytes => "max body size must be positive".to_string(),
            CliError::InvalidRateLimitCapacity => "rate-limit-capacity must be positive".to_string(),
            CliError::InvalidRateLimitRefillTokens => "rate-limit-refill-tokens must be positive".to_string(),
            CliError::InvalidRefillSeconds => "rate-limit-refill-seconds must be positive".to_string(),
        }
    }
}

/// The settings of the global rate limiter.
#[derive(Clone, Copy, Debug, PartialEq, Eq, Structural)]
pub struct RateLimitSettings {
    pub capacity: usize,
    pub refill_tokens: usize,
    pub refill_seconds: u64,
}

/// A module toggle: an explicit enable wins, then an explicit disable,
/// then the default.
pub open spec fn spec_resolve_toggle(enabled: bool, disabled: bool, default: bool) -> bool {
    if enabled {
        true
    } else if disabled {
        false
    } else {
        default
    }
}

/// Resolves a module toggle from its enable and disable flags.
pub fn resolve_toggle(enabled: bool, disabled: bool, default: bool) -> (r: bool)
    ensures
        r == spec_resolve_toggle(enabled, disabled, default),
{
    if enabled {
        true
    } else if disabled {
        false
    } else {
        default
    }
}

/// The rate limiter the options describe: none when no rate-limit option is
/// given; all three, each positive, otherwise.
pub open spec fn spec_rate_limit(c: ServerCli) -> Result<Option<RateLimitSettings>, CliError> {
    match (c.rate_limit_capacity, c.rate_limit_refill_tokens, c.rate_limit_refill_seconds) {
        (None, None, None) => Ok(None),
        (Some(capacity), Some(refill_tokens), Some(refill_seconds)) => if capacity == 0 {
            Err(CliError::InvalidRateLimitCapacity)
        } else if refill_tokens == 0 {
            Err(CliError::InvalidRateLimitRefillTokens)
        } else if refill_seconds == 0 {
            Err(CliError::InvalidRefillSeconds)
        } else {
            Ok(Some(RateLimitSettings { capacity, refill_tokens, refill_seconds }))
        },
        _ => Err(CliError::IncompleteRateLimit),
    }
}

/// The abstract value of an optional text.
pub open spec fn opt_view(o: Option<String>) -> Option<Seq<char>> {
    match o {
        Some(s) => Some(s@),
        None => None,
    }
}

/// What the options set on the host builder. `None` leaves the builder's
/// own value.
pub struct BuilderSettings {
    pub config_file: Option<String>,
    pub environment: Option<String>,
    pub profile: Option<String>,
    pub env_prefix: Option<String>,
    pub request_timeout_ms: Option<u64>,
    pub max_body_bytes: Option<usize>,
    pub web_platform: bool,
    pub observability: bool,
    pub rate_limit: Option<RateLimitSettings>,
    pub id_generator: IdGeneratorKind,
}

/// The abstract value of builder settings.
pub struct SettingsModel {
    pub config_file: Option<Seq<char>>,
    pub environment: Option<Seq<char>>,
    pub profile: Option<Seq<char>>,
    pub env_prefix: Option<Seq<char>>,
    pub request_timeout_ms: Option<u64>,
    pub max_body_bytes: Option<usize>,
    pub web_platform: bool,
    pub observability: bool,
    pub rate_limit: Option<RateLimitSettings>,
    pub id_generator: IdGeneratorKind,
}

impl View for BuilderSettings {
    type V = SettingsModel;

    open spec fn view(&self) -> SettingsModel {
        SettingsModel {
            config_file: opt_view(self.config_file),
            environment: opt_view(self.environment),
            profile: opt_view(self.profile),
            env_prefix: opt_view(self.env_prefix),
            request_timeout_ms: self.request_timeout_ms,
            max_body_bytes: self.max_body_bytes,
            web_platform: self.web_platform,
            observability: self.observability,
            rate_limit: self.rate_limit,
            id_generator: self.id_generator,
        }
    }
}

/// The environment or profile the builder gets: the option itself, else
/// the mode's environment.
pub open spec fn chosen_name(given: Option<Seq<char>>, mode: Option<RuntimeMode>) -> Option<Seq<char>> {
    match given {
        Some(n) => Some(n),
        None => match mode {
            Some(m) => Some(mode_environment(m)),
            None => None,
        },
    }
}

/// What applying the options to a host builder sets, or why they are
/// refused: a zero body limit, then a zero timeout, then the rate limiter.
pub open spec fn spec_builder_settings(c: ServerCli, d: CliFeatureDefaults) -> Result<SettingsModel, CliError> {
    if c.max_body_bytes == Some(0usize) {
        Err(CliError::InvalidMaxBodyBytes)
    } else if c.request_timeout_ms == Some(0u64) {
        Err(CliError::InvalidRequestTimeout)
    } else {
        match spec_rate_limit(c) {
            Err(e) => Err(e),
            Ok(rl) => Ok(
                SettingsModel {
                    config_file: opt_view(c.config),
                    environment: chosen_name(opt_view(c.environment), c.mode),
                    profile: chosen_name(opt_view(c.profile), c.mode),
                    env_prefix: opt_view(c.env_prefix),
                    request_timeout_ms: match c.request_timeout_ms {
                        Some(t) => Some(t),
                        None => match c.mode {
                            Some(m) => Some(mode_timeout_ms(m)),
                            None => None,
                        },
                    },
                    max_body_bytes: match c.max_body_bytes {
                        Some(b) => Some(b),
                        None => match c.mode {
                            Some(m) => Some(mode_max_body(m)),
                            None => None,
                        },
                    },
                    web_platform: spec_resolve_toggle(c.web_platform, c.no_web_platform, d.web_platform),
                    observability: spec_resolve_toggle(
                        c.observability,
                        c.no_observability,
                        d.observability,
                    ),
                    rate_limit: rl,
                    id_generator: match c.id_generator {
                        Some(k) => k,
                        None => IdGeneratorKind::Uuid,
                    },
                },
            ),
        }
    }
}

fn copy_opt(o: &Option<String>) -> (r: Option<String>)
    ensures
        opt_view(r) == opt_view(*o),
{
    match o {
        Some(s) => Some(s.clone()),
        None => None,
    }
}

impl ServerCli {
    /// The runtime mode, defaulting to development.
    pub fn effective_mode(&self) -> (r: RuntimeMode)
        ensures
            r == match self.mode {
                Some(m) => m,
                None => RuntimeMode::Development,
            },
    {
        match self.mode {
            Some(m) => m,
            None => RuntimeMode::Development,
        }
    }

    /// The ID generator choice, defaulting to UUIDs.
    pub fn id_generator_kind(&self) -> (r: IdGeneratorKind)
        ensures
            r == match self.id_generator {
                Some(k) => k,
                None => IdGeneratorKind::Uuid,
            },
    {
        match self.id_generator {
            Some(k) => k,
            None => IdGeneratorKind::Uuid,
        }
    }

    /// Whether the built-in web platform module is installed.
    pub fn web_platform_enabled(&self, default: bool) -> (r: bool)
        ensures
            r == spec_resolve_toggle(self.web_platform, self.no_web_platform, default),
    {
        resolve_toggle(self.web_platform, self.no_web_platform, default)
    }

    /// Whether the observability module is installed.
    pub fn observability_enabled(&self, default: bool) -> (r: bool)
        ensures
            r == spec_resolve_toggle(self.observability, self.no_observability, default),
    {
        resolve_toggle(self.observability, self.no_observability, default)
    }

    /// The rate limiter the options describe.
    pub fn rate_limit(&self) -> (r: Result<Option<RateLimitSettings>, CliError>)
        ensures
            r == spec_rate_limit(*self),
    {
        match (self.rate_limit_capacity, self.rate_limit_refill_tokens, self.rate_limit_refill_seconds) {
            (None, None, None) => Ok(None),
            (Some(capacity), Some(refill_tokens), Some(refill_seconds)) => {
                if capacity == 0 {
                    return Err(CliError::InvalidRateLimitCapacity);
                }
                if refill_tokens == 0 {
                    return Err(CliError::InvalidRateLimitRefillTokens);
                }
                if refill_seconds == 0 {
                    return Err(CliError::InvalidRefillSeconds);
                }
                Ok(Some(RateLimitSettings { capacity, refill_tokens, refill_seconds }))
            },
            _ => Err(CliError::IncompleteRateLimit),
        }
    }

    /// What applying the options sets on a host builder: mode presets where
    /// no explicit option is given, the explicit options, the module
    /// toggles, limits, rate limiter and ID generator.
    pub fn builder_settings(&self, defaults: CliFeatureDefaults) -> (r: Result<BuilderSettings, CliError>)
        ensures
            match spec_builder_settings(*self, defaults) {
                Ok(m) => r matches Ok(s) && s@ == m,
                Err(e) => r matches Err(x) && x == e,
            },
    {
        if let Some(b) = self.max_body_bytes {
            if b == 0 {
                return Err(CliError::InvalidMaxBodyBytes);
            }
        }
        if let Some(t) = self.request_timeout_ms {
            if t == 0 {
                return Err(CliError::InvalidRequestTimeout);
            }
        }
        let rate_limit = match self.rate_limit() {
            Ok(r) => r,
            Err(e) => {
                return Err(e);
            },
        };
        let environment = match &self.environment {
            Some(e) => Some(e.clone()),
            None => match self.mode {
                Some(m) => Some(m.default_environment().to_string()),
                None => None,
            },
        };
        let profile = match &self.profile {
            Some(p) => Some(p.clone()),
            None => match self.mode {
                Some(m) => Some(m.default_environment().to_string()),
                None => None,
            },
        };
        let request_timeout_ms = match self.request_timeout_ms {
            Some(t) => Some(t),
            None => match self.mode {
                Some(m) => Some(m.default_request_timeout_ms()),
                None => None,
            },
        };
        let max_body_bytes = match self.max_body_bytes {
            Some(b) => Some(b),
            None => match self.mode {
                Some(m) => Some(m.default_max_body_bytes()),
                None => None,
            },
        };
        Ok(
            BuilderSettings {
                config_file: copy_opt(&self.config),
                environment,
                profile,
                env_prefix: copy_opt(&self.env_prefix),
                request_timeout_ms,
                max_body_bytes,
                web_platform: self.web_platform_enabled(defaults.web_platform),
                observability: self.observability_enabled(defaults.observability),
                rate_limit,
                id_generator: self.id_generator_kind(),
            },
        )
    }
}

/// What applying the options has already set on the host builder when a
/// check refuses them with `e`. The mode presets, the explicit names, the
/// module toggles come first; then the body limit, the timeout and the rate
/// limiter are set in turn, each after its own check, so the refusal stops
/// before the failing setting and everything after it. The ID generator,
/// set last, is never reached: `id_generator` carries the options' choice
/// for completeness, and a refused application leaves the builder's own.
pub open spec fn spec_settings_before_refusal(c: ServerCli, d: CliFeatureDefaults, e: CliError) -> SettingsModel {
    let preset_timeout = match c.request_timeout_ms {
        Some(_) => None,
        None => match c.mode {
            Some(m) => Some(mode_timeout_ms(m)),
            None => None,
        },
    };
    let full_timeout = match c.request_timeout_ms {
        Some(t) => Some(t),
        None => match c.mode {
            Some(m) => Some(mode_timeout_ms(m)),
            None => None,
        },
    };
    let full_body = match c.max_body_bytes {
        Some(b) => Some(b),
        None => match c.mode {
            Some(m) => Some(mode_max_body(m)),
            None => None,
        },
    };
    SettingsModel {
        config_file: opt_view(c.config),
        environment: chosen_name(opt_view(c.environment), c.mode),
        profile: chosen_name(opt_view(c.profile), c.mode),
        env_prefix: opt_view(c.env_prefix),
        request_timeout_ms: if e == CliError::InvalidMaxBodyBytes || e == CliError::InvalidRequestTimeout {
            preset_timeout
        } else {
            full_timeout
        },
        max_body_bytes: if e == CliError::InvalidMaxBodyBytes {
            None
        } else {
            full_body
        },
        web_platform: spec_resolve_toggle(c.web_platform, c.no_web_platform, d.web_platform),
        observability: spec_resolve_toggle(c.observability, c.no_observability, d.observability),
        rate_limit: None,
        id_generator: match c.id_generator {
            Some(k) => k,
            None => IdGeneratorKind::Uuid,
        },
    }
}

impl ServerCli {
    /// When the options are refused, what applying them has set on the
    /// builder before the refusing check; `None` when they are accepted.
    pub fn settings_before_refusal(&self, defaults: CliFeatureDefaults) -> (r: Option<BuilderSettings>)
        ensures
            match spec_builder_settings(*self, defaults) {
                Ok(_) => r is None,
                Err(e) => r matches Some(s) && s@ == spec_settings_before_refusal(*self, defaults, e),
            },
    {
        let refused_body = match self.max_body_bytes {
            Some(b) => b == 0,
            None => false,
        };
        let refused_timeout = !refused_body && match self.request_timeout_ms {
            Some(t) => t == 0,
            None => false,
        };
        let refused_rate = !refused_body && !refused_timeout && self.rate_limit().is_err();
        if !refused_body && !refused_timeout && !refused_rate {
            return None;
        }
        let environment = match &self.environment {
            Some(e) => Some(e.clone()),
            None => match self.mode {
                Some(m) => Some(m.default_environment().to_string()),
                None => None,
            },
        };
        let profile = match &self.profile {
            Some(p) => Some(p.clone()),
            None => match self.mode {
                Some(m) => Some(m.default_environment().to_string()),
                None => None,
            },
        };
        let request_timeout_ms = match self.request_timeout_ms {
            Some(t) => if refused_rate {
                Some(t)
            } else {
                None
            },
            None => match self.mode {
                Some(m) => Some(m.default_request_timeout_ms()),
                None => None,
            },
        };
        let max_body_bytes = if refused_body {
            None
        } else {
            match self.max_body_bytes {
                Some(b) => Some(b),
                None => match self.mode {
                    Some(m) => Some(m.default_max_body_bytes()),
                    None => None,
                },
            }
        };
        Some(
            BuilderSettings {
                config_file: copy_opt(&self.config),
                environment,
                profile,
                env_prefix: copy_opt(&self.env_prefix),
                request_timeout_ms,
                max_body_bytes,
                web_platform: self.web_platform_enabled(defaults.web_platform),
                observability: self.observability_enabled(defaults.observability),
                rate_limit: None,
                id_generator: self.id_generator_kind(),
            },
        )
    }
}

// ---------------------------------------------------------------------------
// The startup plan
// ---------------------------------------------------------------------------
/// `true` or `false`.
pub open spec fn bool_text(b: bool) -> Seq<char> {
    if b {
        "true"@
    } else {
        "false"@
    }
}

/// A value with its source: `value (source)`.
pub open spec fn sourced(value: Seq<char>, source: Seq<char>) -> Seq<char> {
    value + " ("@ + source + ")"@
}

/// The environment shown in the plan, with its source.
pub open spec fn plan_environment(c: ServerCli) -> Seq<char> {
    match c.environment {
        Some(e) => sourced(e@, "cli"@),
        None => match c.mode {
            Some(m) => sourced(mode_environment(m), "mode"@),
            None => sourced("development"@, "env/default"@),
        },
    }
}

/// The profile shown in the plan, with its source.
pub open spec fn plan_profile(c: ServerCli) -> Seq<char> {
    match c.profile {
        Some(p) => sourced(p@, "cli"@),
        None => match c.mode {
            Some(m) => sourced(mode_environment(m), "mode"@),
            None => sourced("development"@, "env/default"@),
        },
    }
}

/// The environment prefix shown in the plan, with its source.
pub open spec fn plan_env_prefix(c: ServerCli) -> Seq<char> {
    match c.env_prefix {
        Some(p) => sourced(p@, "cli"@),
        None => sourced("APP"@, "default"@),
    }
}

/// A module toggle shown in the plan, with its source.
pub open spec fn plan_toggle(enabled: bool, disabled: bool, default: bool) -> Seq<char> {
    if enabled || disabled {
        sourced(bool_text(spec_resolve_toggle(enabled, disabled, default)), "cli"@)
    } else {
        sourced(bool_text(default), "default"@)
    }
}

/// The body limit shown in the plan, with its source.
pub open spec fn plan_max_body(c: ServerCli) -> Seq<char> {
    match c.max_body_bytes {
        Some(b) => sourced(decimal(b as nat), "cli"@),
        None => match c.mode {
            Some(m) => sourced(decimal(mode_max_body(m) as nat), "mode"@),
            None => sourced("<config/default: 65536>"@, "pending"@),
        },
    }
}

/// The request timeout shown in the plan, with its source.
pub open spec fn plan_timeout(c: ServerCli) -> Seq<char> {
    match c.request_timeout_ms {
        Some(t) => sourced(decimal(t as nat), "cli"@),
        None => match c.mode {
            Some(m) => sourced(decimal(mode_timeout_ms(m) as nat), "mode"@),
            None => sourced("<config/default: 5000>"@, "pending"@),
        },
    }
}

/// The ID generator shown in the plan, with its source.
pub open spec fn plan_id_generator(c: ServerCli) -> Seq<char> {
    match c.id_generator {
        Some(IdGeneratorKind::Uuid) => sourced("uuid"@, "cli"@),
        Some(IdGeneratorKind::Atomic) => sourced("atomic"@, "cli"@),
        None => sourced("uuid"@, "default"@),
    }
}

/// The rate limiter shown in the plan.
pub open spec fn plan_rate_limit(r: Option<RateLimitSettings>) -> Seq<char> {
    match r {
        Some(s) => "capacity="@ + decimal(s.capacity as nat) + ", refill_tokens="@ + decimal(
            s.refill_tokens as nat,
        ) + ", refill_seconds="@ + decimal(s.refill_seconds as nat) + " (cli)"@,
        None => "disabled"@,
    }
}

/// The lines of the startup plan, one `name=value` line per setting, with
/// where each value comes from.
pub open spec fn plan_lines(c: ServerCli, d: CliFeatureDefaults, rl: Option<RateLimitSettings>) -> Seq<Seq<char>> {
    seq![
        "mode="@ + mode_environment(
            match c.mode {
                Some(m) => m,
                None => RuntimeMode::Development,
            },
        ),
        "config="@ + match c.config {
            Some(p) => p@,
            None => "<auto-discover>"@,
        },
        "environment="@ + plan_environment(c),
        "profile="@ + plan_profile(c),
        "env_prefix="@ + plan_env_prefix(c),
        "web_platform="@ + plan_toggle(c.web_platform, c.no_web_platform, d.web_platform),
        "observability="@ + plan_toggle(c.observability, c.no_observability, d.observability),
        "max_body_bytes="@ + plan_max_body(c),
        "request_timeout_ms="@ + plan_timeout(c),
        "id_generator="@ + plan_id_generator(c),
        "rate_limit="@ + plan_rate_limit(rl),
        "print_startup_plan="@ + bool_text(c.print_startup_plan),
        "dry_run="@ + bool_text(c.dry_run),
    ]
}

/// The startup plan: its lines joined with newlines; refused when the
/// rate-limit options are.
pub open spec fn spec_startup_plan(c: ServerCli, d: CliFeatureDefaults) -> Result<Seq<char>, CliError> {
    match spec_rate_limit(c) {
        Err(e) => Err(e),
        Ok(rl) => Ok(crate::text::join(plan_lines(c, d, rl), "\n"@)),
    }
}

fn line(name: &str, value: &[char]) -> (r: Vec<char>)
    ensures
        r@ == name@ + value@,
{
    let mut v = crate::text::chars_of(name);
    extend_chars(&mut v, value);
    v
}

fn push_bool(v: &mut Vec<char>, b: bool)
    ensures
        final(v)@ == old(v)@ + bool_text(b),
{
    if b {
        extend_str(v, "true");
    } else {
        extend_str(v, "false");
    }
}

fn push_sourced(v: &mut Vec<char>, value: &[char], source: &str)
    ensures
        final(v)@ == old(v)@ + sourced(value@, source@),
{
    extend_chars(v, value);
    extend_str(v, " (");
    extend_str(v, source);
    extend_str(v, ")");
}

fn push_number(v: &mut Vec<char>, n: u64)
    ensures
        final(v)@ == old(v)@ + decimal(n as nat),
{
    let d = decimal_chars(n);
    extend_chars(v, d.as_slice());
}

impl ServerCli {
    /// The environment shown in the plan.
    pub fn startup_environment(&self) -> (r: String)
        ensures
            r@ == plan_environment(*self),
    {
        let mut v: Vec<char> = Vec::new();
        match &self.environment {
            Some(e) => push_sourced(&mut v, crate::text::chars_of(e.as_str()).as_slice(), "cli"),
            None => match self.mode {
                Some(m) => push_sourced(
                    &mut v,
                    crate::text::chars_of(m.default_environment()).as_slice(),
                    "mode",
                ),
                None => push_sourced(&mut v, crate::text::chars_of("development").as_slice(), "env/default"),
            },
        }
        string_of(v.as_slice())
    }

    /// The profile shown in the plan.
    pub fn startup_profile(&self) -> (r: String)
        ensures
            r@ == plan_profile(*self),
    {
        let mut v: Vec<char> = Vec::new();
        match &self.profile {
            Some(p) => push_sourced(&mut v, crate::text::chars_of(p.as_str()).as_slice(), "cli"),
            None => match self.mode {
                Some(m) => push_sourced(
                    &mut v,
                    crate::text::chars_of(m.default_environment()).as_slice(),
                    "mode",
                ),
                None => push_sourced(&mut v, crate::text::chars_of("development").as_slice(), "env/default"),
            },
        }
        string_of(v.as_slice())
    }

    /// The environment prefix shown in the plan.
    pub fn startup_env_prefix(&self) -> (r: String)
        ensures
            r@ == plan_env_prefix(*self),
    {
        let mut v: Vec<char> = Vec::new();
        match &self.env_prefix {
            Some(p) => push_sourced(&mut v, crate::text::chars_of(p.as_str()).as_slice(), "cli"),
            None => push_sourced(&mut v, crate::text::chars_of("APP").as_slice(), "default"),
        }
        string_of(v.as_slice())
    }

    /// The web platform toggle shown in the plan.
    pub fn startup_web_platform(&self, default: bool) -> (r: String)
        ensures
            r@ == plan_toggle(self.web_platform, self.no_web_platform, default),
    {
        toggle_text(self.web_platform, self.no_web_platform, default)
    }

    /// The observability toggle shown in the plan.
    pub fn startup_observability(&self, default: bool) -> (r: String)
        ensures
            r@ == plan_toggle(self.observability, self.no_observability, default),
    {
        toggle_text(self.observability, self.no_observability, default)
    }

    /// The body limit shown in the plan.
    pub fn startup_max_body_bytes(&self) -> (r: String)
        ensures
            r@ == plan_max_body(*self),
    {
        let mut v: Vec<char> = Vec::new();
        match self.max_body_bytes {
            Some(b) => {
                push_number(&mut v, b as u64);
                extend_str(&mut v, " (cli)");
            },
            None => match self.mode {
                Some(m) => {
                    push_number(&mut v, m.default_max_body_bytes() as u64);
                    extend_str(&mut v, " (mode)");
                },
                None => {
                    extend_str(&mut v, "<config/default: 65536> (pending)");
                },
            },
        }
        proof {
            reveal_strlit(" (cli)");
            reveal_strlit(" (mode)");
            reveal_strlit(" (");
            reveal_strlit(")");
            reveal_strlit("cli");
            reveal_strlit("mode");
            reveal_strlit("pending");
            reveal_strlit("<config/default: 65536>");
            reveal_strlit("<config/default: 65536> (pending)");
            assert(v@ =~= plan_max_body(*self));
        }
        string_of(v.as_slice())
    }

    /// The request timeout shown in the plan.
    pub fn startup_request_timeout_ms(&self) -> (r: String)
        ensures
            r@ == plan_timeout(*self),
    {
        let mut v: Vec<char> = Vec::new();
        match self.request_timeout_ms {
            Some(t) => {
                push_number(&mut v, t);
                extend_str(&mut v, " (cli)");
            },
            None => match self.mode {
                Some(m) => {
                    push_number(&mut v, m.default_request_timeout_ms());
                    extend_str(&mut v, " (mode)");
                },
                None => {
                    extend_str(&mut v, "<config/default: 5000> (pending)");
                },
            },
        }
        proof {
            reveal_strlit(" (cli)");
            reveal_strlit(" (mode)");
            reveal_strlit(" (");
            reveal_strlit(")");
            reveal_strlit("cli");
            reveal_strlit("mode");
            reveal_strlit("pending");
            reveal_strlit("<config/default: 5000>");
            reveal_strlit("<config/default: 5000> (pending)");
            assert(v@ =~= plan_timeout(*self));
        }
        string_of(v.as_slice())
    }

    /// The ID generator shown in the plan.
    pub fn startup_id_generator(&self) -> (r: String)
        ensures
            r@ == plan_id_generator(*self),
    {
        let mut v: Vec<char> = Vec::new();
        match self.id_generator {
            Some(IdGeneratorKind::Uuid) => push_sourced(&mut v, crate::text::chars_of("uuid").as_slice(), "cli"),
            Some(IdGeneratorKind::Atomic) => push_sourced(&mut v, crate::text::chars_of("atomic").as_slice(), "cli"),
            None => push_sourced(&mut v, crate::text::chars_of("uuid").as_slice(), "default"),
        }
        string_of(v.as_slice())
    }

    /// The human-readable startup plan printed for `--dry-run`.
    pub fn startup_plan(&self, defaults: CliFeatureDefaults) -> (r: Result<String, CliError>)
        ensures
            match spec_startup_plan(*self, defaults) {
                Ok(t) => r matches Ok(s) && s@ == t,
                Err(e) => r == Err::<String, CliError>(e),
            },
    {
        let rl = match self.rate_limit() {
            Ok(r) => r,
            Err(e) => {
                return Err(e);
            },
        };
        let ghost want = plan_lines(*self, defaults, rl);
        let mut lines: Vec<Vec<char>> = Vec::new();
        let mode = crate::text::chars_of(self.effective_mode().default_environment());
        lines.push(line("mode=", mode.as_slice()));
        let config = match &self.config {
            Some(p) => crate::text::chars_of(p.as_str()),
            None => crate::text::chars_of("<auto-discover>"),
        };
        lines.push(line("config=", config.as_slice()));
        lines.push(line("environment=", crate::text::chars_of(self.startup_environment().as_str()).as_slice()));
        lines.push(line("profile=", crate::text::chars_of(self.startup_profile().as_str()).as_slice()));
        lines.push(line("env_prefix=", crate::text::chars_of(self.startup_env_prefix().as_str()).as_slice()));
        lines.push(
            line(
                "web_platform=",
                crate::text::chars_of(self.startup_web_platform(defaults.web_platform).as_str()).as_slice(),
            ),
        );
        lines.push(
            line(
                "observability=",
                crate::text::chars_of(self.startup_observability(defaults.observability).as_str()).as_slice(),
            ),
        );
        lines.push(line("max_body_bytes=", crate::text::chars_of(self.startup_max_body_bytes().as_str()).as_slice()));
        lines.push(
            line(
                "request_timeout_ms=",
                crate::text::chars_of(self.startup_request_timeout_ms().as_str()).as_slice(),
            ),
        );
        lines.push(line("id_generator=", crate::text::chars_of(self.startup_id_generator().as_str()).as_slice()));
        let mut limit: Vec<char> = Vec::new();
        match rl {
            Some(s) => {
                extend_str(&mut limit, "capacity=");
                push_number(&mut limit, s.capacity as u64);
                extend_str(&mut limit, ", refill_tokens=");
                push_number(&mut limit, s.refill_tokens as u64);
                extend_str(&mut limit, ", refill_seconds=");
                push_number(&mut limit, s.refill_seconds);
                extend_str(&mut limit, " (cli)");
            },
            None => extend_str(&mut limit, "disabled"),
        }
        assert(limit@ =~= plan_rate_limit(rl));
        lines.push(line("rate_limit=", limit.as_slice()));
        let mut b: Vec<char> = Vec::new();
        push_bool(&mut b, self.print_startup_plan);
        lines.push(line("print_startup_plan=", b.as_slice()));
        let mut d: Vec<char> = Vec::new();
        push_bool(&mut d, self.dry_run);
        lines.push(line("dry_run=", d.as_slice()));
        assert(lines@.map_values(|l: Vec<char>| l@) =~= want);
        let nl = crate::text::chars_of("\n");
        let v = crate::text::join_chars(&lines, nl.as_slice());
        Ok(string_of(v.as_slice()))
    }
}

fn toggle_text(enabled: bool, disabled: bool, default: bool) -> (r: String)
    ensures
        r@ == plan_toggle(enabled, disabled, default),
{
    let mut v: Vec<char> = Vec::new();
    if enabled || disabled {
        push_bool(&mut v, resolve_toggle(enabled, disabled, default));
        extend_str(&mut v, " (cli)");
    } else {
        push_bool(&mut v, default);
        extend_str(&mut v, " (default)");
    }
    proof {
        reveal_strlit(" (cli)");
        reveal_strlit(" (default)");
        reveal_strlit(" (");
        reveal_strlit(")");
        reveal_strlit("cli");
        reveal_strlit("default");
        assert(v@ =~= plan_toggle(enabled, disabled, default));
    }
    string_of(v.as_slice())
}

/// The plan shows what is applied: each module toggle line carries the
/// value that applying the options sets, and a plan is refused exactly
/// when the rate-limit options are.
pub proof fn law_plan_matches_settings(c: ServerCli, d: CliFeatureDefaults)
    ensures
        spec_startup_plan(c, d) is Err <==> spec_rate_limit(c) is Err,
        spec_builder_settings(c, d) matches Ok(m) ==> plan_toggle(
            c.web_platform,
            c.no_web_platform,
            d.web_platform,
        ).take(bool_text(m.web_platform).len() as int) == bool_text(m.web_platform) && plan_toggle(
            c.observability,
            c.no_observability,
            d.observability,
        ).take(bool_text(m.observability).len() as int) == bool_text(m.observability),
{
    let w = spec_resolve_toggle(c.web_platform, c.no_web_platform, d.web_platform);
    let o = spec_resolve_toggle(c.observability, c.no_observability, d.observability);
    assert(plan_toggle(c.web_platform, c.no_web_platform, d.web_platform).take(
        bool_text(w).len() as int,
    ) =~= bool_text(w));
    assert(plan_toggle(c.observability, c.no_observability, d.observability).take(
        bool_text(o).len() as int,
    ) =~= bool_text(o));
}

} // verus!
