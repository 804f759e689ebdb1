//! Host assembly decisions: build errors and their text, route-group
//! prefixes, the limits a host runs with, and the built-in modules' state.
use vstd::prelude::*;

use crate::config::{AppConfig, ServerOptions};
use crate::errors::{config_error_text, framework_error_text, ConfigError, FrameworkError};
use crate::http::{spec_with_header, Response, ResponseModel};
use crate::text::{chars_of, extend_chars, extend_str, string_of};

verus! {

/// The phase of module registration in which a module failed.
#[derive(Clone, Copy, Debug, PartialEq, Eq, Structural)]
pub enum ModulePhase {
    ConfigureRoutes,
}

/// The name of a phase.
pub open spec fn phase_text(p: ModulePhase) -> Seq<char> {
    match p {
        ModulePhase::ConfigureRoutes => "configure_routes"@,
    }
}

impl ModulePhase {
    /// The name of the phase.
    pub fn to_string(&self) -> (r: String)
        ensures
            r@ == phase_text(*self),
    {
        match self {
            ModulePhase::ConfigureRoutes => "configure_routes".to_string(),
        }
    }
}

/// Why a host could not be built.
#[derive(Debug)]
pub enum HostBuildError {
    Config(ConfigError),
    Framework(FrameworkError),
    Module { module: &'static str, phase: ModulePhase, source: FrameworkError },
    Combined(Vec<HostBuildError>),
}

/// The text of a build error; combined errors are joined with `; `.
pub open spec fn build_error_text(e: HostBuildError) -> Seq<char>
    decreases e,
{
    match e {
        HostBuildError::Config(c) => config_error_text(c),
        HostBuildError::Framework(f) => framework_error_text(f),
        HostBuildError::Module { module, phase, source } => "module "@ + module@ + " failed during "@
            + phase_text(phase) + ": "@ + framework_error_text(source),
        HostBuildError::Combined(errors) => combined_text(errors@),
    }
}

/// The texts of several build errors joined with `; `.
pub open spec fn combined_text(errors: Seq<HostBuildError>) -> Seq<char>
    decreases errors,
{
    if errors.len() == 0 {
        Seq::empty()
    } else if errors.len() == 1 {
        build_error_text(errors[0])
    } else {
        let n = errors.len() - 1;
        combined_text(errors.subrange(0, n)) + "; "@ + build_error_text(errors[n])
    }
}

impl HostBuildError {
    /// A module's failure in a registration phase.
    pub fn module(module: &'static str, phase: ModulePhase, source: FrameworkError) -> (r: Self)
        ensures
            r == (HostBuildError::Module { module, phase, source }),
    {
        HostBuildError::Module { module, phase, source }
    }

    /// One error for several: a generic startup error for none, the error
    /// itself for one, all of them combined otherwise.
    pub fn combine(errors: Vec<HostBuildError>) -> (r: Self)
        ensures
            errors@.len() == 0 ==> (r matches HostBuildError::Framework(FrameworkError::Startup { context })
                && context@ == "build failed"@),
            errors@.len() == 1 ==> r == errors@[0],
            errors@.len() > 1 ==> r == HostBuildError::Combined(errors),
    {
        if errors.len() == 0 {
            return HostBuildError::Framework(
                FrameworkError::Startup { context: "build failed".to_string() },
            );
        }
        if errors.len() == 1 {
            let mut errors = errors;
            let ghost before = errors@;
            let e = errors.remove(0);
            assert(e == before[0]);
            return e;
        }
        HostBuildError::Combined(errors)
    }

    /// The first step of building a host: the errors recorded while
    /// modules registered their routes refuse the build, combined, before
    /// any configuration is read; with none the build goes on.
    pub fn check_registration(errors: Vec<HostBuildError>) -> (r: Result<(), HostBuildError>)
        ensures
            errors@.len() == 0 <==> r is Ok,
            errors@.len() == 1 ==> r == Err::<(), HostBuildError>(errors@[0]),
            errors@.len() > 1 ==> r == Err::<(), HostBuildError>(HostBuildError::Combined(errors)),
    {
        if errors.len() == 0 {
            Ok(())
        } else {
            Err(HostBuildError::combine(errors))
        }
    }

    /// The text of the error.
    pub fn to_string(&self) -> (r: String)
        ensures
            r@ == build_error_text(*self),
        decreases self,
    {
        match self {
            HostBuildError::Config(c) => c.to_string(),
            HostBuildError::Framework(f) => f.to_string(),
            HostBuildError::Module { module, phase, source } => {
                let mut v = chars_of("module ");
                extend_str(&mut v, module);
                extend_str(&mut v, " failed during ");
                extend_str(&mut v, phase.to_string().as_str());
                extend_str(&mut v, ": ");
                extend_str(&mut v, source.to_string().as_str());
                string_of(v.as_slice())
            },
            HostBuildError::Combined(errors) => {
                let mut v: Vec<char> = Vec::new();
                let mut i: usize = 0;
                assert(errors@.subrange(0, 0) =~= Seq::<HostBuildError>::empty());
                while i < errors.len()
                    invariant
                        i <= errors.len(),
                        *self == HostBuildError::Combined(*errors),
                        v@ == combined_text(errors@.subrange(0, i as int)),
                    decreases errors.len() - i,
                {
                    proof {
                        assert(decreases_to!(*self => (*self)->Combined_0));
                        assert(decreases_to!(*errors => errors@));
                        assert(decreases_to!(errors@ => errors@[i as int]));
                    }
                    let t = errors[i].to_string();
                    assert(errors@.subrange(0, i + 1).subrange(0, i as int) =~= errors@.subrange(
                        0,
                        i as int,
                    ));
                    if i > 0 {
                        extend_str(&mut v, "; ");
                    }
                    extend_str(&mut v, t.as_str());
                    proof {
                        if i == 0 {
                            assert(v@ =~= build_error_text(errors@[0]));
                        }
                    }
                    i += 1;
                }
                assert(errors@.subrange(0, errors.len() as int) =~= errors@);
                string_of(v.as_slice())
            },
        }
    }
}

/// Why a host could not run.
#[derive(Debug)]
pub enum HostError {
    Build(HostBuildError),
    Framework(FrameworkError),
    /// An I/O failure, with the operating system's message.
    Io(String),
}

/// The text of a host error.
pub open spec fn host_error_text(e: HostError) -> Seq<char> {
    match e {
        HostError::Build(b) => build_error_text(b),
        HostError::Framework(f) => framework_error_text(f),
        HostError::Io(m) => m@,
    }
}

impl HostError {
    /// The text of the error.
    pub fn to_string(&self) -> (r: String)
        ensures
            r@ == host_error_text(*self),
    {
        match self {
            HostError::Build(b) => b.to_string(),
            HostError::Framework(f) => f.to_string(),
            HostError::Io(m) => m.clone(),
        }
    }
}

impl vstd::std_specs::convert::FromSpecImpl<HostBuildError> for HostError {
    open spec fn obeys_from_spec() -> bool {
        true
    }

    open spec fn from_spec(v: HostBuildError) -> Self {
        HostError::Build(v)
    }
}

impl From<HostBuildError> for HostError {
    fn from(v: HostBuildError) -> (r: Self) {
        HostError::Build(v)
    }
}

impl vstd::std_specs::convert::FromSpecImpl<HostError> for FrameworkError {
    open spec fn obeys_from_spec() -> bool {
        false
    }

    open spec fn from_spec(v: HostError) -> Self {
        vstd::pervasive::arbitrary()
    }
}

impl From<HostError> for FrameworkError {
    /// A host failure surfaces as an internal error carrying its text.
    fn from(v: HostError) -> (r: Self)
        ensures
            r matches FrameworkError::Internal { message } && message@ == host_error_text(v),
    {
        let text = v.to_string();
        FrameworkError::internal(text.as_str())
    }
}

// ---------------------------------------------------------------------------
// Route-group prefixes
// ---------------------------------------------------------------------------
/// `s` without its leading and trailing `/`.
pub open spec fn trim_slashes(s: Seq<char>) -> Seq<char> {
    crate::config::trim_char(s, '/')
}

/// A group prefix as mounted: empty for the root, else one leading `/`
/// and no trailing one.
pub open spec fn spec_normalize_prefix(prefix: Seq<char>) -> Seq<char> {
    if prefix.len() == 0 || prefix == "/"@ {
        Seq::empty()
    } else {
        "/"@ + trim_slashes(prefix)
    }
}

/// A route path under a group prefix.
pub open spec fn spec_join_paths(prefix: Seq<char>, path: Seq<char>) -> Seq<char> {
    let p = spec_normalize_prefix(prefix);
    let q = trim_slashes(path);
    if p.len() == 0 && q.len() == 0 {
        "/"@
    } else if p.len() == 0 {
        "/"@ + q
    } else if q.len() == 0 {
        p
    } else {
        p + "/"@ + q
    }
}

fn trim_slashes_exec(s: &str) -> (r: Vec<char>)
    ensures
        r@ == trim_slashes(s@),
{
    let c = chars_of(s);
    crate::config::trim_char_exec(c.as_slice(), '/')
}

/// Normalizes a group prefix.
pub fn normalize_prefix(prefix: &str) -> (r: String)
    ensures
        r@ == spec_normalize_prefix(prefix@),
{
    let c = chars_of(prefix);
    if c.len() == 0 || crate::text::str_eq_chars("/", c.as_slice()) {
        return String::new();
    }
    let mut v = chars_of("/");
    let t = trim_slashes_exec(prefix);
    extend_chars(&mut v, t.as_slice());
    string_of(v.as_slice())
}

/// Joins a group prefix and a route path.
pub fn join_paths(prefix: &str, path: &str) -> (r: String)
    ensures
        r@ == spec_join_paths(prefix@, path@),
{
    let p = normalize_prefix(prefix);
    let q = trim_slashes_exec(path);
    let pc = chars_of(p.as_str());
    if pc.len() == 0 && q.len() == 0 {
        "/".to_string()
    } else if pc.len() == 0 {
        let mut v = chars_of("/");
        extend_chars(&mut v, q.as_slice());
        string_of(v.as_slice())
    } else if q.len() == 0 {
        p
    } else {
        let mut v = pc;
        extend_str(&mut v, "/");
        extend_chars(&mut v, q.as_slice());
        string_of(v.as_slice())
    }
}

// ---------------------------------------------------------------------------
// Limits of a built host
// ---------------------------------------------------------------------------
/// The settings the runtime serves with.
#[derive(Clone, Debug)]
pub struct RuntimeSettings {
    pub server: ServerOptions,
}

impl RuntimeSettings {
    /// Validated server settings of the framework configuration.
    pub fn from_config(config: &AppConfig) -> (r: Result<Self, HostBuildError>)
        ensures
            match crate::config::spec_server_options(config.server@) {
                Ok(o) => r matches Ok(s) && s.server@ == o,
                Err(f) => r matches Err(HostBuildError::Config(e)) && e@ == f,
            },
    {
        match ServerOptions::try_from(&config.server) {
            Ok(server) => Ok(RuntimeSettings { server }),
            Err(e) => Err(HostBuildError::Config(e)),
        }
    }
}

/// The limits a host enforces before middleware.
#[derive(Clone, Copy, Debug, PartialEq, Eq, Structural)]
pub struct SecurityLimits {
    pub max_body_size: usize,
    pub request_timeout_ms: u128,
}

/// The limits a host runs with: the builder's overrides, else the
/// configuration's; both must be positive.
pub open spec fn spec_security_limits(
    max_request_bytes: usize,
    request_timeout_secs: u64,
    max_body_override: Option<usize>,
    timeout_override_ms: Option<u64>,
) -> Result<SecurityLimits, crate::errors::ConfigFault> {
    let body = match max_body_override {
        Some(b) => b,
        None => max_request_bytes,
    };
    let timeout: u128 = match timeout_override_ms {
        Some(t) => t as u128,
        None => (request_timeout_secs as u128 * 1000) as u128,
    };
    if body == 0 {
        Err(
            crate::errors::ConfigFault::InvalidValue {
                key: "builder.max-body-size"@,
                value: "0"@,
                expected: "positive usize"@,
            },
        )
    } else if timeout == 0 {
        Err(
            crate::errors::ConfigFault::InvalidValue {
                key: "builder.request-timeout"@,
                value: "0"@,
                expected: "positive duration"@,
            },
        )
    } else {
        Ok(SecurityLimits { max_body_size: body, request_timeout_ms: timeout })
    }
}

/// The limits a host runs with, from the framework configuration and the
/// builder's overrides.
pub fn security_limits(config: &AppConfig, max_body_override: Option<usize>, timeout_override_ms: Option<u64>) -> (r:
    Result<SecurityLimits, HostBuildError>)
    ensures
        match spec_security_limits(
            config.server.max_request_bytes,
            config.server.request_timeout_secs,
            max_body_override,
            timeout_override_ms,
        ) {
            Ok(l) => r == Ok::<SecurityLimits, HostBuildError>(l),
            Err(f) => r matches Err(HostBuildError::Config(e)) && e@ == f,
        },
{
    let body = match max_body_override {
        Some(b) => b,
        None => config.server.max_request_bytes,
    };
    let timeout: u128 = match timeout_override_ms {
        Some(t) => t as u128,
        None => config.server.request_timeout_secs as u128 * 1000,
    };
    if body == 0 {
        return Err(
            HostBuildError::Config(
                ConfigError::InvalidValue {
                    key: "builder.max-body-size",
                    value: "0".to_string(),
                    expected: "positive usize",
                },
            ),
        );
    }
    if timeout == 0 {
        return Err(
            HostBuildError::Config(
                ConfigError::InvalidValue {
                    key: "builder.request-timeout",
                    value: "0".to_string(),
                    expected: "positive duration",
                },
            ),
        );
    }
    Ok(SecurityLimits { max_body_size: body, request_timeout_ms: timeout })
}

/// The configuration files a host probes for when none is set, in order.
pub open spec fn spec_host_config_candidates() -> Seq<Seq<char>> {
    seq![
        "application.toml"@,
        "application.yaml"@,
        "application.json"@,
        "application.properties"@,
    ]
}

/// The configuration files a host probes for when none is set, in order.
pub fn host_config_candidates() -> (r: Vec<&'static str>)
    ensures
        crate::config::key_texts(r@) == spec_host_config_candidates(),
{
    let r = vec!["application.toml", "application.yaml", "application.json", "application.properties"];
    assert(crate::config::key_texts(r@) =~= spec_host_config_candidates());
    r
}

// ---------------------------------------------------------------------------
// Module lifecycle
// ---------------------------------------------------------------------------
/// Where the lifecycle of a host's modules stands.
#[derive(Clone, Copy, Debug, PartialEq, Eq, Structural)]
pub enum LifecyclePhase {
    /// Starting the modules in registration order.
    Starting,
    /// Every module has started; the host serves.
    Serving,
    /// Cancelling the background tasks, after a failed start or a
    /// shutdown, before any module stops.
    Cancelling,
    /// Stopping the started modules in reverse order.
    Stopping,
    /// Every started module has stopped.
    Stopped,
}

/// The lifecycle of a host's modules: how many there are, how many are
/// running, and the phase.
#[derive(Clone, Copy, Debug, PartialEq, Eq, Structural)]
pub struct Lifecycle {
    pub modules: usize,
    pub started: usize,
    pub phase: LifecyclePhase,
}

/// What happened to the module the lifecycle last acted on, or to the host.
#[derive(Clone, Copy, Debug, PartialEq, Eq, Structural)]
pub enum LifecycleEvent {
    /// The module being started has started.
    Started,
    /// The module being started failed to start.
    StartFailed,
    /// The host was asked to shut down.
    ShutdownRequested,
    /// The background tasks were cancelled and have ended.
    BackgroundCancelled,
    /// The module being stopped has stopped.
    Stopped,
}

/// What the host does next.
#[derive(Clone, Copy, Debug, PartialEq, Eq, Structural)]
pub enum LifecycleAction {
    /// Start the module at this registration index.
    Start(usize),
    /// Serve requests.
    Serve,
    /// Cancel the background tasks and wait for them to end.
    CancelBackground,
    /// Stop the module at this registration index.
    Stop(usize),
    /// Nothing is left to do.
    Finish,
}

/// Whether a lifecycle is consistent: no more running than registered;
/// while starting, some are still to start; while serving, all run; while
/// stopping, some still run.
pub open spec fn lifecycle_wf(l: Lifecycle) -> bool {
    &&& l.started <= l.modules
    &&& l.phase == LifecyclePhase::Starting ==> l.started < l.modules
    &&& l.phase == LifecyclePhase::Serving ==> l.started == l.modules
    &&& l.phase == LifecyclePhase::Stopping ==> l.started > 0
}

/// The lifecycle of freshly registered modules.
pub open spec fn spec_lifecycle_new(modules: usize) -> Lifecycle {
    Lifecycle {
        modules,
        started: 0,
        phase: if modules == 0 {
            LifecyclePhase::Serving
        } else {
            LifecyclePhase::Starting
        },
    }
}

/// What the host does next in a lifecycle.
pub open spec fn spec_lifecycle_action(l: Lifecycle) -> LifecycleAction {
    match l.phase {
        LifecyclePhase::Starting => LifecycleAction::Start(l.started),
        LifecyclePhase::Serving => LifecycleAction::Serve,
        LifecyclePhase::Cancelling => LifecycleAction::CancelBackground,
        LifecyclePhase::Stopping => LifecycleAction::Stop((l.started - 1) as usize),
        LifecyclePhase::Stopped => LifecycleAction::Finish,
    }
}

/// The lifecycle after an event; an event that does not fit the phase
/// changes nothing.
pub open spec fn spec_lifecycle_next(l: Lifecycle, e: LifecycleEvent) -> Lifecycle {
    match (l.phase, e) {
        (LifecyclePhase::Starting, LifecycleEvent::Started) => Lifecycle {
            started: (l.started + 1) as usize,
            phase: if l.started + 1 == l.modules {
                LifecyclePhase::Serving
            } else {
                LifecyclePhase::Starting
            },
            ..l
        },
        (LifecyclePhase::Starting, LifecycleEvent::StartFailed) => Lifecycle {
            phase: LifecyclePhase::Cancelling,
            ..l
        },
        (LifecyclePhase::Serving, LifecycleEvent::ShutdownRequested) => Lifecycle {
            phase: LifecyclePhase::Cancelling,
            ..l
        },
        (LifecyclePhase::Cancelling, LifecycleEvent::BackgroundCancelled) => Lifecycle {
            phase: if l.started == 0 {
                LifecyclePhase::Stopped
            } else {
                LifecyclePhase::Stopping
            },
            ..l
        },
        (LifecyclePhase::Stopping, LifecycleEvent::Stopped) => Lifecycle {
            started: (l.started - 1) as usize,
            phase: if l.started == 1 {
                LifecyclePhase::Stopped
            } else {
                LifecyclePhase::Stopping
            },
            ..l
        },
        _ => l,
    }
}

impl Lifecycle {
    /// The lifecycle of `modules` registered modules, none started.
    pub fn new(modules: usize) -> (r: Self)
        ensures
            r == spec_lifecycle_new(modules),
            lifecycle_wf(r),
    {
        Lifecycle {
            modules,
            started: 0,
            phase: if modules == 0 {
                LifecyclePhase::Serving
            } else {
                LifecyclePhase::Starting
            },
        }
    }

    /// What the host does next.
    pub fn action(&self) -> (r: LifecycleAction)
        requires
            lifecycle_wf(*self),
        ensures
            r == spec_lifecycle_action(*self),
    {
        match self.phase {
            LifecyclePhase::Starting => LifecycleAction::Start(self.started),
            LifecyclePhase::Serving => LifecycleAction::Serve,
            LifecyclePhase::Cancelling => LifecycleAction::CancelBackground,
            LifecyclePhase::Stopping => LifecycleAction::Stop(self.started - 1),
            LifecyclePhase::Stopped => LifecycleAction::Finish,
        }
    }

    /// The lifecycle after an event.
    pub fn next(self, event: LifecycleEvent) -> (r: Self)
        requires
            lifecycle_wf(self),
        ensures
            r == spec_lifecycle_next(self, event),
            lifecycle_wf(r),
    {
        match (self.phase, event) {
            (LifecyclePhase::Starting, LifecycleEvent::Started) => Lifecycle {
                started: self.started + 1,
                phase: if self.started + 1 == self.modules {
                    LifecyclePhase::Serving
                } else {
                    LifecyclePhase::Starting
                },
                ..self
            },
            (LifecyclePhase::Starting, LifecycleEvent::StartFailed) => Lifecycle {
                phase: LifecyclePhase::Cancelling,
                ..self
            },
            (LifecyclePhase::Serving, LifecycleEvent::ShutdownRequested) => Lifecycle {
                phase: LifecyclePhase::Cancelling,
                ..self
            },
            (LifecyclePhase::Cancelling, LifecycleEvent::BackgroundCancelled) => Lifecycle {
                phase: if self.started == 0 {
                    LifecyclePhase::Stopped
                } else {
                    LifecyclePhase::Stopping
                },
                ..self
            },
            (LifecyclePhase::Stopping, LifecycleEvent::Stopped) => Lifecycle {
                started: self.started - 1,
                phase: if self.started == 1 {
                    LifecyclePhase::Stopped
                } else {
                    LifecyclePhase::Stopping
                },
                ..self
            },
            _ => self,
        }
    }
}

/// The lifecycle after the same event `n` times.
pub open spec fn lifecycle_after(l: Lifecycle, e: LifecycleEvent, n: nat) -> Lifecycle
    decreases n,
{
    if n == 0 {
        l
    } else {
        spec_lifecycle_next(lifecycle_after(l, e, (n - 1) as nat), e)
    }
}

/// Once `k` modules have started one after another, `k` of them run and
/// the next one is started, or the host serves once all have.
proof fn lemma_starts(modules: usize, k: nat)
    requires
        k <= modules,
    ensures
        lifecycle_after(spec_lifecycle_new(modules), LifecycleEvent::Started, k) == (Lifecycle {
            modules,
            started: k as usize,
            phase: if k == modules {
                LifecyclePhase::Serving
            } else {
                LifecyclePhase::Starting
            },
        }),
    decreases k,
{
    if k > 0 {
        lemma_starts(modules, (k - 1) as nat);
    }
}

/// While `s` modules still run, each stop takes the last started one.
proof fn lemma_stops(l: Lifecycle, j: nat)
    requires
        l.phase == LifecyclePhase::Stopping,
        l.started > 0,
        j <= l.started,
    ensures
        lifecycle_after(l, LifecycleEvent::Stopped, j) == (Lifecycle {
            started: (l.started - j) as usize,
            phase: if j == l.started {
                LifecyclePhase::Stopped
            } else {
                LifecyclePhase::Stopping
            },
            ..l
        }),
    decreases j,
{
    if j > 0 {
        lemma_stops(l, (j - 1) as nat);
    }
}

/// Modules start in registration order: after `k` of them have started,
/// the host starts the module at index `k`, and once all have started it
/// serves.
pub proof fn law_modules_start_in_order(modules: usize, k: nat)
    requires
        k <= modules,
    ensures
        k < modules ==> spec_lifecycle_action(
            lifecycle_after(spec_lifecycle_new(modules), LifecycleEvent::Started, k),
        ) == LifecycleAction::Start(k as usize),
        k == modules ==> spec_lifecycle_action(
            lifecycle_after(spec_lifecycle_new(modules), LifecycleEvent::Started, k),
        ) == LifecycleAction::Serve,
{
    lemma_starts(modules, k);
}

/// A failed start rolls back: when the module at index `k` fails to start,
/// the background tasks are cancelled first, then the modules started
/// before it are stopped in reverse order, `k - 1` down to `0`, and then
/// nothing is left to do.
pub proof fn law_failed_start_rolls_back(modules: usize, k: nat, j: nat)
    requires
        k < modules,
        j <= k,
    ensures
        ({
            let failed = spec_lifecycle_next(
                lifecycle_after(spec_lifecycle_new(modules), LifecycleEvent::Started, k),
                LifecycleEvent::StartFailed,
            );
            let cancelled = spec_lifecycle_next(failed, LifecycleEvent::BackgroundCancelled);
            let a = spec_lifecycle_action(lifecycle_after(cancelled, LifecycleEvent::Stopped, j));
            &&& spec_lifecycle_action(failed) == LifecycleAction::CancelBackground
            &&& j < k ==> a == LifecycleAction::Stop((k - 1 - j) as usize)
            &&& j == k ==> a == LifecycleAction::Finish
        }),
{
    lemma_starts(modules, k);
    let failed = spec_lifecycle_next(
        lifecycle_after(spec_lifecycle_new(modules), LifecycleEvent::Started, k),
        LifecycleEvent::StartFailed,
    );
    let cancelled = spec_lifecycle_next(failed, LifecycleEvent::BackgroundCancelled);
    if k == 0 {
        lemma_stopped_stays(cancelled, j);
    } else {
        lemma_stops(cancelled, j);
    }
}

/// Once stopped, a lifecycle stays stopped.
proof fn lemma_stopped_stays(l: Lifecycle, j: nat)
    requires
        l.phase == LifecyclePhase::Stopped,
    ensures
        lifecycle_after(l, LifecycleEvent::Stopped, j) == l,
    decreases j,
{
    if j > 0 {
        lemma_stopped_stays(l, (j - 1) as nat);
    }
}

/// Shutdown cancels the background tasks first, then stops the modules in
/// reverse registration order: after all `n` have started and shutdown is
/// requested and the tasks are cancelled, the `j`th stop takes the module
/// at index `n - 1 - j`, and then nothing is left to do.
pub proof fn law_shutdown_stops_in_reverse(modules: usize, j: nat)
    requires
        j <= modules,
    ensures
        ({
            let serving = lifecycle_after(
                spec_lifecycle_new(modules),
                LifecycleEvent::Started,
                modules as nat,
            );
            let cancelling = spec_lifecycle_next(serving, LifecycleEvent::ShutdownRequested);
            let stopping = spec_lifecycle_next(cancelling, LifecycleEvent::BackgroundCancelled);
            let a = spec_lifecycle_action(lifecycle_after(stopping, LifecycleEvent::Stopped, j));
            &&& spec_lifecycle_action(cancelling) == LifecycleAction::CancelBackground
            &&& j < modules ==> a == LifecycleAction::Stop((modules - 1 - j) as usize)
            &&& j == modules ==> a == LifecycleAction::Finish
        }),
{
    lemma_starts(modules, modules as nat);
    let serving = lifecycle_after(spec_lifecycle_new(modules), LifecycleEvent::Started, modules as nat);
    let cancelling = spec_lifecycle_next(serving, LifecycleEvent::ShutdownRequested);
    let stopping = spec_lifecycle_next(cancelling, LifecycleEvent::BackgroundCancelled);
    if modules == 0 {
        lemma_stopped_stays(stopping, j);
    } else {
        lemma_stops(stopping, j);
    }
}

// ---------------------------------------------------------------------------
// Built-in modules
// ---------------------------------------------------------------------------
/// Middleware that logs each request.
#[derive(Clone, Copy, Debug, Default)]
pub struct RequestLogger;

/// Middleware that answers a panicking handler with `500`.
#[derive(Clone, Copy, Debug, Default)]
pub struct PanicRecovery;

/// Middleware that adds security headers to every response.
#[derive(Clone, Copy, Debug, Default)]
pub struct SecurityHeaders;

/// A response with the security headers added.
pub open spec fn spec_secured(r: ResponseModel) -> ResponseModel {
    spec_with_header(
        spec_with_header(
            spec_with_header(
                spec_with_header(r, "X-Content-Type-Options"@, "nosniff"@),
                "X-Frame-Options"@,
                "DENY"@,
            ),
            "Referrer-Policy"@,
            "no-referrer"@,
        ),
        "Cache-Control"@,
        "no-store"@,
    )
}

impl SecurityHeaders {
    /// Adds `X-Content-Type-Options: nosniff`, `X-Frame-Options: DENY`,
    /// `Referrer-Policy: no-referrer` and `Cache-Control: no-store`.
    pub fn apply(response: Response) -> (r: Response)
        ensures
            r@ == spec_secured(response@),
    {
        response.with_header("X-Content-Type-Options", "nosniff").with_header(
            "X-Frame-Options",
            "DENY",
        ).with_header("Referrer-Policy", "no-referrer").with_header("Cache-Control", "no-store")
    }
}

/// The `/health` route's state: whether the host reports readiness.
#[derive(Clone, Copy, Debug, Default, PartialEq, Eq)]
pub struct HealthModule {
    pub ready: bool,
}

impl HealthModule {
    /// The status the `/health` route reports: `ok` once ready, else
    /// `starting`.
    pub fn status(&self) -> (r: &'static str)
        ensures
            r@ == if self.ready {
                "ok"@
            } else {
                "starting"@
            },
    {
        if self.ready {
            "ok"
        } else {
            "starting"
        }
    }
}

/// The `/info` route's state: whether it answers.
#[derive(Clone, Copy, Debug, Default, PartialEq, Eq)]
pub struct InfoModule {
    pub enabled: bool,
}

impl InfoModule {
    /// Whether the `/info` route answers: a disabled route is `404 Not
    /// Found`.
    pub fn gate(&self) -> (r: Result<(), FrameworkError>)
        ensures
            self.enabled ==> r is Ok,
            !self.enabled ==> (r matches Err(e) && crate::errors::is_http_error(
                e,
                404,
                "Not Found"@,
                "404 Not Found"@,
            )),
    {
        if self.enabled {
            Ok(())
        } else {
            Err(FrameworkError::Http(crate::errors::HttpError::not_found("404 Not Found")))
        }
    }
}

/// The built-in web platform: health and info routes with logging, panic
/// recovery and security headers.
#[derive(Clone, Copy, Debug, Default, PartialEq, Eq)]
pub struct WebPlatformModule {
    pub health: HealthModule,
    pub info: InfoModule,
}

impl WebPlatformModule {
    /// A web platform that is not ready and does not answer `/info` yet.
    pub fn new() -> (r: Self)
        ensures
            !r.health.ready && !r.info.enabled,
    {
        WebPlatformModule {
            health: HealthModule { ready: false },
            info: InfoModule { enabled: false },
        }
    }
}

} // verus!
