//! Error types of the framework and their rendered messages.
use vstd::prelude::*;

use crate::http::{response_from_error, spec_response_from_error, Response, ResponseModel};
use crate::text::{decimal, decimal_chars, extend_chars, extend_str, string_of};

verus! {

/// Errors produced while loading or binding configuration.
#[derive(Debug)]
pub enum ConfigError {
    /// An I/O failure, with the operating system's message.
    Io(String),
    FileNotFound,
    InvalidFormat,
    MissingKey(&'static str),
    Deserialize { target_type: &'static str, message: String },
    InvalidValue { key: &'static str, value: String, expected: &'static str },
}

/// The abstract value of a `ConfigError`, with its texts as sequences.
pub enum ConfigFault {
    Io(Seq<char>),
    FileNotFound,
    InvalidFormat,
    MissingKey(Seq<char>),
    Deserialize { target_type: Seq<char>, message: Seq<char> },
    InvalidValue { key: Seq<char>, value: Seq<char>, expected: Seq<char> },
}

impl View for ConfigError {
    type V = ConfigFault;

    open spec fn view(&self) -> ConfigFault {
        match self {
            ConfigError::Io(m) => ConfigFault::Io(m@),
            ConfigError::FileNotFound => ConfigFault::FileNotFound,
            ConfigError::InvalidFormat => ConfigFault::InvalidFormat,
            ConfigError::MissingKey(k) => ConfigFault::MissingKey(k@),
            ConfigError::Deserialize { target_type, message } => ConfigFault::Deserialize {
                target_type: target_type@,
                message: message@,
            },
            ConfigError::InvalidValue { key, value, expected } => ConfigFault::InvalidValue {
                key: key@,
                value: value@,
                expected: expected@,
            },
        }
    }
}

/// A result with its configuration error taken by its abstract value.
pub open spec fn config_result<T>(r: Result<T, ConfigError>) -> Result<T, ConfigFault> {
    match r {
        Ok(v) => Ok(v),
        Err(e) => Err(e@),
    }
}

/// The text a `ConfigError` renders to.
pub open spec fn config_error_text(e: ConfigError) -> Seq<char> {
    match e {
        ConfigError::Io(m) => "config IO error: "@ + m@,
        ConfigError::MissingKey(k) => "missing config key "@ + k@,
        ConfigError::Deserialize { target_type, message } => "failed to bind configuration into "@
            + target_type@ + ": "@ + message@,
        ConfigError::InvalidValue { key, value, expected } => "invalid value for "@ + key@ + ": "@
            + value@ + " ("@ + expected@ + ")"@,
        ConfigError::FileNotFound => "Configuration file not found"@,
        ConfigError::InvalidFormat => "Configuration file has an invalid format"@,
    }
}

impl ConfigError {
    /// The human-readable description of the error.
    pub fn to_string(&self) -> (r: String)
        ensures
            r@ == config_error_text(*self),
    {
        let mut v: Vec<char> = Vec::new();
        match self {
            ConfigError::Io(m) => {
                extend_str(&mut v, "config IO error: ");
                extend_str(&mut v, m.as_str());
            },
            ConfigError::MissingKey(k) => {
                extend_str(&mut v, "missing config key ");
                extend_str(&mut v, k);
            },
            ConfigError::Deserialize { target_type, message } => {
                extend_str(&mut v, "failed to bind configuration into ");
                extend_str(&mut v, target_type);
                extend_str(&mut v, ": ");
                extend_str(&mut v, message.as_str());
            },
            ConfigError::InvalidValue { key, value, expected } => {
                extend_str(&mut v, "invalid value for ");
                extend_str(&mut v, key);
                extend_str(&mut v, ": ");
                extend_str(&mut v, value.as_str());
                extend_str(&mut v, " (");
                extend_str(&mut v, expected);
                extend_str(&mut v, ")");
            },
            ConfigError::FileNotFound => {
                extend_str(&mut v, "Configuration file not found");
            },
            ConfigError::InvalidFormat => {
                extend_str(&mut v, "Configuration file has an invalid format");
            },
        }
        string_of(v.as_slice())
    }
}

/// Errors raised while extracting handler inputs from a request.
#[derive(Debug)]
pub enum ExtractorError {
    Missing(String),
    ParseFailed(String),
}

/// The text an `ExtractorError` renders to.
pub open spec fn extractor_error_text(e: ExtractorError) -> Seq<char> {
    match e {
        ExtractorError::Missing(f) => "missing field: "@ + f@,
        ExtractorError::ParseFailed(f) => "failed to parse field: "@ + f@,
    }
}

impl ExtractorError {
    /// The human-readable description of the error.
    pub fn to_string(&self) -> (r: String)
        ensures
            r@ == extractor_error_text(*self),
    {
        let mut v: Vec<char> = Vec::new();
        match self {
            ExtractorError::Missing(f) => {
                extend_str(&mut v, "missing field: ");
                extend_str(&mut v, f.as_str());
            },
            ExtractorError::ParseFailed(f) => {
                extend_str(&mut v, "failed to parse field: ");
                extend_str(&mut v, f.as_str());
            },
        }
        string_of(v.as_slice())
    }
}

/// An error that maps onto an HTTP status line and a message body.
#[derive(Debug, Clone)]
pub struct HttpError {
    pub status_code: u16,
    pub status_text: String,
    pub message: String,
}

/// The text an `HttpError` renders to: its status line.
pub open spec fn http_error_text(e: HttpError) -> Seq<char> {
    decimal(e.status_code as nat) + " "@ + e.status_text@
}

impl HttpError {
    pub fn new(status_code: u16, status_text: &str, message: &str) -> (r: Self)
        ensures
            r.status_code == status_code,
            r.status_text@ == status_text@,
            r.message@ == message@,
    {
        HttpError {
            status_code,
            status_text: status_text.to_string(),
            message: message.to_string(),
        }
    }

    pub fn bad_request(message: &str) -> (r: Self)
        ensures
            r.status_code == 400 && r.status_text@ == "Bad Request"@ && r.message@ == message@,
    {
        Self::new(400, "Bad Request", message)
    }

    pub fn not_found(message: &str) -> (r: Self)
        ensures
            r.status_code == 404 && r.status_text@ == "Not Found"@ && r.message@ == message@,
    {
        Self::new(404, "Not Found", message)
    }

    pub fn method_not_allowed(message: &str) -> (r: Self)
        ensures
            r.status_code == 405 && r.status_text@ == "Method Not Allowed"@ && r.message@
                == message@,
    {
        Self::new(405, "Method Not Allowed", message)
    }

    pub fn payload_too_large(message: &str) -> (r: Self)
        ensures
            r.status_code == 413 && r.status_text@ == "Payload Too Large"@ && r.message@
                == message@,
    {
        Self::new(413, "Payload Too Large", message)
    }

    pub fn unsupported_media_type(message: &str) -> (r: Self)
        ensures
            r.status_code == 415 && r.status_text@ == "Unsupported Media Type"@ && r.message@
                == message@,
    {
        Self::new(415, "Unsupported Media Type", message)
    }

    pub fn too_many_requests(message: &str) -> (r: Self)
        ensures
            r.status_code == 429 && r.status_text@ == "Too Many Requests"@ && r.message@
                == message@,
    {
        Self::new(429, "Too Many Requests", message)
    }

    pub fn internal_server_error(message: &str) -> (r: Self)
        ensures
            r.status_code == 500 && r.status_text@ == "Internal Server Error"@ && r.message@
                == message@,
    {
        Self::new(500, "Internal Server Error", message)
    }

    /// The plain-text response carrying this error's status and message.
    pub fn to_response(&self) -> (r: Response)
        ensures
            r@ == spec_response_from_error(self.status_code, self.status_text@, self.message@),
    {
        response_from_error(self.status_code, self.status_text.as_str(), self.message.as_str())
    }

    /// The status line, e.g. `400 Bad Request`.
    pub fn to_string(&self) -> (r: String)
        ensures
            r@ == http_error_text(*self),
    {
        let mut v = decimal_chars(self.status_code as u64);
        extend_str(&mut v, " ");
        extend_str(&mut v, self.status_text.as_str());
        string_of(v.as_slice())
    }
}

/// Whether an error is the HTTP error with this status, reason and message.
pub open spec fn is_http_error(e: FrameworkError, code: u16, text: Seq<char>, message: Seq<char>) -> bool {
    e matches FrameworkError::Http(h) && h.status_code == code && h.status_text@ == text && h.message@
        == message
}

/// Whether an error is a `400 Bad Request` with this message.
pub open spec fn is_bad_request(e: FrameworkError, message: Seq<char>) -> bool {
    is_http_error(e, 400, "Bad Request"@, message)
}

/// The framework's error type.
#[derive(Debug)]
pub enum FrameworkError {
    Http(HttpError),
    Config { context: &'static str, source: ConfigError },
    Extractor(ExtractorError),
    RouteConflict { method: String, existing_path: String, new_path: String },
    Startup { context: String },
    Internal { message: String },
}

/// The text a `FrameworkError` renders to.
pub open spec fn framework_error_text(e: FrameworkError) -> Seq<char> {
    match e {
        FrameworkError::Http(h) => http_error_text(h),
        FrameworkError::Config { context, source } => context@ + ": "@ + config_error_text(source),
        FrameworkError::Extractor(x) => extractor_error_text(x),
        FrameworkError::RouteConflict { method, existing_path, new_path } =>
            "duplicate route registration for "@ + method@ + " "@ + new_path@
            + " (conflicts with "@ + existing_path@ + ")"@,
        FrameworkError::Startup { context } => context@,
        FrameworkError::Internal { message } => message@,
    }
}

/// The response a `FrameworkError` is answered with.
pub open spec fn framework_error_response(e: FrameworkError) -> ResponseModel {
    match e {
        FrameworkError::Http(h) => spec_response_from_error(h.status_code, h.status_text@, h.message@),
        FrameworkError::Extractor(x) => spec_response_from_error(
            400,
            "Bad Request"@,
            extractor_error_text(x),
        ),
        _ => spec_response_from_error(
            500,
            "Internal Server Error"@,
            "500 Internal Server Error"@,
        ),
    }
}

impl FrameworkError {
    /// The HTTP response this error is answered with: its own status for an
    /// HTTP error, `400` for an extraction failure, `500` otherwise.
    pub fn to_response(&self) -> (r: Response)
        ensures
            r@ == framework_error_response(*self),
    {
        match self {
            FrameworkError::Http(error) => error.to_response(),
            FrameworkError::Extractor(source) => {
                let m = source.to_string();
                HttpError::bad_request(m.as_str()).to_response()
            },
            _ => Response::internal_server_error(),
        }
    }

    pub fn internal(message: &str) -> (r: Self)
        ensures
            r matches FrameworkError::Internal { message: m } && m@ == message@,
    {
        FrameworkError::Internal { message: message.to_string() }
    }

    pub fn startup(context: &str) -> (r: Self)
        ensures
            r matches FrameworkError::Startup { context: c } && c@ == context@,
    {
        FrameworkError::Startup { context: context.to_string() }
    }

    pub fn config_context(context: &'static str, source: ConfigError) -> (r: Self)
        ensures
            r == (FrameworkError::Config { context, source }),
    {
        FrameworkError::Config { context, source }
    }

    pub fn route_conflict(method: &str, existing_path: &str, new_path: &str) -> (r: Self)
        ensures
            r matches FrameworkError::RouteConflict { method: m, existing_path: e, new_path: n }
                && m@ == method@ && e@ == existing_path@ && n@ == new_path@,
    {
        FrameworkError::RouteConflict {
            method: method.to_string(),
            existing_path: existing_path.to_string(),
            new_path: new_path.to_string(),
        }
    }

    /// The human-readable description of the error.
    pub fn to_string(&self) -> (r: String)
        ensures
            r@ == framework_error_text(*self),
    {
        match self {
            FrameworkError::Http(h) => h.to_string(),
            FrameworkError::Config { context, source } => {
                let mut v: Vec<char> = Vec::new();
                extend_str(&mut v, context);
                extend_str(&mut v, ": ");
                let s = source.to_string();
                extend_str(&mut v, s.as_str());
                string_of(v.as_slice())
            },
            FrameworkError::Extractor(x) => x.to_string(),
            FrameworkError::RouteConflict { method, existing_path, new_path } => {
                let mut v: Vec<char> = Vec::new();
                extend_str(&mut v, "duplicate route registration for ");
                extend_str(&mut v, method.as_str());
                extend_str(&mut v, " ");
                extend_str(&mut v, new_path.as_str());
                extend_str(&mut v, " (conflicts with ");
                extend_str(&mut v, existing_path.as_str());
                extend_str(&mut v, ")");
                string_of(v.as_slice())
            },
            FrameworkError::Startup { context } => context.clone(),
            FrameworkError::Internal { message } => message.clone(),
        }
    }
}

impl vstd::std_specs::convert::FromSpecImpl<HttpError> for FrameworkError {
    open spec fn obeys_from_spec() -> bool {
        true
    }

    open spec fn from_spec(v: HttpError) -> Self {
        FrameworkError::Http(v)
    }
}

impl From<HttpError> for FrameworkError {
    fn from(v: HttpError) -> (r: Self) {
        FrameworkError::Http(v)
    }
}

impl vstd::std_specs::convert::FromSpecImpl<ExtractorError> for FrameworkError {
    open spec fn obeys_from_spec() -> bool {
        true
    }

    open spec fn from_spec(v: ExtractorError) -> Self {
        FrameworkError::Extractor(v)
    }
}

impl From<ExtractorError> for FrameworkError {
    fn from(v: ExtractorError) -> (r: Self) {
        FrameworkError::Extractor(v)
    }
}

/// The conversion's result holds a text built at run time, which no spec
/// value can spell; `from` states it in its own `ensures`.
impl vstd::std_specs::convert::FromSpecImpl<ConfigError> for FrameworkError {
    open spec fn obeys_from_spec() -> bool {
        false
    }

    open spec fn from_spec(v: ConfigError) -> Self {
        vstd::pervasive::arbitrary()
    }
}

impl From<ConfigError> for FrameworkError {
    /// A configuration failure surfaces as a startup error that carries the
    /// configuration error's text.
    fn from(v: ConfigError) -> (r: Self)
        ensures
            r matches FrameworkError::Startup { context }
                && context@ == "configuration binding failed: "@ + config_error_text(v),
    {
        let mut m: Vec<char> = Vec::new();
        extend_str(&mut m, "configuration binding failed: ");
        let t = v.to_string();
        extend_str(&mut m, t.as_str());
        FrameworkError::Startup { context: string_of(m.as_slice()) }
    }
}

} // verus!
