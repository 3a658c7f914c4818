//! Error taxonomy of the gateway core.
//!
//! Every error carries a stable category string for metrics, an HTTP status
//! code for the client-visible rendering, and a retryability flag that the
//! upstream dispatcher consults.

use vstd::prelude::*;

verus! {

/// Request-path errors, classified for fail-fast handling.
#[derive(Debug, Clone)]
pub enum GatewayError {
    /// No route matched the requested path.
    RouteNotFound { path: String },
    /// A route matched but does not admit the request's method.
    MethodNotAllowed { method: String, path: String },
    /// The request body exceeded the configured ceiling.
    PayloadTooLarge { size: u64, limit: u64 },
    /// Could not connect to the upstream service.
    UpstreamConnectionFailed { upstream: String, reason: String },
    /// The upstream service answered with an error status.
    UpstreamError { upstream: String, status_code: u16 },
    /// The upstream did not answer within the route's timeout.
    RequestTimeout { upstream: String, timeout_ms: u64 },
    /// Invalid gateway configuration.
    ConfigError(String),
    /// Persistent-store failure.
    DatabaseError(String),
    /// Unclassified internal failure.
    InternalError(String),
    /// The request body could not be read.
    BodyReadError(String),
    /// A payload could not be serialized or deserialized.
    SerializationError(String),
}

impl GatewayError {
    /// The HTTP status code under which this error is rendered.
    pub fn status_code(&self) -> (code: u16)
        ensures
            code == self.spec_status_code(),
    {
        match self {
            GatewayError::RouteNotFound { .. } => 404,
            GatewayError::MethodNotAllowed { .. } => 405,
            GatewayError::PayloadTooLarge { .. } => 413,
            GatewayError::UpstreamConnectionFailed { .. } => 502,
            GatewayError::UpstreamError { status_code, .. } => *status_code,
            GatewayError::RequestTimeout { .. } => 504,
            GatewayError::ConfigError(_) => 500,
            GatewayError::DatabaseError(_) => 500,
            GatewayError::InternalError(_) => 500,
            GatewayError::BodyReadError(_) => 400,
            GatewayError::SerializationError(_) => 400,
        }
    }

    /// Status code, as a specification-level function.
    pub open spec fn spec_status_code(&self) -> u16 {
        match self {
            GatewayError::RouteNotFound { .. } => 404,
            GatewayError::MethodNotAllowed { .. } => 405,
            GatewayError::PayloadTooLarge { .. } => 413,
            GatewayError::UpstreamConnectionFailed { .. } => 502,
            GatewayError::UpstreamError { status_code, .. } => *status_code,
            GatewayError::RequestTimeout { .. } => 504,
            GatewayError::ConfigError(_) => 500,
            GatewayError::DatabaseError(_) => 500,
            GatewayError::InternalError(_) => 500,
            GatewayError::BodyReadError(_) => 400,
            GatewayError::SerializationError(_) => 400,
        }
    }

    /// Whether a retry against the upstream may succeed: connection failures,
    /// timeouts, and upstream 5xx answers are retryable; everything else is
    /// final.
    pub fn is_retryable(&self) -> (r: bool)
        ensures
            r == self.spec_is_retryable(),
    {
        match self {
            GatewayError::UpstreamConnectionFailed { .. } => true,
            GatewayError::RequestTimeout { .. } => true,
            GatewayError::UpstreamError { status_code, .. } => *status_code >= 500,
            _ => false,
        }
    }

    /// Retryability, as a specification-level function.
    pub open spec fn spec_is_retryable(&self) -> bool {
        match self {
            GatewayError::UpstreamConnectionFailed { .. } => true,
            GatewayError::RequestTimeout { .. } => true,
            GatewayError::UpstreamError { status_code, .. } => *status_code >= 500,
            _ => false,
        }
    }

    /// Stable category label for metrics and logging.
    pub fn category(&self) -> (c: &'static str)
        ensures
            c@ == self.spec_category(),
    {
        match self {
            GatewayError::RouteNotFound { .. } => "routing",
            GatewayError::MethodNotAllowed { .. } => "routing",
            GatewayError::PayloadTooLarge { .. } => "client_error",
            GatewayError::UpstreamConnectionFailed { .. } => "upstream",
            GatewayError::UpstreamError { .. } => "upstream",
            GatewayError::RequestTimeout { .. } => "upstream",
            GatewayError::ConfigError(_) => "config",
            GatewayError::DatabaseError(_) => "database",
            GatewayError::InternalError(_) => "internal",
            GatewayError::BodyReadError(_) => "client_error",
            GatewayError::SerializationError(_) => "client_error",
        }
    }

    /// Category label, as a specification-level function.
    pub open spec fn spec_category(&self) -> Seq<char> {
        match self {
            GatewayError::RouteNotFound { .. } => "routing"@,
            GatewayError::MethodNotAllowed { .. } => "routing"@,
            GatewayError::PayloadTooLarge { .. } => "client_error"@,
            GatewayError::UpstreamConnectionFailed { .. } => "upstream"@,
            GatewayError::UpstreamError { .. } => "upstream"@,
            GatewayError::RequestTimeout { .. } => "upstream"@,
            GatewayError::ConfigError(_) => "config"@,
            GatewayError::DatabaseError(_) => "database"@,
            GatewayError::InternalError(_) => "internal"@,
            GatewayError::BodyReadError(_) => "client_error"@,
            GatewayError::SerializationError(_) => "client_error"@,
        }
    }
}

/// Errors of the configuration-store layer.
#[derive(Debug, Clone)]
pub enum ConfigError {
    /// Store connection or query failure.
    Database(String),
    /// No route document under the given identifier.
    RouteNotFound { id: String },
    /// A route document with that identifier already exists.
    RouteExists { id: String },
    /// A route document failed validation.
    InvalidRoute { reason: String },
    /// A document could not be serialized or deserialized.
    Serialization(String),
    /// The change-notification subscription failed.
    LiveQuery(String),
    /// The watcher task failed.
    Watcher(String),
}

} // verus!
