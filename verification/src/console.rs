//! Data types of the admin-console surface: request and response shapes for
//! route management, script validation and dry runs, login, and the state
//! records the console displays. The HTTP handlers themselves live with the
//! server runtime outside the core.

use vstd::prelude::*;
use crate::store::User;

verus! {

/// Request to create a route.
#[derive(Debug)]
pub struct CreateRouteRequest {
    /// Path pattern.
    pub path: String,
    /// Upstream URL.
    pub upstream: String,
    /// Method; the default is GET.
    pub method: String,
    /// Optional transform-script source.
    pub transform_script: Option<String>,
}

/// Request for a transform dry run.
#[derive(Debug)]
pub struct SimulateRequest {
    /// Script source.
    pub script: String,
    /// Input handed to the script.
    pub input: String,
}

/// Outcome of a transform dry run.
#[derive(Debug)]
pub struct SimulateResponse {
    /// Whether the run succeeded.
    pub success: bool,
    /// The script's output on success.
    pub output: Option<String>,
    /// The failure text otherwise.
    pub error: Option<String>,
    /// Execution time in microseconds.
    pub execution_us: Option<u64>,
}

/// Request to validate a script.
#[derive(Debug)]
pub struct ValidateRequest {
    /// Script source.
    pub script: String,
}

/// Outcome of a script validation.
#[derive(Debug)]
pub struct ValidateResponse {
    /// Whether the script compiles.
    pub valid: bool,
    /// The compile diagnostic otherwise.
    pub error: Option<String>,
}

/// A chat request to the design assistant.
#[derive(Debug)]
pub struct ChatRequest {
    /// The user's message.
    pub message: String,
}

/// A chat answer from the design assistant.
#[derive(Debug)]
pub struct ChatResponse {
    /// The assistant's answer.
    pub response: String,
}

/// Route information as the console displays it.
#[derive(Debug)]
pub struct RouteInfo {
    /// Identifier.
    pub id: String,
    /// Path pattern.
    pub path: String,
    /// Upstream URL.
    pub upstream: String,
    /// Method.
    pub method: String,
    /// Optional transform-script source.
    pub transform_script: Option<String>,
    /// Whether the route takes part in routing.
    pub active: bool,
    /// Creation timestamp text.
    pub created_at: String,
    /// Requests served.
    pub requests: u64,
    /// Mean latency in milliseconds.
    pub avg_latency_ms: u64,
}

/// The gateway state as the console displays it.
#[derive(Debug)]
pub struct GatewayState {
    /// The routes.
    pub routes: Vec<RouteInfo>,
    /// Uptime in seconds.
    pub uptime_seconds: u64,
    /// Version text.
    pub version: String,
}

/// A transform script as the console displays it.
#[derive(Debug)]
pub struct TransformationInfo {
    /// Identifier.
    pub id: String,
    /// Display name.
    pub name: String,
    /// Description.
    pub description: String,
    /// Script language tag.
    pub language: String,
    /// Script source.
    pub script: String,
    /// Input kind.
    pub input_type: String,
    /// Output kind.
    pub output_type: String,
    /// Routes using the script.
    pub used_by: Vec<String>,
    /// Creation timestamp text.
    pub created_at: String,
    /// Last update timestamp text.
    pub updated_at: String,
}

/// A security event as the console displays it.
#[derive(Debug)]
pub struct SecurityEvent {
    /// Identifier.
    pub id: String,
    /// Event kind.
    pub event_type: String,
    /// Category (firewall, rate limit).
    pub category: String,
    /// Human-readable message.
    pub message: String,
    /// Source address.
    pub source: String,
    /// Timestamp text.
    pub timestamp: String,
}

/// An ingested API schema as the console displays it.
#[derive(Debug)]
pub struct SchemaInfo {
    /// Identifier.
    pub id: String,
    /// Display name.
    pub name: String,
    /// Schema kind.
    pub schema_type: String,
    /// Version text.
    pub version: String,
    /// The schema document.
    pub content: String,
    /// Number of endpoints.
    pub endpoints: u32,
    /// Validation status.
    pub status: String,
    /// Creation timestamp text.
    pub created_at: String,
    /// Last update timestamp text.
    pub updated_at: String,
}

/// Query bounds for the security-event listing.
#[derive(Debug)]
pub struct SecurityEventsQuery {
    /// Maximum number of events returned.
    pub limit: usize,
}

impl SecurityEventsQuery {
    /// The default page size.
    pub fn default_query() -> (r: SecurityEventsQuery)
        ensures
            r.limit == 50,
    {
        SecurityEventsQuery { limit: 50 }
    }
}

/// Request to create a user.
#[derive(Debug)]
pub struct CreateUserRequest {
    /// Login name.
    pub username: String,
    /// Password, hashed before storage.
    pub password: String,
    /// Role names.
    pub roles: Vec<String>,
}

/// Request to create a role.
#[derive(Debug)]
pub struct CreateRoleRequest {
    /// Role name.
    pub name: String,
    /// Permission names.
    pub permissions: Vec<String>,
}

/// Request to create an API key.
#[derive(Debug)]
pub struct CreateKeyRequest {
    /// Display name.
    pub name: String,
    /// Owner.
    pub owner_id: String,
    /// Granted scopes.
    pub scopes: Vec<String>,
}

/// Login request.
#[derive(Debug)]
pub struct LoginRequest {
    /// Login name.
    pub username: String,
    /// Password.
    pub password: String,
}

/// Login answer: the bearer token and the user it names.
#[derive(Debug)]
pub struct LoginResponse {
    /// The signed token.
    pub token: String,
    /// The user.
    pub user: UserResponse,
    /// Expiry of the token, Unix seconds.
    pub expires_at: u64,
}

/// The public shape of a user.
#[derive(Debug)]
pub struct UserResponse {
    /// Identifier.
    pub id: String,
    /// Login name.
    pub username: String,
    /// Role names.
    pub roles: Vec<String>,
}

impl UserResponse {
    /// The public shape of a stored user: identifier, name and roles; the
    /// password hash stays behind.
    pub fn from_user(user: User) -> (r: UserResponse)
        ensures
            r.id@ == user.id@,
            r.username@ == user.username@,
            r.roles@ == user.roles@,
    {
        UserResponse { id: user.id, username: user.username, roles: user.roles }
    }
}

/// Request for a design-flow generation.
#[derive(Debug)]
pub struct GenerateFlowRequest {
    /// The natural-language prompt.
    pub prompt: String,
}

/// One edge of a generated design flow.
#[derive(Debug, Clone, Copy, PartialEq, Eq, Structural)]
pub struct GeneratedEdge {
    /// Index of the source node.
    pub from_index: usize,
    /// Index of the target node.
    pub to_index: usize,
}

} // verus!
