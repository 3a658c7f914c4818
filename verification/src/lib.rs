//! Verified core of a polyglot API gateway: a wait-free routing table with
//! atomic reload, a listener supervisor, a protocol-agnostic message context,
//! a sandboxed transform engine, and a security gate (WAF, token-bucket rate
//! limiting, JWT validation) on the request path.

pub mod assoc;
pub mod clock;
pub mod agent;
pub mod auth;
pub mod body;
pub mod console;
pub mod context;
pub mod errors;
pub mod grpc;
pub mod harness;
pub mod ingest;
pub mod json;
pub mod jsonparse;
pub mod keys;
pub mod metering;
pub mod pipeline;
pub mod mqtt;
pub mod ratelimit;
pub mod route;
pub mod script;
pub mod soap;
pub mod store;
pub mod router;
pub mod strutil;
pub mod supervisor;
pub mod telemetry;
pub mod waf;
pub mod xml;
