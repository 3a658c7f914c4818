//! Trace-context propagation: reading trace identity from protocol
//! metadata, in W3C `traceparent` form on HTTP and gRPC and from user
//! properties on MQTT.

use vstd::prelude::*;
use crate::context::{Metadata, NaseejContext, ProtocolType, TraceId};
use crate::strutil::{spec_split, split_str};

verus! {

/// The trace identifier read from a `traceparent` value: the second
/// hyphen-separated field, when one exists.
pub open spec fn spec_trace_of_traceparent(v: Seq<char>) -> Option<Seq<char>> {
    let parts = spec_split(v, '-');
    if parts.len() >= 2 {
        Some(parts[1])
    } else {
        None
    }
}

/// Extract trace identity from HTTP headers: the `traceparent` header in
/// W3C form `00-<trace_id>-<span_id>-<flags>`.
pub fn extract_trace_from_http(headers: &Metadata) -> (r: Option<TraceId>)
    requires
        headers.wf(),
    ensures
        (match r {
            Some(t) => headers@.contains_key("traceparent"@)
                && spec_trace_of_traceparent(headers@["traceparent"@]) == Some(t@),
            None => !headers@.contains_key("traceparent"@)
                || spec_trace_of_traceparent(headers@["traceparent"@]) is None,
        }),
{
    match headers.get("traceparent") {
        Some(value) => {
            let parts = split_str(value.as_str(), '-');
            if parts.len() >= 2 {
                proof {
                    assert(parts@.map_values(|p: String| p@)[1] == parts@[1]@);
                }
                Some(TraceId::from_string(parts[1].as_str()))
            } else {
                None
            }
        },
        None => None,
    }
}

/// Extract trace identity from MQTT user properties: a `trace_id` property
/// first, then a `traceparent` property; a value with hyphens is read as
/// W3C form, anything else is taken whole.
pub fn extract_trace_from_mqtt(properties: &Metadata) -> (r: Option<TraceId>)
    requires
        properties.wf(),
    ensures
        r is Some <==> properties@.contains_key("trace_id"@)
            || properties@.contains_key("traceparent"@),
        (match r {
            Some(t) => {
                let v = if properties@.contains_key("trace_id"@) {
                    properties@["trace_id"@]
                } else {
                    properties@["traceparent"@]
                };
                if spec_split(v, '-').len() >= 2 {
                    t@ == spec_split(v, '-')[1]
                } else {
                    t@ == v
                }
            },
            None => true,
        }),
{
    let value_opt = match properties.get("trace_id") {
        Some(v) => Some(v),
        None => properties.get("traceparent"),
    };
    match value_opt {
        Some(value) => {
            let parts = split_str(value.as_str(), '-');
            if parts.len() >= 2 {
                proof {
                    assert(parts@.map_values(|p: String| p@)[1] == parts@[1]@);
                }
                Some(TraceId::from_string(parts[1].as_str()))
            } else {
                Some(TraceId::from_string(value.as_str()))
            }
        },
        None => None,
    }
}

/// Extract trace identity from gRPC metadata: gRPC carries the same W3C
/// header as HTTP.
pub fn extract_trace_from_grpc(metadata: &Metadata) -> (r: Option<TraceId>)
    requires
        metadata.wf(),
    ensures
        (match r {
            Some(t) => metadata@.contains_key("traceparent"@)
                && spec_trace_of_traceparent(metadata@["traceparent"@]) == Some(t@),
            None => !metadata@.contains_key("traceparent"@)
                || spec_trace_of_traceparent(metadata@["traceparent"@]) is None,
        }),
{
    extract_trace_from_http(metadata)
}

/// The W3C `traceparent` value to emit on egress for a context.
pub fn generate_traceparent(ctx: &NaseejContext) -> (r: String)
    ensures
        r@ == "00-"@ + ctx.trace_id@ + "-"@ + (match ctx.span_id {
            Some(ref sp) => sp@,
            None => "0000000000000000"@,
        }) + "-01"@,
{
    ctx.traceparent()
}

/// The stage a span covers on the request path.
#[derive(Debug, Clone, Copy)]
pub enum SpanKind {
    /// A message received from a client.
    Ingress,
    /// The routing decision.
    Router,
    /// A payload transformation.
    Transform,
    /// Dispatch to the upstream.
    Egress,
}

impl SpanKind {
    /// The lowercase name of this stage.
    pub fn as_str(&self) -> (r: &'static str)
        ensures
            r@ == self.spec_str(),
    {
        match self {
            SpanKind::Ingress => "ingress",
            SpanKind::Router => "router",
            SpanKind::Transform => "transform",
            SpanKind::Egress => "egress",
        }
    }

    /// The lowercase name, as a specification-level function.
    pub open spec fn spec_str(&self) -> Seq<char> {
        match self {
            SpanKind::Ingress => "ingress"@,
            SpanKind::Router => "router"@,
            SpanKind::Transform => "transform"@,
            SpanKind::Egress => "egress"@,
        }
    }
}

/// The observable attributes of one request span.
#[derive(Debug)]
pub struct SpanAttributes {
    /// Source protocol.
    pub protocol: ProtocolType,
    /// Destination of the message.
    pub destination: String,
    /// Method, where the protocol has one.
    pub method: Option<String>,
    /// Payload content type.
    pub content_type: Option<String>,
    /// Payload size in bytes.
    pub payload_size: usize,
}

impl SpanAttributes {
    /// Read the span attributes off a context.
    pub fn from_context(ctx: &NaseejContext) -> (r: SpanAttributes)
        ensures
            r.protocol == ctx.protocol,
            r.destination@ == ctx.destination@,
            r.payload_size == ctx.payload@.len(),
            (match (ctx.method, r.method) {
                (Some(ref a), Some(ref b)) => a@ == b@,
                (None, None) => true,
                _ => false,
            }),
            (match (ctx.content_type, r.content_type) {
                (Some(ref a), Some(ref b)) => a@ == b@,
                (None, None) => true,
                _ => false,
            }),
    {
        SpanAttributes {
            protocol: ctx.protocol,
            destination: ctx.destination.clone(),
            method: match ctx.method {
                Some(ref m) => Some(m.clone()),
                None => None,
            },
            content_type: match ctx.content_type {
                Some(ref c) => Some(c.clone()),
                None => None,
            },
            payload_size: ctx.payload.len(),
        }
    }

    /// The attributes as plain key/value pairs for an exporter.
    pub fn to_pairs(&self) -> (r: Vec<(String, String)>)
        ensures
            r@.len() >= 3,
    {
        let mut kvs: Vec<(String, String)> = Vec::new();
        kvs.push(("protocol".to_owned(), self.protocol.as_str().to_owned()));
        kvs.push(("destination".to_owned(), self.destination.clone()));
        kvs.push(("payload_size".to_owned(), crate::strutil::u64_to_string(
            self.payload_size as u64)));
        match self.method {
            Some(ref m) => kvs.push(("method".to_owned(), m.clone())),
            None => {},
        }
        match self.content_type {
            Some(ref c) => kvs.push(("content_type".to_owned(), c.clone())),
            None => {},
        }
        kvs
    }
}

} // verus!
