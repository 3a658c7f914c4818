//! The per-request pipeline decisions: route matching with method gating,
//! the error rendering parts, and the health and readiness rules.

use vstd::prelude::*;
use crate::errors::GatewayError;
use crate::route::Route;
use crate::router::{match_route, spec_match, table_wf, RouterTable};

verus! {

/// The routing decision for one request: the matched route, or the error
/// the response renders. A miss is `RouteNotFound`; a match whose method
/// set excludes the request's method is `MethodNotAllowed`.
pub fn route_request<'a>(path: &str, method: &str, table: &'a RouterTable)
    -> (r: Result<&'a Route, GatewayError>)
    requires
        table_wf(table@),
    ensures
        (match r {
            Ok(route) => spec_match(table@, path@) == Some(route@)
                && Route::spec_allows_method(route@, method@),
            Err(e) => (match spec_match(table@, path@) {
                Some(m) => e matches GatewayError::MethodNotAllowed { method: m2, path: p2 }
                    && !Route::spec_allows_method(m, method@) && m2@ == method@ && p2@ == path@,
                None => (e matches GatewayError::RouteNotFound { path: p2 } && p2@ == path@),
            }),
        }),
{
    match match_route(path, table) {
        Some(route) => {
            if route.allows_method(method) {
                Ok(route)
            } else {
                Err(GatewayError::MethodNotAllowed {
                    method: method.to_owned(),
                    path: path.to_owned(),
                })
            }
        },
        None => Err(GatewayError::RouteNotFound { path: path.to_owned() }),
    }
}

/// The parts of an error response: status code, category, and
/// retryability.
pub fn error_response_parts(e: &GatewayError) -> (r: (u16, &'static str, bool))
    ensures
        r.0 == e.spec_status_code(),
        r.1@ == e.spec_category(),
        r.2 == e.spec_is_retryable(),
{
    (e.status_code(), e.category(), e.is_retryable())
}

/// The readiness rule: ready exactly when at least one route is loaded;
/// a bare table answers 503.
pub fn readiness(routes_loaded: usize) -> (r: (u16, bool))
    ensures
        routes_loaded > 0 ==> r == (200u16, true),
        routes_loaded == 0 ==> r == (503u16, false),
{
    if routes_loaded > 0 {
        (200, true)
    } else {
        (503, false)
    }
}

/// The readiness response body text.
pub fn readiness_body(ready: bool, routes_loaded: u64) -> (r: String)
    ensures
        r@ == "{\"ready\":"@ + (if ready { "true"@ } else { "false"@ }) + ",\"routes_loaded\":"@
            + crate::strutil::spec_nat_chars(routes_loaded as int) + "}"@,
{
    let mut s = String::new();
    s.append("{\"ready\":");
    if ready {
        s.append("true");
    } else {
        s.append("false");
    }
    s.append(",\"routes_loaded\":");
    crate::strutil::append_u64(&mut s, routes_loaded);
    s.append("}");
    proof {
        assert(s@ =~= "{\"ready\":"@ + (if ready { "true"@ } else { "false"@ })
            + ",\"routes_loaded\":"@ + crate::strutil::spec_nat_chars(routes_loaded as int)
            + "}"@);
    }
    s
}

/// The health response body text for a version.
pub fn health_body(version: &str) -> (r: String)
    ensures
        r@ == "{\"status\":\"healthy\",\"version\":\""@ + version@ + "\"}"@,
{
    let mut s = String::new();
    s.append("{\"status\":\"healthy\",\"version\":\"");
    s.append(version);
    s.append("\"}");
    proof {
        assert(s@ =~= "{\"status\":\"healthy\",\"version\":\""@ + version@ + "\"}"@);
    }
    s
}

} // verus!
