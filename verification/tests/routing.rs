//! Routing-table behaviour: construction, matching, statistics, validation
//! and readiness.

use naseej_gateway::pipeline::{readiness, route_request};
use naseej_gateway::route::{validate_route, Route};
use naseej_gateway::router::{build_router_map, match_route, path_matches, router_stats,
    RouterTable};
use naseej_gateway::errors::GatewayError;
use naseej_gateway::store::{reload, DatabaseConfig};

fn create_test_routes() -> Vec<Route> {
    let mut routes = vec![
        Route::new("1", "/api/users", "http://user-service:8080"),
        Route::new("2", "/api/posts", "http://post-service:8080"),
        Route::new("3", "/api/v2/", "http://v2-service:8080"),
        Route::new("4", "/health", "http://localhost:8080"),
    ];
    let mut disabled = Route::new("5", "/disabled", "http://disabled:8080");
    disabled.active = false;
    routes.push(disabled);
    routes.push(Route::new("6", "/api/*", "http://api-catchall:8080"));
    routes
}

#[test]
fn test_route_creation() {
    let route = Route::new("test-1", "/api/users", "http://localhost:3000");
    assert_eq!(route.id, "test-1");
    assert_eq!(route.path, "/api/users");
    assert_eq!(route.upstream, "http://localhost:3000");
    assert!(route.active);
    assert_eq!(route.weight, 100);
}

#[test]
fn test_method_filtering() {
    let mut route = Route::new("test-1", "/api/users", "http://localhost:3000");

    assert!(route.allows_method("GET"));
    assert!(route.allows_method("POST"));

    route.methods = vec!["GET".to_string(), "POST".to_string()];
    assert!(route.allows_method("GET"));
    assert!(route.allows_method("post"));
    assert!(!route.allows_method("DELETE"));
}

#[test]
fn test_build_router_map_filters_inactive() {
    let routes = create_test_routes();
    let map = build_router_map(routes);

    assert_eq!(map.len(), 5);
    assert!(match_route("/disabled", &map).is_none());
}

#[test]
fn test_exact_match() {
    let routes = create_test_routes();
    let map = build_router_map(routes);

    let route = match_route("/api/users", &map).unwrap();
    assert_eq!(route.upstream, "http://user-service:8080");

    let route = match_route("/health", &map).unwrap();
    assert_eq!(route.upstream, "http://localhost:8080");
}

#[test]
fn test_prefix_match() {
    let routes = create_test_routes();
    let map = build_router_map(routes);

    let route = match_route("/api/v2/resources", &map).unwrap();
    assert_eq!(route.upstream, "http://v2-service:8080");
}

#[test]
fn test_wildcard_match() {
    let routes = create_test_routes();
    let map = build_router_map(routes);

    let route = match_route("/api/users", &map).unwrap();
    assert_eq!(route.upstream, "http://user-service:8080");

    let route = match_route("/api/unknown/deep/path", &map).unwrap();
    assert_eq!(route.upstream, "http://api-catchall:8080");
}

#[test]
fn test_no_match() {
    let routes = create_test_routes();
    let map = build_router_map(routes);

    assert!(match_route("/unknown", &map).is_none());
    assert!(match_route("/", &map).is_none());
}

#[test]
fn test_router_stats() {
    let routes = create_test_routes();
    let map = build_router_map(routes);
    let stats = router_stats(&map);

    assert_eq!(stats.total_routes, 5);
    assert_eq!(stats.active_routes, 5);
    assert_eq!(stats.unique_upstreams, 5);
}

#[test]
fn test_match_is_reproducible() {
    let map_a = build_router_map(create_test_routes());
    let map_b = build_router_map(create_test_routes());

    for path in ["/api/users", "/api/v2/x", "/api/anything", "/nope"] {
        let a = match_route(path, &map_a).map(|r| r.id.clone());
        let b = match_route(path, &map_b).map(|r| r.id.clone());
        assert_eq!(a, b);
    }
}

fn tables_bitwise_equal(a: &RouterTable, b: &RouterTable) -> bool {
    if a.entries.len() != b.entries.len() {
        return false;
    }
    for i in 0..a.entries.len() {
        let x = &a.entries[i];
        let y = &b.entries[i];
        if x.id != y.id || x.path != y.path || x.upstream != y.upstream || x.weight != y.weight
            || x.active != y.active || x.methods != y.methods || x.timeout_ms != y.timeout_ms
            || x.description != y.description {
            return false;
        }
    }
    true
}

#[test]
fn test_reload_twice_is_bitwise_equal() {
    let first = reload(create_test_routes());
    let second = reload(create_test_routes());
    assert!(tables_bitwise_equal(&first, &second));
}

#[test]
fn test_empty_table_matches_nothing_and_reports_unready() {
    let map = build_router_map(Vec::new());
    assert!(match_route("/anything", &map).is_none());
    assert!(match_route("/", &map).is_none());

    let (status, ready) = readiness(map.len());
    assert_eq!(status, 503);
    assert!(!ready);

    let (status, ready) = readiness(5);
    assert_eq!(status, 200);
    assert!(ready);
}

#[test]
fn test_wildcard_boundary() {
    assert!(path_matches("/api/x", "/api/*"));
    assert!(path_matches("/api/x/y", "/api/*"));
    assert!(!path_matches("/api", "/api/*"));
    assert!(!path_matches("/apix", "/api/*"));
}

#[test]
fn test_prefix_pattern_boundary() {
    assert!(path_matches("/v2", "/v2/"));
    assert!(path_matches("/v2/x", "/v2/"));
    assert!(!path_matches("/v20", "/v2/"));
}

#[test]
fn test_exact_plus_wildcard_table() {
    let routes = vec![
        Route::new("u", "/api/users", "http://users:1"),
        Route::new("c", "/api/*", "http://catchall:1"),
    ];
    let map = build_router_map(routes);

    assert_eq!(match_route("/api/users", &map).unwrap().id, "u");
    assert_eq!(match_route("/api/orders/1", &map).unwrap().id, "c");
    assert!(match_route("/api", &map).is_none());
}

#[test]
fn test_empty_method_set_admits_every_method() {
    let route = Route::new("any", "/x", "http://x:1");
    for method in ["GET", "POST", "PUT", "DELETE", "PATCH", "OPTIONS", "PUBLISH"] {
        assert!(route.allows_method(method));
    }
}

#[test]
fn test_route_request_pipeline() {
    let mut gated = Route::new("g", "/api/gated", "http://gated:1");
    gated.methods = vec!["GET".to_string()];
    let map = build_router_map(vec![gated]);

    assert!(route_request("/api/gated", "GET", &map).is_ok());
    match route_request("/api/gated", "DELETE", &map) {
        Err(naseej_gateway::errors::GatewayError::MethodNotAllowed { method, path }) => {
            assert_eq!(method, "DELETE");
            assert_eq!(path, "/api/gated");
        }
        other => panic!("expected MethodNotAllowed, got {:?}", other.map(|r| r.id.clone())),
    }
    match route_request("/missing", "GET", &map) {
        Err(naseej_gateway::errors::GatewayError::RouteNotFound { path }) => {
            assert_eq!(path, "/missing");
        }
        other => panic!("expected RouteNotFound, got {:?}", other.map(|r| r.id.clone())),
    }
}

#[test]
fn test_validate_empty_id() {
    let route = Route::new("", "/test", "http://localhost:8080");
    assert!(validate_route(&route).is_err());
}

#[test]
fn test_validate_empty_path() {
    let route = Route::new("test", "", "http://localhost:8080");
    assert!(validate_route(&route).is_err());
}

#[test]
fn test_validate_invalid_path() {
    let route = Route::new("test", "no-leading-slash", "http://localhost:8080");
    assert!(validate_route(&route).is_err());
}

#[test]
fn test_validate_invalid_upstream() {
    let route = Route::new("test", "/test", "invalid-url");
    assert!(validate_route(&route).is_err());
}

#[test]
fn test_validate_valid_route() {
    let route = Route::new("test", "/api/users", "http://user-service:8080");
    assert!(validate_route(&route).is_ok());
}

#[test]
fn test_default_config() {
    let config = DatabaseConfig::default_config();
    assert!(config.embedded);
    assert_eq!(config.connection, "./data/gateway.db");
    assert_eq!(config.namespace, "gateway");
    assert_eq!(config.database, "config");
}

#[test]
fn test_embedded_config() {
    let config = DatabaseConfig::embedded("/custom/path.db");
    assert!(config.embedded);
    assert_eq!(config.connection, "/custom/path.db");
}

#[test]
fn test_remote_config() {
    let config = DatabaseConfig::remote("ws://localhost:8000", "admin", "secret");
    assert!(!config.embedded);
    assert_eq!(config.connection, "ws://localhost:8000");
    assert_eq!(config.username, Some("admin".to_string()));
    assert_eq!(config.password, Some("secret".to_string()));
}

#[test]
fn test_status_codes() {
    assert_eq!(GatewayError::RouteNotFound { path: "/test".into() }.status_code(), 404);
    assert_eq!(GatewayError::PayloadTooLarge { size: 100, limit: 50 }.status_code(), 413);
    assert_eq!(
        GatewayError::RequestTimeout { upstream: "test".into(), timeout_ms: 1000 }.status_code(),
        504
    );
}

#[test]
fn test_retryable() {
    assert!(GatewayError::UpstreamConnectionFailed {
        upstream: "test".into(),
        reason: "refused".into()
    }
    .is_retryable());

    assert!(!GatewayError::RouteNotFound { path: "/test".into() }.is_retryable());
}

#[test]
fn test_error_categories() {
    assert_eq!(GatewayError::RouteNotFound { path: "/x".into() }.category(), "routing");
    assert_eq!(GatewayError::DatabaseError("d".into()).category(), "database");
    assert_eq!(GatewayError::BodyReadError("b".into()).category(), "client_error");
    assert_eq!(
        GatewayError::UpstreamError { upstream: "u".into(), status_code: 500 }.category(),
        "upstream"
    );
    assert!(GatewayError::UpstreamError { upstream: "u".into(), status_code: 502 }
        .is_retryable());
    assert!(!GatewayError::UpstreamError { upstream: "u".into(), status_code: 404 }
        .is_retryable());
}
