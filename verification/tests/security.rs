//! Security gate behaviour: firewall scanning, token-bucket rate limiting,
//! credential handling, JWT validation, and the harness scenarios.

use naseej_gateway::auth::{AuthConfig, Claims, JwtValidator};
use naseej_gateway::harness::{PayloadGenerator, PerformanceScenarios, RateLimitAssertions,
    RateLimitScenarios, ResponseAssertions, RouteFixture, WafAssertions, WafScenarios};
use naseej_gateway::keys::KeyManager;
use naseej_gateway::ratelimit::{RateLimitConfig, RateLimiter};
use naseej_gateway::waf::{WafConfig, WafEngine, WafMode};

#[test]
fn test_sql_injection_detection() {
    let engine = WafEngine::new(WafConfig::default_config()).unwrap();
    let result = engine.scan("SELECT id FROM tbl WHERE x=1 OR 1=1");
    assert!(!result.allowed);
    assert!(result.category.as_ref().unwrap().contains("SQL"));
}

#[test]
fn test_xss_detection() {
    let engine = WafEngine::new(WafConfig::default_config()).unwrap();
    let result = engine.scan("<script>alert(1)</script>");
    assert!(!result.allowed);
    assert!(result.category.is_some());
}

#[test]
fn test_path_traversal() {
    let engine = WafEngine::new(WafConfig::default_config()).unwrap();
    let result = engine.scan("../../../etc/passwd");
    assert!(!result.allowed);
}

#[test]
fn test_normal_request() {
    let engine = WafEngine::new(WafConfig::default_config()).unwrap();
    let result = engine.scan("Hello, this is a normal message");
    assert!(result.allowed);
}

#[test]
fn test_disabled_waf() {
    let mut config = WafConfig::default_config();
    config.enabled = false;
    let engine = WafEngine::new(config).unwrap();
    let result = engine.scan("DROP TABLE users");
    assert!(result.allowed);
}

#[test]
fn test_detect_only_mode_reports_but_allows() {
    let mut config = WafConfig::default_config();
    config.mode = WafMode::DetectOnly;
    let engine = WafEngine::new(config).unwrap();
    let result = engine.scan("SELECT id FROM t WHERE x=1 OR 1=1");
    assert!(result.allowed);
    assert!(result.triggered_rule.is_some());
    assert!(result.category.is_some());
}

#[test]
fn test_waf_block_scenario() {
    let engine = WafEngine::new(WafConfig::default_config()).unwrap();

    let hit = engine.scan("SELECT id FROM t WHERE x=1 OR 1=1");
    assert!(!hit.allowed);
    assert_eq!(hit.category.as_deref(), Some("SQL Injection"));

    let miss = engine.scan("Hello, world");
    assert!(miss.allowed);
    assert!(miss.category.is_none());
}

#[test]
fn test_basic_rate_limit() {
    let config = RateLimitConfig {
        requests_per_window: 5,
        window_secs: 60,
        burst_size: 0,
        distributed: false,
    };
    let mut limiter = RateLimiter::new(config);

    for i in 0..5 {
        let result = limiter.check("user1");
        assert!(result.allowed, "Request {} should be allowed", i);
    }
    let result = limiter.check("user1");
    assert!(!result.allowed);
    assert!(result.retry_after_ms.is_some());
}

#[test]
fn test_burst_allowance() {
    let config = RateLimitConfig {
        requests_per_window: 5,
        window_secs: 60,
        burst_size: 3,
        distributed: false,
    };
    let mut limiter = RateLimiter::new(config);

    for i in 0..8 {
        let result = limiter.check("user2");
        assert!(result.allowed, "Request {} should be allowed", i);
    }
    let result = limiter.check("user2");
    assert!(!result.allowed);
}

#[test]
fn test_rate_limit_burst_scenario() {
    let config = RateLimitConfig {
        requests_per_window: 5,
        window_secs: 60,
        burst_size: 3,
        distributed: false,
    };
    let mut limiter = RateLimiter::new(config);

    for i in 0..8 {
        assert!(limiter.check("k").allowed, "check {} should pass", i);
    }
    let ninth = limiter.check("k");
    assert!(!ninth.allowed);
    assert!(ninth.retry_after_ms.unwrap() > 0);
}

#[test]
fn test_per_key_isolation() {
    let config = RateLimitConfig {
        requests_per_window: 3,
        window_secs: 60,
        burst_size: 0,
        distributed: false,
    };
    let mut limiter = RateLimiter::new(config);

    for _ in 0..3 {
        limiter.check("user1");
    }
    assert!(!limiter.check("user1").allowed);
    assert!(limiter.check("user2").allowed);
}

#[test]
fn test_custom_key_config() {
    let default_config = RateLimitConfig {
        requests_per_window: 10,
        window_secs: 60,
        burst_size: 0,
        distributed: false,
    };
    let mut limiter = RateLimiter::new(default_config);

    limiter.set_key_config("premium_user", RateLimitConfig {
        requests_per_window: 100,
        window_secs: 60,
        burst_size: 20,
        distributed: false,
    });

    for _ in 0..10 {
        limiter.check("regular_user");
    }
    assert!(!limiter.check("regular_user").allowed);

    for _ in 0..50 {
        assert!(limiter.check("premium_user").allowed);
    }
}

#[test]
fn test_rate_limiter_state_and_cleanup() {
    let config = RateLimitConfig {
        requests_per_window: 5,
        window_secs: 60,
        burst_size: 0,
        distributed: false,
    };
    let mut limiter = RateLimiter::new(config);
    assert!(limiter.get_state("nobody").is_none());
    limiter.check("somebody");
    assert!(limiter.get_state("somebody").is_some());
    let (buckets, overrides) = limiter.stats();
    assert_eq!(buckets, 1);
    assert_eq!(overrides, 0);
    limiter.cleanup_expired(3600);
    let (buckets, _) = limiter.stats();
    assert_eq!(buckets, 1);
}

#[test]
fn test_assert_success() {
    ResponseAssertions::assert_success(200);
    ResponseAssertions::assert_success(201);
    ResponseAssertions::assert_success(204);
}

#[test]
fn test_waf_assertions() {
    WafAssertions::assert_blocked(403);
    WafAssertions::assert_allowed(200);
}

#[test]
fn test_rate_limit_assertions() {
    RateLimitAssertions::assert_rate_limited(429);
    RateLimitAssertions::assert_not_rate_limited(200);
}

#[test]
fn fixtures_test_route_fixture() {
    let route = RouteFixture::new("/api/users", "http://backend:8080")
        .with_method("POST")
        .with_transform("output = input;");

    assert_eq!(route.path, "/api/users");
    assert_eq!(route.method, "POST");
    assert!(route.transform_script.is_some());
}

#[test]
fn integration_tests_test_route_fixture() {
    let route = RouteFixture::new("/api/orders", "http://orders:8080");
    assert_eq!(route.path, "/api/orders");
    assert_eq!(route.method, "GET");
    assert!(route.transform_script.is_none());
}

#[test]
fn test_rate_limit_basic() {
    let (allowed, blocked) = RateLimitScenarios::test_basic_limiting(10);
    assert_eq!(allowed, 10);
    assert_eq!(blocked, 10);
}

#[test]
fn test_rate_limit_burst() {
    let allowed = RateLimitScenarios::test_burst_handling(10, 5);
    assert_eq!(allowed, 15);
}

#[test]
fn test_rate_limit_isolation() {
    let isolated = RateLimitScenarios::test_client_isolation(5);
    assert!(isolated);
}

#[test]
fn test_waf_performance() {
    let (min, avg, max) = PerformanceScenarios::benchmark_waf_scan(1000);
    println!("WAF scan: min={}us, avg={}us, max={}us", min, avg, max);
    assert!(avg < 1000, "WAF scan should be < 1ms average");
}

#[test]
fn test_rate_limiter_performance() {
    let (min, avg, max) = PerformanceScenarios::benchmark_rate_limiter(10000);
    println!("Rate limit: min={}ns, avg={}ns, max={}ns", min, avg, max);
    assert!(avg < 10000, "Rate limit check should be < 10us average");
}

#[test]
fn test_waf_blocks_sql_injection() {
    let engine = WafEngine::new(WafConfig::default_config()).unwrap();
    let results = WafScenarios::test_sql_injection_blocking(&engine);
    for (payload, blocked) in &results {
        assert!(blocked, "SQL injection should be blocked: {}", payload);
    }
}

#[test]
fn test_waf_blocks_xss() {
    let engine = WafEngine::new(WafConfig::default_config()).unwrap();
    let results = WafScenarios::test_xss_blocking(&engine);
    for (payload, blocked) in &results {
        assert!(blocked, "XSS should be blocked: {}", payload);
    }
}

#[test]
fn test_waf_blocks_path_traversal() {
    let engine = WafEngine::new(WafConfig::default_config()).unwrap();
    let results = WafScenarios::test_path_traversal_blocking(&engine);
    for (payload, blocked) in &results {
        assert!(blocked, "Path traversal should be blocked: {}", payload);
    }
}

#[test]
fn test_waf_allows_legitimate_traffic() {
    let engine = WafEngine::new(WafConfig::default_config()).unwrap();
    let results = WafScenarios::test_legitimate_traffic(&engine);
    for (payload, allowed) in &results {
        assert!(allowed, "Legitimate traffic should be allowed: {}", payload);
    }
}

#[test]
fn test_rate_limiter_enforces_limit() {
    let (allowed, blocked) = RateLimitScenarios::test_basic_limiting(100);
    assert_eq!(allowed, 100, "Should allow exactly 100 requests");
    assert_eq!(blocked, 10, "Should block 10 excess requests");
}

#[test]
fn test_rate_limiter_allows_burst() {
    let allowed = RateLimitScenarios::test_burst_handling(100, 20);
    assert_eq!(allowed, 120, "Should allow limit + burst = 120 requests");
}

#[test]
fn test_rate_limiter_client_isolation() {
    let isolated = RateLimitScenarios::test_client_isolation(10);
    assert!(isolated, "Rate limits should be isolated per client");
}

#[test]
fn test_waf_performance_under_1ms() {
    let (min, avg, max) = PerformanceScenarios::benchmark_waf_scan(1000);
    println!("WAF performance: min={}us, avg={}us, max={}us", min, avg, max);
    assert!(avg < 1000, "WAF average scan should be under 1ms, got {}us", avg);
}

#[test]
fn test_rate_limiter_performance_under_10us() {
    let (min, avg, max) = PerformanceScenarios::benchmark_rate_limiter(10000);
    println!("Rate limiter performance: min={}ns, avg={}ns, max={}ns", min, avg, max);
    assert!(avg < 10000, "Rate limiter average check should be under 10us, got {}ns", avg);
}

#[test]
fn test_random_payload_handling() {
    let engine = WafEngine::new(WafConfig::default_config()).unwrap();
    for _ in 0..100 {
        let payload = PayloadGenerator::random_json(3, 5);
        let bytes = naseej_gateway::json::print_json(&payload);
        let text = String::from_utf8(bytes).unwrap();
        let _ = engine.scan(&text);
    }
}

#[test]
fn test_security_payloads() {
    assert!(!PayloadGenerator::sql_injection_payloads().is_empty());
    assert!(!PayloadGenerator::xss_payloads().is_empty());
    assert!(!PayloadGenerator::path_traversal_payloads().is_empty());
}

#[test]
fn test_password_hashing() {
    let password = "supersecret";
    let hash = KeyManager::hash_password(password).unwrap();

    assert!(KeyManager::verify_password(password, &hash));
    assert!(!KeyManager::verify_password("wrongpass", &hash));
}

#[test]
fn test_api_key_generation() {
    let (raw, hash, prefix) = KeyManager::generate_api_key();

    assert!(raw.starts_with("nas_sk_"));
    assert_eq!(prefix, "nas_sk_");
    assert_ne!(raw, hash);

    assert!(KeyManager::verify_api_key(&raw, &hash));
    assert!(!KeyManager::verify_api_key("wrongkey", &hash));
}

fn make_token(secret: &str, sub: &str, exp_offset: i64) -> String {
    let now = std::time::SystemTime::now()
        .duration_since(std::time::UNIX_EPOCH)
        .unwrap()
        .as_secs() as i64;
    let mut claims = serde_json::Map::new();
    claims.insert("sub".to_string(), serde_json::Value::String(sub.to_string()));
    claims.insert(
        "exp".to_string(),
        serde_json::Value::Number(serde_json::Number::from(now + exp_offset)),
    );
    claims.insert(
        "scope".to_string(),
        serde_json::Value::String("read write".to_string()),
    );
    jsonwebtoken::encode(
        &jsonwebtoken::Header::default(),
        &serde_json::Value::Object(claims),
        &jsonwebtoken::EncodingKey::from_secret(secret.as_bytes()),
    )
    .unwrap()
}

#[test]
fn test_validate_valid_token() {
    let secret = "test-secret-key-for-testing-purposes";
    let mut config = AuthConfig::default_config();
    config.secret_or_jwks = secret.to_string();
    let mut validator = JwtValidator::new(config).unwrap();

    let token = make_token(secret, "user123", 3600);
    let claims = validator.validate(&token).unwrap();
    assert_eq!(claims.sub, "user123");

    // A second validation is served from the claim cache.
    let cached = validator.validate(&token).unwrap();
    assert_eq!(cached.sub, "user123");
    let (count, capacity) = validator.cache_stats();
    assert_eq!(count, 1);
    assert_eq!(capacity, 10000);
}

#[test]
fn test_validate_expired_token() {
    let secret = "test-secret-key-for-testing-purposes";
    let mut config = AuthConfig::default_config();
    config.secret_or_jwks = secret.to_string();
    let mut validator = JwtValidator::new(config).unwrap();

    let token = make_token(secret, "user123", -3600);
    let result = validator.validate(&token);
    assert!(matches!(result, Err(naseej_gateway::auth::AuthError::TokenExpired)));
}

#[test]
fn test_disabled_auth() {
    let mut config = AuthConfig::default_config();
    config.enabled = false;
    let mut validator = JwtValidator::new(config).unwrap();
    let claims = validator.validate("any-token").unwrap();
    assert_eq!(claims.sub, "anonymous");
}

#[test]
fn test_extract_token() {
    let token = JwtValidator::extract_token("Bearer abc123").unwrap();
    assert_eq!(token, "abc123");

    let result = JwtValidator::extract_token("Basic abc123");
    assert!(result.is_err());
}

#[test]
fn test_scope_and_role_predicates() {
    let claims = Claims {
        sub: "u".to_string(),
        iss: None,
        aud: None,
        exp: u64::MAX,
        iat: None,
        nbf: None,
        scope: Some("read write admin".to_string()),
        roles: vec!["editor".to_string(), "viewer".to_string()],
    };
    assert!(JwtValidator::has_scope(&claims, "write"));
    assert!(!JwtValidator::has_scope(&claims, "delete"));
    assert!(!JwtValidator::has_scope(&claims, ""));
    assert!(JwtValidator::has_role(&claims, "editor"));
    assert!(!JwtValidator::has_role(&claims, "admin"));
}

#[test]
fn test_unsupported_algorithm_is_rejected() {
    let mut config = AuthConfig::default_config();
    config.algorithm = "none".to_string();
    assert!(JwtValidator::new(config).is_err());
}
