//! Test support: status-code assertions whose condition is their contract,
//! fixtures for routes and mock responses, payload generators, and the
//! security and performance scenarios driven against the real engines.

use vstd::prelude::*;
use crate::json::JsonVal;
use crate::ratelimit::{RateLimitConfig, RateLimiter};
use crate::waf::{WafConfig, WafEngine};

verus! {

/// Relies on rand::random_range over `0..n`: a value below `n`, and nothing
/// more.
#[verifier::external_body]
fn random_below(n: u64) -> (r: u64)
    requires
        n >= 1,
    ensures
        r < n,
{
    rand::random_range(0..n)
}

/// Relies on rand::distr::Alphanumeric::sample_string: `len` random
/// alphanumeric characters; nothing is promised beyond the length.
#[verifier::external_body]
fn random_alphanumeric(len: usize) -> (r: String)
    ensures
        r@.len() == len,
{
    rand::distr::SampleString::sample_string(&rand::distr::Alphanumeric, &mut rand::rng(), len)
}

/// Response assertions: each holds exactly when its contract holds, so a
/// verified caller discharges the assertion statically.
pub struct ResponseAssertions;

impl ResponseAssertions {
    /// The status is a success (2xx).
    pub fn assert_success(status: u16)
        requires
            200 <= status < 300,
    {
    }

    /// The status is a client error (4xx).
    pub fn assert_client_error(status: u16)
        requires
            400 <= status < 500,
    {
    }

    /// The status is a server error (5xx).
    pub fn assert_server_error(status: u16)
        requires
            500 <= status < 600,
    {
    }

    /// The payload object holds the key.
    pub fn assert_json_has_key(json: &JsonVal, key: &[u8])
        requires
            json@ is Obj,
            crate::json::spec_obj_get(json@->Obj_0, key@) is Some,
    {
    }

    /// The elapsed time is within the bound.
    pub fn assert_response_time_ms(elapsed_ms: u64, max_ms: u64)
        requires
            elapsed_ms <= max_ms,
    {
    }
}

/// Firewall assertions.
pub struct WafAssertions;

impl WafAssertions {
    /// The status is the firewall's denial.
    pub fn assert_blocked(status: u16)
        requires
            status == 403,
    {
    }

    /// The status is anything but the firewall's denial.
    pub fn assert_allowed(status: u16)
        requires
            status != 403,
    {
    }
}

/// Rate-limit assertions.
pub struct RateLimitAssertions;

impl RateLimitAssertions {
    /// The status is the limiter's denial.
    pub fn assert_rate_limited(status: u16)
        requires
            status == 429,
    {
    }

    /// The status is anything but the limiter's denial.
    pub fn assert_not_rate_limited(status: u16)
        requires
            status != 429,
    {
    }
}

/// A route fixture for tests.
#[derive(Debug)]
pub struct RouteFixture {
    /// Identifier, randomly drawn.
    pub id: String,
    /// Path pattern.
    pub path: String,
    /// Method.
    pub method: String,
    /// Upstream URL.
    pub upstream: String,
    /// Optional transform-script source.
    pub transform_script: Option<String>,
}

impl RouteFixture {
    /// A GET fixture for a path and upstream, without a transform.
    pub fn new(path: &str, upstream: &str) -> (r: RouteFixture)
        ensures
            r.path@ == path@,
            r.upstream@ == upstream@,
            r.method@ == "GET"@,
            r.transform_script is None,
    {
        RouteFixture {
            id: crate::context::random_uuid_string(),
            path: path.to_owned(),
            method: "GET".to_owned(),
            upstream: upstream.to_owned(),
            transform_script: None,
        }
    }

    /// Set the method.
    pub fn with_method(self, method: &str) -> (r: RouteFixture)
        ensures
            r.method@ == method@,
            r.path@ == self.path@,
            r.upstream@ == self.upstream@,
            r.transform_script == self.transform_script,
    {
        RouteFixture { method: method.to_owned(), ..self }
    }

    /// Set the transform script.
    pub fn with_transform(self, script: &str) -> (r: RouteFixture)
        ensures
            (match r.transform_script {
                Some(ref s) => s@ == script@,
                None => false,
            }),
            r.path@ == self.path@,
            r.method@ == self.method@,
            r.upstream@ == self.upstream@,
    {
        RouteFixture { transform_script: Some(script.to_owned()), ..self }
    }
}

/// A canned response a mock upstream serves.
#[derive(Debug)]
pub struct MockResponse {
    /// Path the response is served under.
    pub path: String,
    /// Status code.
    pub status: u16,
    /// Body text.
    pub body: String,
    /// Headers.
    pub headers: Vec<(String, String)>,
}

impl MockResponse {
    /// A JSON 200 response for a path.
    pub fn json(path: &str, body: &str) -> (r: MockResponse)
        ensures
            r.path@ == path@,
            r.status == 200,
            r.body@ == body@,
            r.headers@.len() == 1,
    {
        let mut headers: Vec<(String, String)> = Vec::new();
        headers.push(("content-type".to_owned(), "application/json".to_owned()));
        MockResponse { path: path.to_owned(), status: 200, body: body.to_owned(), headers }
    }

    /// Set the status.
    pub fn with_status(self, status: u16) -> (r: MockResponse)
        ensures
            r.status == status,
            r.path@ == self.path@,
            r.body@ == self.body@,
    {
        MockResponse { status, ..self }
    }
}

/// A request a mock upstream recorded.
#[derive(Debug)]
pub struct RecordedRequest {
    /// Method.
    pub method: String,
    /// Path.
    pub path: String,
    /// Body bytes.
    pub body: Vec<u8>,
    /// Headers.
    pub headers: Vec<(String, String)>,
}

/// A named test scenario: routes to install and responses to serve.
pub struct TestFixture {
    /// Scenario name.
    pub name: String,
    /// Routes.
    pub routes: Vec<RouteFixture>,
    /// Mock responses.
    pub mock_responses: Vec<MockResponse>,
}

impl TestFixture {
    /// An empty fixture.
    pub fn new(name: &str) -> (r: TestFixture)
        ensures
            r.name@ == name@,
            r.routes@.len() == 0,
            r.mock_responses@.len() == 0,
    {
        TestFixture { name: name.to_owned(), routes: Vec::new(), mock_responses: Vec::new() }
    }

    /// Add a route.
    pub fn with_route(self, route: RouteFixture) -> (r: TestFixture)
        ensures
            r.routes@.len() == self.routes@.len() + 1,
            r.mock_responses@.len() == self.mock_responses@.len(),
            r.name@ == self.name@,
    {
        let mut routes = self.routes;
        routes.push(route);
        TestFixture { routes, ..self }
    }

    /// Add a mock response.
    pub fn with_mock(self, response: MockResponse) -> (r: TestFixture)
        ensures
            r.mock_responses@.len() == self.mock_responses@.len() + 1,
            r.routes@.len() == self.routes@.len(),
            r.name@ == self.name@,
    {
        let mut mock_responses = self.mock_responses;
        mock_responses.push(response);
        TestFixture { mock_responses, ..self }
    }
}

/// Payload generators for property-style tests.
pub struct PayloadGenerator;

impl PayloadGenerator {
    /// A random JSON object of the given depth and width.
    pub fn random_json(depth: usize, width: usize) -> (r: JsonVal)
        ensures
            r@ is Obj,
        decreases depth,
    {
        let mut pairs: Vec<(Vec<u8>, JsonVal)> = Vec::new();
        let mut i: usize = 0;
        while i < width
            invariant
                i <= width,
            decreases width - i,
        {
            let mut key = String::new();
            key.append("field_");
            crate::strutil::append_u64(&mut key, i as u64);
            let mut key_bytes: Vec<u8> = Vec::new();
            let kb = key.as_str().as_bytes();
            let mut b: usize = 0;
            while b < kb.len()
                invariant
                    b <= kb@.len(),
                decreases kb@.len() - b,
            {
                key_bytes.push(kb[b]);
                b += 1;
            }
            let nested = depth > 0 && random_below(10) < 3;
            let value = if nested {
                let inner_width = if width > 1 {
                    width - 1
                } else {
                    1
                };
                PayloadGenerator::random_json(depth - 1, inner_width)
            } else {
                PayloadGenerator::random_primitive()
            };
            pairs.push((key_bytes, value));
            i += 1;
        }
        JsonVal::Obj(pairs)
    }

    /// A random primitive payload value: null, a boolean, an integer or a
    /// short string.
    pub fn random_primitive() -> JsonVal {
        let pick = random_below(4);
        if pick == 0 {
            JsonVal::Null
        } else if pick == 1 {
            JsonVal::Bool(random_below(2) == 1)
        } else if pick == 2 {
            JsonVal::Int(random_below(1000000) as i64)
        } else {
            let len = 5 + random_below(45) as usize;
            let text = random_alphanumeric(len);
            let tb = text.as_str().as_bytes();
            let mut bytes: Vec<u8> = Vec::new();
            let mut b: usize = 0;
            while b < tb.len()
                invariant
                    b <= tb@.len(),
                decreases tb@.len() - b,
            {
                bytes.push(tb[b]);
                b += 1;
            }
            JsonVal::Str(bytes)
        }
    }

    /// Payloads that exercise the SQL injection rules: a fixed list.
    pub fn sql_injection_payloads() -> (r: Vec<String>)
        ensures
            r@.len() == 5,
            r@[0]@ == "SELECT * FROM users WHERE name = admin"@,
            r@[1]@ == "DROP TABLE users; --"@,
            r@[2]@ == "1 OR 1=1"@,
            r@[3]@ == "UNION SELECT password FROM accounts"@,
            r@[4]@ == "1; DELETE FROM users"@,
    {
        let mut out: Vec<String> = Vec::new();
        out.push("SELECT * FROM users WHERE name = admin".to_owned());
        out.push("DROP TABLE users; --".to_owned());
        out.push("1 OR 1=1".to_owned());
        out.push("UNION SELECT password FROM accounts".to_owned());
        out.push("1; DELETE FROM users".to_owned());
        out
    }

    /// Payloads that exercise the cross-site scripting rules: a fixed list.
    pub fn xss_payloads() -> (r: Vec<String>)
        ensures
            r@.len() == 5,
            r@[0]@ == "<script>alert('xss')</script>"@,
            r@[1]@ == "<img src=x onerror=alert(1)>"@,
            r@[2]@ == "javascript:alert(1)"@,
            r@[3]@ == "<svg onload=alert(1)>"@,
            r@[4]@ == "<body onload=alert(1)>"@,
    {
        let mut out: Vec<String> = Vec::new();
        out.push("<script>alert('xss')</script>".to_owned());
        out.push("<img src=x onerror=alert(1)>".to_owned());
        out.push("javascript:alert(1)".to_owned());
        out.push("<svg onload=alert(1)>".to_owned());
        out.push("<body onload=alert(1)>".to_owned());
        out
    }

    /// Payloads that exercise the path traversal rules: a fixed list.
    pub fn path_traversal_payloads() -> (r: Vec<String>)
        ensures
            r@.len() == 4,
            r@[0]@ == "../../../etc/passwd"@,
            r@[1]@ == "..\\..\\..\\windows\\system32\\config\\sam"@,
            r@[2]@ == "%2e%2e%2f%2e%2e%2fetc/passwd"@,
            r@[3]@ == "....//....//etc/passwd"@,
    {
        let mut out: Vec<String> = Vec::new();
        out.push("../../../etc/passwd".to_owned());
        out.push("..\\..\\..\\windows\\system32\\config\\sam".to_owned());
        out.push("%2e%2e%2f%2e%2e%2fetc/passwd".to_owned());
        out.push("....//....//etc/passwd".to_owned());
        out
    }
}

/// Firewall scenarios driven against a real engine.
pub struct WafScenarios;

impl WafScenarios {
    /// Scan every SQL injection payload; each pair reports the payload and
    /// whether it was blocked.
    pub fn test_sql_injection_blocking(engine: &WafEngine) -> (r: Vec<(String, bool)>)
        requires
            engine.wf(),
        ensures
            r@.len() == 5,
    {
        let payloads = PayloadGenerator::sql_injection_payloads();
        WafScenarios::scan_blocked(engine, payloads)
    }

    /// Scan every cross-site scripting payload.
    pub fn test_xss_blocking(engine: &WafEngine) -> (r: Vec<(String, bool)>)
        requires
            engine.wf(),
        ensures
            r@.len() == 5,
    {
        let payloads = PayloadGenerator::xss_payloads();
        WafScenarios::scan_blocked(engine, payloads)
    }

    /// Scan every path traversal payload.
    pub fn test_path_traversal_blocking(engine: &WafEngine) -> (r: Vec<(String, bool)>)
        requires
            engine.wf(),
        ensures
            r@.len() == 4,
    {
        let payloads = PayloadGenerator::path_traversal_payloads();
        WafScenarios::scan_blocked(engine, payloads)
    }

    /// Scan ordinary traffic; each pair reports the payload and whether it
    /// was allowed.
    pub fn test_legitimate_traffic(engine: &WafEngine) -> (r: Vec<(String, bool)>)
        requires
            engine.wf(),
        ensures
            r@.len() == 4,
    {
        let mut payloads: Vec<String> = Vec::new();
        payloads.push("{\"name\": \"John Doe\", \"email\": \"john@example.com\"}".to_owned());
        payloads.push("{\"count\": 42, \"active\": true}".to_owned());
        payloads.push("Hello, this is a normal message".to_owned());
        payloads.push("The quick brown fox jumps over the lazy dog".to_owned());
        let mut out: Vec<(String, bool)> = Vec::new();
        let mut i: usize = 0;
        while i < payloads.len()
            invariant
                engine.wf(),
                i <= payloads@.len(),
                out@.len() == i,
            decreases payloads@.len() - i,
        {
            let result = engine.scan(payloads[i].as_str());
            let payload = payloads[i].clone();
            out.push((payload, result.allowed));
            i += 1;
        }
        out
    }

    /// Scan payloads, pairing each with whether it was blocked.
    fn scan_blocked(engine: &WafEngine, payloads: Vec<String>) -> (r: Vec<(String, bool)>)
        requires
            engine.wf(),
        ensures
            r@.len() == payloads@.len(),
    {
        let mut out: Vec<(String, bool)> = Vec::new();
        let mut i: usize = 0;
        while i < payloads.len()
            invariant
                engine.wf(),
                i <= payloads@.len(),
                out@.len() == i,
            decreases payloads@.len() - i,
        {
            let result = engine.scan(payloads[i].as_str());
            let payload = payloads[i].clone();
            out.push((payload, !result.allowed));
            i += 1;
        }
        out
    }
}

/// Rate-limit scenarios driven against a real limiter.
pub struct RateLimitScenarios;

impl RateLimitScenarios {
    /// Drive `limit + 10` checks against one key under a burst-free
    /// configuration; reports how many were allowed and how many blocked.
    pub fn test_basic_limiting(limit: u64) -> (r: (u64, u64))
        requires
            1 <= limit <= 100000,
        ensures
            r.0 + r.1 == limit + 10,
    {
        let config = RateLimitConfig {
            requests_per_window: limit,
            window_secs: 60,
            burst_size: 0,
            distributed: false,
        };
        let mut limiter = RateLimiter::new(config);
        let mut allowed: u64 = 0;
        let mut blocked: u64 = 0;
        let total = limit + 10;
        let mut i: u64 = 0;
        while i < total
            invariant
                limiter.wf(),
                i <= total,
                total == limit + 10,
                limit <= 100000,
                allowed + blocked == i,
            decreases total - i,
        {
            let result = limiter.check("test_client");
            if result.allowed {
                allowed = allowed + 1;
            } else {
                blocked = blocked + 1;
            }
            i += 1;
        }
        (allowed, blocked)
    }

    /// Drive `limit + burst + 10` checks against one key; reports how many
    /// were allowed.
    pub fn test_burst_handling(limit: u64, burst: u64) -> (r: u64)
        requires
            1 <= limit <= 100000,
            burst <= 100000,
        ensures
            r <= limit + burst + 10,
    {
        let config = RateLimitConfig {
            requests_per_window: limit,
            window_secs: 60,
            burst_size: burst,
            distributed: false,
        };
        let mut limiter = RateLimiter::new(config);
        let mut allowed: u64 = 0;
        let total = limit + burst + 10;
        let mut i: u64 = 0;
        while i < total
            invariant
                limiter.wf(),
                i <= total,
                total == limit + burst + 10,
                limit <= 100000,
                burst <= 100000,
                allowed <= i,
            decreases total - i,
        {
            let result = limiter.check("burst_client");
            if result.allowed {
                allowed = allowed + 1;
            }
            i += 1;
        }
        allowed
    }

    /// Exhaust one client's quota and confirm another client is untouched:
    /// true when the first client ends blocked while the second is allowed.
    pub fn test_client_isolation(limit: u64) -> (r: bool)
        requires
            1 <= limit <= 100000,
    {
        let config = RateLimitConfig {
            requests_per_window: limit,
            window_secs: 60,
            burst_size: 0,
            distributed: false,
        };
        let mut limiter = RateLimiter::new(config);
        let mut i: u64 = 0;
        while i < limit
            invariant
                limiter.wf(),
                i <= limit,
            decreases limit - i,
        {
            let _ = limiter.check("client_a");
            i += 1;
        }
        let a = limiter.check("client_a");
        let a_blocked = !a.allowed;
        let b = limiter.check("client_b");
        a_blocked && b.allowed
    }
}

/// Performance scenarios timed against the wall clock.
pub struct PerformanceScenarios;

impl PerformanceScenarios {
    /// Time `iterations` firewall scans of one random payload; reports
    /// (minimum, mean, maximum) in microseconds.
    pub fn benchmark_waf_scan(iterations: usize) -> (r: (u64, u64, u64))
        requires
            1 <= iterations <= 1000000,
    {
        let engine = match WafEngine::new(WafConfig::default_config()) {
            Ok(e) => e,
            Err(_) => {
                return (0, 0, 0);
            },
        };
        let payload_value = PayloadGenerator::random_json(3, 5);
        let payload_bytes = crate::json::print_json(&payload_value);
        let payload = match crate::xml::bytes_to_string(payload_bytes) {
            Some(s) => s,
            None => "{}".to_owned(),
        };
        let mut min: u64 = u64::MAX;
        let mut max: u64 = 0;
        let mut sum: u128 = 0;
        let mut i: usize = 0;
        while i < iterations
            invariant
                engine.wf(),
                i <= iterations,
                iterations <= 1000000,
                sum <= (i as u128) * (u64::MAX as u128),
            decreases iterations - i,
        {
            let started = crate::clock::now_epoch_us();
            let _ = engine.scan(payload.as_str());
            let finished = crate::clock::now_epoch_us();
            let took = if finished >= started {
                finished - started
            } else {
                0
            };
            if took < min {
                min = took;
            }
            if took > max {
                max = took;
            }
            proof {
                assert(sum + took <= ((i + 1) as u128) * (u64::MAX as u128))
                    by (nonlinear_arith)
                    requires
                        sum <= (i as u128) * (u64::MAX as u128),
                        took <= u64::MAX,
                        i >= 0;
            }
            sum = sum + took as u128;
            i += 1;
        }
        let avg = (sum / (iterations as u128)) as u64;
        let min_out = if min == u64::MAX && max == 0 {
            0
        } else {
            min
        };
        (min_out, avg, max)
    }

    /// Time `iterations` rate-limit checks over a rotating set of keys;
    /// reports (minimum, mean, maximum) in nanoseconds, measured at
    /// microsecond resolution.
    pub fn benchmark_rate_limiter(iterations: usize) -> (r: (u64, u64, u64))
        requires
            1 <= iterations <= 1000000,
    {
        let config = RateLimitConfig {
            requests_per_window: 1000000,
            window_secs: 60,
            burst_size: 0,
            distributed: false,
        };
        let mut limiter = RateLimiter::new(config);
        let mut min: u64 = u64::MAX;
        let mut max: u64 = 0;
        let mut sum: u128 = 0;
        let mut i: usize = 0;
        while i < iterations
            invariant
                limiter.wf(),
                i <= iterations,
                iterations <= 1000000,
                sum <= (i as u128) * (u64::MAX as u128),
            decreases iterations - i,
        {
            let mut key = String::new();
            key.append("client_");
            crate::strutil::append_u64(&mut key, (i % 100) as u64);
            let started = crate::clock::now_epoch_us();
            let _ = limiter.check(key.as_str());
            let finished = crate::clock::now_epoch_us();
            let took_us = if finished >= started {
                finished - started
            } else {
                0
            };
            let took = if took_us > u64::MAX / 1000 {
                u64::MAX
            } else {
                took_us * 1000
            };
            if took < min {
                min = took;
            }
            if took > max {
                max = took;
            }
            proof {
                assert(sum + took <= ((i + 1) as u128) * (u64::MAX as u128))
                    by (nonlinear_arith)
                    requires
                        sum <= (i as u128) * (u64::MAX as u128),
                        took <= u64::MAX,
                        i >= 0;
            }
            sum = sum + took as u128;
            i += 1;
        }
        let avg = (sum / (iterations as u128)) as u64;
        let min_out = if min == u64::MAX && max == 0 {
            0
        } else {
            min
        };
        (min_out, avg, max)
    }
}

} // verus!
