//! JWT validation with a short-TTL claim cache: bearer extraction, policy
//! configuration, signature verification through the token library, and the
//! scope and role predicates.

use vstd::prelude::*;
use crate::strutil::{spec_split, split_str, str_eq, str_starts_with};

verus! {

/// The token library's validation-policy type.
#[verifier::external_type_specification]
#[verifier::external_body]
pub struct ExValidation(jsonwebtoken::Validation);

/// The token library's decoding-key type.
#[verifier::external_type_specification]
#[verifier::external_body]
pub struct ExDecodingKey(jsonwebtoken::DecodingKey);

/// The token library's algorithm tag.
#[verifier::external_type_specification]
#[verifier::external_body]
pub struct ExAlgorithm(jsonwebtoken::Algorithm);

/// The supported algorithm names.
pub open spec fn spec_algorithm_supported(name: Seq<char>) -> bool {
    ||| name == "HS256"@
    ||| name == "HS384"@
    ||| name == "HS512"@
    ||| name == "RS256"@
    ||| name == "RS384"@
    ||| name == "RS512"@
}

/// The algorithm names that verify over a shared secret.
pub open spec fn spec_algorithm_hmac(name: Seq<char>) -> bool {
    name == "HS256"@ || name == "HS384"@ || name == "HS512"@
}

/// Whether a byte text parses as a PEM-encoded RSA public key: a function
/// of the bytes alone.
pub uninterp spec fn rsa_pem_ok(pem: Seq<u8>) -> bool;

/// Relies on jsonwebtoken::Algorithm's variants: the tag for one of the six
/// supported algorithm names, and nothing for any other name.
#[verifier::external_body]
fn algorithm_from_name(name: &str) -> (r: Option<jsonwebtoken::Algorithm>)
    ensures
        r.is_some() == spec_algorithm_supported(name@),
{
    match name {
        "HS256" => Some(jsonwebtoken::Algorithm::HS256),
        "HS384" => Some(jsonwebtoken::Algorithm::HS384),
        "HS512" => Some(jsonwebtoken::Algorithm::HS512),
        "RS256" => Some(jsonwebtoken::Algorithm::RS256),
        "RS384" => Some(jsonwebtoken::Algorithm::RS384),
        "RS512" => Some(jsonwebtoken::Algorithm::RS512),
        _ => None,
    }
}

/// Relies on jsonwebtoken::Validation::new: a fresh policy for the
/// algorithm, validating expiry by default.
#[verifier::external_body]
fn validation_new(alg: jsonwebtoken::Algorithm) -> jsonwebtoken::Validation {
    jsonwebtoken::Validation::new(alg)
}

/// Relies on jsonwebtoken::Validation::set_issuer: restrict the policy to
/// the given issuers.
#[verifier::external_body]
fn validation_set_issuers(v: &mut jsonwebtoken::Validation, issuers: &Vec<String>) {
    v.set_issuer(issuers);
}

/// Relies on jsonwebtoken::Validation::set_audience: restrict the policy to
/// the given audiences.
#[verifier::external_body]
fn validation_set_audiences(v: &mut jsonwebtoken::Validation, audiences: &Vec<String>) {
    v.set_audience(audiences);
}

/// Relies on jsonwebtoken::DecodingKey::from_secret: a key for the HMAC
/// algorithms over a shared secret.
#[verifier::external_body]
fn key_from_secret(secret: &[u8]) -> jsonwebtoken::DecodingKey {
    jsonwebtoken::DecodingKey::from_secret(secret)
}

/// Relies on jsonwebtoken::DecodingKey::from_rsa_pem: a key exactly when
/// the bytes parse as a PEM-encoded RSA public key, a deterministic
/// function of the bytes.
#[verifier::external_body]
fn key_from_rsa_pem(pem: &[u8]) -> (r: Result<jsonwebtoken::DecodingKey, String>)
    ensures
        r.is_ok() <==> rsa_pem_ok(pem@),
{
    match jsonwebtoken::DecodingKey::from_rsa_pem(pem) {
        Ok(k) => Ok(k),
        Err(e) => Err(e.to_string()),
    }
}

/// Validated claims of one token.
#[derive(Debug)]
pub struct Claims {
    /// Subject.
    pub sub: String,
    /// Issuer.
    pub iss: Option<String>,
    /// Audience.
    pub aud: Option<String>,
    /// Expiration, Unix seconds.
    pub exp: u64,
    /// Issued at, Unix seconds.
    pub iat: Option<u64>,
    /// Not before, Unix seconds.
    pub nbf: Option<u64>,
    /// The space-separated scope claim, when present.
    pub scope: Option<String>,
    /// The roles array claim.
    pub roles: Vec<String>,
}

/// The mathematical model of a claim set.
pub struct ClaimsView {
    /// Subject.
    pub sub: Seq<char>,
    /// Issuer.
    pub iss: Option<Seq<char>>,
    /// Audience.
    pub aud: Option<Seq<char>>,
    /// Expiration, Unix seconds.
    pub exp: u64,
    /// Issued at, Unix seconds.
    pub iat: Option<u64>,
    /// Not before, Unix seconds.
    pub nbf: Option<u64>,
    /// Scope claim.
    pub scope: Option<Seq<char>>,
    /// Roles claim.
    pub roles: Seq<Seq<char>>,
}

impl View for Claims {
    type V = ClaimsView;

    open spec fn view(&self) -> ClaimsView {
        ClaimsView {
            sub: self.sub@,
            iss: match self.iss {
                Some(ref s) => Some(s@),
                None => None,
            },
            aud: match self.aud {
                Some(ref s) => Some(s@),
                None => None,
            },
            exp: self.exp,
            iat: self.iat,
            nbf: self.nbf,
            scope: match self.scope {
                Some(ref s) => Some(s@),
                None => None,
            },
            roles: self.roles@.map_values(|r: String| r@),
        }
    }
}

/// The anonymous claims handed out while validation is off.
pub open spec fn spec_anonymous_claims() -> ClaimsView {
    ClaimsView {
        sub: "anonymous"@,
        iss: None,
        aud: None,
        exp: u64::MAX,
        iat: None,
        nbf: None,
        scope: None,
        roles: Seq::empty(),
    }
}

impl Claims {
    /// An exact copy.
    pub fn duplicate(&self) -> (r: Claims)
        ensures
            r@ == self@,
    {
        let mut roles: Vec<String> = Vec::new();
        let mut i: usize = 0;
        while i < self.roles.len()
            invariant
                i <= self.roles@.len(),
                roles@.len() == i,
                forall|j: int| 0 <= j < i ==> (#[trigger] roles@[j])@ == self.roles@[j]@,
            decreases self.roles@.len() - i,
        {
            roles.push(self.roles[i].clone());
            i += 1;
        }
        let r = Claims {
            sub: self.sub.clone(),
            iss: match &self.iss {
                Some(s) => Some(s.clone()),
                None => None,
            },
            aud: match &self.aud {
                Some(s) => Some(s.clone()),
                None => None,
            },
            exp: self.exp,
            iat: self.iat,
            nbf: self.nbf,
            scope: match &self.scope {
                Some(s) => Some(s.clone()),
                None => None,
            },
            roles,
        };
        proof {
            assert(r.roles@.map_values(|x: String| x@)
                =~= self.roles@.map_values(|x: String| x@));
        }
        r
    }
}

/// What a fresh cache lookup yields: the claims of the first entry stored
/// under the token whose insertion instant is still within the TTL and whose
/// own expiry has not passed; whichever of cache TTL and token expiry comes
/// first wins, and a stale entry is passed over.
pub open spec fn spec_cache_lookup(
    cache: Seq<(String, (Claims, u64))>,
    token: Seq<char>,
    ttl_secs: u64,
    now_ms: u64,
) -> Option<ClaimsView>
    decreases cache.len(),
{
    if cache.len() == 0 {
        None
    } else if cache[0].0@ == token && (now_ms as int) < cache[0].1.1 + ttl_secs * 1000
        && (now_ms as int) < (cache[0].1.0@.exp as int) * 1000 {
        Some(cache[0].1.0@)
    } else {
        spec_cache_lookup(cache.drop_first(), token, ttl_secs, now_ms)
    }
}

/// The claim document type the token library hands back.
#[verifier::external_type_specification]
#[verifier::external_body]
pub struct ExJsonValue(serde_json::Value);

/// Relies on jsonwebtoken::decode over a generic JSON value: signature,
/// expiry, issuer and audience are checked under the policy; on failure the
/// error is classified as expired (`true`) or otherwise invalid. The
/// outcome depends on the wall clock, so nothing is promised of it.
#[verifier::external_body]
fn jwt_decode_value(
    token: &str,
    key: &jsonwebtoken::DecodingKey,
    validation: &jsonwebtoken::Validation,
) -> (r: Result<serde_json::Value, (bool, String)>)
{
    match jsonwebtoken::decode::<serde_json::Value>(token, key, validation) {
        Ok(d) => Ok(d.claims),
        Err(e) => Err((
            matches!(e.kind(), jsonwebtoken::errors::ErrorKind::ExpiredSignature),
            e.to_string(),
        )),
    }
}

/// Relies on serde_json::Value::get and as_str: a string claim picked out
/// of the claim document.
#[verifier::external_body]
fn value_str_claim(data: &serde_json::Value, key: &str) -> Option<String> {
    data.get(key).and_then(|v| v.as_str()).map(|s| s.to_string())
}

/// Relies on serde_json::Value::get and as_u64: a numeric claim picked out
/// of the claim document.
#[verifier::external_body]
fn value_u64_claim(data: &serde_json::Value, key: &str) -> Option<u64> {
    data.get(key).and_then(|v| v.as_u64())
}

/// Relies on serde_json::Value::as_array: the string entries of the roles
/// claim.
#[verifier::external_body]
fn value_roles_claim(data: &serde_json::Value) -> Vec<String> {
    data.get("roles").and_then(|v| v.as_array()).map(|a| a.iter()
        .filter_map(|x| x.as_str().map(|s| s.to_string())).collect()).unwrap_or_default()
}

/// Decode, verify and read one token's claims.
fn jwt_decode_fields(
    token: &str,
    key: &jsonwebtoken::DecodingKey,
    validation: &jsonwebtoken::Validation,
) -> (r: Result<Claims, (bool, String)>)
{
    let value = match jwt_decode_value(token, key, validation) {
        Ok(v) => v,
        Err(e) => {
            return Err(e);
        },
    };
    let sub = match value_str_claim(&value, "sub") {
        Some(s) => s,
        None => String::new(),
    };
    let exp = match value_u64_claim(&value, "exp") {
        Some(e) => e,
        None => 0,
    };
    Ok(Claims {
        sub,
        iss: value_str_claim(&value, "iss"),
        aud: value_str_claim(&value, "aud"),
        exp,
        iat: value_u64_claim(&value, "iat"),
        nbf: value_u64_claim(&value, "nbf"),
        scope: value_str_claim(&value, "scope"),
        roles: value_roles_claim(&value),
    })
}

/// Authentication errors.
#[derive(Debug, Clone)]
pub enum AuthError {
    /// No token was presented.
    TokenMissing,
    /// The token's expiry has passed.
    TokenExpired,
    /// The token failed validation.
    TokenInvalid(String),
    /// A verification key could not be fetched.
    KeyFetchFailed(String),
    /// The token lacks a required scope or role.
    InsufficientPermissions,
}

/// Authentication configuration.
#[derive(Debug)]
pub struct AuthConfig {
    /// Whether validation is on at all.
    pub enabled: bool,
    /// Accepted issuers; empty accepts any.
    pub issuers: Vec<String>,
    /// Accepted audiences; empty accepts any.
    pub audiences: Vec<String>,
    /// Algorithm name.
    pub algorithm: String,
    /// Shared secret for the HMAC algorithms, or the PEM public key for the
    /// RSA ones.
    pub secret_or_jwks: String,
    /// Claim-cache entry lifetime in seconds.
    pub cache_ttl_secs: u64,
    /// Claim-cache capacity.
    pub cache_max_size: u64,
}

impl AuthConfig {
    /// The default configuration: enabled, HS256, a five-minute cache of up
    /// to ten thousand tokens.
    pub fn default_config() -> (c: AuthConfig)
        ensures
            c.enabled,
            c.issuers@.len() == 0,
            c.audiences@.len() == 0,
            c.algorithm@ == "HS256"@,
            c.secret_or_jwks@ == "secret"@,
            c.cache_ttl_secs == 300,
            c.cache_max_size == 10000,
    {
        AuthConfig {
            enabled: true,
            issuers: Vec::new(),
            audiences: Vec::new(),
            algorithm: "HS256".to_owned(),
            secret_or_jwks: "secret".to_owned(),
            cache_ttl_secs: 300,
            cache_max_size: 10000,
        }
    }
}

/// The JWT validator: the policy, the key, and the short-TTL claim cache.
pub struct JwtValidator {
    /// The configuration the validator was built with.
    pub config: AuthConfig,
    /// The compiled validation policy.
    pub validation: jsonwebtoken::Validation,
    /// The verification key.
    pub decoding_key: jsonwebtoken::DecodingKey,
    /// Cached claims by raw token, with the insertion instant.
    pub cache: Vec<(String, (Claims, u64))>,
}

impl JwtValidator {
    /// Build a validator. Construction succeeds exactly when the algorithm
    /// name is supported and, for the RSA names, the configured PEM parses;
    /// an HMAC name always succeeds, since a shared-secret key is built from
    /// any bytes. Every rejection is an invalid-token error.
    pub fn new(config: AuthConfig) -> (r: Result<JwtValidator, AuthError>)
        ensures
            !spec_algorithm_supported(config.algorithm@) ==> (r matches Err(e)
                && e is TokenInvalid),
            spec_algorithm_hmac(config.algorithm@) ==> r is Ok,
            spec_algorithm_supported(config.algorithm@) && !spec_algorithm_hmac(
                config.algorithm@)
                ==> (r.is_ok() <==> rsa_pem_ok(vstd::utf8::encode_utf8(
                    config.secret_or_jwks@))),
            (match r {
                Ok(v) => v.cache@.len() == 0 && v.config.enabled == config.enabled
                    && v.config.cache_ttl_secs == config.cache_ttl_secs
                    && v.config.cache_max_size == config.cache_max_size,
                Err(e) => e is TokenInvalid,
            }),
    {
        let alg = match algorithm_from_name(config.algorithm.as_str()) {
            Some(a) => a,
            None => {
                let mut msg = String::new();
                msg.append("Unsupported algorithm: ");
                msg.append(config.algorithm.as_str());
                return Err(AuthError::TokenInvalid(msg));
            },
        };
        let mut validation = validation_new(alg);
        if config.issuers.len() > 0 {
            validation_set_issuers(&mut validation, &config.issuers);
        }
        if config.audiences.len() > 0 {
            validation_set_audiences(&mut validation, &config.audiences);
        }
        let hmac = str_eq(config.algorithm.as_str(), "HS256")
            || str_eq(config.algorithm.as_str(), "HS384")
            || str_eq(config.algorithm.as_str(), "HS512");
        let decoding_key = if hmac {
            key_from_secret(config.secret_or_jwks.as_str().as_bytes())
        } else {
            match key_from_rsa_pem(config.secret_or_jwks.as_str().as_bytes()) {
                Ok(k) => k,
                Err(e) => {
                    return Err(AuthError::TokenInvalid(e));
                },
            }
        };
        Ok(JwtValidator { config, validation, decoding_key, cache: Vec::new() })
    }

    /// What one validation at a known instant does: validation off hands
    /// back the anonymous claims and changes nothing; a cache hit within the
    /// TTL is served as-is without verification and changes nothing; a fresh
    /// verification caches its claims under the raw token at this instant;
    /// failures are classified as expired or invalid and change nothing.
    pub open spec fn spec_validate_post(
        pre: JwtValidator,
        post: JwtValidator,
        token: Seq<char>,
        now_ms: u64,
        r: Result<Claims, AuthError>,
    ) -> bool {
        &&& !pre.config.enabled ==> (r matches Ok(c) && c@ == spec_anonymous_claims())
            && post.cache@ == pre.cache@
        &&& (pre.config.enabled && spec_cache_lookup(pre.cache@, token,
            pre.config.cache_ttl_secs, now_ms) is Some)
            ==> (r matches Ok(c) && Some(c@) == spec_cache_lookup(pre.cache@, token,
                pre.config.cache_ttl_secs, now_ms)) && post.cache@ == pre.cache@
        &&& (pre.config.enabled && spec_cache_lookup(pre.cache@, token,
            pre.config.cache_ttl_secs, now_ms) is None)
            ==> (match r {
                Ok(c) => post.cache@.len() >= 1 && post.cache@.last().0@ == token
                    && post.cache@.last().1.0@ == c@ && post.cache@.last().1.1 == now_ms,
                Err(_) => true,
            })
        &&& (match r {
            Err(e) => (e is TokenExpired || e is TokenInvalid) && post.cache@ == pre.cache@,
            Ok(_) => true,
        })
    }

    /// Validate a token at a known instant. Validation off hands back
    /// anonymous claims; a cache hit within the TTL is served without
    /// verification; otherwise the token is verified and the claims cached
    /// at this instant. Failures are classified as expired or invalid.
    #[verifier::loop_isolation(false)]
    pub fn validate_at(&mut self, token: &str, now_ms: u64) -> (r: Result<Claims, AuthError>)
        ensures
            JwtValidator::spec_validate_post(*old(self), *final(self), token@, now_ms, r),
    {
        if !self.config.enabled {
            let anonymous = Claims {
                sub: "anonymous".to_owned(),
                iss: None,
                aud: None,
                exp: u64::MAX,
                iat: None,
                nbf: None,
                scope: None,
                roles: Vec::new(),
            };
            proof {
                assert(anonymous@.roles =~= Seq::<Seq<char>>::empty());
            }
            return Ok(anonymous);
        }
        // Cache lookup, bounded by the cache TTL rather than the token's
        // own expiry; stale entries are passed over.
        let ghost cv = self.cache@;
        proof {
            assert(cv.skip(0) =~= cv);
        }
        let n = self.cache.len();
        let mut i: usize = 0;
        while i < n
            invariant
                *self == *old(self),
                cv == self.cache@,
                n == self.cache@.len(),
                i <= n,
                spec_cache_lookup(cv, token@, self.config.cache_ttl_secs, now_ms)
                    == spec_cache_lookup(cv.skip(i as int), token@,
                        self.config.cache_ttl_secs, now_ms),
            decreases n - i,
        {
            proof {
                assert(cv.skip(i as int).len() == cv.len() - i);
                assert(cv.skip(i as int)[0] == cv[i as int]);
                assert(cv.skip(i as int).drop_first() =~= cv.skip(i as int + 1));
            }
            if str_eq(self.cache[i].0.as_str(), token) {
                let inserted = self.cache[i].1.1;
                let ttl_ms: u128 = (self.config.cache_ttl_secs as u128) * 1000;
                let exp_ms: u128 = (self.cache[i].1.0.exp as u128) * 1000;
                if (now_ms as u128) < (inserted as u128) + ttl_ms
                    && (now_ms as u128) < exp_ms {
                    return Ok(self.cache[i].1.0.duplicate());
                }
            }
            i += 1;
        }
        proof {
            assert(cv.skip(cv.len() as int).len() == 0);
        }
        // Verify, then cache at this instant.
        match jwt_decode_fields(token, &self.decoding_key, &self.validation) {
            Ok(claims) => {
                let copy = claims.duplicate();
                if (self.cache.len() as u64) >= self.config.cache_max_size {
                    if self.cache.len() > 0 {
                        let _evicted = self.cache.remove(0);
                    }
                }
                let owned = token.to_owned();
                self.cache.push((owned, (copy, now_ms)));
                Ok(claims)
            },
            Err((expired, msg)) => {
                if expired {
                    Err(AuthError::TokenExpired)
                } else {
                    Err(AuthError::TokenInvalid(msg))
                }
            },
        }
    }

    /// Validate a token now: one `validate_at` step at the wall-clock
    /// instant.
    pub fn validate(&mut self, token: &str) -> (r: Result<Claims, AuthError>)
        ensures
            exists|now_ms: u64| JwtValidator::spec_validate_post(*old(self), *final(self),
                token@, now_ms, r),
    {
        let now_ms = crate::clock::now_epoch_ms();
        let r = self.validate_at(token, now_ms);
        proof {
            assert(JwtValidator::spec_validate_post(*old(self), *self, token@, now_ms, r));
        }
        r
    }

    /// Extract the token from an Authorization header: the header must be
    /// `Bearer <token>`, and the token is everything after the space;
    /// anything else is an invalid-token error.
    pub fn extract_token(auth_header: &str) -> (r: Result<&str, AuthError>)
        ensures
            crate::strutil::spec_starts_with(auth_header@, "Bearer "@)
                ==> (r matches Ok(t) && t@ == auth_header@.skip("Bearer "@.len() as int)),
            !crate::strutil::spec_starts_with(auth_header@, "Bearer "@)
                ==> (r matches Err(e) && e is TokenInvalid),
    {
        proof {
            reveal_strlit("Bearer ");
        }
        if str_starts_with(auth_header, "Bearer ") {
            let n = auth_header.unicode_len();
            let rest = auth_header.substring_char(7, n);
            proof {
                assert(rest@ =~= auth_header@.skip("Bearer "@.len() as int));
            }
            Ok(rest)
        } else {
            Err(AuthError::TokenInvalid("Invalid authorization header format".to_owned()))
        }
    }

    /// Whether the claims carry `required_scope` in their space-separated
    /// scope claim.
    #[verifier::loop_isolation(false)]
    pub fn has_scope(claims: &Claims, required_scope: &str) -> (r: bool)
        ensures
            r == (claims.scope is Some && required_scope@.len() > 0 && exists|i: int|
                0 <= i < spec_split(claims.scope->Some_0@, ' ').len()
                && #[trigger] spec_split(claims.scope->Some_0@, ' ')[i] == required_scope@),
    {
        match claims.scope {
            Some(ref s) => {
                if required_scope.unicode_len() == 0 {
                    return false;
                }
                let parts = split_str(s.as_str(), ' ');
                let ghost pv = parts@.map_values(|p: String| p@);
                let mut i: usize = 0;
                while i < parts.len()
                    invariant
                        pv == parts@.map_values(|p: String| p@),
                        pv == spec_split(claims.scope->Some_0@, ' '),
                        i <= parts@.len(),
                        forall|j: int| 0 <= j < i ==> pv[j] != required_scope@,
                        required_scope@.len() > 0,
                    decreases parts@.len() - i,
                {
                    proof {
                        assert(pv[i as int] == parts@[i as int]@);
                    }
                    if str_eq(parts[i].as_str(), required_scope) {
                        proof {
                            assert(spec_split(claims.scope->Some_0@, ' ')[i as int]
                                == required_scope@);
                        }
                        return true;
                    }
                    i += 1;
                }
                false
            },
            None => false,
        }
    }

    /// Whether the claims carry `required_role` in their roles claim.
    pub fn has_role(claims: &Claims, required_role: &str) -> (r: bool)
        ensures
            r == exists|i: int| 0 <= i < claims.roles@.len()
                && (#[trigger] claims.roles@[i])@ == required_role@,
    {
        let mut i: usize = 0;
        while i < claims.roles.len()
            invariant
                i <= claims.roles@.len(),
                forall|j: int| 0 <= j < i ==> (#[trigger] claims.roles@[j])@ != required_role@,
            decreases claims.roles@.len() - i,
        {
            if str_eq(claims.roles[i].as_str(), required_role) {
                return true;
            }
            i += 1;
        }
        false
    }

    /// Number of cached tokens and the cache capacity.
    pub fn cache_stats(&self) -> (r: (u64, u64))
        ensures
            r.0 == self.cache@.len() || r.0 == u64::MAX,
            r.1 == self.config.cache_max_size,
    {
        let n = self.cache.len();
        let count: u64 = if (n as u128) > u64::MAX as u128 {
            u64::MAX
        } else {
            n as u64
        };
        (count, self.config.cache_max_size)
    }
}

} // verus!
