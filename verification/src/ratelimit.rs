//! Token-bucket rate limiting, one bucket per client key.
//!
//! The bucket holds tokens in a fixed-point representation: one token is
//! `window_secs * 1000` scaled units, so that a refill of
//! `requests_per_window / window_secs` tokens per second is exactly
//! `requests_per_window` scaled units per millisecond. All arithmetic is
//! exact; the clock is handed in as a millisecond timestamp.

use vstd::prelude::*;

verus! {

/// Rate limiting errors.
#[derive(Debug, Clone)]
pub enum RateLimitError {
    /// The caller is over its limit.
    Exceeded { retry_after_ms: u64 },
    /// The limiter configuration is unusable.
    InvalidConfig(String),
}

/// The outcome of one rate-limit check.
#[derive(Debug, Clone, PartialEq, Eq, Structural)]
pub struct RateLimitResult {
    /// Whether the request is admitted.
    pub allowed: bool,
    /// Whole tokens remaining after this check.
    pub remaining: u64,
    /// The configured requests-per-window limit.
    pub limit: u64,
    /// Milliseconds until the bucket is full again.
    pub reset_after_ms: u64,
    /// Milliseconds to wait before retrying; set only when blocked.
    pub retry_after_ms: Option<u64>,
}

/// Per-key rate limit configuration.
#[derive(Debug, Clone, Copy, PartialEq, Eq, Structural)]
pub struct RateLimitConfig {
    /// Requests admitted per window.
    pub requests_per_window: u64,
    /// Window length in seconds.
    pub window_secs: u64,
    /// Extra tokens admitted as a burst on top of the window quota.
    pub burst_size: u64,
    /// Whether bucket state is synchronized across processes.
    pub distributed: bool,
}

/// Upper bound on a window length: one year in seconds.
pub const MAX_WINDOW_SECS: u64 = 31536000;

impl RateLimitConfig {
    /// A usable configuration: a positive quota and a positive, bounded
    /// window, so that the fixed-point arithmetic below stays exact.
    pub open spec fn wf(&self) -> bool {
        &&& 1 <= self.requests_per_window
        &&& 1 <= self.window_secs <= MAX_WINDOW_SECS
    }

    /// The default configuration: 100 requests per minute plus a burst of
    /// 10.
    pub fn default_config() -> (c: RateLimitConfig)
        ensures
            c.requests_per_window == 100,
            c.window_secs == 60,
            c.burst_size == 10,
            !c.distributed,
            c.wf(),
    {
        RateLimitConfig { requests_per_window: 100, window_secs: 60, burst_size: 10, distributed: false }
    }
}

/// Scaled units per token.
pub open spec fn spec_scale(c: RateLimitConfig) -> int {
    c.window_secs * 1000
}

/// Bucket capacity in scaled units: the window quota plus the burst.
pub open spec fn spec_cap(c: RateLimitConfig) -> int {
    (c.requests_per_window + c.burst_size) * spec_scale(c)
}

/// Token bucket state for one client key.
#[derive(Debug, Clone, Copy)]
pub struct TokenBucket {
    /// Tokens on hand, in scaled units (one token = `spec_scale` units).
    pub tokens_scaled: u128,
    /// Timestamp of the last refill, in milliseconds.
    pub last_update_ms: u64,
    /// The configuration this bucket was created with.
    pub config: RateLimitConfig,
}

/// Clamp an unbounded count into `u64`.
pub open spec fn spec_sat64(v: int) -> u64 {
    if v > u64::MAX { u64::MAX } else { v as u64 }
}

impl TokenBucket {
    /// Bucket well-formedness: a usable configuration and a token count
    /// within capacity.
    pub open spec fn wf(&self) -> bool {
        &&& self.config.wf()
        &&& self.tokens_scaled as int <= spec_cap(self.config)
    }

    /// A full bucket.
    pub open spec fn spec_new(config: RateLimitConfig, now_ms: u64) -> TokenBucket {
        TokenBucket {
            tokens_scaled: spec_cap(config) as u128,
            last_update_ms: now_ms,
            config,
        }
    }

    /// Create a full bucket at the given instant.
    pub fn new(config: RateLimitConfig, now_ms: u64) -> (b: TokenBucket)
        requires
            config.wf(),
        ensures
            b == TokenBucket::spec_new(config, now_ms),
            b.wf(),
    {
        proof {
            assert(spec_cap(config) <= (u64::MAX as int + u64::MAX as int) * (MAX_WINDOW_SECS as int * 1000)) by (nonlinear_arith)
                requires config.wf();
        }
        let cap: u128 = (config.requests_per_window as u128 + config.burst_size as u128)
            * (config.window_secs as u128 * 1000);
        TokenBucket { tokens_scaled: cap, last_update_ms: now_ms, config }
    }

    /// The bucket after a refill at `now_ms`: elapsed milliseconds times the
    /// per-millisecond rate, capped at capacity. An earlier instant leaves
    /// the bucket unchanged.
    pub open spec fn spec_refill(b: TokenBucket, now_ms: u64) -> TokenBucket {
        if now_ms <= b.last_update_ms {
            b
        } else {
            let added = (now_ms - b.last_update_ms) * b.config.requests_per_window;
            let filled = if b.tokens_scaled + added >= spec_cap(b.config) {
                spec_cap(b.config)
            } else {
                b.tokens_scaled + added
            };
            TokenBucket { tokens_scaled: filled as u128, last_update_ms: now_ms, config: b.config }
        }
    }

    /// Refill tokens for the time elapsed since the last update.
    pub fn refill(&mut self, now_ms: u64)
        requires
            old(self).wf(),
        ensures
            *final(self) == TokenBucket::spec_refill(*old(self), now_ms),
            final(self).wf(),
    {
        proof {
            lemma_cap_bound(self.config);
        }
        if now_ms <= self.last_update_ms {
            return;
        }
        let delta: u128 = (now_ms - self.last_update_ms) as u128;
        proof {
            assert(((delta as int) * (self.config.requests_per_window as int))
                < ((u64::MAX as int + 1) * (u64::MAX as int + 1))) by (nonlinear_arith)
                requires
                    delta < (u64::MAX as int + 1),
                    self.config.requests_per_window < (u64::MAX as int + 1);
        }
        let added: u128 = delta * (self.config.requests_per_window as u128);
        let cap: u128 = (self.config.requests_per_window as u128 + self.config.burst_size as u128)
            * (self.config.window_secs as u128 * 1000);
        if added >= cap || self.tokens_scaled >= cap - added {
            self.tokens_scaled = cap;
        } else {
            self.tokens_scaled = self.tokens_scaled + added;
        }
        self.last_update_ms = now_ms;
    }

    /// The bucket and result of one consumption attempt: refill, then admit
    /// the request exactly when the bucket holds `cost` whole tokens.
    pub open spec fn spec_consume(b: TokenBucket, cost: u64, now_ms: u64) -> (TokenBucket, RateLimitResult) {
        let rb = TokenBucket::spec_refill(b, now_ms);
        let c = b.config;
        let cs = cost * spec_scale(c);
        if rb.tokens_scaled >= cs {
            let left = rb.tokens_scaled - cs;
            (
                TokenBucket { tokens_scaled: left as u128, ..rb },
                RateLimitResult {
                    allowed: true,
                    remaining: spec_sat64(left / spec_scale(c)),
                    limit: c.requests_per_window,
                    reset_after_ms: spec_sat64((spec_cap(c) - left) / c.requests_per_window as int),
                    retry_after_ms: None,
                },
            )
        } else {
            (
                rb,
                RateLimitResult {
                    allowed: false,
                    remaining: 0,
                    limit: c.requests_per_window,
                    reset_after_ms: (c.window_secs * 1000) as u64,
                    retry_after_ms: Some(spec_sat64(
                        (cs - rb.tokens_scaled + c.requests_per_window - 1)
                            / c.requests_per_window as int,
                    )),
                },
            )
        }
    }

    /// Try to consume `cost` tokens at instant `now_ms`.
    pub fn try_consume(&mut self, cost: u64, now_ms: u64) -> (r: RateLimitResult)
        requires
            old(self).wf(),
        ensures
            (*final(self), r) == TokenBucket::spec_consume(*old(self), cost, now_ms),
            final(self).wf(),
            final(self).config == old(self).config,
    {
        proof {
            lemma_cap_bound(self.config);
        }
        self.refill(now_ms);
        let scale: u128 = self.config.window_secs as u128 * 1000;
        let cap: u128 = (self.config.requests_per_window as u128 + self.config.burst_size as u128)
            * scale;
        proof {
            assert(((cost as int) * spec_scale(self.config))
                < ((u64::MAX as int + 1) * ((MAX_WINDOW_SECS as int) * 1000 + 1))) by (nonlinear_arith)
                requires
                    cost <= u64::MAX,
                    self.config.wf();
        }
        let cs: u128 = (cost as u128) * scale;
        if self.tokens_scaled >= cs {
            self.tokens_scaled = self.tokens_scaled - cs;
            let remaining = sat64_div(self.tokens_scaled, scale);
            let reset = sat64_div(cap - self.tokens_scaled, self.config.requests_per_window as u128);
            RateLimitResult {
                allowed: true,
                remaining,
                limit: self.config.requests_per_window,
                reset_after_ms: reset,
                retry_after_ms: None,
            }
        } else {
            let needed = cs - self.tokens_scaled;
            let rpw = self.config.requests_per_window as u128;
            let retry = sat64_div(needed + rpw - 1, rpw);
            RateLimitResult {
                allowed: false,
                remaining: 0,
                limit: self.config.requests_per_window,
                reset_after_ms: self.config.window_secs * 1000,
                retry_after_ms: Some(retry),
            }
        }
    }
}

/// The capacity in scaled units fits comfortably below `u128::MAX`.
proof fn lemma_cap_bound(c: RateLimitConfig)
    requires
        c.wf(),
    ensures
        spec_cap(c) < (u64::MAX as int + 1) * (u64::MAX as int + 1),
        spec_cap(c) >= spec_scale(c) >= 1000,
{
    assert((c.requests_per_window + c.burst_size) * (c.window_secs * 1000)
        < (u64::MAX as int + 1) * (u64::MAX as int + 1)) by (nonlinear_arith)
        requires c.wf();
    assert((c.requests_per_window + c.burst_size) * (c.window_secs * 1000)
        >= 1 * (c.window_secs * 1000)) by (nonlinear_arith)
        requires c.wf();
}

/// Saturating division of a `u128` by a positive `u128`, clamped into `u64`.
fn sat64_div(a: u128, b: u128) -> (r: u64)
    requires
        b >= 1,
    ensures
        r == spec_sat64(a as int / b as int),
{
    let q = a / b;
    if q > u64::MAX as u128 {
        u64::MAX
    } else {
        q as u64
    }
}

/// Rate limiter with one token bucket per client key and an optional
/// per-key configuration override on top of a default.
pub struct RateLimiter {
    /// Buckets, keyed by client key.
    pub buckets: Vec<(String, TokenBucket)>,
    /// Configuration used for keys without an override.
    pub default_config: RateLimitConfig,
    /// Per-key configuration overrides.
    pub key_configs: Vec<(String, RateLimitConfig)>,
}

impl RateLimiter {
    /// Limiter well-formedness: usable configurations, well-formed buckets,
    /// distinct keys.
    pub open spec fn wf(&self) -> bool {
        &&& self.default_config.wf()
        &&& crate::assoc::assoc_distinct(self.buckets@)
        &&& crate::assoc::assoc_distinct(self.key_configs@)
        &&& forall|i: int| 0 <= i < self.buckets@.len() ==> (#[trigger] self.buckets@[i].1).wf()
        &&& forall|i: int| 0 <= i < self.key_configs@.len()
            ==> (#[trigger] self.key_configs@[i].1).wf()
    }

    /// The bucket table as a map from key to bucket.
    pub open spec fn buckets_map(&self) -> Map<Seq<char>, TokenBucket> {
        crate::assoc::assoc_map(self.buckets@)
    }

    /// The per-key overrides as a map from key to configuration.
    pub open spec fn configs_map(&self) -> Map<Seq<char>, RateLimitConfig> {
        crate::assoc::assoc_map(self.key_configs@)
    }

    /// The configuration a fresh bucket for `key` would be created with.
    pub open spec fn spec_config_for(&self, key: Seq<char>) -> RateLimitConfig {
        if self.configs_map().contains_key(key) {
            self.configs_map()[key]
        } else {
            self.default_config
        }
    }

    /// The bucket a check against `key` at `now_ms` starts from: the stored
    /// bucket, or a fresh full one.
    pub open spec fn spec_bucket_before(&self, key: Seq<char>, now_ms: u64) -> TokenBucket {
        if self.buckets_map().contains_key(key) {
            self.buckets_map()[key]
        } else {
            TokenBucket::spec_new(self.spec_config_for(key), now_ms)
        }
    }

    /// A new limiter with no buckets and no overrides.
    pub fn new(default_config: RateLimitConfig) -> (r: RateLimiter)
        requires
            default_config.wf(),
        ensures
            r.wf(),
            r.default_config == default_config,
            r.buckets_map() == Map::<Seq<char>, TokenBucket>::empty(),
            r.configs_map() == Map::<Seq<char>, RateLimitConfig>::empty(),
    {
        RateLimiter { buckets: Vec::new(), default_config, key_configs: Vec::new() }
    }

    /// Install a configuration override for one key.
    #[verifier::loop_isolation(false)]
    pub fn set_key_config(&mut self, key: &str, config: RateLimitConfig)
        requires
            old(self).wf(),
            config.wf(),
        ensures
            final(self).wf(),
            final(self).configs_map() == old(self).configs_map().insert(key@, config),
            final(self).buckets@ == old(self).buckets@,
            final(self).default_config == old(self).default_config,
    {
        let n = self.key_configs.len();
        let mut i: usize = 0;
        while i < n
            invariant
                old(self).wf(),
                *self == *old(self),
                n == self.key_configs@.len(),
                i <= n,
                forall|j: int| 0 <= j < i ==> #[trigger] self.key_configs@[j].0@ != key@,
            decreases n - i,
        {
            if crate::strutil::str_eq(self.key_configs[i].0.as_str(), key) {
                let owned = key.to_owned();
                proof {
                    crate::assoc::lemma_assoc_map_update(self.key_configs@, i as int,
                        (owned, config));
                }
                let ghost before = self.key_configs@;
                self.key_configs.set(i, (owned, config));
                proof {
                    assert forall|j: int| 0 <= j < self.key_configs@.len()
                        implies (#[trigger] self.key_configs@[j].1).wf() by {
                        if j != i as int {
                            assert(self.key_configs@[j] == before[j]);
                        }
                    }
                }
                return;
            }
            i += 1;
        }
        let owned = key.to_owned();
        proof {
            crate::assoc::lemma_assoc_map_push(self.key_configs@, (owned, config));
        }
        self.key_configs.push((owned, config));
    }

    /// What one check at a known instant does: the key's bucket (fresh if
    /// absent) goes through `spec_consume`, and the result is returned.
    pub open spec fn spec_check_post(
        pre: RateLimiter,
        post: RateLimiter,
        key: Seq<char>,
        cost: u64,
        now_ms: u64,
        r: RateLimitResult,
    ) -> bool {
        let b0 = pre.spec_bucket_before(key, now_ms);
        let step = TokenBucket::spec_consume(b0, cost, now_ms);
        &&& r == step.1
        &&& post.buckets_map() == pre.buckets_map().insert(key, step.0)
        &&& post.configs_map() == pre.configs_map()
        &&& post.default_config == pre.default_config
    }

    /// Check the rate limit for `key` at instant `now_ms`, consuming `cost`
    /// whole tokens when admitted.
    #[verifier::loop_isolation(false)]
    pub fn check_with_cost_at(&mut self, key: &str, cost: u64, now_ms: u64) -> (r: RateLimitResult)
        requires
            old(self).wf(),
        ensures
            final(self).wf(),
            RateLimiter::spec_check_post(*old(self), *final(self), key@, cost, now_ms, r),
    {
        proof {
            crate::assoc::lemma_assoc_map_index(self.buckets@);
        }
        let n = self.buckets.len();
        let mut i: usize = 0;
        while i < n
            invariant
                old(self).wf(),
                *self == *old(self),
                n == self.buckets@.len(),
                i <= n,
                forall|j: int| 0 <= j < i ==> #[trigger] self.buckets@[j].0@ != key@,
            decreases n - i,
        {
            if crate::strutil::str_eq(self.buckets[i].0.as_str(), key) {
                let mut b = self.buckets[i].1;
                proof {
                    assert(self.buckets@[i as int].0@ == key@);
                    assert(self.buckets_map().contains_key(self.buckets@[i as int].0@));
                    assert(self.buckets_map()[self.buckets@[i as int].0@]
                        == self.buckets@[i as int].1);
                    assert(self.buckets@[i as int].1.wf());
                }
                let r = b.try_consume(cost, now_ms);
                let owned = key.to_owned();
                proof {
                    crate::assoc::lemma_assoc_map_update(self.buckets@, i as int, (owned, b));
                }
                let ghost before = self.buckets@;
                self.buckets.set(i, (owned, b));
                proof {
                    assert forall|j: int| 0 <= j < self.buckets@.len()
                        implies (#[trigger] self.buckets@[j].1).wf() by {
                        if j != i as int {
                            assert(self.buckets@[j] == before[j]);
                        }
                    }
                }
                return r;
            }
            i += 1;
        }
        proof {
            if self.buckets_map().contains_key(key@) {
                let w = choose|w: int| 0 <= w < self.buckets@.len()
                    && #[trigger] self.buckets@[w].0@ == key@;
                assert(false);
            }
        }
        // No bucket yet: create one from the key's configuration.
        let mut config = self.default_config;
        let m = self.key_configs.len();
        let mut k: usize = 0;
        let mut found = false;
        while k < m
            invariant
                old(self).wf(),
                *self == *old(self),
                m == self.key_configs@.len(),
                k <= m,
                !found ==> forall|j: int| 0 <= j < k ==> #[trigger] self.key_configs@[j].0@ != key@,
                !found ==> config == self.default_config,
                config.wf(),
                found ==> self.configs_map().contains_key(key@)
                    && config == self.configs_map()[key@],
            decreases m - k,
        {
            if !found && crate::strutil::str_eq(self.key_configs[k].0.as_str(), key) {
                config = self.key_configs[k].1;
                found = true;
                proof {
                    crate::assoc::lemma_assoc_map_index(self.key_configs@);
                    assert(self.key_configs@[k as int].0@ == key@);
                    assert(self.configs_map().contains_key(self.key_configs@[k as int].0@));
                    assert(self.configs_map()[self.key_configs@[k as int].0@]
                        == self.key_configs@[k as int].1);
                    assert((self.key_configs@[k as int].1).wf());
                }
            }
            k += 1;
        }
        proof {
            if !found && self.configs_map().contains_key(key@) {
                crate::assoc::lemma_assoc_map_index(self.key_configs@);
                let w = choose|w: int| 0 <= w < self.key_configs@.len()
                    && #[trigger] self.key_configs@[w].0@ == key@;
                assert(false);
            }
            assert(config == self.spec_config_for(key@));
        }
        let mut b = TokenBucket::new(config, now_ms);
        let r = b.try_consume(cost, now_ms);
        let owned = key.to_owned();
        proof {
            crate::assoc::lemma_assoc_map_push(self.buckets@, (owned, b));
        }
        let ghost before = self.buckets@;
        self.buckets.push((owned, b));
        proof {
            assert forall|j: int| 0 <= j < self.buckets@.len()
                implies (#[trigger] self.buckets@[j].1).wf() by {
                if j < before.len() {
                    assert(self.buckets@[j] == before[j]);
                }
            }
        }
        r
    }

    /// Check the rate limit for `key` now, at cost 1. The instant is read
    /// from the wall clock; the result is exactly one `spec_consume` step at
    /// that instant.
    pub fn check(&mut self, key: &str) -> (r: RateLimitResult)
        requires
            old(self).wf(),
        ensures
            final(self).wf(),
            exists|now_ms: u64|
                RateLimiter::spec_check_post(*old(self), *final(self), key@, 1, now_ms, r),
    {
        let now_ms = crate::clock::now_epoch_ms();
        let r = self.check_with_cost_at(key, 1, now_ms);
        proof {
            assert(RateLimiter::spec_check_post(*old(self), *self, key@, 1, now_ms, r));
        }
        r
    }

    /// Check the rate limit for `key` now, at the given whole-token cost.
    pub fn check_with_cost(&mut self, key: &str, cost: u64) -> (r: RateLimitResult)
        requires
            old(self).wf(),
        ensures
            final(self).wf(),
            exists|now_ms: u64|
                RateLimiter::spec_check_post(*old(self), *final(self), key@, cost, now_ms, r),
    {
        let now_ms = crate::clock::now_epoch_ms();
        let r = self.check_with_cost_at(key, cost, now_ms);
        proof {
            assert(RateLimiter::spec_check_post(*old(self), *self, key@, cost, now_ms, r));
        }
        r
    }

    /// The state a refill at `now_ms` would report for a present key.
    pub open spec fn spec_state_result(b: TokenBucket, now_ms: u64) -> RateLimitResult {
        let rb = TokenBucket::spec_refill(b, now_ms);
        RateLimitResult {
            allowed: true,
            remaining: spec_sat64(rb.tokens_scaled as int / spec_scale(b.config)),
            limit: b.config.requests_per_window,
            reset_after_ms: spec_sat64(
                (spec_cap(b.config) - rb.tokens_scaled) / b.config.requests_per_window as int,
            ),
            retry_after_ms: None,
        }
    }

    /// Report the current state of `key`'s bucket at instant `now_ms`,
    /// refilling it, without consuming anything.
    #[verifier::loop_isolation(false)]
    pub fn get_state_at(&mut self, key: &str, now_ms: u64) -> (r: Option<RateLimitResult>)
        requires
            old(self).wf(),
        ensures
            final(self).wf(),
            final(self).configs_map() == old(self).configs_map(),
            final(self).default_config == old(self).default_config,
            old(self).buckets_map().contains_key(key@) ==> {
                let b = old(self).buckets_map()[key@];
                &&& r == Some(RateLimiter::spec_state_result(b, now_ms))
                &&& final(self).buckets_map() == old(self).buckets_map().insert(
                    key@, TokenBucket::spec_refill(b, now_ms))
            },
            !old(self).buckets_map().contains_key(key@) ==> r is None
                && final(self).buckets_map() == old(self).buckets_map(),
    {
        proof {
            crate::assoc::lemma_assoc_map_index(self.buckets@);
        }
        let n = self.buckets.len();
        let mut i: usize = 0;
        while i < n
            invariant
                old(self).wf(),
                *self == *old(self),
                n == self.buckets@.len(),
                i <= n,
                forall|j: int| 0 <= j < i ==> #[trigger] self.buckets@[j].0@ != key@,
            decreases n - i,
        {
            if crate::strutil::str_eq(self.buckets[i].0.as_str(), key) {
                let mut b = self.buckets[i].1;
                proof {
                    assert(self.buckets@[i as int].0@ == key@);
                    assert(self.buckets_map().contains_key(self.buckets@[i as int].0@));
                    assert(self.buckets_map()[self.buckets@[i as int].0@]
                        == self.buckets@[i as int].1);
                    assert(self.buckets@[i as int].1.wf());
                    lemma_cap_bound(b.config);
                }
                b.refill(now_ms);
                let scale: u128 = b.config.window_secs as u128 * 1000;
                let cap: u128 = (b.config.requests_per_window as u128
                    + b.config.burst_size as u128) * scale;
                let remaining = sat64_div(b.tokens_scaled, scale);
                let reset = sat64_div(cap - b.tokens_scaled, b.config.requests_per_window as u128);
                let owned = key.to_owned();
                proof {
                    crate::assoc::lemma_assoc_map_update(self.buckets@, i as int, (owned, b));
                }
                let ghost before = self.buckets@;
                self.buckets.set(i, (owned, b));
                proof {
                    assert forall|j: int| 0 <= j < self.buckets@.len()
                        implies (#[trigger] self.buckets@[j].1).wf() by {
                        if j != i as int {
                            assert(self.buckets@[j] == before[j]);
                        }
                    }
                }
                return Some(RateLimitResult {
                    allowed: true,
                    remaining,
                    limit: b.config.requests_per_window,
                    reset_after_ms: reset,
                    retry_after_ms: None,
                });
            }
            i += 1;
        }
        proof {
            if self.buckets_map().contains_key(key@) {
                let w = choose|w: int| 0 <= w < self.buckets@.len()
                    && #[trigger] self.buckets@[w].0@ == key@;
                assert(false);
            }
        }
        None
    }

    /// Report the current state of `key`'s bucket now.
    pub fn get_state(&mut self, key: &str) -> (r: Option<RateLimitResult>)
        requires
            old(self).wf(),
        ensures
            final(self).wf(),
            r is Some <==> old(self).buckets_map().contains_key(key@),
    {
        let now_ms = crate::clock::now_epoch_ms();
        self.get_state_at(key, now_ms)
    }

    /// A bucket survives cleanup when it was touched within the idle bound.
    pub open spec fn spec_bucket_fresh(b: TokenBucket, now_ms: u64, max_idle_secs: u64) -> bool {
        now_ms <= b.last_update_ms
        || (now_ms - b.last_update_ms) < max_idle_secs * 1000
    }

    /// The bucket list after eviction of stale buckets.
    pub open spec fn spec_cleanup(
        s: Seq<(String, TokenBucket)>,
        now_ms: u64,
        max_idle_secs: u64,
    ) -> Seq<(String, TokenBucket)>
        decreases s.len(),
    {
        if s.len() == 0 {
            Seq::empty()
        } else {
            let rest = RateLimiter::spec_cleanup(s.drop_last(), now_ms, max_idle_secs);
            if RateLimiter::spec_bucket_fresh(s.last().1, now_ms, max_idle_secs) {
                rest.push(s.last())
            } else {
                rest
            }
        }
    }

    /// Evict buckets idle for `max_idle_secs` or longer, as of `now_ms`.
    #[verifier::loop_isolation(false)]
    pub fn cleanup_expired_at(&mut self, max_idle_secs: u64, now_ms: u64)
        requires
            old(self).wf(),
        ensures
            final(self).wf(),
            final(self).buckets@ == RateLimiter::spec_cleanup(old(self).buckets@, now_ms,
                max_idle_secs),
            final(self).configs_map() == old(self).configs_map(),
            final(self).default_config == old(self).default_config,
    {
        let n = self.buckets.len();
        let mut kept: Vec<(String, TokenBucket)> = Vec::new();
        let mut i: usize = 0;
        while i < n
            invariant
                old(self).wf(),
                *self == *old(self),
                n == self.buckets@.len(),
                i <= n,
                kept@ == RateLimiter::spec_cleanup(self.buckets@.subrange(0, i as int), now_ms,
                    max_idle_secs),
            decreases n - i,
        {
            let ghost pre = self.buckets@.subrange(0, i as int);
            let ghost post = self.buckets@.subrange(0, i as int + 1);
            proof {
                assert(post.drop_last() =~= pre);
                assert(post.last() == self.buckets@[i as int]);
            }
            let b = self.buckets[i].1;
            let fresh = now_ms <= b.last_update_ms
                || ((now_ms - b.last_update_ms) as u128) < (max_idle_secs as u128) * 1000;
            proof {
                assert(fresh == RateLimiter::spec_bucket_fresh(b, now_ms, max_idle_secs));
            }
            if fresh {
                let owned = self.buckets[i].0.clone();
                kept.push((owned, b));
                proof {
                    assert(kept@.last().0@ == self.buckets@[i as int].0@);
                    assert(kept@ =~= RateLimiter::spec_cleanup(post, now_ms, max_idle_secs));
                }
            }
            i += 1;
        }
        proof {
            assert(self.buckets@.subrange(0, n as int) =~= self.buckets@);
            lemma_cleanup_wf(self.buckets@, now_ms, max_idle_secs);
        }
        self.buckets = kept;
    }

    /// Evict buckets idle for `max_idle_secs` or longer, as of now.
    pub fn cleanup_expired(&mut self, max_idle_secs: u64)
        requires
            old(self).wf(),
        ensures
            final(self).wf(),
            exists|now_ms: u64|
                final(self).buckets@ == RateLimiter::spec_cleanup(old(self).buckets@, now_ms,
                    max_idle_secs),
    {
        let now_ms = crate::clock::now_epoch_ms();
        self.cleanup_expired_at(max_idle_secs, now_ms);
    }

    /// Number of live buckets and of per-key overrides.
    pub fn stats(&self) -> (r: (usize, usize))
        ensures
            r.0 == self.buckets@.len(),
            r.1 == self.key_configs@.len(),
    {
        (self.buckets.len(), self.key_configs.len())
    }
}

/// Cleanup keeps a sublist of the buckets: every kept pair is a pair of the
/// input, keys stay distinct, buckets stay well-formed.
proof fn lemma_cleanup_wf(s: Seq<(String, TokenBucket)>, now_ms: u64, max_idle_secs: u64)
    ensures
        forall|i: int| 0 <= i < RateLimiter::spec_cleanup(s, now_ms, max_idle_secs).len()
            ==> exists|w: int| 0 <= w < s.len()
                && s[w] == #[trigger] RateLimiter::spec_cleanup(s, now_ms, max_idle_secs)[i],
        crate::assoc::assoc_distinct(s)
            ==> crate::assoc::assoc_distinct(RateLimiter::spec_cleanup(s, now_ms, max_idle_secs)),
        (forall|i: int| 0 <= i < s.len() ==> (#[trigger] s[i].1).wf())
            ==> forall|i: int| 0 <= i < RateLimiter::spec_cleanup(s, now_ms, max_idle_secs).len()
                ==> (#[trigger] RateLimiter::spec_cleanup(s, now_ms, max_idle_secs)[i].1).wf(),
    decreases s.len(),
{
    if s.len() > 0 {
        lemma_cleanup_wf(s.drop_last(), now_ms, max_idle_secs);
        assert(forall|i: int| 0 <= i < s.len() - 1 ==> #[trigger] s.drop_last()[i] == s[i]);
        let res = RateLimiter::spec_cleanup(s, now_ms, max_idle_secs);
        let rest = RateLimiter::spec_cleanup(s.drop_last(), now_ms, max_idle_secs);
        assert forall|i: int| 0 <= i < res.len()
            implies exists|w: int| 0 <= w < s.len() && s[w] == #[trigger] res[i] by {
            if i < rest.len() {
                let w = choose|w: int| 0 <= w < s.drop_last().len()
                    && s.drop_last()[w] == rest[i];
                assert(s[w] == res[i]);
            } else {
                assert(res[i] == s.last());
                assert(s[s.len() - 1] == s.last());
            }
        }
        if crate::assoc::assoc_distinct(s) {
            assert forall|i: int, j: int| 0 <= i < j < res.len()
                implies res[i].0@ != res[j].0@ by {
                let wi = choose|w: int| 0 <= w < s.len() && s[w] == res[i];
                let wj = choose|w: int| 0 <= w < s.len() && s[w] == res[j];
                if j == rest.len() && i < rest.len() {
                    // res[j] is the last pair of s; res[i] comes from the
                    // front, and keys are distinct in s.
                    let w = choose|w: int| 0 <= w < s.drop_last().len()
                        && s.drop_last()[w] == rest[i];
                    assert(s[w].0@ != s[s.len() - 1].0@);
                }
            }
        }
    }
}

/// The bucket after a sequence of unit-cost checks at the given instants.
pub open spec fn spec_run_bucket(b: TokenBucket, times: Seq<u64>) -> TokenBucket
    decreases times.len(),
{
    if times.len() == 0 {
        b
    } else {
        TokenBucket::spec_consume(spec_run_bucket(b, times.drop_last()), 1, times.last()).0
    }
}

/// How many of a sequence of unit-cost checks at the given instants are
/// admitted.
pub open spec fn spec_run_count(b: TokenBucket, times: Seq<u64>) -> int
    decreases times.len(),
{
    if times.len() == 0 {
        0int
    } else {
        spec_run_count(b, times.drop_last()) + if TokenBucket::spec_consume(
            spec_run_bucket(b, times.drop_last()), 1, times.last()).1.allowed {
            1int
        } else {
            0int
        }
    }
}

/// All instants of a run are nondecreasing and start no earlier than `t0`.
pub open spec fn spec_times_ok(times: Seq<u64>, t0: u64) -> bool {
    &&& forall|i: int| 0 <= i < times.len() ==> t0 <= #[trigger] times[i]
    &&& forall|i: int, j: int| 0 <= i <= j < times.len() ==> times[i] <= times[j]
}

/// Running a bucket preserves its configuration and well-formedness, never
/// moves its clock backwards, and admits at most the tokens on hand plus
/// what the elapsed time refills: in scaled units,
/// `admitted * scale + final tokens <= initial tokens + elapsed * rate`.
pub proof fn lemma_run_bucket_bound(b: TokenBucket, times: Seq<u64>)
    requires
        b.wf(),
        spec_times_ok(times, b.last_update_ms),
    ensures
        spec_run_bucket(b, times).config == b.config,
        spec_run_bucket(b, times).wf(),
        b.last_update_ms <= spec_run_bucket(b, times).last_update_ms,
        times.len() > 0 ==> spec_run_bucket(b, times).last_update_ms <= times.last(),
        times.len() == 0 ==> spec_run_bucket(b, times) == b,
        spec_run_count(b, times) >= 0,
        spec_run_count(b, times) * spec_scale(b.config) + spec_run_bucket(b, times).tokens_scaled
            <= b.tokens_scaled
                + (spec_run_bucket(b, times).last_update_ms - b.last_update_ms)
                    * b.config.requests_per_window,
    decreases times.len(),
{
    if times.len() > 0 {
        let prefix = times.drop_last();
        assert(forall|i: int| 0 <= i < times.len() - 1 ==> #[trigger] prefix[i] == times[i]);
        lemma_run_bucket_bound(b, prefix);
        let b1 = spec_run_bucket(b, prefix);
        let t = times.last();
        let cnt = spec_run_count(b, prefix);
        let c = b.config;
        let s = spec_scale(c);
        let rpw = c.requests_per_window as int;
        // The new instant is no earlier than the bucket's clock.
        assert(times[times.len() - 1] == t);
        if prefix.len() > 0 {
            assert(prefix.last() == times[times.len() - 2]);
            assert(times[times.len() - 2] <= times[times.len() - 1]);
            assert(b1.last_update_ms <= t);
        } else {
            assert(b1 == b);
            assert(b.last_update_ms <= t);
        }
        let rb = TokenBucket::spec_refill(b1, t);
        // The refill adds at most elapsed * rate.
        assert(rb.tokens_scaled <= b1.tokens_scaled
            + (rb.last_update_ms - b1.last_update_ms) * rpw);
        assert(rb.last_update_ms >= b1.last_update_ms);
        assert(rb.last_update_ms <= t);
        assert(rb.tokens_scaled <= spec_cap(c));
        let step = TokenBucket::spec_consume(b1, 1, t);
        assert(1 * s == s) by (nonlinear_arith);
        // Final accounting, splitting on whether the check was admitted.
        if step.1.allowed {
            assert(step.0.tokens_scaled == rb.tokens_scaled - s);
            assert(spec_run_count(b, times) == cnt + 1);
            assert((cnt + 1) * s == cnt * s + s) by (nonlinear_arith);
            assert(cnt * s + b1.tokens_scaled
                <= b.tokens_scaled + (b1.last_update_ms - b.last_update_ms) * rpw);
            assert((b1.last_update_ms - b.last_update_ms) * rpw
                + (rb.last_update_ms - b1.last_update_ms) * rpw
                == (rb.last_update_ms - b.last_update_ms) * rpw) by (nonlinear_arith);
        } else {
            assert(step.0 == rb);
            assert((b1.last_update_ms - b.last_update_ms) * rpw
                + (rb.last_update_ms - b1.last_update_ms) * rpw
                == (rb.last_update_ms - b.last_update_ms) * rpw) by (nonlinear_arith);
        }
    }
}

/// The token-bucket admission law: over any interval, a bucket with rate
/// `requests_per_window / window_secs` and capacity
/// `requests_per_window + burst_size` admits at most
/// `capacity + elapsed * rate` unit-cost requests — in exact integers,
/// `admitted * window_ms <= capacity * window_ms + elapsed_ms * requests_per_window`.
pub proof fn lemma_token_bucket_admission_bound(b: TokenBucket, times: Seq<u64>, t_end: u64)
    requires
        b.wf(),
        b.tokens_scaled == spec_cap(b.config),
        b.last_update_ms <= t_end,
        spec_times_ok(times, b.last_update_ms),
        forall|i: int| 0 <= i < times.len() ==> #[trigger] times[i] <= t_end,
    ensures
        spec_run_count(b, times) * spec_scale(b.config)
            <= spec_cap(b.config) + (t_end - b.last_update_ms) * b.config.requests_per_window,
{
    lemma_run_bucket_bound(b, times);
    let bf = spec_run_bucket(b, times);
    let rpw = b.config.requests_per_window as int;
    if times.len() > 0 {
        assert(bf.last_update_ms <= t_end);
        assert((bf.last_update_ms - b.last_update_ms) * rpw
            <= (t_end - b.last_update_ms) * rpw) by (nonlinear_arith)
            requires
                bf.last_update_ms <= t_end,
                b.last_update_ms <= bf.last_update_ms,
                rpw >= 0;
    } else {
        assert(spec_run_count(b, times) == 0);
        assert(0 * spec_scale(b.config) == 0) by (nonlinear_arith);
        assert((t_end - b.last_update_ms) * rpw >= 0) by (nonlinear_arith)
            requires
                t_end >= b.last_update_ms,
                rpw >= 0;
    }
}

} // verus!
