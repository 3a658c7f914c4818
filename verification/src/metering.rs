//! Usage metering records and their aggregation.
//!
//! The collector loop that drains a channel and flushes batches lives
//! outside the core; here are the event record, its builders, the batching
//! rule, and the per-client aggregation.

use vstd::prelude::*;

verus! {

/// One metered request.
#[derive(Debug)]
pub struct UsageEvent {
    /// Unix milliseconds at which the event was recorded.
    pub timestamp: i64,
    /// Client identifier.
    pub client_id: String,
    /// Request path.
    pub path: String,
    /// HTTP method.
    pub method: String,
    /// Response status code.
    pub status_code: u16,
    /// Request size in bytes.
    pub request_bytes: u64,
    /// Response size in bytes.
    pub response_bytes: u64,
    /// Latency in microseconds.
    pub latency_us: u64,
    /// Matched route, if any.
    pub route_id: Option<String>,
    /// Source protocol tag.
    pub protocol: String,
}

/// The mathematical model of a usage event.
pub struct UsageEventView {
    /// Unix milliseconds.
    pub timestamp: i64,
    /// Client identifier.
    pub client_id: Seq<char>,
    /// Request path.
    pub path: Seq<char>,
    /// HTTP method.
    pub method: Seq<char>,
    /// Response status code.
    pub status_code: u16,
    /// Request size in bytes.
    pub request_bytes: u64,
    /// Response size in bytes.
    pub response_bytes: u64,
    /// Latency in microseconds.
    pub latency_us: u64,
    /// Matched route, if any.
    pub route_id: Option<Seq<char>>,
    /// Source protocol tag.
    pub protocol: Seq<char>,
}

impl View for UsageEvent {
    type V = UsageEventView;

    open spec fn view(&self) -> UsageEventView {
        UsageEventView {
            timestamp: self.timestamp,
            client_id: self.client_id@,
            path: self.path@,
            method: self.method@,
            status_code: self.status_code,
            request_bytes: self.request_bytes,
            response_bytes: self.response_bytes,
            latency_us: self.latency_us,
            route_id: match self.route_id {
                Some(ref s) => Some(s@),
                None => None,
            },
            protocol: self.protocol@,
        }
    }
}

impl UsageEvent {
    /// A new event for a client and path at a known instant, with the
    /// defaults of a successful, empty GET over HTTP.
    pub fn new_at(client_id: &str, path: &str, timestamp: i64) -> (r: UsageEvent)
        ensures
            r@.timestamp == timestamp,
            r@.client_id == client_id@,
            r@.path == path@,
            r@.method == "GET"@,
            r@.status_code == 200,
            r@.request_bytes == 0,
            r@.response_bytes == 0,
            r@.latency_us == 0,
            r@.route_id is None,
            r@.protocol == "http"@,
    {
        UsageEvent {
            timestamp,
            client_id: client_id.to_owned(),
            path: path.to_owned(),
            method: "GET".to_owned(),
            status_code: 200,
            request_bytes: 0,
            response_bytes: 0,
            latency_us: 0,
            route_id: None,
            protocol: "http".to_owned(),
        }
    }

    /// A new event stamped with the current wall clock.
    pub fn new(client_id: &str, path: &str) -> (r: UsageEvent)
        ensures
            r@.client_id == client_id@,
            r@.path == path@,
            r@.method == "GET"@,
            r@.status_code == 200,
            r@.request_bytes == 0,
            r@.response_bytes == 0,
            r@.latency_us == 0,
            r@.route_id is None,
            r@.protocol == "http"@,
    {
        let now = crate::clock::now_epoch_ms();
        let ts: i64 = if now > i64::MAX as u64 {
            i64::MAX
        } else {
            now as i64
        };
        UsageEvent::new_at(client_id, path, ts)
    }

    /// Set the method.
    pub fn with_method(self, method: &str) -> (r: UsageEvent)
        ensures
            r@ == (UsageEventView { method: method@, ..self@ }),
    {
        UsageEvent { method: method.to_owned(), ..self }
    }

    /// Set the status code.
    pub fn with_status(self, status: u16) -> (r: UsageEvent)
        ensures
            r@ == (UsageEventView { status_code: status, ..self@ }),
    {
        UsageEvent { status_code: status, ..self }
    }

    /// Set the request size.
    pub fn with_request_bytes(self, bytes: u64) -> (r: UsageEvent)
        ensures
            r@ == (UsageEventView { request_bytes: bytes, ..self@ }),
    {
        UsageEvent { request_bytes: bytes, ..self }
    }

    /// Set the response size.
    pub fn with_response_bytes(self, bytes: u64) -> (r: UsageEvent)
        ensures
            r@ == (UsageEventView { response_bytes: bytes, ..self@ }),
    {
        UsageEvent { response_bytes: bytes, ..self }
    }

    /// Set the latency.
    pub fn with_latency_us(self, latency_us: u64) -> (r: UsageEvent)
        ensures
            r@ == (UsageEventView { latency_us: latency_us, ..self@ }),
    {
        UsageEvent { latency_us, ..self }
    }

    /// Set the matched route.
    pub fn with_route_id(self, route_id: &str) -> (r: UsageEvent)
        ensures
            r@ == (UsageEventView { route_id: Some(route_id@), ..self@ }),
    {
        UsageEvent { route_id: Some(route_id.to_owned()), ..self }
    }

    /// Set the protocol tag.
    pub fn with_protocol(self, protocol: &str) -> (r: UsageEvent)
        ensures
            r@ == (UsageEventView { protocol: protocol@, ..self@ }),
    {
        UsageEvent { protocol: protocol.to_owned(), ..self }
    }
}

/// Metering configuration.
#[derive(Debug, Clone, Copy, PartialEq, Eq, Structural)]
pub struct MeterConfig {
    /// Channel buffer size.
    pub channel_size: usize,
    /// Batch size that triggers a flush.
    pub batch_size: usize,
    /// Flush interval in milliseconds.
    pub flush_interval_ms: u64,
}

impl MeterConfig {
    /// The default configuration: a 10000-event channel, batches of 100,
    /// flushed every second.
    pub fn default_config() -> (c: MeterConfig)
        ensures
            c.channel_size == 10000,
            c.batch_size == 100,
            c.flush_interval_ms == 1000,
    {
        MeterConfig { channel_size: 10000, batch_size: 100, flush_interval_ms: 1000 }
    }
}

/// Sum of request bytes over a batch.
pub open spec fn spec_sum_request_bytes(events: Seq<UsageEventView>) -> int
    decreases events.len(),
{
    if events.len() == 0 {
        0int
    } else {
        spec_sum_request_bytes(events.drop_last()) + events.last().request_bytes
    }
}

/// Sum of response bytes over a batch.
pub open spec fn spec_sum_response_bytes(events: Seq<UsageEventView>) -> int
    decreases events.len(),
{
    if events.len() == 0 {
        0int
    } else {
        spec_sum_response_bytes(events.drop_last()) + events.last().response_bytes
    }
}

/// Sum of latencies over a batch.
pub open spec fn spec_sum_latency(events: Seq<UsageEventView>) -> int
    decreases events.len(),
{
    if events.len() == 0 {
        0int
    } else {
        spec_sum_latency(events.drop_last()) + events.last().latency_us
    }
}

/// Number of events with an error status (400 and above).
pub open spec fn spec_error_count(events: Seq<UsageEventView>) -> int
    decreases events.len(),
{
    if events.len() == 0 {
        0int
    } else {
        spec_error_count(events.drop_last()) + if events.last().status_code >= 400 {
            1int
        } else {
            0int
        }
    }
}

/// Aggregated usage of one client over a batch of events.
#[derive(Debug)]
pub struct ClientUsageSummary {
    /// The client these numbers belong to.
    pub client_id: String,
    /// Number of events.
    pub total_requests: u64,
    /// Total request bytes.
    pub total_bytes_in: u64,
    /// Total response bytes.
    pub total_bytes_out: u64,
    /// Mean latency in microseconds (zero for an empty batch).
    pub avg_latency_us: u64,
    /// Number of events with status 400 or above.
    pub error_count: u64,
}

impl ClientUsageSummary {
    /// Aggregate a batch of events into a per-client summary. The byte and
    /// latency totals must fit in 64 bits, which the caller guarantees by
    /// bounding its batches.
    pub fn from_events(client_id: &str, events: &Vec<UsageEvent>) -> (r: ClientUsageSummary)
        requires
            events@.len() <= u64::MAX,
            spec_sum_request_bytes(events@.map_values(|e: UsageEvent| e@)) <= u64::MAX,
            spec_sum_response_bytes(events@.map_values(|e: UsageEvent| e@)) <= u64::MAX,
            spec_sum_latency(events@.map_values(|e: UsageEvent| e@)) <= u64::MAX,
        ensures
            r.client_id@ == client_id@,
            r.total_requests == events@.len(),
            r.total_bytes_in == spec_sum_request_bytes(events@.map_values(|e: UsageEvent| e@)),
            r.total_bytes_out == spec_sum_response_bytes(events@.map_values(|e: UsageEvent| e@)),
            r.error_count == spec_error_count(events@.map_values(|e: UsageEvent| e@)),
            events@.len() > 0 ==> r.avg_latency_us as int
                == spec_sum_latency(events@.map_values(|e: UsageEvent| e@)) / events@.len() as int,
            events@.len() == 0 ==> r.avg_latency_us == 0,
    {
        let ghost ev = events@.map_values(|e: UsageEvent| e@);
        let n = events.len();
        let mut bytes_in: u64 = 0;
        let mut bytes_out: u64 = 0;
        let mut latency: u64 = 0;
        let mut errors: u64 = 0;
        let mut i: usize = 0;
        while i < n
            invariant
                ev == events@.map_values(|e: UsageEvent| e@),
                n == events@.len(),
                n <= u64::MAX,
                i <= n,
                spec_sum_request_bytes(ev) <= u64::MAX,
                spec_sum_response_bytes(ev) <= u64::MAX,
                spec_sum_latency(ev) <= u64::MAX,
                bytes_in == spec_sum_request_bytes(ev.subrange(0, i as int)),
                bytes_out == spec_sum_response_bytes(ev.subrange(0, i as int)),
                latency == spec_sum_latency(ev.subrange(0, i as int)),
                errors == spec_error_count(ev.subrange(0, i as int)),
            decreases n - i,
        {
            let ghost pre = ev.subrange(0, i as int);
            let ghost post = ev.subrange(0, i as int + 1);
            proof {
                assert(post.drop_last() =~= pre);
                assert(post.last() == ev[i as int]);
                assert(ev[i as int] == events@[i as int]@);
                lemma_partial_sums_bounded(ev, i as int + 1);
            }
            bytes_in = bytes_in + events[i].request_bytes;
            bytes_out = bytes_out + events[i].response_bytes;
            latency = latency + events[i].latency_us;
            if events[i].status_code >= 400 {
                errors = errors + 1;
            }
            i += 1;
        }
        proof {
            assert(ev.subrange(0, n as int) =~= ev);
        }
        let avg = if n > 0 {
            latency / (n as u64)
        } else {
            0
        };
        ClientUsageSummary {
            client_id: client_id.to_owned(),
            total_requests: n as u64,
            total_bytes_in: bytes_in,
            total_bytes_out: bytes_out,
            avg_latency_us: avg,
            error_count: errors,
        }
    }
}

/// Partial sums are bounded by the full sums: every prefix of a batch sums
/// to no more than the whole batch.
proof fn lemma_partial_sums_bounded(ev: Seq<UsageEventView>, k: int)
    requires
        0 <= k <= ev.len(),
    ensures
        spec_sum_request_bytes(ev.subrange(0, k)) <= spec_sum_request_bytes(ev),
        spec_sum_response_bytes(ev.subrange(0, k)) <= spec_sum_response_bytes(ev),
        spec_sum_latency(ev.subrange(0, k)) <= spec_sum_latency(ev),
        spec_error_count(ev.subrange(0, k)) <= spec_error_count(ev),
        spec_error_count(ev) <= ev.len(),
        spec_sum_request_bytes(ev.subrange(0, k)) >= 0,
        spec_sum_response_bytes(ev.subrange(0, k)) >= 0,
        spec_sum_latency(ev.subrange(0, k)) >= 0,
        spec_error_count(ev.subrange(0, k)) >= 0,
    decreases ev.len(),
{
    lemma_sums_nonneg(ev.subrange(0, k));
    if k < ev.len() {
        let pre = ev.drop_last();
        assert(forall|i: int| 0 <= i < ev.len() - 1 ==> #[trigger] pre[i] == ev[i]);
        assert(ev.subrange(0, k) =~= pre.subrange(0, k));
        lemma_partial_sums_bounded(pre, k);
    } else {
        assert(ev.subrange(0, k) =~= ev);
        lemma_sums_nonneg(ev);
        if ev.len() > 0 {
            lemma_partial_sums_bounded(ev.drop_last(), ev.len() - 1);
            assert(ev.drop_last().subrange(0, ev.len() - 1) =~= ev.drop_last());
        }
    }
}

/// All the batch sums are nonnegative, and the error count is at most the
/// batch length.
proof fn lemma_sums_nonneg(ev: Seq<UsageEventView>)
    ensures
        spec_sum_request_bytes(ev) >= 0,
        spec_sum_response_bytes(ev) >= 0,
        spec_sum_latency(ev) >= 0,
        0 <= spec_error_count(ev) <= ev.len(),
    decreases ev.len(),
{
    if ev.len() > 0 {
        lemma_sums_nonneg(ev.drop_last());
    }
}

/// The batching rule of the collector: a batch is flushed as soon as it
/// reaches the configured batch size.
pub fn batch_ready(batch_len: usize, config: &MeterConfig) -> (r: bool)
    ensures
        r == (batch_len >= config.batch_size),
{
    batch_len >= config.batch_size
}

} // verus!
