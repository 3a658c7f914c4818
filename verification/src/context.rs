//! The universal message context: the protocol-agnostic envelope every
//! adapter converts into and out of.

use vstd::prelude::*;
use crate::assoc::assoc_distinct;

verus! {

/// Relies on uuid::Uuid::new_v4 and Uuid::to_string: a fresh random
/// identifier in hyphenated form, which is always 36 characters; nothing is
/// promised of its value beyond the length.
#[verifier::external_body]
pub(crate) fn random_uuid_string() -> (r: String)
    ensures
        r@.len() == 36,
{
    uuid::Uuid::new_v4().to_string()
}

/// Unique trace identifier for distributed tracing.
#[derive(Debug)]
pub struct TraceId(pub String);

impl View for TraceId {
    type V = Seq<char>;

    open spec fn view(&self) -> Seq<char> {
        self.0@
    }
}

impl TraceId {
    /// A fresh random trace identifier.
    pub fn new() -> (r: TraceId)
        ensures
            r@.len() == 36,
    {
        TraceId(random_uuid_string())
    }

    /// A trace identifier carried over from an upstream peer.
    pub fn from_string(s: &str) -> (r: TraceId)
        ensures
            r@ == s@,
    {
        TraceId(s.to_owned())
    }

    /// An exact copy.
    pub fn duplicate(&self) -> (r: TraceId)
        ensures
            r@ == self@,
    {
        TraceId(self.0.clone())
    }
}

/// The wire protocols the gateway speaks.
#[derive(Debug, Clone, Copy, PartialEq, Eq, Structural, Hash)]
pub enum ProtocolType {
    /// HTTP/1.1 and HTTP/2.
    Http,
    /// MQTT v3.1.1 and v5.
    Mqtt,
    /// gRPC over HTTP/2 with binary Protobuf.
    Grpc,
    /// SOAP/XML over HTTP.
    Soap,
}

impl ProtocolType {
    /// The lowercase tag of this protocol.
    pub fn as_str(&self) -> (r: &'static str)
        ensures
            r@ == self.spec_str(),
    {
        match self {
            ProtocolType::Http => "http",
            ProtocolType::Mqtt => "mqtt",
            ProtocolType::Grpc => "grpc",
            ProtocolType::Soap => "soap",
        }
    }

    /// The lowercase tag, as a specification-level function.
    pub open spec fn spec_str(&self) -> Seq<char> {
        match self {
            ProtocolType::Http => "http"@,
            ProtocolType::Mqtt => "mqtt"@,
            ProtocolType::Grpc => "grpc"@,
            ProtocolType::Soap => "soap"@,
        }
    }
}

/// A string-to-string map with insertion-order-irrelevant semantics, used
/// for headers, topics and properties.
#[derive(Debug)]
pub struct Metadata {
    /// The entries; keys are pairwise distinct.
    pub pairs: Vec<(String, String)>,
}

/// The map denoted by a list of string pairs; a later pair wins over an
/// earlier one under the same key.
pub open spec fn str_assoc_map(s: Seq<(String, String)>) -> Map<Seq<char>, Seq<char>>
    decreases s.len(),
{
    if s.len() == 0 {
        Map::empty()
    } else {
        str_assoc_map(s.drop_last()).insert(s.last().0@, s.last().1@)
    }
}

/// With distinct keys, the pair list and its map agree entry by entry, and
/// absent keys are absent from the map.
pub proof fn lemma_str_assoc_map_index(s: Seq<(String, String)>)
    requires
        assoc_distinct(s),
    ensures
        forall|i: int| 0 <= i < s.len() ==> str_assoc_map(s).contains_key(#[trigger] s[i].0@),
        forall|i: int| 0 <= i < s.len() ==> str_assoc_map(s)[#[trigger] s[i].0@] == s[i].1@,
        forall|k: Seq<char>| str_assoc_map(s).contains_key(k)
            ==> exists|i: int| 0 <= i < s.len() && #[trigger] s[i].0@ == k,
    decreases s.len(),
{
    if s.len() > 0 {
        assert(forall|i: int| 0 <= i < s.len() - 1 ==> #[trigger] s.drop_last()[i] == s[i]);
        lemma_str_assoc_map_index(s.drop_last());
        let last = s.last();
        assert forall|i: int| 0 <= i < s.len()
            implies str_assoc_map(s).contains_key(#[trigger] s[i].0@)
                && str_assoc_map(s)[s[i].0@] == s[i].1@ by {
            if i < s.len() - 1 {
                assert(str_assoc_map(s.drop_last()).contains_key(s.drop_last()[i].0@));
                assert(s[i].0@ != last.0@);
            } else {
                assert(s[i] == last);
            }
        }
        assert forall|k: Seq<char>| str_assoc_map(s).contains_key(k)
            implies exists|i: int| 0 <= i < s.len() && #[trigger] s[i].0@ == k by {
            if k == last.0@ {
                assert(s[s.len() - 1].0@ == k);
            } else {
                assert(str_assoc_map(s.drop_last()).contains_key(k));
                let w = choose|w: int| 0 <= w < s.drop_last().len()
                    && #[trigger] s.drop_last()[w].0@ == k;
                assert(s[w].0@ == k);
            }
        }
    }
}

/// Updating the pair at index `i` in place, keeping its key, denotes a map
/// insert under that key.
pub proof fn lemma_str_assoc_map_update(s: Seq<(String, String)>, i: int, p: (String, String))
    requires
        assoc_distinct(s),
        0 <= i < s.len(),
        p.0@ == s[i].0@,
    ensures
        str_assoc_map(s.update(i, p)) == str_assoc_map(s).insert(p.0@, p.1@),
        assoc_distinct(s.update(i, p)),
    decreases s.len(),
{
    let su = s.update(i, p);
    assert(forall|j: int| 0 <= j < s.len() - 1 ==> #[trigger] s.drop_last()[j] == s[j]);
    if i == s.len() - 1 {
        assert(su.drop_last() =~= s.drop_last());
        assert(su.last() == p);
        assert(str_assoc_map(su) =~= str_assoc_map(s).insert(p.0@, p.1@));
    } else {
        assert(su.drop_last() =~= s.drop_last().update(i, p));
        assert(su.last() == s.last());
        lemma_str_assoc_map_update(s.drop_last(), i, p);
        assert(p.0@ != s.last().0@);
        assert(str_assoc_map(s.drop_last()).insert(p.0@, p.1@).insert(s.last().0@, s.last().1@)
            =~= str_assoc_map(s.drop_last()).insert(s.last().0@, s.last().1@).insert(
                p.0@, p.1@));
    }
}

/// Appending a pair with a fresh key denotes a map insert under that key.
pub proof fn lemma_str_assoc_map_push(s: Seq<(String, String)>, p: (String, String))
    requires
        assoc_distinct(s),
        forall|i: int| 0 <= i < s.len() ==> #[trigger] s[i].0@ != p.0@,
    ensures
        str_assoc_map(s.push(p)) == str_assoc_map(s).insert(p.0@, p.1@),
        assoc_distinct(s.push(p)),
{
    assert(s.push(p).drop_last() =~= s);
    assert(s.push(p).last() == p);
}

impl View for Metadata {
    type V = Map<Seq<char>, Seq<char>>;

    open spec fn view(&self) -> Map<Seq<char>, Seq<char>> {
        str_assoc_map(self.pairs@)
    }
}

impl Metadata {
    /// Key distinctness.
    pub open spec fn wf(&self) -> bool {
        assoc_distinct(self.pairs@)
    }

    /// An empty metadata map.
    pub fn new() -> (r: Metadata)
        ensures
            r.wf(),
            r@ == Map::<Seq<char>, Seq<char>>::empty(),
    {
        Metadata { pairs: Vec::new() }
    }

    /// Insert or replace one entry.
    #[verifier::loop_isolation(false)]
    pub fn insert(&mut self, key: &str, value: String)
        requires
            old(self).wf(),
        ensures
            final(self).wf(),
            final(self)@ == old(self)@.insert(key@, value@),
    {
        let n = self.pairs.len();
        let mut i: usize = 0;
        while i < n
            invariant
                *self == *old(self),
                n == self.pairs@.len(),
                i <= n,
                forall|j: int| 0 <= j < i ==> #[trigger] self.pairs@[j].0@ != key@,
            decreases n - i,
        {
            if crate::strutil::str_eq(self.pairs[i].0.as_str(), key) {
                let owned = key.to_owned();
                proof {
                    lemma_str_assoc_map_update(self.pairs@, i as int, (owned, value));
                }
                self.pairs.set(i, (owned, value));
                return;
            }
            i += 1;
        }
        let owned = key.to_owned();
        proof {
            lemma_str_assoc_map_push(self.pairs@, (owned, value));
        }
        self.pairs.push((owned, value));
    }

    /// Look one entry up.
    #[verifier::loop_isolation(false)]
    pub fn get<'a>(&'a self, key: &str) -> (r: Option<&'a String>)
        requires
            self.wf(),
        ensures
            (match r {
                Some(v) => self@.contains_key(key@) && self@[key@] == v@,
                None => !self@.contains_key(key@),
            }),
    {
        proof {
            lemma_str_assoc_map_index(self.pairs@);
        }
        let n = self.pairs.len();
        let mut i: usize = 0;
        while i < n
            invariant
                n == self.pairs@.len(),
                i <= n,
                forall|j: int| 0 <= j < i ==> #[trigger] self.pairs@[j].0@ != key@,
            decreases n - i,
        {
            if crate::strutil::str_eq(self.pairs[i].0.as_str(), key) {
                proof {
                    assert(self.pairs@[i as int].0@ == key@);
                    assert(self@.contains_key(self.pairs@[i as int].0@));
                    assert(self@[self.pairs@[i as int].0@] == self.pairs@[i as int].1@);
                }
                return Some(&self.pairs[i].1);
            }
            i += 1;
        }
        proof {
            if self@.contains_key(key@) {
                let w = choose|w: int| 0 <= w < self.pairs@.len()
                    && #[trigger] self.pairs@[w].0@ == key@;
                assert(false);
            }
        }
        None
    }

    /// Number of entries.
    pub fn len(&self) -> (n: usize)
        ensures
            n == self.pairs@.len(),
    {
        self.pairs.len()
    }

    /// An exact copy.
    pub fn duplicate(&self) -> (r: Metadata)
        ensures
            r.pairs@.len() == self.pairs@.len(),
            forall|i: int| 0 <= i < self.pairs@.len()
                ==> (#[trigger] r.pairs@[i]).0@ == self.pairs@[i].0@
                    && r.pairs@[i].1@ == self.pairs@[i].1@,
            r@ == self@,
            self.wf() ==> r.wf(),
    {
        let mut pairs: Vec<(String, String)> = Vec::new();
        let n = self.pairs.len();
        let mut i: usize = 0;
        while i < n
            invariant
                n == self.pairs@.len(),
                i <= n,
                pairs@.len() == i,
                forall|j: int| 0 <= j < i ==> (#[trigger] pairs@[j]).0@ == self.pairs@[j].0@
                    && pairs@[j].1@ == self.pairs@[j].1@,
            decreases n - i,
        {
            pairs.push((self.pairs[i].0.clone(), self.pairs[i].1.clone()));
            i += 1;
        }
        let r = Metadata { pairs };
        proof {
            lemma_str_assoc_map_agrees(r.pairs@, self.pairs@);
        }
        r
    }
}

/// Two pair lists with pointwise equal views denote the same map.
proof fn lemma_str_assoc_map_agrees(a: Seq<(String, String)>, b: Seq<(String, String)>)
    ensures
        a.len() == b.len() && (forall|i: int| 0 <= i < a.len()
            ==> (#[trigger] a[i]).0@ == b[i].0@ && a[i].1@ == b[i].1@)
            ==> str_assoc_map(a) == str_assoc_map(b),
    decreases a.len(),
{
    if a.len() == b.len() && a.len() > 0 && (forall|i: int| 0 <= i < a.len()
        ==> (#[trigger] a[i]).0@ == b[i].0@ && a[i].1@ == b[i].1@) {
        lemma_str_assoc_map_agrees(a.drop_last(), b.drop_last());
        assert(forall|i: int| 0 <= i < a.len() - 1 ==> #[trigger] a.drop_last()[i] == a[i]);
        assert(forall|i: int| 0 <= i < b.len() - 1 ==> #[trigger] b.drop_last()[i] == b[i]);
        assert(a[a.len() - 1].0@ == b[b.len() - 1].0@ && a[a.len() - 1].1@ == b[b.len() - 1].1@);
        assert(str_assoc_map(a) =~= str_assoc_map(b));
    }
}

/// The universal message context: trace identity, payload, metadata,
/// protocol tag, timestamp, source, destination and method.
#[derive(Debug)]
pub struct NaseejContext {
    /// Trace identifier, generated when absent.
    pub trace_id: TraceId,
    /// Span identifier within the trace.
    pub span_id: Option<String>,
    /// Parent span identifier for propagation.
    pub parent_span_id: Option<String>,
    /// The raw payload bytes.
    pub payload: Vec<u8>,
    /// Content type of the payload.
    pub content_type: Option<String>,
    /// Headers, topics or properties, normalized to one map.
    pub metadata: Metadata,
    /// The source protocol.
    pub protocol: ProtocolType,
    /// Unix milliseconds at which the message was received.
    pub timestamp_ms: u64,
    /// Source address or client identifier.
    pub source: Option<String>,
    /// Path, topic, `/service/method` or action.
    pub destination: String,
    /// Method, where the protocol has one.
    pub method: Option<String>,
}

impl NaseejContext {
    /// Context well-formedness: the metadata map has distinct keys.
    pub open spec fn wf(&self) -> bool {
        self.metadata.wf()
    }

    /// A new context with a fresh trace identifier, stamped now.
    pub fn new(protocol: ProtocolType, destination: &str, payload: Vec<u8>) -> (r: NaseejContext)
        ensures
            r.wf(),
            r.protocol == protocol,
            r.destination@ == destination@,
            r.payload@ == payload@,
            r.trace_id@.len() == 36,
            r.span_id is None,
            r.parent_span_id is None,
            r.content_type is None,
            r.metadata@ == Map::<Seq<char>, Seq<char>>::empty(),
            r.source is None,
            r.method is None,
    {
        NaseejContext {
            trace_id: TraceId::new(),
            span_id: None,
            parent_span_id: None,
            payload,
            content_type: None,
            metadata: Metadata::new(),
            protocol,
            timestamp_ms: crate::clock::now_epoch_ms(),
            source: None,
            destination: destination.to_owned(),
            method: None,
        }
    }

    /// Replace the trace identifier (propagation).
    pub fn with_trace_id(self, trace_id: TraceId) -> (r: NaseejContext)
        ensures
            r.trace_id@ == trace_id@,
            r.payload@ == self.payload@,
            r.destination@ == self.destination@,
            r.metadata@ == self.metadata@,
            r.protocol == self.protocol,
            self.wf() ==> r.wf(),
    {
        NaseejContext { trace_id, ..self }
    }

    /// Set the content type.
    pub fn with_content_type(self, content_type: &str) -> (r: NaseejContext)
        ensures
            (match r.content_type {
                Some(ref ct) => ct@ == content_type@,
                None => false,
            }),
            r.payload@ == self.payload@,
            r.destination@ == self.destination@,
            r.metadata@ == self.metadata@,
            r.protocol == self.protocol,
            r.trace_id@ == self.trace_id@,
            self.wf() ==> r.wf(),
    {
        NaseejContext { content_type: Some(content_type.to_owned()), ..self }
    }

    /// Add one metadata entry.
    pub fn with_metadata(self, key: &str, value: &str) -> (r: NaseejContext)
        requires
            self.wf(),
        ensures
            r.wf(),
            r.metadata@ == self.metadata@.insert(key@, value@),
            r.payload@ == self.payload@,
            r.destination@ == self.destination@,
            r.protocol == self.protocol,
            r.trace_id@ == self.trace_id@,
    {
        let mut md = self.metadata;
        md.insert(key, value.to_owned());
        NaseejContext { metadata: md, ..self }
    }

    /// Set the source address.
    pub fn with_source(self, source: &str) -> (r: NaseejContext)
        ensures
            (match r.source {
                Some(ref s) => s@ == source@,
                None => false,
            }),
            r.metadata@ == self.metadata@,
            r.payload@ == self.payload@,
            r.destination@ == self.destination@,
            r.protocol == self.protocol,
            self.wf() ==> r.wf(),
    {
        NaseejContext { source: Some(source.to_owned()), ..self }
    }

    /// Set the method.
    pub fn with_method(self, method: &str) -> (r: NaseejContext)
        ensures
            (match r.method {
                Some(ref m) => m@ == method@,
                None => false,
            }),
            r.metadata@ == self.metadata@,
            r.payload@ == self.payload@,
            r.destination@ == self.destination@,
            r.protocol == self.protocol,
            self.wf() ==> r.wf(),
    {
        NaseejContext { method: Some(method.to_owned()), ..self }
    }

    /// Look one metadata entry up.
    pub fn get_metadata<'a>(&'a self, key: &str) -> (r: Option<&'a String>)
        requires
            self.wf(),
        ensures
            (match r {
                Some(v) => self.metadata@.contains_key(key@) && self.metadata@[key@] == v@,
                None => !self.metadata@.contains_key(key@),
            }),
    {
        self.metadata.get(key)
    }

    /// Is the payload empty?
    pub fn is_empty(&self) -> (r: bool)
        ensures
            r == (self.payload@.len() == 0),
    {
        self.payload.len() == 0
    }

    /// Payload length in bytes.
    pub fn payload_len(&self) -> (n: usize)
        ensures
            n == self.payload@.len(),
    {
        self.payload.len()
    }

    /// The W3C `traceparent` value of this context: version `00`, the trace
    /// identifier, the span identifier (or sixteen zeros), and the sampled
    /// flag.
    pub fn traceparent(&self) -> (r: String)
        ensures
            r@ == "00-"@ + self.trace_id@ + "-"@ + (match self.span_id {
                Some(ref sp) => sp@,
                None => "0000000000000000"@,
            }) + "-01"@,
    {
        let mut s = String::new();
        s.append("00-");
        s.append(self.trace_id.0.as_str());
        s.append("-");
        match self.span_id {
            Some(ref sp) => s.append(sp.as_str()),
            None => s.append("0000000000000000"),
        }
        s.append("-01");
        proof {
            assert(s@ =~= "00-"@ + self.trace_id@ + "-"@ + (match self.span_id {
                Some(ref sp) => sp@,
                None => "0000000000000000"@,
            }) + "-01"@);
        }
        s
    }

    /// The trace-propagation headers of this context: one `traceparent`
    /// entry.
    pub fn trace_context(&self) -> (r: Metadata)
        ensures
            r.wf(),
            r@ == Map::<Seq<char>, Seq<char>>::empty().insert("traceparent"@,
                "00-"@ + self.trace_id@ + "-"@ + (match self.span_id {
                    Some(ref sp) => sp@,
                    None => "0000000000000000"@,
                }) + "-01"@),
    {
        let mut md = Metadata::new();
        let tp = self.traceparent();
        md.insert("traceparent", tp);
        md
    }
}

/// Builder for contexts arriving from protocol-specific ingress.
pub struct ContextBuilder {
    /// The context under construction.
    pub context: NaseejContext,
}

impl ContextBuilder {
    /// Start building a context for a protocol and destination, with an
    /// empty payload.
    pub fn new(protocol: ProtocolType, destination: &str) -> (r: ContextBuilder)
        ensures
            r.context.wf(),
            r.context.protocol == protocol,
            r.context.destination@ == destination@,
            r.context.payload@.len() == 0,
            r.context.metadata@ == Map::<Seq<char>, Seq<char>>::empty(),
    {
        ContextBuilder { context: NaseejContext::new(protocol, destination, Vec::new()) }
    }

    /// Set the payload.
    pub fn payload(self, payload: Vec<u8>) -> (r: ContextBuilder)
        ensures
            r.context.payload@ == payload@,
            r.context.metadata@ == self.context.metadata@,
            r.context.protocol == self.context.protocol,
            r.context.destination@ == self.context.destination@,
            self.context.wf() ==> r.context.wf(),
    {
        ContextBuilder { context: NaseejContext { payload, ..self.context } }
    }

    /// Set the trace identifier.
    pub fn trace_id(self, trace_id: TraceId) -> (r: ContextBuilder)
        ensures
            r.context.trace_id@ == trace_id@,
            r.context.payload@ == self.context.payload@,
            r.context.metadata@ == self.context.metadata@,
            r.context.protocol == self.context.protocol,
            r.context.destination@ == self.context.destination@,
            self.context.wf() ==> r.context.wf(),
    {
        ContextBuilder { context: self.context.with_trace_id(trace_id) }
    }

    /// Set the content type.
    pub fn content_type(self, content_type: &str) -> (r: ContextBuilder)
        ensures
            r.context.payload@ == self.context.payload@,
            r.context.metadata@ == self.context.metadata@,
            r.context.protocol == self.context.protocol,
            r.context.destination@ == self.context.destination@,
            self.context.wf() ==> r.context.wf(),
    {
        ContextBuilder { context: self.context.with_content_type(content_type) }
    }

    /// Add one metadata entry.
    pub fn metadata(self, key: &str, value: &str) -> (r: ContextBuilder)
        requires
            self.context.wf(),
        ensures
            r.context.wf(),
            r.context.metadata@ == self.context.metadata@.insert(key@, value@),
            r.context.payload@ == self.context.payload@,
            r.context.protocol == self.context.protocol,
            r.context.destination@ == self.context.destination@,
    {
        ContextBuilder { context: self.context.with_metadata(key, value) }
    }

    /// Set the source address.
    pub fn source(self, source: &str) -> (r: ContextBuilder)
        ensures
            r.context.payload@ == self.context.payload@,
            r.context.metadata@ == self.context.metadata@,
            r.context.protocol == self.context.protocol,
            r.context.destination@ == self.context.destination@,
            self.context.wf() ==> r.context.wf(),
    {
        ContextBuilder { context: self.context.with_source(source) }
    }

    /// Set the method.
    pub fn method(self, method: &str) -> (r: ContextBuilder)
        ensures
            r.context.payload@ == self.context.payload@,
            r.context.metadata@ == self.context.metadata@,
            r.context.protocol == self.context.protocol,
            r.context.destination@ == self.context.destination@,
            self.context.wf() ==> r.context.wf(),
    {
        ContextBuilder { context: self.context.with_method(method) }
    }

    /// Finish building.
    pub fn build(self) -> (r: NaseejContext)
        ensures
            r == self.context,
    {
        self.context
    }
}

} // verus!
