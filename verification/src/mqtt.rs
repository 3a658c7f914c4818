//! MQTT adapter model: quality-of-service levels, client and bridge
//! configuration, topic matching with `+` and `#` wildcards, and the rules
//! that turn received messages into contexts.
//!
//! The broker connection itself (socket, reconnect backoff, event loop) is
//! driven outside the core; everything the bridge decides is here.

use vstd::prelude::*;
use crate::context::{ContextBuilder, NaseejContext, ProtocolType};
use crate::strutil::{spec_split, split_str, str_eq};

verus! {

/// MQTT quality-of-service levels.
#[derive(Debug, Clone, Copy, PartialEq, Eq, Structural)]
pub enum MqttQos {
    /// Fire and forget.
    AtMostOnce,
    /// Acknowledged delivery.
    AtLeastOnce,
    /// Exactly-once handshake.
    ExactlyOnce,
}

impl MqttQos {
    /// The wire number of this level.
    pub fn as_u8(&self) -> (r: u8)
        ensures
            r == self.spec_u8(),
    {
        match self {
            MqttQos::AtMostOnce => 0,
            MqttQos::AtLeastOnce => 1,
            MqttQos::ExactlyOnce => 2,
        }
    }

    /// The wire number, as a specification-level function.
    pub open spec fn spec_u8(&self) -> u8 {
        match self {
            MqttQos::AtMostOnce => 0,
            MqttQos::AtLeastOnce => 1,
            MqttQos::ExactlyOnce => 2,
        }
    }

    /// The level for a wire number; anything unknown is read as
    /// at-least-once.
    pub fn from_u8(v: u8) -> (r: MqttQos)
        ensures
            v == 0 ==> r is AtMostOnce,
            v == 2 ==> r is ExactlyOnce,
            v != 0 && v != 2 ==> r is AtLeastOnce,
    {
        if v == 0 {
            MqttQos::AtMostOnce
        } else if v == 2 {
            MqttQos::ExactlyOnce
        } else {
            MqttQos::AtLeastOnce
        }
    }
}

/// Default MQTT broker port.
pub const DEFAULT_MQTT_PORT: u16 = 1883;

/// Default keep-alive interval in seconds.
pub const DEFAULT_KEEP_ALIVE_SECS: u64 = 60;

/// One topic subscription.
#[derive(Debug)]
pub struct SubscriptionConfig {
    /// Topic filter; `+` matches one level, `#` the rest.
    pub topic: String,
    /// Subscription quality of service.
    pub qos: MqttQos,
}

/// MQTT client configuration.
#[derive(Debug)]
pub struct MqttClientConfig {
    /// Client identifier, unique per connection.
    pub client_id: String,
    /// Broker host.
    pub host: String,
    /// Broker port.
    pub port: u16,
    /// Keep-alive interval in seconds.
    pub keep_alive_secs: u64,
    /// Whether to start with a clean session.
    pub clean_session: bool,
    /// Topics to subscribe to.
    pub subscriptions: Vec<SubscriptionConfig>,
    /// Optional username.
    pub username: Option<String>,
    /// Optional password.
    pub password: Option<String>,
}

impl MqttClientConfig {
    /// A client configuration with the default port, keep-alive and clean
    /// session, and no subscriptions or credentials.
    pub fn new(client_id: &str, host: &str) -> (r: MqttClientConfig)
        ensures
            r.client_id@ == client_id@,
            r.host@ == host@,
            r.port == DEFAULT_MQTT_PORT,
            r.keep_alive_secs == DEFAULT_KEEP_ALIVE_SECS,
            r.clean_session,
            r.subscriptions@.len() == 0,
            r.username is None,
            r.password is None,
    {
        MqttClientConfig {
            client_id: client_id.to_owned(),
            host: host.to_owned(),
            port: DEFAULT_MQTT_PORT,
            keep_alive_secs: DEFAULT_KEEP_ALIVE_SECS,
            clean_session: true,
            subscriptions: Vec::new(),
            username: None,
            password: None,
        }
    }
}

/// A message received from the broker.
#[derive(Debug)]
pub struct MqttMessage {
    /// The topic it was published to.
    pub topic: String,
    /// The payload bytes.
    pub payload: Vec<u8>,
    /// Delivery quality of service.
    pub qos: MqttQos,
    /// The broker's retain flag.
    pub retain: bool,
}

impl MqttMessage {
    /// The context of a received message: destination is the topic, and the
    /// metadata carries `mqtt.qos` and `mqtt.retain`.
    pub fn to_context(&self) -> (r: NaseejContext)
        ensures
            r.wf(),
            r.protocol is Mqtt,
            r.destination@ == self.topic@,
            r.payload@ == self.payload@,
            r.metadata@ == Map::<Seq<char>, Seq<char>>::empty()
                .insert("mqtt.qos"@, crate::strutil::spec_nat_chars(self.qos.spec_u8() as int))
                .insert("mqtt.retain"@, if self.retain { "true"@ } else { "false"@ }),
    {
        let mut payload: Vec<u8> = Vec::new();
        let mut i: usize = 0;
        while i < self.payload.len()
            invariant
                i <= self.payload@.len(),
                payload@ == self.payload@.subrange(0, i as int),
            decreases self.payload@.len() - i,
        {
            payload.push(self.payload[i]);
            proof {
                assert(self.payload@.subrange(0, i as int + 1)
                    =~= self.payload@.subrange(0, i as int).push(self.payload@[i as int]));
            }
            i += 1;
        }
        proof {
            assert(self.payload@.subrange(0, self.payload@.len() as int) =~= self.payload@);
        }
        let qos_text = crate::strutil::u64_to_string(self.qos.as_u8() as u64);
        let retain_text: &str = if self.retain {
            "true"
        } else {
            "false"
        };
        ContextBuilder::new(ProtocolType::Mqtt, self.topic.as_str())
            .payload(payload)
            .metadata("mqtt.qos", qos_text.as_str())
            .metadata("mqtt.retain", retain_text)
            .build()
    }
}

/// Payload transformations a topic route may apply.
#[derive(Debug, Clone, Copy, PartialEq, Eq, Structural)]
pub enum TransformType {
    /// Pass the payload through.
    Plain,
    /// Treat the payload as JSON.
    Json,
    /// Treat the payload as XML.
    Xml,
}

/// A topic routing rule of the bridge.
#[derive(Debug)]
pub struct TopicRoute {
    /// Topic pattern, with MQTT wildcards.
    pub topic_pattern: String,
    /// Protocol of the target.
    pub target_protocol: ProtocolType,
    /// Target destination: a URL, topic or path.
    pub target_destination: String,
    /// Payload transformation to apply.
    pub transform: TransformType,
}

/// MQTT bridge configuration.
#[derive(Debug)]
pub struct MqttBridgeConfig {
    /// The broker connection.
    pub client: MqttClientConfig,
    /// Topic routing rules.
    pub routes: Vec<TopicRoute>,
    /// Whether payload transformation is enabled.
    pub transform_enabled: bool,
}

/// Do the topic-filter segments match the topic segments? `#` matches
/// everything from its level on (but requires at least one level), `+`
/// matches exactly one level.
pub open spec fn spec_parts_match(p: Seq<Seq<char>>, t: Seq<Seq<char>>) -> bool
    decreases p.len() + t.len(),
{
    if p.len() == 0 || t.len() == 0 {
        p.len() == 0 && t.len() == 0
    } else if p[0] == "#"@ {
        true
    } else if p[0] == "+"@ || p[0] == t[0] {
        spec_parts_match(p.drop_first(), t.drop_first())
    } else {
        false
    }
}

/// Does the topic filter `pattern` match `topic`?
pub open spec fn spec_topic_matches(pattern: Seq<char>, topic: Seq<char>) -> bool {
    spec_parts_match(spec_split(pattern, '/'), spec_split(topic, '/'))
}

/// Whether an MQTT topic filter matches a topic: `+` matches one level, `#`
/// all remaining levels.
#[verifier::loop_isolation(false)]
pub fn topic_matches(pattern: &str, topic: &str) -> (r: bool)
    ensures
        r == spec_topic_matches(pattern@, topic@),
{
    let pattern_parts = split_str(pattern, '/');
    let topic_parts = split_str(topic, '/');
    let ghost pv = pattern_parts@.map_values(|p: String| p@);
    let ghost tv = topic_parts@.map_values(|p: String| p@);
    let plen = pattern_parts.len();
    let tlen = topic_parts.len();
    proof {
        assert(pv.skip(0) =~= pv);
        assert(tv.skip(0) =~= tv);
    }
    let mut i: usize = 0;
    while i < plen && i < tlen
        invariant
            pv == pattern_parts@.map_values(|p: String| p@),
            tv == topic_parts@.map_values(|p: String| p@),
            plen == pv.len(),
            tlen == tv.len(),
            i <= plen,
            i <= tlen,
            spec_parts_match(pv, tv) == spec_parts_match(pv.skip(i as int), tv.skip(i as int)),
        decreases plen - i,
    {
        proof {
            assert(pv.skip(i as int).len() == pv.len() - i);
            assert(tv.skip(i as int).len() == tv.len() - i);
            assert(pv.skip(i as int)[0] == pv[i as int]);
            assert(tv.skip(i as int)[0] == tv[i as int]);
            assert(pv.skip(i as int).drop_first() =~= pv.skip(i as int + 1));
            assert(tv.skip(i as int).drop_first() =~= tv.skip(i as int + 1));
            assert(pv[i as int] == pattern_parts@[i as int]@);
            assert(tv[i as int] == topic_parts@[i as int]@);
        }
        if str_eq(pattern_parts[i].as_str(), "#") {
            return true;
        }
        if !str_eq(pattern_parts[i].as_str(), "+")
            && !str_eq(pattern_parts[i].as_str(), topic_parts[i].as_str()) {
            return false;
        }
        i += 1;
    }
    proof {
        assert(pv.skip(i as int).len() == pv.len() - i);
        assert(tv.skip(i as int).len() == tv.len() - i);
        if i < plen && pv.skip(i as int).len() > 0 && tv.skip(i as int).len() == 0 {
            assert(spec_parts_match(pv.skip(i as int), tv.skip(i as int)) == false);
        }
    }
    i == plen && i == tlen
}

/// Index of the first bridge route matching `topic`: the bridge forwards a
/// received message along this route and drops the message when none
/// matches.
#[verifier::loop_isolation(false)]
pub fn find_route(routes: &Vec<TopicRoute>, topic: &str) -> (r: Option<usize>)
    ensures
        (match r {
            Some(i) => i < routes@.len()
                && spec_topic_matches(routes@[i as int].topic_pattern@, topic@)
                && forall|j: int| 0 <= j < i
                    ==> !spec_topic_matches(#[trigger] routes@[j].topic_pattern@, topic@),
            None => forall|j: int| 0 <= j < routes@.len()
                ==> !spec_topic_matches(#[trigger] routes@[j].topic_pattern@, topic@),
        }),
{
    let mut i: usize = 0;
    while i < routes.len()
        invariant
            i <= routes@.len(),
            forall|j: int| 0 <= j < i
                ==> !spec_topic_matches(#[trigger] routes@[j].topic_pattern@, topic@),
        decreases routes@.len() - i,
    {
        if topic_matches(routes[i].topic_pattern.as_str(), topic) {
            return Some(i);
        }
        i += 1;
    }
    None
}

/// Redirect a context along a bridge route: the destination becomes the
/// route's target, everything else is kept.
pub fn bridge_redirect(ctx: NaseejContext, route: &TopicRoute) -> (r: NaseejContext)
    ensures
        r.destination@ == route.target_destination@,
        r.payload@ == ctx.payload@,
        r.metadata@ == ctx.metadata@,
        r.protocol == ctx.protocol,
        r.trace_id@ == ctx.trace_id@,
        ctx.wf() ==> r.wf(),
{
    NaseejContext { destination: route.target_destination.clone(), ..ctx }
}

/// The quality of service an outbound context is published with: the
/// `mqtt.qos` metadata value when it parses as a level, at-least-once
/// otherwise.
pub fn outbound_qos(ctx: &NaseejContext) -> (r: MqttQos)
    requires
        ctx.wf(),
    ensures
        !ctx.metadata@.contains_key("mqtt.qos"@) ==> r is AtLeastOnce,
        ctx.metadata@.contains_key("mqtt.qos"@) && ctx.metadata@["mqtt.qos"@] == "0"@
            ==> r is AtMostOnce,
        ctx.metadata@.contains_key("mqtt.qos"@) && ctx.metadata@["mqtt.qos"@] == "2"@
            ==> r is ExactlyOnce,
    {
    proof {
        reveal_strlit("0");
        reveal_strlit("2");
        assert("0"@[0] == '0' && "2"@[0] == '2');
        assert("0"@ != "2"@);
    }
    match ctx.get_metadata("mqtt.qos") {
        Some(v) => {
            if str_eq(v.as_str(), "0") {
                MqttQos::AtMostOnce
            } else if str_eq(v.as_str(), "2") {
                MqttQos::ExactlyOnce
            } else {
                MqttQos::AtLeastOnce
            }
        },
        None => MqttQos::AtLeastOnce,
    }
}

} // verus!
