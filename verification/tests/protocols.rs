//! Protocol adapter behaviour: contexts and trace propagation, MQTT topic
//! matching, XML and JSON transcoding, SOAP envelopes, the gRPC wire codec,
//! the bounded body reader, metering, and the listener supervisor.

use naseej_gateway::body::{BoundedBodyReader, payload_starts_with, slice_payload, split_payload};
use naseej_gateway::context::{ContextBuilder, Metadata, NaseejContext, ProtocolType, TraceId};
use naseej_gateway::errors::GatewayError;
use naseej_gateway::grpc::{base64_decode, base64_encode, decode_varint, encode_varint,
    DescriptorPool, FieldDescriptor, FieldKind, GrpcTranscoder, MessageDescriptor};
use naseej_gateway::json::{json_eq, print_json, JsonVal};
use naseej_gateway::metering::{ClientUsageSummary, MeterConfig, UsageEvent};
use naseej_gateway::mqtt::{topic_matches, MqttMessage, MqttQos};
use naseej_gateway::soap::{SoapEnvelope, SoapVersion};
use naseej_gateway::supervisor::{ListenerConfig, ListenerEvent, ListenerSupervisor,
    ServiceConfig};
use naseej_gateway::telemetry::{extract_trace_from_http, extract_trace_from_mqtt, SpanKind};
use naseej_gateway::ingest::{ApiEndpoint, SchemaIngestor};
use naseej_gateway::xml::{escape_xml, JsonToXml, XmlToJson};

#[test]
fn test_trace_id_generation() {
    let id1 = TraceId::new();
    let id2 = TraceId::new();
    assert_ne!(id1.0, id2.0);
}

#[test]
fn test_context_creation() {
    let ctx = NaseejContext::new(ProtocolType::Http, "/api/users", b"test payload".to_vec());
    assert_eq!(ctx.protocol, ProtocolType::Http);
    assert_eq!(ctx.destination, "/api/users");
    assert_eq!(ctx.payload_len(), 12);
}

#[test]
fn test_context_builder() {
    let ctx = ContextBuilder::new(ProtocolType::Mqtt, "sensors/temperature")
        .payload(br#"{"temp": 22}"#.to_vec())
        .content_type("application/json")
        .metadata("qos", "1")
        .source("device-001")
        .build();

    assert_eq!(ctx.protocol, ProtocolType::Mqtt);
    assert_eq!(ctx.destination, "sensors/temperature");
    assert_eq!(ctx.content_type, Some("application/json".to_string()));
    assert_eq!(ctx.get_metadata("qos"), Some(&"1".to_string()));
}

#[test]
fn test_protocol_display() {
    assert_eq!(ProtocolType::Http.as_str(), "http");
    assert_eq!(ProtocolType::Mqtt.as_str(), "mqtt");
    assert_eq!(ProtocolType::Grpc.as_str(), "grpc");
    assert_eq!(ProtocolType::Soap.as_str(), "soap");
}

#[test]
fn test_span_kinds() {
    assert_eq!(SpanKind::Ingress.as_str(), "ingress");
    assert_eq!(SpanKind::Router.as_str(), "router");
    assert_eq!(SpanKind::Transform.as_str(), "transform");
    assert_eq!(SpanKind::Egress.as_str(), "egress");
}

#[test]
fn test_extract_trace_from_http() {
    let mut headers = Metadata::new();
    headers.insert(
        "traceparent",
        "00-0af7651916cd43dd8448eb211c80319c-b7ad6b7169203331-01".to_string(),
    );

    let trace_id = extract_trace_from_http(&headers);
    assert!(trace_id.is_some());
    assert_eq!(trace_id.unwrap().0, "0af7651916cd43dd8448eb211c80319c");
}

#[test]
fn test_extract_trace_from_mqtt() {
    let mut props = Metadata::new();
    props.insert("trace_id", "abc123".to_string());

    let trace_id = extract_trace_from_mqtt(&props);
    assert!(trace_id.is_some());
    assert_eq!(trace_id.unwrap().0, "abc123");
}

#[test]
fn test_traceparent_emission() {
    let ctx = NaseejContext::new(ProtocolType::Http, "/x", Vec::new())
        .with_trace_id(TraceId::from_string("0af7651916cd43dd8448eb211c80319c"));
    let tp = ctx.traceparent();
    assert_eq!(tp, "00-0af7651916cd43dd8448eb211c80319c-0000000000000000-01");
    let propagated = ctx.trace_context();
    assert_eq!(propagated.get("traceparent"), Some(&tp));
}

#[test]
fn test_topic_matches_exact() {
    assert!(topic_matches("sensors/temp", "sensors/temp"));
    assert!(!topic_matches("sensors/temp", "sensors/humidity"));
}

#[test]
fn test_topic_matches_single_wildcard() {
    assert!(topic_matches("sensors/+/temp", "sensors/room1/temp"));
    assert!(topic_matches("sensors/+/temp", "sensors/room2/temp"));
    assert!(!topic_matches("sensors/+/temp", "sensors/room1/humidity"));
}

#[test]
fn test_topic_matches_multi_wildcard() {
    assert!(topic_matches("sensors/#", "sensors/room1/temp"));
    assert!(topic_matches("sensors/#", "sensors/room1/room2/temp"));
    assert!(topic_matches("#", "anything/at/all"));
}

#[test]
fn test_qos_conversion() {
    assert_eq!(MqttQos::AtMostOnce.as_u8(), 0);
    assert_eq!(MqttQos::AtLeastOnce.as_u8(), 1);
    assert_eq!(MqttQos::ExactlyOnce.as_u8(), 2);
    assert_eq!(MqttQos::from_u8(0), MqttQos::AtMostOnce);
    assert_eq!(MqttQos::from_u8(2), MqttQos::ExactlyOnce);
    assert_eq!(MqttQos::from_u8(7), MqttQos::AtLeastOnce);
}

#[test]
fn test_mqtt_message_to_context() {
    let msg = MqttMessage {
        topic: "sensors/temperature".to_string(),
        payload: br#"{"temp": 22}"#.to_vec(),
        qos: MqttQos::AtLeastOnce,
        retain: false,
    };

    let ctx = msg.to_context();
    assert_eq!(ctx.protocol, ProtocolType::Mqtt);
    assert_eq!(ctx.destination, "sensors/temperature");
    assert_eq!(ctx.get_metadata("mqtt.qos"), Some(&"1".to_string()));
    assert_eq!(ctx.get_metadata("mqtt.retain"), Some(&"false".to_string()));
}

#[test]
fn test_escape_xml() {
    assert_eq!(escape_xml("<test>"), "&lt;test&gt;");
    assert_eq!(escape_xml("a & b"), "a &amp; b");
}

#[test]
fn test_simple_xml_to_json() {
    let xml = r#"<root><name>test</name><value>42</value></root>"#;
    let transcoder = XmlToJson::new();
    let result = transcoder.transcode_value(xml.as_bytes()).unwrap();

    let root = result.get(b"root").unwrap();
    assert!(root.get(b"name").is_some());
    assert!(root.get(b"value").is_some());
    assert!(json_eq(root.get(b"name").unwrap(), &JsonVal::Str(b"test".to_vec())));
}

#[test]
fn test_xml_with_attributes() {
    let xml = r#"<item id="123" type="product">content</item>"#;
    let transcoder = XmlToJson::new();
    let result = transcoder.transcode_value(xml.as_bytes()).unwrap();

    let item = result.get(b"item").unwrap();
    assert!(json_eq(item.get(b"@id").unwrap(), &JsonVal::Str(b"123".to_vec())));
    assert!(json_eq(item.get(b"@type").unwrap(), &JsonVal::Str(b"product".to_vec())));
    assert!(json_eq(item.get(b"#text").unwrap(), &JsonVal::Str(b"content".to_vec())));
}

#[test]
fn test_xml_namespace_stripping() {
    let xml = r#"<soap:Envelope><soap:Body>test</soap:Body></soap:Envelope>"#;
    let transcoder = XmlToJson::new().strip_namespaces(true);
    let result = transcoder.transcode_value(xml.as_bytes()).unwrap();
    assert!(result.get(b"Envelope").is_some());
}

#[test]
fn test_json_to_xml() {
    let mut pairs: Vec<(Vec<u8>, JsonVal)> = Vec::new();
    pairs.push((b"name".to_vec(), JsonVal::Str(b"test".to_vec())));
    pairs.push((b"value".to_vec(), JsonVal::Int(42)));
    let json = JsonVal::Obj(pairs);

    let transcoder = JsonToXml::new("data").with_declaration(false);
    let result = transcoder.transcode(&json).unwrap();
    let xml = String::from_utf8(result).unwrap();

    assert!(xml.contains("<data>"));
    assert!(xml.contains("<name>test</name>"));
    assert!(xml.contains("<value>42</value>"));
}

#[test]
fn test_xml_json_xml_round_trip() {
    // XML to JSON and back preserves the element tree, the
    // attribute-prefixed keys and the text content.
    let xml = r#"<item id="123" type="product">content</item>"#;
    let to_json = XmlToJson::new();
    let v1 = to_json.transcode_value(xml.as_bytes()).unwrap();
    let content1 = v1.get(b"item").unwrap();

    let to_xml = JsonToXml::new("item").with_declaration(false);
    let xml2 = to_xml.transcode(content1).unwrap();
    let v2 = to_json.transcode_value(&xml2).unwrap();
    let content2 = v2.get(b"item").unwrap();

    assert!(json_eq(content1, content2));
}

#[test]
fn test_parse_soap_envelope() {
    let xml = r#"
        <soap:Envelope xmlns:soap="http://schemas.xmlsoap.org/soap/envelope/">
            <soap:Body>
                <GetUser>
                    <userId>123</userId>
                </GetUser>
            </soap:Body>
        </soap:Envelope>
    "#;

    let envelope = SoapEnvelope::parse(xml.as_bytes()).unwrap();
    assert!(!envelope.is_fault);
    assert_eq!(envelope.operation_name(), Some("GetUser".to_string()));

    // The body is exactly {"GetUser": {"userId": "123"}}.
    let mut expected_inner: Vec<(Vec<u8>, JsonVal)> = Vec::new();
    expected_inner.push((b"userId".to_vec(), JsonVal::Str(b"123".to_vec())));
    let mut expected_pairs: Vec<(Vec<u8>, JsonVal)> = Vec::new();
    expected_pairs.push((b"GetUser".to_vec(), JsonVal::Obj(expected_inner)));
    let expected = JsonVal::Obj(expected_pairs);
    assert!(json_eq(envelope.body_content(), &expected));

    let ctx = envelope.to_context();
    assert_eq!(ctx.protocol, ProtocolType::Soap);
    assert!(ctx.destination.contains("GetUser"));
}

#[test]
fn test_build_fault() {
    let fault = SoapEnvelope::build_fault(
        SoapVersion::Soap11,
        "soap:Client",
        "Invalid request",
        Some("Missing required field"),
    );

    let envelope = fault.get(b"Envelope").unwrap();
    let body = envelope.get(b"Body").unwrap();
    assert!(body.get(b"Fault").is_some());
}

#[test]
fn test_envelope_to_context() {
    let mut op: Vec<(Vec<u8>, JsonVal)> = Vec::new();
    op.push((b"userId".to_vec(), JsonVal::Str(b"123".to_vec())));
    let mut body: Vec<(Vec<u8>, JsonVal)> = Vec::new();
    body.push((b"GetUser".to_vec(), JsonVal::Obj(op)));
    let mut env: Vec<(Vec<u8>, JsonVal)> = Vec::new();
    env.push((b"Body".to_vec(), JsonVal::Obj(body)));
    let mut top: Vec<(Vec<u8>, JsonVal)> = Vec::new();
    top.push((b"Envelope".to_vec(), JsonVal::Obj(env)));
    let json = JsonVal::Obj(top);

    let envelope = SoapEnvelope::from_json(&json).unwrap();
    let ctx = envelope.to_context();

    assert_eq!(ctx.protocol, ProtocolType::Soap);
    assert!(ctx.destination.contains("GetUser") || ctx.destination == "/soap");
}

#[test]
fn test_find_element() {
    let mut inner: Vec<(Vec<u8>, JsonVal)> = Vec::new();
    inner.push((b"content".to_vec(), JsonVal::Str(b"test".to_vec())));
    let mut pairs: Vec<(Vec<u8>, JsonVal)> = Vec::new();
    pairs.push((b"soap:Body".to_vec(), JsonVal::Obj(inner)));
    let json = JsonVal::Obj(pairs);

    let found = naseej_gateway::soap::find_element(&json, b"Body");
    assert!(found.is_some());
}

#[test]
fn test_json_payload_round_trip_structure() {
    // JSON to payload bytes and back preserves structure; the reference
    // parser reads back exactly what the canonical printer wrote.
    let mut nested: Vec<(Vec<u8>, JsonVal)> = Vec::new();
    nested.push((b"deep".to_vec(), JsonVal::Bool(true)));
    let mut pairs: Vec<(Vec<u8>, JsonVal)> = Vec::new();
    pairs.push((b"temp".to_vec(), JsonVal::Int(20)));
    pairs.push((b"name".to_vec(), JsonVal::Str(b"probe \"a\"".to_vec())));
    pairs.push((b"tags".to_vec(), JsonVal::Arr(vec![JsonVal::Int(1), JsonVal::Null])));
    pairs.push((b"obj".to_vec(), JsonVal::Obj(nested)));
    let value = JsonVal::Obj(pairs);

    let printed = print_json(&value);
    let parsed: serde_json::Value = serde_json::from_slice(&printed).unwrap();

    assert_eq!(parsed.get("temp").and_then(|v| v.as_i64()), Some(20));
    assert_eq!(parsed.get("name").and_then(|v| v.as_str()), Some("probe \"a\""));
    let tags = parsed.get("tags").and_then(|v| v.as_array()).unwrap();
    assert_eq!(tags.len(), 2);
    assert_eq!(tags[0].as_i64(), Some(1));
    assert!(tags[1].is_null());
    assert_eq!(
        parsed.get("obj").and_then(|o| o.get("deep")).and_then(|v| v.as_bool()),
        Some(true)
    );

    // Re-reading the reference parser's own printing yields the same
    // structure: equality modulo key ordering.
    let reprinted = serde_json::to_vec(&parsed).unwrap();
    let reparsed: serde_json::Value = serde_json::from_slice(&reprinted).unwrap();
    assert_eq!(parsed, reparsed);
}

#[test]
fn test_print_parse_round_trip() {
    // The canonical printed text of a payload parses back to exactly the
    // same value, as the round-trip law states.
    let mut nested: Vec<(Vec<u8>, JsonVal)> = Vec::new();
    nested.push((b"deep".to_vec(), JsonVal::Bool(false)));
    let mut pairs: Vec<(Vec<u8>, JsonVal)> = Vec::new();
    pairs.push((b"temp".to_vec(), JsonVal::Int(-40)));
    pairs.push((b"label".to_vec(), JsonVal::Str(b"a\\b \"q\" \x01".to_vec())));
    pairs.push((b"xs".to_vec(), JsonVal::Arr(vec![
        JsonVal::Null,
        JsonVal::Int(i64::MAX),
        JsonVal::Int(i64::MIN),
        JsonVal::Obj(nested),
    ])));
    pairs.push((b"empty_arr".to_vec(), JsonVal::Arr(Vec::new())));
    pairs.push((b"empty_obj".to_vec(), JsonVal::Obj(Vec::new())));
    let value = JsonVal::Obj(pairs);

    let printed = print_json(&value);
    let parsed = naseej_gateway::jsonparse::parse_json(&printed).expect("canonical text parses");
    assert!(json_eq(&parsed, &value));

    // And the reparse prints identically: the text is a fixpoint.
    let reprinted = print_json(&parsed);
    assert_eq!(printed, reprinted);
}

#[test]
fn test_base64_encode() {
    assert_eq!(base64_encode(b"hello"), b"aGVsbG8=".to_vec());
    assert_eq!(base64_encode(b"a"), b"YQ==".to_vec());
}

#[test]
fn test_base64_round_trip() {
    for input in [&b""[..], b"a", b"ab", b"abc", b"abcd", b"\x00\xff\x10\x80"] {
        let encoded = base64_encode(input);
        let decoded = base64_decode(&encoded).unwrap();
        assert_eq!(decoded, input.to_vec());
    }
}

#[test]
fn test_varint_round_trip() {
    for n in [0u64, 1, 127, 128, 300, 16383, 16384, u64::MAX / 2, u64::MAX] {
        let mut buf = Vec::new();
        encode_varint(&mut buf, n);
        let (value, consumed) = decode_varint(&buf, 0).unwrap();
        assert_eq!(value, n);
        assert_eq!(consumed, buf.len());
    }
}

fn sample_pool() -> DescriptorPool {
    let inner = MessageDescriptor {
        full_name: "example.Inner".to_string(),
        fields: vec![FieldDescriptor { number: 1, name: b"note".to_vec(), kind: FieldKind::Str }],
    };
    let outer = MessageDescriptor {
        full_name: "example.Outer".to_string(),
        fields: vec![
            FieldDescriptor { number: 1, name: b"id".to_vec(), kind: FieldKind::Uint64 },
            FieldDescriptor { number: 2, name: b"name".to_vec(), kind: FieldKind::Str },
            FieldDescriptor { number: 3, name: b"active".to_vec(), kind: FieldKind::Bool },
            FieldDescriptor { number: 4, name: b"inner".to_vec(), kind: FieldKind::Message(0) },
        ],
    };
    DescriptorPool { messages: vec![inner, outer], services: vec!["example.Api".to_string()] }
}

#[test]
fn test_transcoder_creation() {
    let transcoder = GrpcTranscoder::new();
    assert!(transcoder.list_message_types().is_empty());
    assert!(transcoder.list_services().is_empty());
}

#[test]
fn test_descriptor_not_found() {
    let transcoder = GrpcTranscoder::new();
    let result = transcoder.get_message_descriptor("nonexistent.Message");
    assert!(result.is_err());
}

#[test]
fn test_protobuf_json_round_trip() {
    // A message with scalar and nested-message fields, populated in
    // canonical order, survives protobuf to JSON and back byte-for-byte.
    let transcoder = GrpcTranscoder::from_pool(sample_pool());
    let outer = transcoder.get_message_descriptor("example.Outer").unwrap();

    let mut inner_pairs: Vec<(Vec<u8>, JsonVal)> = Vec::new();
    inner_pairs.push((b"note".to_vec(), JsonVal::Str(b"hi".to_vec())));
    let mut pairs: Vec<(Vec<u8>, JsonVal)> = Vec::new();
    pairs.push((b"id".to_vec(), JsonVal::Int(7)));
    pairs.push((b"name".to_vec(), JsonVal::Str(b"probe".to_vec())));
    pairs.push((b"active".to_vec(), JsonVal::Bool(true)));
    pairs.push((b"inner".to_vec(), JsonVal::Obj(inner_pairs)));
    let message = JsonVal::Obj(pairs);

    let wire = transcoder.json_to_protobuf(&message, outer, 16).unwrap();
    let decoded = transcoder.protobuf_to_json(&wire, outer, 16).unwrap();
    assert!(json_eq(&decoded, &message));

    let wire2 = transcoder.json_to_protobuf(&decoded, outer, 16).unwrap();
    assert_eq!(wire, wire2);
}

#[test]
fn test_bounded_body_reader_enforces_ceiling() {
    let mut reader = BoundedBodyReader::new(10);
    assert!(reader.push_chunk(b"12345").is_ok());
    assert!(reader.push_chunk(b"67890").is_ok());
    match reader.push_chunk(b"x") {
        Err(GatewayError::PayloadTooLarge { size, limit }) => {
            assert_eq!(size, 11);
            assert_eq!(limit, 10);
        }
        other => panic!("expected PayloadTooLarge, got {:?}", other.is_ok()),
    }
    let body = reader.into_body();
    assert_eq!(body.len(), 10);
    assert_eq!(body, b"1234567890".to_vec());
}

#[test]
fn test_bounded_body_reader_ignores_declared_length() {
    // Only bytes actually received count: many small chunks trip the
    // ceiling exactly when their sum does.
    let mut reader = BoundedBodyReader::new(8);
    for _ in 0..4 {
        assert!(reader.push_chunk(b"ab").is_ok());
    }
    assert!(reader.push_chunk(b"c").is_err());
    assert_eq!(reader.len(), 8);
}

#[test]
fn test_payload_helpers() {
    let data = b"Hello, World!".to_vec();
    let sliced = slice_payload(&data, 0, 5);
    assert_eq!(sliced, b"Hello".to_vec());
    assert_eq!(data.len(), 13);

    let (left, right) = split_payload(b"HelloWorld".to_vec(), 5);
    assert_eq!(left, b"Hello".to_vec());
    assert_eq!(right, b"World".to_vec());

    let data = b"HTTP/1.1 200 OK".to_vec();
    assert!(payload_starts_with(&data, b"HTTP"));
    assert!(!payload_starts_with(&data, b"HTTPS"));
}

#[test]
fn test_usage_event_builder() {
    let event = UsageEvent::new("client1", "/api/users")
        .with_method("POST")
        .with_status(201)
        .with_request_bytes(1024)
        .with_response_bytes(256)
        .with_latency_us(5000)
        .with_route_id("user-service")
        .with_protocol("http");

    assert_eq!(event.client_id, "client1");
    assert_eq!(event.method, "POST");
    assert_eq!(event.status_code, 201);
    assert_eq!(event.request_bytes, 1024);
    assert_eq!(event.latency_us, 5000);
    assert_eq!(event.route_id, Some("user-service".to_string()));
}

#[test]
fn test_client_usage_summary() {
    let events = vec![
        UsageEvent::new("client1", "/api/a")
            .with_request_bytes(100)
            .with_response_bytes(200)
            .with_latency_us(1000)
            .with_status(200),
        UsageEvent::new("client1", "/api/b")
            .with_request_bytes(150)
            .with_response_bytes(300)
            .with_latency_us(2000)
            .with_status(500),
    ];

    let summary = ClientUsageSummary::from_events("client1", &events);

    assert_eq!(summary.total_requests, 2);
    assert_eq!(summary.total_bytes_in, 250);
    assert_eq!(summary.total_bytes_out, 500);
    assert_eq!(summary.avg_latency_us, 1500);
    assert_eq!(summary.error_count, 1);
}

#[test]
fn test_meter_config_and_batching() {
    let config = MeterConfig::default_config();
    assert_eq!(config.channel_size, 10000);
    assert_eq!(config.batch_size, 100);
    assert_eq!(config.flush_interval_ms, 1000);
    assert!(!naseej_gateway::metering::batch_ready(99, &config));
    assert!(naseej_gateway::metering::batch_ready(100, &config));
}

#[test]
fn test_listener_config() {
    let config = ListenerConfig::new("http-main", ProtocolType::Http, 8080);
    assert_eq!(config.bind_address(), "0.0.0.0:8080");
    assert!(config.enabled);
}

#[test]
fn test_service_config() {
    let mut service = ServiceConfig::new();
    service.listeners.push(ListenerConfig::new("http-1", ProtocolType::Http, 8080));
    let mut disabled = ListenerConfig::new("http-2", ProtocolType::Http, 8081);
    disabled.enabled = false;
    service.listeners.push(disabled);

    assert_eq!(service.enabled_indices().len(), 1);
    assert!(service.get_listener("http-1").is_some());
    assert!(service.get_listener("http-2").is_some());
    assert!(service.get_listener("http-3").is_none());
}

#[test]
fn test_listener_reconcile() {
    let mut supervisor = ListenerSupervisor::new();

    let mut first = ServiceConfig::new();
    first.listeners.push(ListenerConfig::new("L1", ProtocolType::Http, 8080));
    let events = supervisor.reconcile(&first);
    assert_eq!(events.len(), 1);
    assert!(matches!(&events[0], ListenerEvent::Started { id, port: 8080, .. } if id == "L1"));
    assert!(supervisor.is_running("L1"));
    assert_eq!(supervisor.listener_count(), 1);

    let mut second = ServiceConfig::new();
    second.listeners.push(ListenerConfig::new("L1", ProtocolType::Http, 8081));
    second.listeners.push(ListenerConfig::new("L2", ProtocolType::Mqtt, 1883));
    let events = supervisor.reconcile(&second);

    // L1 restarts (its inner stop and start, then the restart notice), and
    // L2 starts; no other stop is emitted.
    let restarted_l1 = events.iter().any(|e| matches!(e,
        ListenerEvent::Restarted { id } if id == "L1"));
    let started_l2 = events.iter().any(|e| matches!(e,
        ListenerEvent::Started { id, port: 1883, .. } if id == "L2"));
    assert!(restarted_l1);
    assert!(started_l2);
    for event in &events {
        if let ListenerEvent::Stopped { id } = event {
            assert_eq!(id, "L1", "only the restart's inner stop may appear");
        }
    }
    assert_eq!(supervisor.listener_count(), 2);
    assert!(supervisor.is_running("L1"));
    assert!(supervisor.is_running("L2"));

    let stop_events = supervisor.shutdown();
    assert_eq!(stop_events.len(), 2);
    assert_eq!(supervisor.listener_count(), 0);
}

#[test]
fn test_reconcile_is_idempotent() {
    let mut supervisor = ListenerSupervisor::new();
    let mut config = ServiceConfig::new();
    config.listeners.push(ListenerConfig::new("L1", ProtocolType::Http, 8080));

    let first = supervisor.reconcile(&config);
    assert_eq!(first.len(), 1);
    let mut config_again = ServiceConfig::new();
    config_again.listeners.push(ListenerConfig::new("L1", ProtocolType::Http, 8080));
    let second = supervisor.reconcile(&config_again);
    assert!(second.is_empty(), "an unchanged generation changes nothing");
}

#[test]
fn test_simple_hash_is_deterministic() {
    let a = naseej_gateway::agent::simple_hash("routes");
    let b = naseej_gateway::agent::simple_hash("routes");
    let c = naseej_gateway::agent::simple_hash("route");
    assert_eq!(a, b);
    assert_ne!(a, c);
}

#[test]
fn test_endpoint_search_text() {
    let endpoint = ApiEndpoint {
        id: "e1".to_string(),
        method: "GET".to_string(),
        path: "/users".to_string(),
        summary: None,
        description: None,
        tags: Vec::new(),
        request_content_type: None,
        response_content_type: None,
        parameters: Vec::new(),
        embedding_text: "GET /users list users".to_string(),
        source_spec: "spec-1".to_string(),
    };
    assert_eq!(SchemaIngestor::endpoint_to_search_text(&endpoint), "GET /users list users");
    let ingestor = SchemaIngestor::new("spec-1");
    assert_eq!(ingestor.source_id, "spec-1");
}

#[test]
fn test_load_descriptor_set_builds_pool() {
    // A hand-written FileDescriptorSet: package "pkg", one message M with a
    // string field x (number 1), and one service S.
    let fdp = [0x0au8, 1, b'x', 0x18, 1, 0x28, 9];
    let mut dp = vec![0x0au8, 1, b'M', 0x12, fdp.len() as u8];
    dp.extend_from_slice(&fdp);
    let sdp = [0x0au8, 1, b'S'];
    let mut fdpro = vec![0x12u8, 3, b'p', b'k', b'g', 0x22, dp.len() as u8];
    fdpro.extend_from_slice(&dp);
    fdpro.push(0x32);
    fdpro.push(sdp.len() as u8);
    fdpro.extend_from_slice(&sdp);
    let mut set = vec![0x0au8, fdpro.len() as u8];
    set.extend_from_slice(&fdpro);

    let mut t = GrpcTranscoder::new();
    t.load_descriptor_set(&set).unwrap();
    assert_eq!(t.list_services(), vec!["pkg.S".to_string()]);
    let idx = t.get_message_descriptor("pkg.M").unwrap();
    let json = JsonVal::Obj(vec![(b"x".to_vec(), JsonVal::Str(b"hi".to_vec()))]);
    let wire = t.json_to_protobuf(&json, idx, 16).unwrap();
    assert_eq!(wire, vec![0x0au8, 2, b'h', b'i']);
    let back = t.protobuf_to_json(&wire, idx, 16).unwrap();
    assert_eq!(print_json(&back), print_json(&json));
}

#[test]
fn test_load_descriptor_set_rejects_garbage() {
    let mut t = GrpcTranscoder::new();
    assert!(t.load_descriptor_set(&[0xffu8, 0xff, 0xff]).is_err());
}
