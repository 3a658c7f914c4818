//! Transform-engine behaviour: validation, simulation, the compile-error
//! classification, and script execution against a context.

use naseej_gateway::json::{json_eq, JsonVal};
use naseej_gateway::script::{simulate, validate_script, RhaiEngine, RhaiTransformer,
    TransformContext, TransformError};

#[test]
fn transform_test_validate_valid_script() {
    let result = validate_script("let x = 1 + 2;");
    assert!(result.is_ok());
}

#[test]
fn transform_test_validate_invalid_script() {
    let result = validate_script("let x = ;");
    assert!(result.is_err());
}

#[test]
fn test_simulate() {
    let script = r#"output = upper(input);"#;
    let result = simulate(script, "hello").unwrap();
    assert_eq!(result.output, "HELLO");
}

#[test]
fn test_simulate_reports_execution_failure() {
    let result = simulate("unknown_function(input);", "x");
    assert!(matches!(result, Err(TransformError::ExecutionError(_))));
}

#[test]
fn test_compile_errors_never_execute() {
    // The validate-only path and the execute path classify a broken script
    // identically, with the same diagnostic.
    let broken = "let x = ;";
    let from_validate = match validate_script(broken) {
        Err(TransformError::CompileError(msg)) => msg,
        other => panic!("expected a compile error, got {:?}", other.is_ok()),
    };
    let from_execute = match simulate(broken, "anything") {
        Err(TransformError::CompileError(msg)) => msg,
        other => panic!("expected a compile error, got {:?}", other.is_ok()),
    };
    assert_eq!(from_validate, from_execute);
}

#[test]
fn test_transformer_compiles_once_and_runs() {
    let transformer = RhaiTransformer::new("output = input;").unwrap();
    assert_eq!(transformer.source(), "output = input;");
    let result = transformer.execute("pass-through").unwrap();
    assert_eq!(result.output, "pass-through");
}

#[test]
fn test_engine_validate_reports_errors_and_warnings() {
    let engine = RhaiEngine::new();

    let ok = engine.validate("let x = 1 + 2;");
    assert!(ok.valid);
    assert!(ok.errors.is_empty());

    let bad = engine.validate("let x = ;");
    assert!(!bad.valid);
    assert!(!bad.errors.is_empty());

    let warned = engine.validate("let y = \"std::fs\";");
    assert!(warned.valid);
    assert!(!warned.warnings.is_empty());
}

#[test]
fn test_transform_celsius_to_fahrenheit() {
    let engine = RhaiEngine::new();
    let mut payload_pairs: Vec<(Vec<u8>, JsonVal)> = Vec::new();
    payload_pairs.push((b"temp".to_vec(), JsonVal::Int(20)));
    let ctx = TransformContext {
        payload: JsonVal::Obj(payload_pairs),
        metadata: Vec::new(),
        protocol: "mqtt".to_string(),
        destination: "/sensors".to_string(),
    };

    let script = "payload.temp_f = payload.temp * 9 / 5 + 32;";
    let result = engine.execute(script, &ctx).unwrap();

    let temp_f = result.payload.get(b"temp_f").expect("temp_f should be set");
    assert!(json_eq(temp_f, &JsonVal::Int(68)));
    let temp = result.payload.get(b"temp").expect("temp should remain");
    assert!(json_eq(temp, &JsonVal::Int(20)));
}

#[test]
fn test_execute_keeps_protocol_and_updates_destination() {
    let engine = RhaiEngine::new();
    let ctx = TransformContext {
        payload: JsonVal::Null,
        metadata: Vec::new(),
        protocol: "http".to_string(),
        destination: "/old".to_string(),
    };
    let result = engine.execute("destination = \"/new\";", &ctx).unwrap();
    assert_eq!(result.protocol, "http");
    assert_eq!(result.destination, "/new");
}

#[test]
fn test_execute_compile_error_matches_validate() {
    let engine = RhaiEngine::new();
    let broken = "fn {";
    let report = engine.validate(broken);
    assert!(!report.valid);
    let ctx = TransformContext {
        payload: JsonVal::Null,
        metadata: Vec::new(),
        protocol: "http".to_string(),
        destination: "/".to_string(),
    };
    match engine.execute(broken, &ctx) {
        Err(naseej_gateway::script::RhaiError::CompileError(_)) => {}
        other => panic!("expected a compile error, got {:?}", other.is_ok()),
    }
}

#[test]
fn test_wrap_xml_helper() {
    let result = simulate("output = wrap_xml(\"temperature\", input);", "25").unwrap();
    assert_eq!(result.output, "<temperature>25</temperature>");
}

#[test]
fn test_log_helpers_are_registered() {
    let engine = RhaiEngine::new();
    let ctx = TransformContext {
        payload: JsonVal::Null,
        metadata: Vec::new(),
        protocol: "http".to_string(),
        destination: "d".to_string(),
    };
    let out = engine
        .execute("log(\"a\"); debug(\"b\"); warn(\"c\"); log_debug(\"d\"); log_info(\"e\"); log_warn(\"f\");", &ctx)
        .unwrap();
    assert_eq!(out.protocol, "http");
}

#[test]
fn test_long_form_helper_names() {
    let engine = RhaiEngine::new();
    let ctx = TransformContext {
        payload: JsonVal::Null,
        metadata: Vec::new(),
        protocol: "http".to_string(),
        destination: "d".to_string(),
    };
    let out = engine
        .execute("destination = uppercase(\"abc\") + lowercase(\"DE\"); let t = timestamp(); let u = now_utc();", &ctx)
        .unwrap();
    assert_eq!(out.destination, "ABCde");
}
