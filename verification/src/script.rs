//! The transform engine: sandboxed scripts with hard resource ceilings,
//! compiled once per source and executed per request.
//!
//! Compilation is a function of the script source alone, so the
//! validate-only path and the execute path classify a broken script
//! identically: a compile error can never reach execution.

use vstd::prelude::*;
use crate::json::JsonVal;

verus! {

/// The maximum number of operations one execution may take.
pub const MAX_SCRIPT_OPERATIONS: u64 = 100000;

/// The maximum expression and call depth.
pub const MAX_SCRIPT_DEPTH: usize = 64;

/// The maximum string a script may build, in bytes.
pub const MAX_SCRIPT_STRING: usize = 1024 * 1024;

/// The maximum array or map a script may build.
pub const MAX_SCRIPT_COLLECTION: usize = 10000;

/// The script engine type.
#[verifier::external_type_specification]
#[verifier::external_body]
pub struct ExEngine(rhai::Engine);

/// The compiled-script type.
#[verifier::external_type_specification]
#[verifier::external_body]
pub struct ExAst(rhai::AST);

/// The sandbox's dynamic value type.
#[verifier::external_type_specification]
#[verifier::external_body]
pub struct ExDynamic(rhai::Dynamic);

/// Whether a script compiles under the library's fixed sandbox
/// configuration: a function of the source alone, because every compile in
/// this crate runs under the one configuration `engine_compile` builds.
pub uninterp spec fn rhai_compiles(script: Seq<char>) -> bool;

/// The compile diagnostic of a script that does not compile under the fixed
/// sandbox configuration: a function of the source alone.
pub uninterp spec fn rhai_compile_err(script: Seq<char>) -> Seq<char>;

/// Relies on rhai::Engine::new and the set_max_* ceilings: a fresh engine
/// with the sandbox limits (operations, expression depth, string size,
/// array and map size) enforced in-engine.
#[verifier::external_body]
fn engine_with_limits() -> rhai::Engine {
    let mut engine = rhai::Engine::new();
    engine.set_max_operations(MAX_SCRIPT_OPERATIONS);
    engine.set_max_expr_depths(MAX_SCRIPT_DEPTH, MAX_SCRIPT_DEPTH);
    engine.set_max_string_size(MAX_SCRIPT_STRING);
    engine.set_max_array_size(MAX_SCRIPT_COLLECTION);
    engine.set_max_map_size(MAX_SCRIPT_COLLECTION);
    engine
}

/// Relies on rhai::Engine::register_fn: string helpers for scripts. `trim`,
/// `upper` and `lower` rely on str::trim, str::to_uppercase and
/// str::to_lowercase; `wrap_xml` calls the library's own XML escaping.
#[verifier::external_body]
fn register_string_helpers(engine: &mut rhai::Engine) {
    engine.register_fn("trim", |s: &str| -> rhai::ImmutableString { s.trim().into() });
    engine.register_fn("upper", |s: &str| -> rhai::ImmutableString { s.to_uppercase().into() });
    engine.register_fn("lower", |s: &str| -> rhai::ImmutableString { s.to_lowercase().into() });
    engine.register_fn("wrap_xml", |tag: &str, content: &str| -> rhai::ImmutableString {
        crate::xml::wrap_xml(tag, content).into()
    });
}

/// Relies on rhai::Engine::register_fn: JSON helpers for scripts. The
/// closures call the library's own verified parser and printer; only the
/// conversion into and out of the sandbox's dynamic values is trusted.
#[verifier::external_body]
fn register_json_helpers(engine: &mut rhai::Engine) {
    engine.register_fn("parse_json", |s: &str| -> rhai::Dynamic {
        match crate::jsonparse::parse_json(s.as_bytes()) {
            Some(v) => json_to_dynamic(&v),
            None => rhai::Dynamic::UNIT,
        }
    });
    engine.register_fn("to_json", |d: rhai::Dynamic| -> rhai::ImmutableString {
        match dynamic_to_json(&d) {
            Some(v) => String::from_utf8_lossy(&crate::json::print_json(&v)).into_owned().into(),
            None => "".into(),
        }
    });
}

/// Relies on rhai::Engine::register_fn: time and identity helpers for
/// scripts. `now_iso` and `timestamp_ms` rely on chrono::Utc::now, `uuid`
/// on uuid::Uuid::new_v4.
#[verifier::external_body]
fn register_time_helpers(engine: &mut rhai::Engine) {
    engine.register_fn("now_iso", || -> rhai::ImmutableString {
        chrono::Utc::now().to_rfc3339().into()
    });
    engine.register_fn("timestamp_ms", || -> i64 { chrono::Utc::now().timestamp_millis() });
    engine.register_fn("uuid", || -> rhai::ImmutableString {
        uuid::Uuid::new_v4().to_string().into()
    });
}

/// Relies on rhai::Engine::register_fn and Engine::on_debug: the script
/// logging built-ins. A script's log calls are best-effort and never fail
/// it, so each level is a sink that accepts the message and drops it (the
/// `debug` keyword is rhai's own, silenced through its hook); the runtime
/// around the library decides what, if anything, to do with script logs.
#[verifier::external_body]
fn register_log_helpers(engine: &mut rhai::Engine) {
    engine.register_fn("log", |_msg: &str| {});
    engine.on_debug(|_msg, _src, _pos| {});
    engine.register_fn("warn", |_msg: &str| {});
    engine.register_fn("log_debug", |_msg: &str| {});
    engine.register_fn("log_info", |_msg: &str| {});
    engine.register_fn("log_warn", |_msg: &str| {});
}

/// Relies on rhai::Engine::register_fn: the long-form helper names. They
/// rely on str::to_uppercase, str::to_lowercase, chrono::Utc::now and its
/// second-resolution timestamp.
#[verifier::external_body]
fn register_alias_helpers(engine: &mut rhai::Engine) {
    engine.register_fn("uppercase", |s: &str| -> rhai::ImmutableString {
        s.to_uppercase().into()
    });
    engine.register_fn("lowercase", |s: &str| -> rhai::ImmutableString {
        s.to_lowercase().into()
    });
    engine.register_fn("now_utc", || -> rhai::ImmutableString {
        chrono::Utc::now().to_rfc3339().into()
    });
    engine.register_fn("timestamp", || -> i64 { chrono::Utc::now().timestamp() });
}

/// Relies on rhai::Dynamic constructors: the library's payload value handed
/// into the sandbox, variant for variant.
#[verifier::external_body]
fn json_to_dynamic(v: &JsonVal) -> rhai::Dynamic {
    match v {
        JsonVal::Null => rhai::Dynamic::UNIT,
        JsonVal::Bool(b) => rhai::Dynamic::from(*b),
        JsonVal::Int(i) => rhai::Dynamic::from(*i),
        JsonVal::Str(s) => rhai::Dynamic::from(String::from_utf8_lossy(s).into_owned()),
        JsonVal::Arr(a) => json_arr_to_dynamic(a),
        JsonVal::Obj(p) => json_obj_to_dynamic(p),
    }
}

/// Relies on rhai::Dynamic::from over an array: the elements converted one
/// by one.
#[verifier::external_body]
fn json_arr_to_dynamic(a: &Vec<JsonVal>) -> rhai::Dynamic {
    rhai::Dynamic::from(a.iter().map(json_to_dynamic).collect::<Vec<_>>())
}

/// Relies on rhai::Dynamic::from over a map: the pairs converted one by
/// one.
#[verifier::external_body]
fn json_obj_to_dynamic(p: &Vec<(Vec<u8>, JsonVal)>) -> rhai::Dynamic {
    rhai::Dynamic::from(p.iter().map(|(k, x)| (
        String::from_utf8_lossy(k).into_owned().into(), json_to_dynamic(x),
    )).collect::<rhai::Map>())
}

/// Relies on rhai::Dynamic casts: the sandbox value read back out, variant
/// for variant; anything without a payload representation (a float, a
/// foreign type) is refused.
#[verifier::external_body]
fn dynamic_to_json(v: &rhai::Dynamic) -> Option<JsonVal> {
    if v.is_unit() {
        Some(JsonVal::Null)
    } else if let Some(b) = v.clone().try_cast::<bool>() {
        Some(JsonVal::Bool(b))
    } else if let Some(i) = v.clone().try_cast::<i64>() {
        Some(JsonVal::Int(i))
    } else if let Some(s) = v.clone().try_cast::<rhai::ImmutableString>() {
        Some(JsonVal::Str(s.as_bytes().to_vec()))
    } else {
        dynamic_composite_to_json(v)
    }
}

/// Relies on rhai::Dynamic casts for arrays and maps: the entries read back
/// one by one; any other foreign value is refused.
#[verifier::external_body]
fn dynamic_composite_to_json(v: &rhai::Dynamic) -> Option<JsonVal> {
    if let Some(a) = v.clone().try_cast::<Vec<rhai::Dynamic>>() {
        Some(JsonVal::Arr(a.iter().map(dynamic_to_json).collect::<Option<_>>()?))
    } else {
        let m = v.clone().try_cast::<rhai::Map>()?;
        Some(JsonVal::Obj(m.iter().map(|(k, x)| Some((k.as_bytes().to_vec(),
            dynamic_to_json(x)?))).collect::<Option<_>>()?))
    }
}

/// Relies on rhai::Engine::compile, always under the fixed sandbox
/// configuration built right here: compile success and the diagnostic are
/// then functions of the source alone. (Compilation is syntactic in the
/// script engine: registered helper functions resolve at run time and do
/// not change parse results, so the ceilings are the only configuration
/// that matters to this call.)
#[verifier::external_body]
fn engine_compile(script: &str) -> (r: Result<rhai::AST, String>)
    ensures
        r.is_ok() <==> rhai_compiles(script@),
        (match r {
            Err(e) => e@ == rhai_compile_err(script@),
            Ok(_) => true,
        }),
{
    match engine_with_limits().compile(script) {
        Ok(ast) => Ok(ast),
        Err(e) => Err(e.to_string()),
    }
}

/// Relies on rhai::Engine::run_ast_with_scope: run a compiled script with
/// `input` and `output` strings in scope and hand back the script's
/// `output`. Scripts may call helpers that read the clock or draw random
/// identifiers, so nothing is promised of the value.
#[verifier::external_body]
fn engine_run_simulate(engine: &rhai::Engine, ast: &rhai::AST, input: &str)
    -> (r: Result<String, String>)
{
    let mut scope = rhai::Scope::new();
    scope.push("input", input.to_string());
    scope.push("output", String::new());
    match engine.run_ast_with_scope(&mut scope, ast) {
        Ok(()) => Ok(scope.get_value::<String>("output").unwrap_or_default()),
        Err(e) => Err(e.to_string()),
    }
}

/// Relies on rhai::Engine::run_ast_with_scope: run a compiled script with
/// `payload`, `metadata`, `protocol` and `destination` in scope and read
/// the mutated `payload`, `metadata` and `destination` back. A `payload`
/// the sandbox cannot hand back (a float, a foreign type) is reported as
/// the error text `output`. Metadata crosses the boundary as an ordered
/// map, so duplicate keys collapse and pairs come back in key order.
#[verifier::external_body]
fn engine_run_context(
    engine: &rhai::Engine,
    ast: &rhai::AST,
    payload: &JsonVal,
    metadata: &Vec<(String, String)>,
    protocol: &str,
    destination: &str,
) -> (r: Result<(JsonVal, Vec<(String, String)>, String), (bool, String)>)
{
    let mut scope = rhai::Scope::new();
    scope.push("payload", json_to_dynamic(payload));
    scope.push("metadata", metadata_to_map(metadata));
    scope.push("protocol", protocol.to_string());
    scope.push("destination", destination.to_string());
    engine.run_ast_with_scope(&mut scope, ast).map_err(|e| (false, e.to_string()))?;
    let p = scope.get_value::<rhai::Dynamic>("payload").as_ref().and_then(dynamic_to_json);
    let m = scope.get_value::<std::collections::BTreeMap<String, String>>("metadata");
    let d = scope.get_value::<String>("destination");
    Ok((p.ok_or((true, "output".to_string()))?, m.map(map_to_pairs).unwrap_or_default(),
        d.unwrap_or_default()))
}

/// Relies on Iterator::collect into an ordered map: metadata pairs as the
/// map scripts receive.
#[verifier::external_body]
fn metadata_to_map(metadata: &Vec<(String, String)>) -> std::collections::BTreeMap<String, String>
{
    metadata.iter().cloned().collect()
}

/// Relies on IntoIterator::collect back out of the ordered map: the pairs
/// scripts left behind.
#[verifier::external_body]
fn map_to_pairs(m: std::collections::BTreeMap<String, String>) -> Vec<(String, String)> {
    m.into_iter().collect()
}

/// Transformation errors, classified as compile, execution, timeout or
/// output conversion.
#[derive(Debug, Clone)]
pub enum TransformError {
    /// The script does not compile.
    CompileError(String),
    /// The script failed while running.
    ExecutionError(String),
    /// The script exceeded a ceiling.
    Timeout,
    /// The script's output could not be converted back.
    OutputError(String),
}

/// The outcome of one transformation.
#[derive(Debug)]
pub struct TransformResult {
    /// The script's output.
    pub output: String,
    /// Wall-clock execution time in microseconds.
    pub execution_us: u64,
    /// Warnings raised while running.
    pub warnings: Vec<String>,
}

/// A compiled transformer: the sandbox engine, the compiled script, and its
/// source.
pub struct RhaiTransformer {
    /// The sandbox engine with its ceilings and helpers.
    pub engine: rhai::Engine,
    /// The compiled script.
    pub ast: rhai::AST,
    /// The script source.
    pub source: String,
}

/// Build the sandbox engine: ceilings plus the string, time and identity
/// helpers.
fn build_engine() -> rhai::Engine {
    let mut engine = engine_with_limits();
    register_string_helpers(&mut engine);
    register_json_helpers(&mut engine);
    register_time_helpers(&mut engine);
    register_log_helpers(&mut engine);
    register_alias_helpers(&mut engine);
    engine
}

impl RhaiTransformer {
    /// Compile a transformer. Succeeds exactly when the script compiles; a
    /// broken script is reported with its compile diagnostic.
    pub fn new(script: &str) -> (r: Result<RhaiTransformer, TransformError>)
        ensures
            r.is_ok() <==> rhai_compiles(script@),
            (match r {
                Ok(t) => t.source@ == script@,
                Err(e) => e matches TransformError::CompileError(msg)
                    && msg@ == rhai_compile_err(script@),
            }),
    {
        let engine = build_engine();
        match engine_compile(script) {
            Ok(ast) => Ok(RhaiTransformer { engine, ast, source: script.to_owned() }),
            Err(e) => Err(TransformError::CompileError(e)),
        }
    }

    /// Run the compiled script over an input string; the script reads
    /// `input` and assigns `output`. Failures while running are execution
    /// errors; a compile error cannot occur here, compilation already
    /// succeeded when the transformer was built.
    pub fn execute(&self, input: &str) -> (r: Result<TransformResult, TransformError>)
        ensures
            (match r {
                Err(e) => e is ExecutionError,
                Ok(_) => true,
            }),
    {
        let started = crate::clock::now_epoch_us();
        match engine_run_simulate(&self.engine, &self.ast, input) {
            Ok(output) => {
                let finished = crate::clock::now_epoch_us();
                let execution_us = if finished >= started {
                    finished - started
                } else {
                    0
                };
                Ok(TransformResult { output, execution_us, warnings: Vec::new() })
            },
            Err(e) => Err(TransformError::ExecutionError(e)),
        }
    }

    /// The script source this transformer was compiled from.
    pub fn source(&self) -> (r: &str)
        ensures
            r@ == self.source@,
    {
        self.source.as_str()
    }
}

/// Validate a script without executing it: compile only. Accepts exactly
/// the scripts that compile; a broken script is reported with the same
/// compile diagnostic that execution paths would report.
pub fn validate_script(script: &str) -> (r: Result<(), TransformError>)
    ensures
        r.is_ok() <==> rhai_compiles(script@),
        (match r {
            Err(e) => e matches TransformError::CompileError(msg)
                && msg@ == rhai_compile_err(script@),
            Ok(_) => true,
        }),
{
    match engine_compile(script) {
        Ok(_) => Ok(()),
        Err(e) => Err(TransformError::CompileError(e)),
    }
}

/// Simulate a transformation: compile, then run over the input. A script
/// with a compile error never reaches execution and is classified exactly
/// as `validate_script` classifies it.
pub fn simulate(script: &str, input: &str) -> (r: Result<TransformResult, TransformError>)
    ensures
        !rhai_compiles(script@) ==> (r matches Err(e) && e matches TransformError::CompileError(
            msg) && msg@ == rhai_compile_err(script@)),
        rhai_compiles(script@) ==> !(r matches Err(e) && e is CompileError),
        (match r {
            Err(e) => e is CompileError || e is ExecutionError,
            Ok(_) => rhai_compiles(script@),
        }),
{
    let transformer = match RhaiTransformer::new(script) {
        Ok(t) => t,
        Err(e) => {
            return Err(e);
        },
    };
    transformer.execute(input)
}

/// Script validation report of the engine's validate-only path.
#[derive(Debug)]
pub struct ValidationResult {
    /// Whether the script may be deployed.
    pub valid: bool,
    /// Compile errors.
    pub errors: Vec<String>,
    /// Non-fatal warnings.
    pub warnings: Vec<String>,
}

/// Scripting-engine errors.
#[derive(Debug, Clone)]
pub enum RhaiError {
    /// The script does not compile.
    CompileError(String),
    /// The script failed while running.
    ExecutionError(String),
    /// A value could not cross the sandbox boundary.
    ConversionError(String),
    /// The script was rejected.
    ValidationError(String),
}

/// The transformation scope handed to a script and read back from it.
#[derive(Debug)]
pub struct TransformContext {
    /// The structured payload.
    pub payload: JsonVal,
    /// The metadata entries.
    pub metadata: Vec<(String, String)>,
    /// The source protocol tag.
    pub protocol: String,
    /// The destination.
    pub destination: String,
}

/// Whether the cache holds a script under this identifier.
pub open spec fn spec_cache_has(cache: Seq<(String, rhai::AST)>, id: Seq<char>) -> bool {
    exists|i: int| 0 <= i < cache.len() && (#[trigger] cache[i]).0@ == id
}

/// The scripting engine: validation and execution against a transform
/// context, with a cache of compiled scripts keyed by identifier.
pub struct RhaiEngine {
    /// The sandbox engine. Its configuration plays no part in any contract:
    /// compilation always runs under the fixed configuration that
    /// `engine_compile` builds for itself.
    pub engine: rhai::Engine,
    /// Compiled scripts, keyed by the caller's script identifier.
    pub cache: Vec<(String, rhai::AST)>,
}

impl RhaiEngine {
    /// A fresh sandbox engine with an empty script cache.
    pub fn new() -> (r: RhaiEngine)
        ensures
            r.cache@.len() == 0,
    {
        RhaiEngine { engine: build_engine(), cache: Vec::new() }
    }

    /// Compile a script and cache it under an identifier, replacing any
    /// earlier script under the same identifier. Succeeds exactly when the
    /// script compiles; compilation is idempotent, so racing compilations of
    /// one script are harmless.
    #[verifier::loop_isolation(false)]
    pub fn compile(&mut self, script_id: &str, script: &str) -> (r: Result<(), RhaiError>)
        ensures
            r.is_ok() <==> rhai_compiles(script@),
            (match r {
                Err(e) => e matches RhaiError::CompileError(msg)
                    && msg@ == rhai_compile_err(script@)
                    && final(self).cache@ == old(self).cache@,
                Ok(_) => true,
            }),
    {
        let ast = match engine_compile(script) {
            Ok(a) => a,
            Err(e) => {
                return Err(RhaiError::CompileError(e));
            },
        };
        let n = self.cache.len();
        let mut i: usize = 0;
        while i < n
            invariant
                self.cache@.len() == n,
                i <= n,
            decreases n - i,
        {
            if crate::strutil::str_eq(self.cache[i].0.as_str(), script_id) {
                let owned = script_id.to_owned();
                self.cache.set(i, (owned, ast));
                return Ok(());
            }
            i += 1;
        }
        let owned = script_id.to_owned();
        self.cache.push((owned, ast));
        Ok(())
    }

    /// Execute a cached script against a context; an identifier nothing was
    /// compiled under is exactly the not-found execution error, before any
    /// script runs.
    #[verifier::loop_isolation(false)]
    pub fn execute_cached(&self, script_id: &str, ctx: &TransformContext)
        -> (r: Result<TransformContext, RhaiError>)
        ensures
            (match r {
                Ok(c) => c.protocol@ == ctx.protocol@,
                Err(e) => e is ExecutionError || e is ConversionError,
            }),
            !spec_cache_has(self.cache@, script_id@) ==> (r matches Err(e)
                && e matches RhaiError::ExecutionError(msg)
                && msg@ == "Script not found: "@ + script_id@),
    {
        let n = self.cache.len();
        let mut i: usize = 0;
        while i < n
            invariant
                self.cache@.len() == n,
                i <= n,
                forall|j: int| 0 <= j < i ==> (#[trigger] self.cache@[j]).0@ != script_id@,
            decreases n - i,
        {
            if crate::strutil::str_eq(self.cache[i].0.as_str(), script_id) {
                return self.run_ast(&self.cache[i].1, ctx);
            }
            i += 1;
        }
        let mut msg = String::new();
        msg.append("Script not found: ");
        msg.append(script_id);
        proof {
            assert(msg@ =~= "Script not found: "@ + script_id@);
        }
        Err(RhaiError::ExecutionError(msg))
    }

    /// Number of cached scripts.
    pub fn cached_count(&self) -> (n: usize)
        ensures
            n == self.cache@.len(),
    {
        self.cache.len()
    }

    /// Run one compiled script against a context.
    fn run_ast(&self, ast: &rhai::AST, ctx: &TransformContext)
        -> (r: Result<TransformContext, RhaiError>)
        ensures
            (match r {
                Ok(c) => c.protocol@ == ctx.protocol@,
                Err(e) => e is ExecutionError || e is ConversionError,
            }),
    {
        match engine_run_context(&self.engine, ast, &ctx.payload, &ctx.metadata,
            ctx.protocol.as_str(), ctx.destination.as_str()) {
            Ok((payload, metadata, destination)) => Ok(TransformContext {
                payload,
                metadata,
                protocol: ctx.protocol.clone(),
                destination,
            }),
            Err((conversion, msg)) => {
                if conversion {
                    Err(RhaiError::ConversionError(msg))
                } else {
                    Err(RhaiError::ExecutionError(msg))
                }
            },
        }
    }

    /// Validate a script: compile it, and warn about `std::` references
    /// that the sandbox does not provide. Valid exactly when the script
    /// compiles.
    pub fn validate(&self, script: &str) -> (r: ValidationResult)
        ensures
            r.valid <==> rhai_compiles(script@),
            r.valid <==> r.errors@.len() == 0,
    {
        let mut errors: Vec<String> = Vec::new();
        let mut warnings: Vec<String> = Vec::new();
        if crate::strutil::str_contains(script, "std::") {
            warnings.push(
                "Script contains std:: references which may not be available".to_owned());
        }
        match engine_compile(script) {
            Ok(_) => {},
            Err(e) => {
                let mut msg = String::new();
                msg.append("Compilation error: ");
                msg.append(e.as_str());
                errors.push(msg);
            },
        }
        let valid = errors.len() == 0;
        ValidationResult { valid, errors, warnings }
    }

    /// Execute a script against a context: compile, run with the context in
    /// scope, and read the mutated scope back. A script that does not
    /// compile is classified as a compile error with exactly the diagnostic
    /// the validate-only path reports; a compiling script can never be
    /// classified as a compile error, only as an execution or conversion
    /// failure; the protocol tag always passes through unchanged.
    pub fn execute(&self, script: &str, ctx: &TransformContext)
        -> (r: Result<TransformContext, RhaiError>)
        ensures
            !rhai_compiles(script@) ==> (r matches Err(e)
                && e matches RhaiError::CompileError(msg)
                && msg@ == rhai_compile_err(script@)),
            rhai_compiles(script@) ==> (match r {
                Ok(c) => c.protocol@ == ctx.protocol@,
                Err(e) => e is ExecutionError || e is ConversionError,
            }),
    {
        let ast = match engine_compile(script) {
            Ok(a) => a,
            Err(e) => {
                return Err(RhaiError::CompileError(e));
            },
        };
        self.run_ast(&ast, ctx)
    }
}

} // verus!
