//! Data types of the design assistant, its tool registry and its schema
//! store, plus the small pure helpers they share. The model calls, vector
//! search and tool dispatch run outside the core.

use vstd::prelude::*;
use vstd::string::StringSliceAdditionalSpecFns;

verus! {

/// Errors of the design assistant.
#[derive(Debug, Clone)]
pub enum ArchitectError {
    /// The language model could not be reached.
    ModelUnavailable(String),
    /// The model's answer could not be used.
    BadResponse(String),
    /// A tool call failed.
    ToolFailed(String),
}

/// One chat message.
#[derive(Debug)]
pub struct Message {
    /// Speaker role.
    pub role: String,
    /// Message text.
    pub content: String,
}

/// Errors of the assistant's protocol server.
#[derive(Debug, Clone)]
pub enum McpError {
    /// The request was not valid.
    InvalidRequest(String),
    /// No such method.
    MethodNotFound(String),
    /// The handler failed.
    Internal(String),
}

/// Server identity.
#[derive(Debug)]
pub struct ServerInfo {
    /// Server name.
    pub name: String,
    /// Server version.
    pub version: String,
}

impl ServerInfo {
    /// The default identity.
    pub fn default_info() -> (r: ServerInfo)
        ensures
            r.name@ == "naseej-cognitive-core"@,
    {
        ServerInfo {
            name: "naseej-cognitive-core".to_owned(),
            version: "0.1.0".to_owned(),
        }
    }
}

/// A prompt the server offers.
#[derive(Debug)]
pub struct McpPrompt {
    /// Prompt name.
    pub name: String,
    /// Description.
    pub description: String,
    /// Arguments the prompt takes.
    pub arguments: Vec<McpPromptArgument>,
}

/// One prompt argument.
#[derive(Debug)]
pub struct McpPromptArgument {
    /// Argument name.
    pub name: String,
    /// Description.
    pub description: String,
    /// Whether the argument must be given.
    pub required: bool,
}

/// Errors of the tool registry.
#[derive(Debug, Clone)]
pub enum ToolError {
    /// No such tool.
    NotFound(String),
    /// The arguments did not fit the tool.
    BadArguments(String),
    /// The tool failed.
    Failed(String),
}

/// Arguments of the route-deployment tool.
#[derive(Debug)]
pub struct DeployRouteArgs {
    /// Path pattern of the new route.
    pub path: String,
    /// Upstream URL.
    pub upstream: String,
    /// Method.
    pub method: String,
    /// Optional transform-script source.
    pub transform_script: Option<String>,
}

/// Arguments of the schema-lookup tool.
#[derive(Debug)]
pub struct LookupSchemaArgs {
    /// Free-text query.
    pub query: String,
    /// Maximum number of hits.
    pub limit: usize,
}

/// Errors of the vector store.
#[derive(Debug, Clone)]
pub enum VectorError {
    /// An embedding could not be produced.
    EmbeddingFailed(String),
    /// The store rejected the document.
    StorageFailed(String),
}

/// The deterministic string hash used to place schema terms: multiply by 33
/// and add each byte, wrapping at 64 bits.
pub open spec fn spec_simple_hash(s: Seq<u8>, acc: int) -> int
    decreases s.len(),
{
    if s.len() == 0 {
        acc
    } else {
        spec_simple_hash(s.drop_first(), (acc * 33 + s[0]) % 0x10000000000000000)
    }
}

/// Deterministic string hash over the text's bytes.
#[verifier::loop_isolation(false)]
pub fn simple_hash(s: &str) -> (r: u64)
    ensures
        r == spec_simple_hash(s.spec_bytes(), 5381),
{
    let bytes = s.as_bytes();
    let ghost bs = bytes@;
    let mut hash: u64 = 5381;
    let mut i: usize = 0;
    proof {
        assert(bs.skip(0) =~= bs);
    }
    while i < bytes.len()
        invariant
            i <= bs.len(),
            spec_simple_hash(bs, 5381) == spec_simple_hash(bs.skip(i as int), hash as int),
        decreases bs.len() - i,
    {
        proof {
            assert(bs.skip(i as int).len() == bs.len() - i);
            assert(bs.skip(i as int)[0] == bs[i as int]);
            assert(bs.skip(i as int).drop_first() =~= bs.skip(i as int + 1));
        }
        let wide: u128 = (hash as u128) * 33 + (bytes[i] as u128);
        proof {
            assert(wide as int == (hash as int) * 33 + bs[i as int]) by (nonlinear_arith)
                requires
                    wide == (hash as u128) * 33 + (bytes@[i as int] as u128),
                    hash <= u64::MAX,
                    bytes@[i as int] <= u8::MAX,
                    bs == bytes@;
            assert(((hash as int) * 33 + bs[i as int]) % 0x10000000000000000
                == (wide as int) % 0x10000000000000000);
        }
        hash = (wide % 0x10000000000000000u128) as u64;
        i += 1;
    }
    proof {
        assert(bs.skip(bs.len() as int).len() == 0);
    }
    hash
}

} // verus!
