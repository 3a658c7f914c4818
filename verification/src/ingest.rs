//! Data types of the API-schema ingester: endpoints extracted from
//! specifications, their parameters, and the searchable text each endpoint
//! contributes. The specification parsing itself runs outside the core and
//! hands extracted endpoints in.

use vstd::prelude::*;

verus! {

/// Schema ingestion errors.
#[derive(Debug, Clone)]
pub enum IngestError {
    /// The specification did not parse.
    ParseError(String),
    /// The specification's shape is unusable.
    InvalidFormat(String),
    /// An embedding could not be produced.
    EmbeddingError(String),
    /// The endpoint could not be stored.
    StorageError(String),
}

/// One parameter of an extracted endpoint.
#[derive(Debug)]
pub struct ParameterInfo {
    /// Parameter name.
    pub name: String,
    /// Where the parameter lives: path, query or header.
    pub location: String,
    /// Whether the parameter must be given.
    pub required: bool,
    /// Description.
    pub description: Option<String>,
}

/// One endpoint extracted from a specification.
#[derive(Debug)]
pub struct ApiEndpoint {
    /// Identifier.
    pub id: String,
    /// Method.
    pub method: String,
    /// Path template.
    pub path: String,
    /// Operation summary.
    pub summary: Option<String>,
    /// Operation description.
    pub description: Option<String>,
    /// Tags.
    pub tags: Vec<String>,
    /// Request content type.
    pub request_content_type: Option<String>,
    /// Response content type.
    pub response_content_type: Option<String>,
    /// Parameters.
    pub parameters: Vec<ParameterInfo>,
    /// The combined text the endpoint is searched by.
    pub embedding_text: String,
    /// The specification the endpoint came from.
    pub source_spec: String,
}

/// The schema ingester: tracks which specification endpoints come from.
#[derive(Debug)]
pub struct SchemaIngestor {
    /// Source identifier stamped onto extracted endpoints.
    pub source_id: String,
}

impl SchemaIngestor {
    /// An ingester for one source.
    pub fn new(source_id: &str) -> (r: SchemaIngestor)
        ensures
            r.source_id@ == source_id@,
    {
        SchemaIngestor { source_id: source_id.to_owned() }
    }

    /// The searchable text of an endpoint: exactly its combined embedding
    /// text.
    pub fn endpoint_to_search_text(endpoint: &ApiEndpoint) -> (r: String)
        ensures
            r@ == endpoint.embedding_text@,
    {
        endpoint.embedding_text.clone()
    }
}

} // verus!
