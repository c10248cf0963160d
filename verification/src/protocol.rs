//! The requests that a capture is driven by, and the responses to them, as far as they are
//! looked into. JSON values are held as their texts.

use crate::discover::DiscoveredBinding;
use crate::json::Json;
use vstd::prelude::*;

verus! {

/// Asks what a connector says of itself.
#[derive(Debug)]
pub struct SpecRequest {}

/// Asks which streams a connector offers.
#[derive(Debug)]
pub struct DiscoverRequest {
    pub config_json: Vec<u8>,
}

#[derive(Debug)]
pub struct ValidateBinding {
    pub resource_config_json: Vec<u8>,
}

/// Asks whether a connector can connect, and what tells the given bindings apart.
#[derive(Debug)]
pub struct ValidateRequest {
    pub config_json: Vec<u8>,
    pub bindings: Vec<ValidateBinding>,
}

/// Asks to prepare for a capture.
#[derive(Debug)]
pub struct ApplyRequest {}

/// A field of a collection, and the JSON pointer to where it is found.
#[derive(Debug)]
pub struct Projection {
    pub field: String,
    pub ptr: String,
}

/// What a binding captures into.
#[derive(Debug)]
pub struct Collection {
    /// The key, as JSON pointers.
    pub key: Vec<String>,
    pub projections: Vec<Projection>,
    pub write_schema_json: Vec<u8>,
}

#[derive(Debug)]
pub struct CaptureBinding {
    pub resource_config_json: Vec<u8>,
    pub collection: Option<Collection>,
}

#[derive(Debug)]
pub struct Capture {
    pub config_json: Vec<u8>,
    pub bindings: Vec<CaptureBinding>,
}

#[derive(Debug, Clone, Copy)]
pub struct KeyRange {
    pub key_begin: u32,
    pub key_end: u32,
}

/// Asks to capture documents.
#[derive(Debug)]
pub struct Open {
    pub capture: Option<Capture>,
    pub range: Option<KeyRange>,
    pub state_json: Vec<u8>,
}

/// A request. The parts that it has say what it asks for.
#[derive(Debug)]
pub struct Request {
    pub spec: Option<SpecRequest>,
    pub discover: Option<DiscoverRequest>,
    pub validate: Option<ValidateRequest>,
    pub apply: Option<ApplyRequest>,
    pub open: Option<Open>,
}

/// What a connector says of itself, for whoever drives a capture.
#[derive(Debug)]
pub struct SpecResponse {
    pub protocol: u32,
    /// The text of the JSON schema of the connector's configuration.
    pub config_schema_json: String,
    /// The text of the JSON schema of a resource spec.
    pub resource_config_schema_json: String,
    pub oauth2: Option<Json>,
    pub documentation_url: String,
    /// Where the resource path is found in a resource spec, as JSON pointers.
    pub resource_path_pointers: Vec<String>,
}

/// A response.
#[derive(Debug)]
pub enum Response {
    Spec(SpecResponse),
    Discovered { bindings: Vec<DiscoveredBinding> },
    /// The resource paths of the bindings, in their order.
    Validated { resource_paths: Vec<Vec<String>> },
    Applied,
    Opened,
    /// The text of a state, and whether it is to be merged into the state that is held.
    Checkpoint { updated_json: String, merge_patch: bool },
    /// A document, by its text, and which binding it belongs to.
    Captured { binding: u32, doc_json: String },
}

} // verus!
