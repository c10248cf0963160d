//! The messages of the Airbyte protocol, as far as they are looked into. A JSON value that
//! is only passed on is held as its text.

use crate::json::Json;
use crate::text_map::TextMap;
use vstd::prelude::*;

verus! {

#[derive(Debug, Clone, Copy, PartialEq, Eq, Structural)]
pub enum SyncMode {
    Incremental,
    FullRefresh,
}

/// Which stream of the connector a binding captures, and how.
#[derive(Debug)]
pub struct ResourceSpec {
    pub stream: String,
    pub namespace: Option<String>,
    pub sync_mode: SyncMode,
    pub cursor_field: Option<Vec<String>>,
}

/// A stream that a connector offers or is asked for.
#[derive(Debug)]
pub struct Stream {
    pub name: String,
    pub namespace: Option<String>,
    /// The text of the JSON schema of the stream's documents.
    pub json_schema: String,
    pub supported_sync_modes: Option<Vec<SyncMode>>,
    pub default_cursor_field: Option<Vec<String>>,
    pub source_defined_cursor: Option<bool>,
    /// Each part of the key is the path to a field.
    pub source_defined_primary_key: Option<Vec<Vec<String>>>,
}

#[derive(Debug)]
pub struct StreamDescriptor {
    pub name: String,
    pub namespace: Option<String>,
}

/// The state of one stream.
#[derive(Debug)]
pub struct StreamState {
    pub stream_descriptor: StreamDescriptor,
    /// The text of a JSON value.
    pub stream_state: Option<String>,
}

/// A state message of a connector.
#[derive(Debug)]
pub struct State {
    pub state_type: Option<String>,
    /// The text of a JSON value that stands for the state as a whole.
    pub data: Option<String>,
    /// Whether `data` is to be merged into the state that is held.
    pub merge: Option<bool>,
    pub stream: Option<StreamState>,
    /// The text of a JSON value with the state that streams share.
    pub global: Option<String>,
}

/// A document of a stream.
#[derive(Debug)]
pub struct Record {
    pub stream: String,
    pub data: Json,
}

/// What a connector says of itself.
#[derive(Debug)]
pub struct ConnectorSpec {
    /// The text of the JSON schema of the connector's configuration.
    pub connection_specification: String,
    /// The text of a JSON value that says how to authenticate.
    pub auth_specification: Option<String>,
    pub documentation_url: Option<String>,
}

/// The streams that a connector offers.
#[derive(Debug)]
pub struct Catalog {
    pub streams: Vec<Stream>,
}

#[derive(Debug, Clone, Copy, PartialEq, Eq, Structural)]
pub enum Status {
    Succeeded,
    Failed,
}

/// Whether a connector could connect.
#[derive(Debug)]
pub struct ConnectionStatus {
    pub status: Status,
    pub message: Option<String>,
}

#[derive(Debug, Clone, Copy, PartialEq, Eq, Structural)]
pub enum LogLevel {
    Fatal,
    Error,
    Warn,
    Info,
    Debug,
    Trace,
}

#[derive(Debug)]
pub struct Log {
    pub level: LogLevel,
    pub message: String,
}

#[derive(Debug, Clone, Copy, PartialEq, Eq, Structural)]
pub enum MessageType {
    Record,
    State,
    Log,
    Spec,
    ConnectionStatus,
    Catalog,
    Trace,
}

/// A message of a connector.
#[derive(Debug)]
pub struct Message {
    pub message_type: MessageType,
    pub connection_status: Option<ConnectionStatus>,
    pub state: Option<State>,
    pub record: Option<Record>,
    pub spec: Option<ConnectorSpec>,
    pub catalog: Option<Catalog>,
    pub log: Option<Log>,
    /// The text of a JSON value with what the connector traces.
    pub trace: Option<String>,
}

#[derive(Debug, Clone, Copy, PartialEq, Eq, Structural)]
pub enum DestinationSyncMode {
    Append,
}

/// The part of the keys that a capture covers.
#[derive(Debug, Clone, Copy, PartialEq, Eq, Structural)]
pub struct Range {
    pub begin: u32,
    pub end: u32,
}

/// A stream that a connector is asked to read.
pub struct ConfiguredStream {
    pub sync_mode: SyncMode,
    pub destination_sync_mode: DestinationSyncMode,
    pub cursor_field: Option<Vec<String>>,
    pub primary_key: Option<Vec<Vec<String>>>,
    pub stream: Stream,
    /// Where each field of the collection is found, as a JSON pointer.
    pub projections: TextMap<String>,
}

/// The streams that a connector is asked to read.
pub struct ConfiguredCatalog {
    pub streams: Vec<ConfiguredStream>,
    pub range: Option<Range>,
}

} // verus!
