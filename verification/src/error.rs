//! What can go wrong.

use vstd::prelude::*;

verus! {

#[derive(Debug)]
pub enum AtfError {
    /// There was no message to read.
    EmptyStream,
    /// No message of the kind that was asked for came, though others may have come.
    MessageNotFound(&'static str),
    /// A request asks for none of the known operations.
    UnknownOperation(String),
    /// The patch of a primary key is not what it should be.
    InvalidPKPatch(String),
    /// The connector could not connect.
    ConnectionStatusUnsuccessful(String),
    /// A validation was answered before it was asked for.
    MissingValidateRequest,
    /// The catalog for the connector breaks a rule.
    InvalidCatalog(String),
    /// A record belongs to no stream that was asked for.
    DanglingConnectorRecord(String),
    /// A message in the course of a capture is neither a state nor a record.
    InvalidPullResponse,
    /// A message breaks a rule.
    InvalidMessage(String),
    /// A text could not be read or written as JSON.
    Json(serde_json::Error),
}

} // verus!
