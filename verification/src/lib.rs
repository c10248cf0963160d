//! Runs Airbyte source connectors for whoever drives a capture: requests become calls of the
//! connector and the files that it reads, and its messages become responses.
//!
//! The library decides; what it decides on is handed to it as plain values, and what it
//! decides is carried out elsewhere.

pub mod airbyte_interval_checkpoint;
pub mod catalog;
pub mod config;
pub mod discover;
pub mod error;
pub mod interceptor;
pub mod json;
pub mod merge;
pub mod names;
pub mod order;
pub mod protocol;
pub mod pull;
pub mod resource;
pub mod serde_bridge;
pub mod spec_response;
pub mod state;
pub mod stream;
pub mod text;
pub mod text_map;
