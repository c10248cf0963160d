//! When a connector last ran to its end.

use vstd::prelude::*;

verus! {

/// The name under which the time of the last run is kept.
pub const INTERVAL_RUN_KEY: &'static str = "_flow_interval_last_run";

/// When a connector that runs at intervals last ran.
#[derive(Debug)]
pub struct AirbyteIntervalCheckpoint {
    /// Kept under [`INTERVAL_RUN_KEY`].
    pub flow_interval_last_run: Option<String>,
}

} // verus!
