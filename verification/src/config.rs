//! The run's immutable configuration: the writable-overlay storage root and
//! the overlay source label, passed into the orchestrator instead of living
//! as process-wide globals.

use vstd::prelude::*;

verus! {

/// Configuration of one orchestration run.
pub struct Config {
    /// Root of the writable-overlay storage area: consulted for per-partition
    /// upper and work directories, and exempt from the manifest requirement
    /// when it appears inside the metadata store.
    pub rw_root: String,
    /// Source label shown for the constructed overlays in the mount table.
    pub source_label: String,
}

impl Config {
    /// A configuration with the given storage root and source label.
    pub fn new(rw_root: String, source_label: String) -> (r: Config)
        ensures
            r.rw_root@ == rw_root@,
            r.source_label@ == source_label@,
    {
        Config { rw_root, source_label }
    }
}

} // verus!
