//! The settings that decide which parts of the service are there.
use vstd::prelude::*;

verus! {

/// The entity graph's settings.
#[derive(Debug, Clone, Copy)]
pub struct GraphConfig {
    /// Whether recall consults a graph at all.
    pub enabled: bool,
}

/// The service's settings.
#[derive(Debug, Clone, Copy)]
pub struct AppConfig {
    pub graph: GraphConfig,
}

impl Default for AppConfig {
    /// Without configuration there is no graph, and recall has its two legs.
    fn default() -> (config: AppConfig)
        ensures
            !config.graph.enabled,
    {
        AppConfig { graph: GraphConfig { enabled: false } }
    }
}

} // verus!
