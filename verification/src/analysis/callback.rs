//! The state the analysis callback keeps while a crate is compiled.

use vstd::prelude::*;
use crate::graph::{DependencyGraph, empty_view};

verus! {

/// The dependency graph built for a crate, and where its sources lie.
pub struct RustyRTSCallbacks {
    pub graph: DependencyGraph,
    pub source_path: String,
}

impl RustyRTSCallbacks {
    /// An empty graph for the sources in `source_path`.
    pub fn new(source_path: String) -> (r: RustyRTSCallbacks)
        ensures
            r.graph.wf(),
            r.graph.view() == empty_view(),
            r.source_path == source_path,
    {
        let graph = DependencyGraph::new();
        assert(graph.view().nodes =~= empty_view().nodes);
        assert(graph.view().edges =~= empty_view().edges);
        RustyRTSCallbacks { graph, source_path }
    }
}

} // verus!
