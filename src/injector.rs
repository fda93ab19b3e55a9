use vstd::prelude::*;
use crate::graph::Graph;
use crate::key::{Instance, TypeKey};

verus! {

/// A holder of a graph of resolved instances, empty when made.
pub struct AsyncInjector {
    graph: Graph,
}

impl AsyncInjector {
    pub fn new() -> (r: Self)
        ensures
            r.graph_view() == Map::<TypeKey, Instance>::empty(),
    {
        AsyncInjector { graph: Graph::new() }
    }

    /// What the held graph stores.
    pub closed spec fn graph_view(&self) -> Map<TypeKey, Instance> {
        self.graph@
    }

    /// The held graph.
    pub fn graph(&self) -> (r: &Graph)
        ensures
            r@ == self.graph_view(),
    {
        &self.graph
    }
}

impl Default for AsyncInjector {
    fn default() -> (r: Self)
        ensures
            r.graph_view() == Map::<TypeKey, Instance>::empty(),
    {
        Self::new()
    }
}

} // verus!
