//! The compressed-sparse-row dependency graph.

use vstd::prelude::*;

use crate::edge::Edge;

verus! {

/// The dependency graph in CSR form: node `i`'s in-edges are
/// `edges[node_offsets[i] .. node_offsets[i + 1]]`, the last node's slice
/// running to the end of `edges`.
#[derive(Clone, Debug)]
pub struct SimulationGraph {
    pub node_offsets: Vec<usize>,
    pub edges: Vec<Edge>,
}

impl SimulationGraph {
    /// Where node `v`'s in-edge slice begins.
    pub open spec fn edge_start(self, v: int) -> int {
        self.node_offsets@[v] as int
    }

    /// Where node `v`'s in-edge slice ends.
    pub open spec fn edge_end(self, v: int) -> int {
        if v + 1 < self.node_offsets@.len() {
            self.node_offsets@[v + 1] as int
        } else {
            self.edges@.len() as int
        }
    }

    /// CSR well-formedness: offsets are non-decreasing and stay inside the
    /// edge array.
    pub open spec fn wf(self) -> bool {
        &&& forall|i: int, j: int|
            0 <= i <= j < self.node_offsets@.len() ==> #[trigger] self.node_offsets@[i]
                <= #[trigger] self.node_offsets@[j]
        &&& forall|i: int|
            0 <= i < self.node_offsets@.len() ==> #[trigger] self.node_offsets@[i]
                <= self.edges@.len()
    }

    /// The in-edges of node `v` as a sequence.
    pub open spec fn in_edges_spec(self, v: int) -> Seq<Edge> {
        self.edges@.subrange(self.edge_start(v), self.edge_end(v))
    }
}

} // verus!
