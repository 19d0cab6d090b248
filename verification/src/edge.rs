//! Graph edges and their resolution under parameters.

use vstd::prelude::*;

use crate::alist::alist_find_u32;
use crate::axi_interface::{AxiInterface, AXI_READ_OVERHEAD, AXI_WRITE_OVERHEAD};
use crate::fifo::{Fifo, FifoType};
use crate::node::{cycle_add, sat_add, NodeWithDelay};
use crate::{CompiledSimulation, SimulationError, SimulationParameters};

verus! {

/// Index of an edge in the CSR edge array.
pub type EdgeIndex = usize;

/// An edge of the graph. Edges are stored in CSR form, so only the source
/// side is carried; the destination is the node whose slice holds the edge.
#[derive(Clone, Copy, PartialEq, Eq, Structural, Debug)]
pub enum Edge {
    /// Control flow: source and delay fully known at build time.
    ControlFlow(NodeWithDelay),
    /// A FIFO read after its write; the delay follows the FIFO's depth.
    FifoRaw { u: NodeWithDelay, fifo: Fifo },
    /// A FIFO write after a read frees space; the source read is looked up
    /// from the depth at resolve time.
    FifoWar { fifo: Fifo, index: usize },
    /// A read request blocked by the read-control FIFO of its interface.
    AxiRctl { u: NodeWithDelay, interface: AxiInterface },
    /// A read after its read request.
    AxiRead { u: NodeWithDelay, interface: AxiInterface },
    /// A write response after the last write of its request.
    AxiWriteResp { u: NodeWithDelay, interface: AxiInterface },
}

impl Edge {
    /// Every node this edge names lies inside a graph of `node_count` nodes.
    pub open spec fn in_bounds(self, node_count: int) -> bool {
        match self {
            Edge::ControlFlow(u) => u.in_bounds(node_count),
            Edge::FifoRaw { u, .. } => u.in_bounds(node_count),
            Edge::FifoWar { .. } => true,
            Edge::AxiRctl { u, .. } => u.in_bounds(node_count),
            Edge::AxiRead { u, .. } => u.in_bounds(node_count),
            Edge::AxiWriteResp { u, .. } => u.in_bounds(node_count),
        }
    }

    /// What the edge resolves to under the given parameters: its source point
    /// and delay, `None` when it imposes no dependency, or the parameter
    /// error that prevents resolving it.
    ///
    /// A write-after-read edge resolves to the read that freed the written
    /// slot; with no configured depth, or when that read does not exist in
    /// the trace, it imposes no dependency.
    pub open spec fn resolve_spec(
        self,
        sim: CompiledSimulation,
        parameters: SimulationParameters,
    ) -> Result<Option<NodeWithDelay>, SimulationError> {
        match self {
            Edge::ControlFlow(u) => Ok(Some(u)),
            Edge::FifoRaw { u, fifo } => match parameters.fifo_depth_spec(fifo.id) {
                Some(depth) => Ok(
                    Some(u.add_spec(FifoType::from_depth_spec(depth).raw_delay_spec())),
                ),
                None => Err(SimulationError::FifoDepthNotProvided(fifo.id)),
            },
            Edge::FifoWar { fifo, index } => match parameters.fifo_depth_spec(fifo.id) {
                Some(depth_opt) => match depth_opt {
                    Some(depth) => if index >= depth {
                        match sim.fifo_reads_spec(fifo.id) {
                            Some(reads) => if index - depth < reads.len() {
                                Ok(
                                    Some(
                                        NodeWithDelay {
                                            node: reads[index - depth],
                                            delay: FifoType::from_depth_spec(
                                                Some(depth),
                                            ).war_delay_spec(),
                                        },
                                    ),
                                )
                            } else {
                                Ok(None)
                            },
                            None => Ok(None),
                        }
                    } else {
                        Ok(None)
                    },
                    None => Ok(None),
                },
                None => Err(SimulationError::FifoDepthNotProvided(fifo.id)),
            },
            Edge::AxiRctl { u, interface } => match parameters.axi_delay_spec(interface.address) {
                Some(delay) => Ok(
                    Some(
                        u.add_spec((sat_add(delay, AXI_READ_OVERHEAD) - AXI_WRITE_OVERHEAD) as u64),
                    ),
                ),
                None => Err(SimulationError::AxiDelayNotProvided(interface.address)),
            },
            Edge::AxiRead { u, interface } => match parameters.axi_delay_spec(interface.address) {
                Some(delay) => Ok(Some(u.add_spec(sat_add(delay, AXI_READ_OVERHEAD)))),
                None => Err(SimulationError::AxiDelayNotProvided(interface.address)),
            },
            Edge::AxiWriteResp { u, interface } => match parameters.axi_delay_spec(
                interface.address,
            ) {
                Some(delay) => Ok(Some(u.add_spec(sat_add(delay, AXI_WRITE_OVERHEAD)))),
                None => Err(SimulationError::AxiDelayNotProvided(interface.address)),
            },
        }
    }

    pub fn resolve(&self, simulation: &CompiledSimulation, parameters: &SimulationParameters) -> (r:
        Result<Option<NodeWithDelay>, SimulationError>)
        ensures
            r == self.resolve_spec(*simulation, *parameters),
    {
        match *self {
            Edge::ControlFlow(node) => Ok(Some(node)),
            Edge::FifoRaw { u, fifo } => {
                let depth = match parameters.get_fifo_depth(fifo) {
                    Ok(d) => d,
                    Err(e) => {
                        return Err(e);
                    },
                };
                let fifo_type = FifoType::from_depth(depth);
                Ok(Some(u.add(fifo_type.raw_delay())))
            },
            Edge::FifoWar { fifo, index } => {
                let depth_opt = match parameters.get_fifo_depth(fifo) {
                    Ok(d) => d,
                    Err(e) => {
                        return Err(e);
                    },
                };
                match depth_opt {
                    Some(depth) => {
                        if index >= depth {
                            match alist_find_u32_fifo(&simulation.fifo_nodes, fifo.id) {
                                Some(nodes_index) => {
                                    let reads = &simulation.fifo_nodes[nodes_index].1.reads;
                                    if index - depth < reads.len() {
                                        Ok(
                                            Some(
                                                NodeWithDelay {
                                                    node: reads[index - depth],
                                                    delay: FifoType::from_depth(
                                                        Some(depth),
                                                    ).war_delay(),
                                                },
                                            ),
                                        )
                                    } else {
                                        Ok(None)
                                    }
                                },
                                None => Ok(None),
                            }
                        } else {
                            Ok(None)
                        }
                    },
                    None => Ok(None),
                }
            },
            Edge::AxiRctl { u, interface } => {
                let delay = match parameters.get_axi_delay(interface) {
                    Ok(d) => d,
                    Err(e) => {
                        return Err(e);
                    },
                };
                Ok(Some(u.add(cycle_add(delay, AXI_READ_OVERHEAD) - AXI_WRITE_OVERHEAD)))
            },
            Edge::AxiRead { u, interface } => {
                let delay = match parameters.get_axi_delay(interface) {
                    Ok(d) => d,
                    Err(e) => {
                        return Err(e);
                    },
                };
                Ok(Some(u.add(cycle_add(delay, AXI_READ_OVERHEAD))))
            },
            Edge::AxiWriteResp { u, interface } => {
                let delay = match parameters.get_axi_delay(interface) {
                    Ok(d) => d,
                    Err(e) => {
                        return Err(e);
                    },
                };
                Ok(Some(u.add(cycle_add(delay, AXI_WRITE_OVERHEAD))))
            },
        }
    }
}

/// Position of a FIFO's node table, with the first-match lookup exposed over
/// the table view.
fn alist_find_u32_fifo(v: &Vec<(u32, crate::fifo::FifoIoNodes)>, k: u32) -> (r: Option<usize>)
    ensures
        match r {
            Some(i) => {
                &&& i < v@.len()
                &&& v@[i as int].0 == k
                &&& crate::alist::alist_find(v@, k) == Some(v@[i as int].1)
            },
            None => crate::alist::alist_find(v@, k) is None,
        },
{
    let mut i: usize = 0;
    while i < v.len()
        invariant
            i <= v@.len(),
            forall|j: int| 0 <= j < i ==> v@[j].0 != k,
        decreases v@.len() - i,
    {
        if v[i].0 == k {
            proof {
                crate::alist::lemma_alist_find_skip(v@, k, i as int);
            }
            return Some(i);
        }
        i += 1;
    }
    proof {
        crate::alist::lemma_alist_find_skip(v@, k, i as int);
    }
    None
}

} // verus!
