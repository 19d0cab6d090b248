//! Cycle-accurate replay of high-level-synthesis kernel traces.
//!
//! A trace of one kernel run is compiled into a static dependency graph in
//! compressed-sparse-row form; the graph can then be replayed under any choice
//! of hardware parameters (FIFO depths, AXI latencies) to predict the clock
//! cycle of every event, without re-running the trace.

use vstd::prelude::*;

pub mod alist;
pub mod axi_interface;
pub mod builder;
pub mod edge;
pub mod fifo;
pub mod graph;
pub mod node;
pub mod resolve;
pub mod simulate;

use crate::alist::{alist_find, alist_find_u32, alist_find_u64};
use crate::axi_interface::{AxiAddress, AxiGenericIoNode, AxiInterface, AxiInterfaceIoNodes};
use crate::edge::Edge;
use crate::fifo::{Fifo, FifoId, FifoIoNodes};
use crate::graph::SimulationGraph;
use crate::node::{NodeIndex, NodeWithDelay};

verus! {

/// A count of clock cycles.
pub type ClockCycle = u64;

/// A stage count within one module execution.
pub type SimulationStage = u32;

/// Cycles the status-update process of the slave control takes per loop.
pub const SAXI_STATUS_UPDATE_OVERHEAD: ClockCycle = 5;

/// Cycle of the first status read after the kernel starts.
pub const SAXI_STATUS_READ_DELAY: ClockCycle = 5;

/// Cycles between a status read seeing the kernel done and the continue
/// signal being written.
pub const SAXI_STATUS_WRITE_DELAY: ClockCycle = 6;

/// Why a replay could not produce a schedule.
#[derive(Clone, Copy, PartialEq, Eq, Structural, Debug)]
pub enum SimulationError {
    /// The resolved dependency graph contains a cycle under the chosen
    /// parameters.
    DeadlockDetected,
    /// The parameters name no depth for this FIFO.
    FifoDepthNotProvided(FifoId),
    /// The parameters name no latency for this AXI interface.
    AxiDelayNotProvided(AxiAddress),
    /// The design-space sweep was given no width for this FIFO.
    FifoWidthNotProvided(FifoId),
}

/// The hardware parameters one replay runs under.
#[derive(Clone, Debug)]
pub struct SimulationParameters {
    /// Depth of each FIFO; `None` leaves a FIFO as a default shift register.
    pub fifo_depths: Vec<(FifoId, Option<usize>)>,
    /// Latency of each AXI interface, by base address.
    pub axi_delays: Vec<(AxiAddress, ClockCycle)>,
    /// Number of scalar parameters of the top module when it runs under
    /// ap_ctrl_chain; `None` disables the continue-handshake model.
    pub ap_ctrl_chain_top_port_count: Option<u32>,
}

impl SimulationParameters {
    /// The depth table entry for a FIFO, if one was given.
    pub open spec fn fifo_depth_spec(self, id: FifoId) -> Option<Option<usize>> {
        alist_find(self.fifo_depths@, id)
    }

    /// The effective delay of an AXI interface: the given latency, raised to
    /// at least one cycle.
    pub open spec fn axi_delay_spec(self, address: AxiAddress) -> Option<ClockCycle> {
        match alist_find(self.axi_delays@, address) {
            Some(d) => Some(if d >= 1 {
                d
            } else {
                1u64
            }),
            None => None,
        }
    }

    pub fn get_fifo_depth(&self, fifo: Fifo) -> (r: Result<Option<usize>, SimulationError>)
        ensures
            r == match self.fifo_depth_spec(fifo.id) {
                Some(d) => Ok::<Option<usize>, SimulationError>(d),
                None => Err::<Option<usize>, SimulationError>(
                    SimulationError::FifoDepthNotProvided(fifo.id),
                ),
            },
    {
        match alist_find_u32(&self.fifo_depths, fifo.id) {
            Some(d) => Ok(d),
            None => Err(SimulationError::FifoDepthNotProvided(fifo.id)),
        }
    }

    pub fn get_axi_delay(&self, interface: AxiInterface) -> (r: Result<
        ClockCycle,
        SimulationError,
    >)
        ensures
            r == match self.axi_delay_spec(interface.address) {
                Some(d) => Ok::<ClockCycle, SimulationError>(d),
                None => Err::<ClockCycle, SimulationError>(
                    SimulationError::AxiDelayNotProvided(interface.address),
                ),
            },
    {
        match alist_find_u64(&self.axi_delays, interface.address) {
            Some(d) => Ok(if d >= 1 {
                d
            } else {
                1
            }),
            None => Err(SimulationError::AxiDelayNotProvided(interface.address)),
        }
    }
}

/// One module execution of the compiled trace: where it started and ended,
/// and the executions it called.
pub struct CompiledModule {
    pub name: String,
    /// The start node + delay of this module execution.
    pub start: NodeWithDelay,
    /// The end node + delay of this module execution.
    pub end: NodeWithDelay,
    pub submodules: Vec<CompiledModule>,
    pub inherit_ap_continue: bool,
}

impl CompiledModule {
    /// Every node this module tree refers to lies inside a graph of
    /// `node_count` nodes.
    pub open spec fn in_bounds(self, node_count: int) -> bool
        decreases self,
    {
        &&& self.start.in_bounds(node_count)
        &&& self.end.in_bounds(node_count)
        &&& forall|i: int|
            0 <= i < self.submodules@.len() ==> (#[trigger] self.submodules@[i]).in_bounds(
                node_count,
            )
    }
}

/// A trace compiled to a static dependency graph, ready to replay under any
/// parameters.
pub struct CompiledSimulation {
    pub graph: SimulationGraph,
    pub top_module: CompiledModule,
    pub fifo_nodes: Vec<(FifoId, FifoIoNodes)>,
    pub axi_interface_nodes: Vec<(AxiAddress, AxiInterfaceIoNodes)>,
    pub end_node: NodeIndex,
}


/// Exec counterpart of [`Edge::in_bounds`].
fn edge_in_bounds(e: &Edge, node_count: usize) -> (r: bool)
    ensures
        r == e.in_bounds(node_count as int),
{
    match e {
        Edge::ControlFlow(u) => (u.node as usize) < node_count,
        Edge::FifoRaw { u, .. } => (u.node as usize) < node_count,
        Edge::FifoWar { .. } => true,
        Edge::AxiRctl { u, .. } => (u.node as usize) < node_count,
        Edge::AxiRead { u, .. } => (u.node as usize) < node_count,
        Edge::AxiWriteResp { u, .. } => (u.node as usize) < node_count,
    }
}

/// Exec counterpart of [`FifoIoNodes::in_bounds`].
fn fifo_nodes_in_bounds(f: &FifoIoNodes, node_count: usize) -> (r: bool)
    ensures
        r == f.in_bounds(node_count as int),
{
    let mut i: usize = 0;
    while i < f.writes.len()
        invariant
            i <= f.writes@.len(),
            forall|a: int| 0 <= a < i ==> f.writes@[a].in_bounds(node_count as int),
        decreases f.writes@.len() - i,
    {
        if !((f.writes[i].node as usize) < node_count) {
            return false;
        }
        i += 1;
    }
    let mut i: usize = 0;
    while i < f.reads.len()
        invariant
            i <= f.reads@.len(),
            forall|a: int| 0 <= a < i ==> f.reads@[a] < node_count as int,
        decreases f.reads@.len() - i,
    {
        if !((f.reads[i] as usize) < node_count) {
            return false;
        }
        i += 1;
    }
    true
}

/// Exec counterpart of [`crate::axi_interface::generic_io_in_bounds`].
fn generic_io_table_in_bounds(t: &Vec<AxiGenericIoNode>, node_count: usize) -> (r: bool)
    ensures
        r == crate::axi_interface::generic_io_in_bounds(t@, node_count as int),
{
    let mut i: usize = 0;
    while i < t.len()
        invariant
            i <= t@.len(),
            forall|a: int| 0 <= a < i ==> t@[a].node.in_bounds(node_count as int),
        decreases t@.len() - i,
    {
        if !((t[i].node.node as usize) < node_count) {
            return false;
        }
        i += 1;
    }
    true
}

/// Exec counterpart of [`AxiInterfaceIoNodes::in_bounds`].
fn axi_nodes_in_bounds(a: &AxiInterfaceIoNodes, node_count: usize) -> (r: bool)
    ensures
        r == a.in_bounds(node_count as int),
{
    if !generic_io_table_in_bounds(&a.readreqs, node_count) {
        return false;
    }
    if !generic_io_table_in_bounds(&a.reads, node_count) {
        return false;
    }
    if !generic_io_table_in_bounds(&a.writereqs, node_count) {
        return false;
    }
    if !generic_io_table_in_bounds(&a.writes, node_count) {
        return false;
    }
    let mut i: usize = 0;
    while i < a.writeresps.len()
        invariant
            i <= a.writeresps@.len(),
            forall|j: int| 0 <= j < i ==> a.writeresps@[j].in_bounds(node_count as int),
        decreases a.writeresps@.len() - i,
    {
        if !((a.writeresps[i].node as usize) < node_count) {
            return false;
        }
        i += 1;
    }
    true
}

/// Exec counterpart of [`CompiledModule::in_bounds`].
fn module_tree_in_bounds(m: &CompiledModule, node_count: usize) -> (r: bool)
    ensures
        r == m.in_bounds(node_count as int),
    decreases *m,
{
    if !((m.start.node as usize) < node_count) {
        return false;
    }
    if !((m.end.node as usize) < node_count) {
        return false;
    }
    let mut i: usize = 0;
    while i < m.submodules.len()
        invariant
            i <= m.submodules@.len(),
            (m.start.node as usize) < node_count,
            (m.end.node as usize) < node_count,
            forall|j: int|
                0 <= j < i ==> (#[trigger] m.submodules@[j]).in_bounds(node_count as int),
        decreases m.submodules@.len() - i,
    {
        if !module_tree_in_bounds(&m.submodules[i], node_count) {
            return false;
        }
        i += 1;
    }
    true
}

impl CompiledSimulation {
    pub open spec fn node_count_spec(self) -> int {
        self.graph.node_offsets@.len() as int
    }

    /// The read nodes of a FIFO, if the trace used it.
    pub open spec fn fifo_reads_spec(self, id: FifoId) -> Option<Seq<NodeIndex>> {
        match alist_find(self.fifo_nodes@, id) {
            Some(nodes) => Some(nodes.reads@),
            None => None,
        }
    }

    /// Structural soundness of a compiled artifact: the CSR layout is well
    /// formed and every recorded node index lies inside the node array.
    pub open spec fn wf(self) -> bool {
        &&& self.graph.wf()
        &&& self.end_node < self.node_count_spec()
        &&& forall|i: int|
            0 <= i < self.graph.edges@.len() ==> #[trigger] self.graph.edges@[i].in_bounds(
                self.node_count_spec(),
            )
        &&& forall|i: int|
            0 <= i < self.fifo_nodes@.len() ==> #[trigger] self.fifo_nodes@[i].1.in_bounds(
                self.node_count_spec(),
            )
        &&& forall|i: int|
            0 <= i < self.axi_interface_nodes@.len()
                ==> #[trigger] self.axi_interface_nodes@[i].1.in_bounds(self.node_count_spec())
        &&& self.top_module.in_bounds(self.node_count_spec())
    }

    /// Checks, without ghost knowledge, that the artifact is well formed, so
    /// replay and sweep preconditions hold. [`SimulationBuilder::finish`]
    /// always returns a well-formed artifact; this is for callers that obtain
    /// one another way.
    pub fn well_formed(&self) -> (r: bool)
        ensures
            r == self.wf(),
    {
        let node_count = self.graph.node_offsets.len();
        let mut i: usize = 0;
        while i < self.graph.node_offsets.len()
            invariant
                i <= self.graph.node_offsets@.len(),
                node_count == self.graph.node_offsets@.len(),
                forall|a: int, b: int|
                    0 <= a <= b < i ==> #[trigger] self.graph.node_offsets@[a]
                        <= #[trigger] self.graph.node_offsets@[b],
                forall|a: int|
                    0 <= a < i ==> #[trigger] self.graph.node_offsets@[a]
                        <= self.graph.edges@.len(),
            decreases self.graph.node_offsets@.len() - i,
        {
            if self.graph.node_offsets[i] > self.graph.edges.len() {
                return false;
            }
            if i > 0 && self.graph.node_offsets[i - 1] > self.graph.node_offsets[i] {
                return false;
            }
            proof {
                assert forall|a: int, b: int| 0 <= a <= b < i + 1 implies #[trigger] self.graph.node_offsets@[a]
                    <= #[trigger] self.graph.node_offsets@[b] by {
                    if b == i && a < i {
                        assert(self.graph.node_offsets@[a] <= self.graph.node_offsets@[i - 1]);
                    }
                }
            }
            i += 1;
        }
        if !((self.end_node as usize) < node_count) {
            return false;
        }
        let mut i: usize = 0;
        while i < self.graph.edges.len()
            invariant
                i <= self.graph.edges@.len(),
                node_count == self.graph.node_offsets@.len(),
                forall|a: int|
                    0 <= a < i ==> (#[trigger] self.graph.edges@[a]).in_bounds(
                        self.graph.node_offsets@.len() as int,
                    ),
            decreases self.graph.edges@.len() - i,
        {
            if !edge_in_bounds(&self.graph.edges[i], node_count) {
                return false;
            }
            i += 1;
        }
        let mut i: usize = 0;
        while i < self.fifo_nodes.len()
            invariant
                i <= self.fifo_nodes@.len(),
                node_count == self.graph.node_offsets@.len(),
                forall|a: int|
                    0 <= a < i ==> (#[trigger] self.fifo_nodes@[a]).1.in_bounds(
                        self.graph.node_offsets@.len() as int,
                    ),
            decreases self.fifo_nodes@.len() - i,
        {
            if !fifo_nodes_in_bounds(&self.fifo_nodes[i].1, node_count) {
                return false;
            }
            i += 1;
        }
        let mut i: usize = 0;
        while i < self.axi_interface_nodes.len()
            invariant
                i <= self.axi_interface_nodes@.len(),
                node_count == self.graph.node_offsets@.len(),
                forall|a: int|
                    0 <= a < i ==> (#[trigger] self.axi_interface_nodes@[a]).1.in_bounds(
                        self.graph.node_offsets@.len() as int,
                    ),
            decreases self.axi_interface_nodes@.len() - i,
        {
            if !axi_nodes_in_bounds(&self.axi_interface_nodes[i].1, node_count) {
                return false;
            }
            i += 1;
        }
        module_tree_in_bounds(&self.top_module, node_count)
    }

    /// Number of nodes of the compiled graph.
    pub fn node_count(&self) -> (r: usize)
        ensures
            r == self.node_count_spec(),
    {
        self.graph.node_offsets.len()
    }

    /// Number of edges of the compiled graph.
    pub fn edge_count(&self) -> (r: usize)
        ensures
            r == self.graph.edges@.len(),
    {
        self.graph.edges.len()
    }
}

} // verus!
