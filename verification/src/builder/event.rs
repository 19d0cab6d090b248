//! Events waiting for their stage to commit, and the times they commit at.

use vstd::prelude::*;

use crate::axi_interface::AxiInterface;
use crate::builder::edge_builder::IncompleteEdgeKey;
use crate::builder::module_builder::ModuleKey;
use crate::fifo::Fifo;
use crate::node::{cycle_add, sat_add, NodeWithDelay};
use crate::ClockCycle;

verus! {

/// The read-after-request wiring carried by the first read of a request,
/// consumed when that read commits: its request edge, the read-control edge
/// ending at this read, the request's burst count, and the read-control edge
/// starting at the request's last read.
#[derive(Clone, Copy, PartialEq, Eq, Structural, Debug)]
pub struct FirstReadData {
    pub read_edge: IncompleteEdgeKey,
    pub rctl_in_edge: IncompleteEdgeKey,
    pub burst_count: usize,
    pub rctl_out_edge: IncompleteEdgeKey,
}

/// One trace event waiting inside the sliding window for its stage to
/// commit. Each variant knows the edges it must wire when it does.
#[derive(Clone, Copy, PartialEq, Eq, Structural, Debug)]
pub enum Event {
    /// A child call begins: its control-flow start edge leaves this point.
    SubcallStart { module_key: ModuleKey, edge: IncompleteEdgeKey },
    /// A child call ends: its final control-flow edge arrives here.
    SubcallEnd { edge: IncompleteEdgeKey },
    /// A FIFO read: the read-after-write edge of its rank arrives here.
    FifoRead { fifo: Fifo, index: usize, raw_edge: IncompleteEdgeKey },
    /// A FIFO write: the read-after-write edge of its rank leaves here, and
    /// every write after the first gains a write-after-read dependency.
    FifoWrite { fifo: Fifo, index: usize, raw_edge: IncompleteEdgeKey },
    /// An AXI read request: the edge to its first read leaves here.
    AxiReadRequest { interface: AxiInterface, index: usize, read_edge: IncompleteEdgeKey },
    /// An AXI read; the first read of a request receives the request edge
    /// and enters the read-control queue, the last one sources the
    /// read-control edge of a later request.
    AxiRead {
        interface: AxiInterface,
        index: usize,
        first_read: Option<FirstReadData>,
        rctl_out_edge: Option<IncompleteEdgeKey>,
    },
    /// An AXI write request: only recorded.
    AxiWriteRequest { interface: AxiInterface, index: usize },
    /// An AXI write; the last write of a request sources the write-response
    /// edge.
    AxiWrite { interface: AxiInterface, index: usize, writeresp_edge: Option<IncompleteEdgeKey> },
    /// An AXI write response: the write-response edge arrives here.
    AxiWriteResponse { interface: AxiInterface, index: usize, writeresp_edge: IncompleteEdgeKey },
}

impl Event {
    /// Whether this event gives its node an incoming edge, forcing the node
    /// to exist on its own.
    pub open spec fn has_in_edge_spec(self) -> bool {
        match self {
            Event::SubcallStart { .. } => false,
            Event::SubcallEnd { .. } => true,
            Event::FifoWrite { index, .. } => index != 0,
            Event::FifoRead { .. } => true,
            Event::AxiReadRequest { .. } => false,
            Event::AxiRead { first_read, .. } => first_read is Some,
            Event::AxiWriteRequest { .. } => false,
            Event::AxiWrite { .. } => false,
            Event::AxiWriteResponse { .. } => true,
        }
    }

    pub fn has_in_edge(&self) -> (r: bool)
        ensures
            r == self.has_in_edge_spec(),
    {
        match self {
            Event::SubcallStart { .. } => false,
            Event::SubcallEnd { .. } => true,
            Event::FifoWrite { index, .. } => *index != 0,
            Event::FifoRead { .. } => true,
            Event::AxiReadRequest { .. } => false,
            Event::AxiRead { first_read, .. } => first_read.is_some(),
            Event::AxiWriteRequest { .. } => false,
            Event::AxiWrite { .. } => false,
            Event::AxiWriteResponse { .. } => true,
        }
    }

    /// Whether this event is stalled by the other events of its stage: only
    /// the start of a child call commits at the unstalled time.
    pub open spec fn is_stalled_spec(self) -> bool {
        !(self is SubcallStart)
    }

    pub fn is_stalled(&self) -> (r: bool)
        ensures
            r == self.is_stalled_spec(),
    {
        !matches!(self, Event::SubcallStart { .. })
    }
}

/// When something happens: at a known offset from a committed node, or a
/// number of cycles into a module whose start node is not yet known.
#[derive(Clone, Copy, PartialEq, Eq, Structural, Debug)]
pub enum NodeTime {
    Absolute(NodeWithDelay),
    RelativeToStart(ClockCycle),
}

impl NodeTime {
    pub open spec fn resolve_spec(self, start: NodeWithDelay) -> NodeWithDelay {
        match self {
            NodeTime::Absolute(time) => time,
            NodeTime::RelativeToStart(delay) => start.add_spec(delay),
        }
    }

    /// The absolute point this time denotes, given the module's start.
    pub fn resolve(&self, start: NodeWithDelay) -> (r: NodeWithDelay)
        ensures
            r == self.resolve_spec(start),
    {
        match self {
            NodeTime::Absolute(time) => *time,
            NodeTime::RelativeToStart(delay) => start.add(*delay),
        }
    }

    pub open spec fn add_spec(self, rhs: ClockCycle) -> NodeTime {
        match self {
            NodeTime::Absolute(time) => NodeTime::Absolute(time.add_spec(rhs)),
            NodeTime::RelativeToStart(delay) => NodeTime::RelativeToStart(sat_add(delay, rhs)),
        }
    }

    /// The same time, `rhs` cycles later.
    pub fn add(self, rhs: ClockCycle) -> (r: NodeTime)
        ensures
            r == self.add_spec(rhs),
    {
        match self {
            NodeTime::Absolute(time) => NodeTime::Absolute(time.add(rhs)),
            NodeTime::RelativeToStart(delay) => NodeTime::RelativeToStart(cycle_add(delay, rhs)),
        }
    }

    /// Every node this time names lies inside a graph of `node_count` nodes.
    pub open spec fn in_bounds(self, node_count: int) -> bool {
        match self {
            NodeTime::Absolute(time) => time.in_bounds(node_count),
            NodeTime::RelativeToStart(_) => true,
        }
    }
}

/// The events of one not-yet-committed stage.
pub struct UncommittedNode {
    pub events: Vec<Event>,
}

impl UncommittedNode {
    pub fn new() -> (r: UncommittedNode)
        ensures
            r.events@.len() == 0,
    {
        UncommittedNode { events: Vec::new() }
    }

    /// Whether any event of this stage forces the stage to have a node of
    /// its own.
    /// Whether any queued event forces this stage to own a node.
    pub open spec fn own_node_spec(self) -> bool {
        exists|i: int| 0 <= i < self.events@.len() && (#[trigger] self.events@[i]).has_in_edge_spec()
    }

    pub fn is_own_node(&self) -> (r: bool)
        ensures
            r == self.own_node_spec(),
    {
        let mut i: usize = 0;
        while i < self.events.len()
            invariant
                i <= self.events@.len(),
                forall|j: int| 0 <= j < i ==> !(#[trigger] self.events@[j]).has_in_edge_spec(),
            decreases self.events@.len() - i,
        {
            if self.events[i].has_in_edge() {
                return true;
            }
            i += 1;
        }
        false
    }
}

} // verus!
