//! Compiling a stream of trace events into a dependency graph.

pub mod axi_builder;
pub mod axi_rctl;
pub mod edge_builder;
pub mod event;
pub mod fifo_builder;
pub mod frame;
pub mod module_builder;
pub mod tee;

use vstd::prelude::*;

verus! {

/// Why a trace could not be compiled into a simulation.
#[derive(Clone, Copy, PartialEq, Eq, Structural, Debug)]
pub enum BuildError {
    /// Some incomplete edge was never completed, voided, or joined into a
    /// completed one.
    IncompleteEdges,
    /// Some FIFO access was never committed.
    IncompleteFifo,
    /// Some AXI transfer was never committed or never matched its request.
    IncompleteAxi,
    /// The trace ended before the top module returned.
    IncompleteTrace,
    /// Some module was called but never committed.
    ModulesNotCommitted,
    /// The events violated an invariant of the builder, such as assigning
    /// the same edge endpoint twice.
    InconsistentTrace,
}

} // verus!

use crate::alist::{alist_position_u32, alist_position_u64, is_first_match};
use crate::axi_interface::{AxiAddress, AxiInterface, AxiInterfaceIoNodes, MAX_RCTL_DEPTH};
use crate::builder::axi_builder::{AxiBuilder, AxiGenericIoOptionalNode, AxiRequestRange};
use crate::builder::axi_rctl::{AxiRctl, RctlTransaction};
use crate::builder::edge_builder::{
    st_push_complete_edge, st_push_destination, st_update_source, EdgeBuilder, IncompleteEdgeKey,
    IncompleteEdgeType,
};
use crate::builder::event::{Event, FirstReadData, NodeTime, UncommittedNode};
use crate::builder::fifo_builder::FifoBuilder;
use crate::builder::frame::StackFrame;
use crate::builder::module_builder::{uncommitted_count, ModuleBuilder, ModuleKey};
use crate::edge::Edge;
use crate::fifo::{Fifo, FifoId, FifoIoNodes};
use crate::node::{NodeIndex, NodeWithDelay};
use crate::{ClockCycle, CompiledSimulation, SimulationStage};

verus! {

/// What the first-match position established by the table helpers says about
/// the original table's lookup.
proof fn lemma_axi_find_at(
    pre: Seq<(AxiAddress, AxiBuilder)>,
    t1: Seq<(AxiAddress, AxiBuilder)>,
    pos: int,
    address: AxiAddress,
)
    requires
        0 <= pos < t1.len(),
        pos <= pre.len(),
        t1[pos].0 == address,
        forall|k: int| 0 <= k < pos ==> t1[k].0 != address,
        forall|k: int| 0 <= k < pre.len() ==> t1[k] == pre[k],
    ensures
        crate::alist::alist_find(pre, address) == (if pos < pre.len() {
            Some(pre[pos].1)
        } else {
            None::<AxiBuilder>
        }),
{
    if pos < pre.len() {
        assert forall|j: int| 0 <= j < pos implies pre[j].0 != address by {
            assert(t1[j] == pre[j]);
        }
        crate::alist::lemma_first_match_find(pre, pos, address);
    } else {
        assert forall|j: int| 0 <= j < pre.len() implies pre[j].0 != address by {
            assert(t1[j] == pre[j]);
        }
        crate::alist::lemma_alist_find_skip(pre, address, pre.len() as int);
        assert(pre.skip(pre.len() as int) =~= Seq::<(AxiAddress, AxiBuilder)>::empty());
    }
}

/// The component builders a trace drives.
pub struct SimulationComponentBuilders {
    pub edges: EdgeBuilder,
    pub modules: ModuleBuilder,
    pub fifos: Vec<(FifoId, FifoBuilder)>,
    pub axi: Vec<(AxiAddress, AxiBuilder)>,
    /// Read-control queues per open module, keyed by module key.
    pub rctls: Vec<(u64, Vec<(AxiAddress, AxiRctl)>)>,
    pub end_node: Option<NodeIndex>,
    /// Cleared when the events violate a builder invariant; a cleared flag
    /// fails the build instead of producing a silently repaired graph.
    pub consistent: bool,
}


/// Committing a child-call end: the subcall edge's destination half is fixed
/// to the committing node's slot; tables and modules are untouched.
#[verifier::opaque]
pub open spec fn commit_subcall_end_post(
    pre: SimulationComponentBuilders,
    post: SimulationComponentBuilders,
    edge: IncompleteEdgeKey,
) -> bool {
    &&& post.edges.st() == st_push_destination(pre.edges.st(), edge)
    &&& post.fifos@ == pre.fifos@
    &&& post.axi@ == pre.axi@
    &&& post.rctls@ == pre.rctls@
    &&& post.modules.committed@ == pre.modules.committed@
}

/// Committing a FIFO read: the FIFO's reads table gains the node at the
/// read's index, and the read-after-write edge's destination half is fixed.
#[verifier::opaque]
pub open spec fn commit_fifo_read_post(
    pre: SimulationComponentBuilders,
    post: SimulationComponentBuilders,
    fifo: Fifo,
    index: usize,
    raw_edge: IncompleteEdgeKey,
    node: NodeWithDelay,
) -> bool {
    &&& post.edges.st() == st_push_destination(pre.edges.st(), raw_edge)
    &&& post.axi@ == pre.axi@
    &&& post.rctls@ == pre.rctls@
    &&& post.modules.committed@ == pre.modules.committed@
    &&& forall|pos: int|
        is_first_match(pre.fifos@, fifo.id, pos) ==> ({
            &&& post.fifos@.len() == pre.fifos@.len()
            &&& (forall|k: int|
                0 <= k < pre.fifos@.len() && k != pos ==> (#[trigger] post.fifos@[k])
                    == pre.fifos@[k])
            &&& post.fifos@[pos].0 == fifo.id
            &&& post.fifos@[pos].1.writes@ == pre.fifos@[pos].1.writes@
            &&& post.fifos@[pos].1.raw_edges == pre.fifos@[pos].1.raw_edges
            &&& (index < pre.fifos@[pos].1.reads@.len() && node.delay == 0
                ==> post.fifos@[pos].1.reads@ == pre.fifos@[pos].1.reads@.update(
                index as int,
                Some(node.node),
            ))
        })
}

/// Committing a FIFO write: the FIFO's writes table gains the node at the
/// write's index, the read-after-write edge's source is supplied, and a
/// write-after-read edge is appended for every write after the first.
#[verifier::opaque]
pub open spec fn commit_fifo_write_post(
    pre: SimulationComponentBuilders,
    post: SimulationComponentBuilders,
    fifo: Fifo,
    index: usize,
    raw_edge: IncompleteEdgeKey,
    node: NodeWithDelay,
) -> bool {
    &&& post.edges.st() == (if index != 0 {
        st_push_complete_edge(
            st_update_source(pre.edges.st(), raw_edge, node),
            Edge::FifoWar { fifo, index },
        )
    } else {
        st_update_source(pre.edges.st(), raw_edge, node)
    })
    &&& post.axi@ == pre.axi@
    &&& post.rctls@ == pre.rctls@
    &&& post.modules.committed@ == pre.modules.committed@
    &&& forall|pos: int|
        is_first_match(pre.fifos@, fifo.id, pos) ==> ({
            &&& post.fifos@.len() == pre.fifos@.len()
            &&& (forall|k: int|
                0 <= k < pre.fifos@.len() && k != pos ==> (#[trigger] post.fifos@[k])
                    == pre.fifos@[k])
            &&& post.fifos@[pos].0 == fifo.id
            &&& post.fifos@[pos].1.reads@ == pre.fifos@[pos].1.reads@
            &&& post.fifos@[pos].1.raw_edges == pre.fifos@[pos].1.raw_edges
            &&& (index < pre.fifos@[pos].1.writes@.len() ==> post.fifos@[pos].1.writes@
                == pre.fifos@[pos].1.writes@.update(index as int, Some(node)))
        })
}

/// Committing an AXI read request: the interface's request table gains the
/// node, and the first read's edge has its source supplied.
#[verifier::opaque]
pub open spec fn commit_axi_readreq_post(
    pre: SimulationComponentBuilders,
    post: SimulationComponentBuilders,
    interface: AxiInterface,
    index: usize,
    read_edge: IncompleteEdgeKey,
    node: NodeWithDelay,
) -> bool {
    &&& post.edges.st() == st_update_source(pre.edges.st(), read_edge, node)
    &&& post.fifos@ == pre.fifos@
    &&& post.rctls@ == pre.rctls@
    &&& post.modules.committed@ == pre.modules.committed@
    &&& forall|pos: int|
        is_first_match(pre.axi@, interface.address, pos) ==> ({
            &&& post.axi@.len() == pre.axi@.len()
            &&& (forall|k: int|
                0 <= k < pre.axi@.len() && k != pos ==> (#[trigger] post.axi@[k]) == pre.axi@[k])
            &&& post.axi@[pos].0 == interface.address
            &&& (index < pre.axi@[pos].1.readreqs@.len() ==> post.axi@[pos].1.readreqs@
                == pre.axi@[pos].1.readreqs@.update(
                index as int,
                AxiGenericIoOptionalNode {
                    node: Some(node),
                    range: pre.axi@[pos].1.readreqs@[index as int].range,
                },
            ))
        })
}

/// Committing an AXI write request: only the interface's request table gains
/// the node; no edge is touched.
#[verifier::opaque]
pub open spec fn commit_axi_writereq_post(
    pre: SimulationComponentBuilders,
    post: SimulationComponentBuilders,
    interface: AxiInterface,
    index: usize,
    node: NodeWithDelay,
) -> bool {
    &&& post.edges.st() == pre.edges.st()
    &&& post.fifos@ == pre.fifos@
    &&& post.rctls@ == pre.rctls@
    &&& post.modules.committed@ == pre.modules.committed@
    &&& forall|pos: int|
        is_first_match(pre.axi@, interface.address, pos) ==> ({
            &&& post.axi@.len() == pre.axi@.len()
            &&& (forall|k: int|
                0 <= k < pre.axi@.len() && k != pos ==> (#[trigger] post.axi@[k]) == pre.axi@[k])
            &&& post.axi@[pos].0 == interface.address
            &&& (index < pre.axi@[pos].1.writereqs@.len() ==> post.axi@[pos].1.writereqs@
                == pre.axi@[pos].1.writereqs@.update(
                index as int,
                AxiGenericIoOptionalNode {
                    node: Some(node),
                    range: pre.axi@[pos].1.writereqs@[index as int].range,
                },
            ))
        })
}

/// Committing an AXI write: the interface's write table gains the node, and
/// the pending write-response edge, if the request's last write brought one,
/// has its source supplied.
#[verifier::opaque]
pub open spec fn commit_axi_write_post(
    pre: SimulationComponentBuilders,
    post: SimulationComponentBuilders,
    interface: AxiInterface,
    index: usize,
    writeresp_edge: Option<IncompleteEdgeKey>,
    node: NodeWithDelay,
) -> bool {
    &&& post.edges.st() == (match writeresp_edge {
        Some(e) => st_update_source(pre.edges.st(), e, node),
        None => pre.edges.st(),
    })
    &&& post.fifos@ == pre.fifos@
    &&& post.rctls@ == pre.rctls@
    &&& post.modules.committed@ == pre.modules.committed@
    &&& forall|pos: int|
        is_first_match(pre.axi@, interface.address, pos) ==> ({
            &&& post.axi@.len() == pre.axi@.len()
            &&& (forall|k: int|
                0 <= k < pre.axi@.len() && k != pos ==> (#[trigger] post.axi@[k]) == pre.axi@[k])
            &&& post.axi@[pos].0 == interface.address
            &&& (index < pre.axi@[pos].1.writes@.len() ==> post.axi@[pos].1.writes@
                == pre.axi@[pos].1.writes@.update(
                index as int,
                AxiGenericIoOptionalNode {
                    node: Some(node),
                    range: pre.axi@[pos].1.writes@[index as int].range,
                },
            ))
        })
}

/// Committing an AXI write response: the interface's response table gains the
/// node, and the response edge's destination half is fixed.
#[verifier::opaque]
pub open spec fn commit_axi_writeresp_post(
    pre: SimulationComponentBuilders,
    post: SimulationComponentBuilders,
    interface: AxiInterface,
    index: usize,
    writeresp_edge: IncompleteEdgeKey,
    node: NodeWithDelay,
) -> bool {
    &&& post.edges.st() == st_push_destination(pre.edges.st(), writeresp_edge)
    &&& post.fifos@ == pre.fifos@
    &&& post.rctls@ == pre.rctls@
    &&& post.modules.committed@ == pre.modules.committed@
    &&& forall|pos: int|
        is_first_match(pre.axi@, interface.address, pos) ==> ({
            &&& post.axi@.len() == pre.axi@.len()
            &&& (forall|k: int|
                0 <= k < pre.axi@.len() && k != pos ==> (#[trigger] post.axi@[k]) == pre.axi@[k])
            &&& post.axi@[pos].0 == interface.address
            &&& (index < pre.axi@[pos].1.writeresps@.len() ==> post.axi@[pos].1.writeresps@
                == pre.axi@[pos].1.writeresps@.update(index as int, Some(node)))
        })
}

/// Committing an AXI read: the interface's read table gains the node; a first
/// read also closes its request's read and read-control in-edges and admits
/// the request into the read-control queue; a last read supplies the
/// read-control out-edge's source.
#[verifier::opaque]
pub open spec fn commit_axi_read_post(
    pre: SimulationComponentBuilders,
    post: SimulationComponentBuilders,
    interface: AxiInterface,
    index: usize,
    first_read: Option<FirstReadData>,
    rctl_out_edge: Option<IncompleteEdgeKey>,
    node: NodeWithDelay,
) -> bool {
    &&& post.fifos@ == pre.fifos@
    &&& post.modules.committed@ == pre.modules.committed@
    &&& (first_read is None ==> post.rctls@ == pre.rctls@ && post.edges.st() == (
    match rctl_out_edge {
        Some(oe) => st_update_source(pre.edges.st(), oe, node),
        None => pre.edges.st(),
    }))
    &&& forall|pos: int|
        is_first_match(pre.axi@, interface.address, pos) ==> ({
            &&& post.axi@.len() == pre.axi@.len()
            &&& (forall|k: int|
                0 <= k < pre.axi@.len() && k != pos ==> (#[trigger] post.axi@[k]) == pre.axi@[k])
            &&& post.axi@[pos].0 == interface.address
            &&& (index < pre.axi@[pos].1.reads@.len() ==> post.axi@[pos].1.reads@
                == pre.axi@[pos].1.reads@.update(
                index as int,
                AxiGenericIoOptionalNode {
                    node: Some(node),
                    range: pre.axi@[pos].1.reads@[index as int].range,
                },
            ))
        })
}

impl SimulationComponentBuilders {
    /// Structural soundness of everything built so far.
    pub open spec fn wf(self) -> bool {
        &&& self.edges.wf()
        &&& self.edges.node_count() >= 1
        &&& self.modules.wf(self.edges.node_count())
        &&& forall|i: int|
            0 <= i < self.fifos@.len() ==> (#[trigger] self.fifos@[i]).1.in_bounds(
                self.edges.node_count(),
            )
        &&& forall|i: int|
            0 <= i < self.axi@.len() ==> (#[trigger] self.axi@[i]).1.in_bounds(
                self.edges.node_count(),
            )
        &&& forall|i: int, j: int|
            0 <= i < self.rctls@.len() && 0 <= j < self.rctls@[i].1@.len() ==> (
            #[trigger] self.rctls@[i].1@[j]).1.wf()
        &&& (self.end_node matches Some(n) ==> n < self.edges.node_count())
    }

    /// Committed-or-pending write count of one FIFO's table.
    pub open spec fn fifo_writes_count(self, id: FifoId) -> int {
        match crate::alist::alist_find(self.fifos@, id) {
            Some(b) => b.writes@.len() as int,
            None => 0,
        }
    }

    /// Committed-or-pending read count of one FIFO's table.
    pub open spec fn fifo_reads_count(self, id: FifoId) -> int {
        match crate::alist::alist_find(self.fifos@, id) {
            Some(b) => b.reads@.len() as int,
            None => 0,
        }
    }

    /// The pending builder of one AXI interface, if any transfer arrived.
    pub open spec fn axi_find(self, address: AxiAddress) -> Option<AxiBuilder> {
        crate::alist::alist_find(self.axi@, address)
    }

    pub open spec fn axi_readreqs_count(self, address: AxiAddress) -> int {
        match self.axi_find(address) {
            Some(b) => b.readreqs@.len() as int,
            None => 0,
        }
    }

    pub open spec fn axi_reads_count(self, address: AxiAddress) -> int {
        match self.axi_find(address) {
            Some(b) => b.reads@.len() as int,
            None => 0,
        }
    }

    pub open spec fn axi_writereqs_count(self, address: AxiAddress) -> int {
        match self.axi_find(address) {
            Some(b) => b.writereqs@.len() as int,
            None => 0,
        }
    }

    pub open spec fn axi_writes_count(self, address: AxiAddress) -> int {
        match self.axi_find(address) {
            Some(b) => b.writes@.len() as int,
            None => 0,
        }
    }

    pub open spec fn axi_writeresps_count(self, address: AxiAddress) -> int {
        match self.axi_find(address) {
            Some(b) => b.writeresps@.len() as int,
            None => 0,
        }
    }

    /// Whether a read request's arithmetic is representable: at least one
    /// byte, inside the address space, and a representable burst count.
    pub open spec fn readreq_acceptable(request: AxiRequestRange) -> bool {
        &&& request.count >= 1
        &&& request.increment >= 1
        &&& request.count as int <= u64::MAX as int / request.increment as int
        &&& request.offset as int <= u64::MAX - request.increment * request.count
        &&& (request.offset + (request.increment * request.count - 1)) / 4096 - request.offset
            / 4096 <= usize::MAX - 1
    }

    /// Whether a write request's length is representable.
    pub open spec fn writereq_acceptable(request: AxiRequestRange) -> bool {
        request.increment == 0 || request.count as int <= u64::MAX as int
            / request.increment as int
    }

    /// Whether another event's worth of nodes and edges still fits.
    pub open spec fn has_capacity_spec(self) -> bool {
        &&& self.edges.node_offsets@.len() < u32::MAX - 2
        &&& self.edges.incomplete_edges@.len() < usize::MAX - 8
    }

    /// Exec counterpart of [`SimulationComponentBuilders::has_capacity_spec`].
    fn has_capacity(&self) -> (r: bool)
        ensures
            r == self.has_capacity_spec(),
            r ==> self.edges.node_offsets@.len() + 2 < u32::MAX
                && self.edges.incomplete_edges@.len() + 8 < usize::MAX,
    {
        self.edges.node_offsets.len() < (u32::MAX as usize) - 2 && self.edges.incomplete_edges.len()
            < usize::MAX - 8
    }

    /// Position of the FIFO's builder, opening one on first use.
    fn fifo_entry(&mut self, id: FifoId) -> (pos: usize)
        requires
            old(self).wf(),
        ensures
            final(self).wf(),
            pos < final(self).fifos@.len(),
            final(self).fifos@[pos as int].0 == id,
            final(self).edges == old(self).edges,
            final(self).modules == old(self).modules,
            final(self).modules.committed@ == old(self).modules.committed@,
            final(self).rctls@ == old(self).rctls@,
            final(self).end_node == old(self).end_node,
            final(self).consistent == old(self).consistent,
            final(self).axi@ == old(self).axi@,
            forall|k: int|
                0 <= k < old(self).fifos@.len() ==> final(self).fifos@[k] == old(self).fifos@[k],
            forall|k: int| 0 <= k < pos ==> final(self).fifos@[k].0 != id,
            pos <= old(self).fifos@.len(),
            pos < old(self).fifos@.len() ==> final(self).fifos@ == old(self).fifos@,
            pos == old(self).fifos@.len() ==> {
                &&& final(self).fifos@.len() == old(self).fifos@.len() + 1
                &&& final(self).fifos@[pos as int].1.writes@.len() == 0
                &&& final(self).fifos@[pos as int].1.reads@.len() == 0
            },
    {
        match alist_position_u32(&self.fifos, id) {
            Some(pos) => pos,
            None => {
                let pos = self.fifos.len();
                self.fifos.push((id, FifoBuilder::new()));
                pos
            },
        }
    }

    /// Position of the interface's builder, opening one on first use.
    fn axi_entry(&mut self, address: AxiAddress) -> (pos: usize)
        requires
            old(self).wf(),
        ensures
            final(self).wf(),
            pos < final(self).axi@.len(),
            final(self).axi@[pos as int].0 == address,
            final(self).edges == old(self).edges,
            final(self).modules == old(self).modules,
            final(self).modules.committed@ == old(self).modules.committed@,
            final(self).rctls@ == old(self).rctls@,
            final(self).end_node == old(self).end_node,
            final(self).consistent == old(self).consistent,
            final(self).fifos@ == old(self).fifos@,
            forall|k: int|
                0 <= k < old(self).axi@.len() ==> final(self).axi@[k] == old(self).axi@[k],
            forall|k: int| 0 <= k < pos ==> final(self).axi@[k].0 != address,
            pos <= old(self).axi@.len(),
            pos < old(self).axi@.len() ==> final(self).axi@ == old(self).axi@,
            pos == old(self).axi@.len() ==> {
                &&& final(self).axi@.len() == old(self).axi@.len() + 1
                &&& final(self).axi@[pos as int].1.readreqs@.len() == 0
                &&& final(self).axi@[pos as int].1.reads@.len() == 0
                &&& final(self).axi@[pos as int].1.writereqs@.len() == 0
                &&& final(self).axi@[pos as int].1.writes@.len() == 0
                &&& final(self).axi@[pos as int].1.writeresps@.len() == 0
                &&& final(self).axi@[pos as int].1.writeresp_edge is None
                &&& final(self).axi@[pos as int].1.first_read is None
                &&& final(self).axi@[pos as int].1.readreq_reads_remaining == 0
                &&& final(self).axi@[pos as int].1.writereq_writes_remaining == 0
            },
    {
        match alist_position_u64(&self.axi, address) {
            Some(pos) => pos,
            None => {
                let pos = self.axi.len();
                self.axi.push((address, AxiBuilder::new()));
                pos
            },
        }
    }

    /// Pushes one read-control transaction on the queue of `(module, interface)`.
    fn rctl_push(&mut self, module_key: ModuleKey, interface: AxiInterface, txn: RctlTransaction)
        requires
            old(self).wf(),
            1 <= txn.burst_count <= usize::MAX - MAX_RCTL_DEPTH,
        ensures
            final(self).wf(),
            final(self).edges.node_offsets@ == old(self).edges.node_offsets@,
            final(self).modules == old(self).modules,
            final(self).modules.committed@ == old(self).modules.committed@,
            final(self).fifos@ == old(self).fifos@,
            final(self).axi@ == old(self).axi@,
            final(self).end_node == old(self).end_node,
            final(self).consistent == old(self).consistent,
    {
        let mkey = module_key as u64;
        let pos = match alist_position_u64(&self.rctls, mkey) {
            Some(pos) => pos,
            None => {
                let pos = self.rctls.len();
                self.rctls.push((mkey, Vec::new()));
                pos
            },
        };
        let mut entry = self.rctls.remove(pos);
        let ipos = match alist_position_u64(&entry.1, interface.address) {
            Some(ipos) => ipos,
            None => {
                let ipos = entry.1.len();
                entry.1.push((interface.address, AxiRctl::new()));
                ipos
            },
        };
        let mut rctl_entry = entry.1.remove(ipos);
        rctl_entry.1.push(&mut self.edges, txn);
        entry.1.insert(ipos, rctl_entry);
        self.rctls.insert(pos, entry);
        proof {
            assert forall|i: int, j: int|
                0 <= i < self.rctls@.len() && 0 <= j < self.rctls@[i].1@.len() implies (
            #[trigger] self.rctls@[i].1@[j]).1.wf() by {
            }
        }
    }

    /// One committed event of this kind; see the named predicate.
    fn commit_subcall_end_ev(&mut self, edge: IncompleteEdgeKey, node: NodeWithDelay)
        requires
            old(self).wf(),
            node.in_bounds(old(self).edges.node_count()),
        ensures
            final(self).wf(),
            final(self).edges.node_offsets@ == old(self).edges.node_offsets@,
            final(self).modules.committed@ == old(self).modules.committed@,
            final(self).modules.uncommitted@ == old(self).modules.uncommitted@,
            commit_subcall_end_post(*old(self), *final(self), edge),
    {
                if !self.edges.checked_push_destination(edge) {
                    self.consistent = false;
                }
                proof {
                    assert(commit_subcall_end_post(*old(self), *self, edge)) by {
                        reveal(commit_subcall_end_post);
                    }
                }
            }

    /// One committed event of this kind; see the named predicate.
    fn commit_fifo_read_ev(&mut self, fifo: Fifo, index: usize, raw_edge: IncompleteEdgeKey, node: NodeWithDelay)
        requires
            old(self).wf(),
            node.in_bounds(old(self).edges.node_count()),
        ensures
            final(self).wf(),
            final(self).edges.node_offsets@ == old(self).edges.node_offsets@,
            final(self).modules.committed@ == old(self).modules.committed@,
            final(self).modules.uncommitted@ == old(self).modules.uncommitted@,
            commit_fifo_read_post(*old(self), *final(self), fifo, index, raw_edge, node),
    {
                let pos = self.fifo_entry(fifo.id);
                let mut entry = self.fifos.remove(pos);
                if !entry.1.update_read(index, node) {
                    self.consistent = false;
                }
                self.fifos.insert(pos, entry);
                if !self.edges.checked_push_destination(raw_edge) {
                    self.consistent = false;
                }
                proof {
                    assert(commit_fifo_read_post(*old(self), *self, fifo, index, raw_edge, node))
                        by {
                        reveal(commit_fifo_read_post);
                    }
                }
            }

    /// One committed event of this kind; see the named predicate.
    fn commit_fifo_write_ev(&mut self, fifo: Fifo, index: usize, raw_edge: IncompleteEdgeKey, node: NodeWithDelay)
        requires
            old(self).wf(),
            node.in_bounds(old(self).edges.node_count()),
        ensures
            final(self).wf(),
            final(self).edges.node_offsets@ == old(self).edges.node_offsets@,
            final(self).modules.committed@ == old(self).modules.committed@,
            final(self).modules.uncommitted@ == old(self).modules.uncommitted@,
            commit_fifo_write_post(*old(self), *final(self), fifo, index, raw_edge, node),
    {
                let pos = self.fifo_entry(fifo.id);
                let mut entry = self.fifos.remove(pos);
                if !entry.1.update_write(index, node) {
                    self.consistent = false;
                }
                self.fifos.insert(pos, entry);
                if !self.edges.checked_update_source(raw_edge, node) {
                    self.consistent = false;
                }
                if index != 0 {
                    self.edges.push_edge(Edge::FifoWar { fifo, index });
                }
                proof {
                    assert(commit_fifo_write_post(*old(self), *self, fifo, index, raw_edge, node))
                        by {
                        reveal(commit_fifo_write_post);
                    }
                }
            }

    /// One committed event of this kind; see the named predicate.
    fn commit_axi_readreq_ev(&mut self, interface: AxiInterface, index: usize, read_edge: IncompleteEdgeKey, node: NodeWithDelay)
        requires
            old(self).wf(),
            node.in_bounds(old(self).edges.node_count()),
        ensures
            final(self).wf(),
            final(self).edges.node_offsets@ == old(self).edges.node_offsets@,
            final(self).modules.committed@ == old(self).modules.committed@,
            final(self).modules.uncommitted@ == old(self).modules.uncommitted@,
            commit_axi_readreq_post(*old(self), *final(self), interface, index, read_edge, node),
    {
                let pos = self.axi_entry(interface.address);
                let mut entry = self.axi.remove(pos);
                if !entry.1.update_readreq(index, node) {
                    self.consistent = false;
                }
                self.axi.insert(pos, entry);
                if !self.edges.checked_update_source(read_edge, node) {
                    self.consistent = false;
                }
                proof {
                    assert(commit_axi_readreq_post(
                        *old(self),
                        *self,
                        interface,
                        index,
                        read_edge,
                        node,
                    )) by {
                        reveal(commit_axi_readreq_post);
                    }
                }
            }

    /// One committed event of this kind; see the named predicate.
    fn commit_axi_read_ev(&mut self, module_key: ModuleKey, interface: AxiInterface, index: usize, first_read: Option<FirstReadData>, rctl_out_edge: Option<IncompleteEdgeKey>, node: NodeWithDelay)
        requires
            old(self).wf(),
            node.in_bounds(old(self).edges.node_count()),
        ensures
            final(self).wf(),
            final(self).edges.node_offsets@ == old(self).edges.node_offsets@,
            final(self).modules.committed@ == old(self).modules.committed@,
            final(self).modules.uncommitted@ == old(self).modules.uncommitted@,
            commit_axi_read_post(*old(self), *final(self), interface, index, first_read, rctl_out_edge, node),
    {
                let pos = self.axi_entry(interface.address);
                let mut entry = self.axi.remove(pos);
                if !entry.1.update_read(index, node) {
                    self.consistent = false;
                }
                self.axi.insert(pos, entry);
                if let Some(data) = first_read {
                    if !self.edges.checked_push_destination(data.read_edge) {
                        self.consistent = false;
                    }
                    if !self.edges.checked_push_destination(data.rctl_in_edge) {
                        self.consistent = false;
                    }
                    if 1 <= data.burst_count && data.burst_count <= usize::MAX - MAX_RCTL_DEPTH {
                        self.rctl_push(
                            module_key,
                            interface,
                            RctlTransaction {
                                burst_count: data.burst_count,
                                in_edge: data.rctl_in_edge,
                                out_edge: Some(data.rctl_out_edge),
                            },
                        );
                    } else {
                        self.consistent = false;
                    }
                }
                if let Some(out_edge) = rctl_out_edge {
                    if !self.edges.checked_update_source(out_edge, node) {
                        self.consistent = false;
                    }
                }
                proof {
                    assert(commit_axi_read_post(
                        *old(self),
                        *self,
                        interface,
                        index,
                        first_read,
                        rctl_out_edge,
                        node,
                    )) by {
                        reveal(commit_axi_read_post);
                    }
                }
            }

    /// One committed event of this kind; see the named predicate.
    fn commit_axi_writereq_ev(&mut self, interface: AxiInterface, index: usize, node: NodeWithDelay)
        requires
            old(self).wf(),
            node.in_bounds(old(self).edges.node_count()),
        ensures
            final(self).wf(),
            final(self).edges.node_offsets@ == old(self).edges.node_offsets@,
            final(self).modules.committed@ == old(self).modules.committed@,
            final(self).modules.uncommitted@ == old(self).modules.uncommitted@,
            commit_axi_writereq_post(*old(self), *final(self), interface, index, node),
    {
                let pos = self.axi_entry(interface.address);
                let mut entry = self.axi.remove(pos);
                if !entry.1.update_writereq(index, node) {
                    self.consistent = false;
                }
                self.axi.insert(pos, entry);
                proof {
                    assert(commit_axi_writereq_post(*old(self), *self, interface, index, node))
                        by {
                        reveal(commit_axi_writereq_post);
                    }
                }
            }

    /// One committed event of this kind; see the named predicate.
    fn commit_axi_write_ev(&mut self, interface: AxiInterface, index: usize, writeresp_edge: Option<IncompleteEdgeKey>, node: NodeWithDelay)
        requires
            old(self).wf(),
            node.in_bounds(old(self).edges.node_count()),
        ensures
            final(self).wf(),
            final(self).edges.node_offsets@ == old(self).edges.node_offsets@,
            final(self).modules.committed@ == old(self).modules.committed@,
            final(self).modules.uncommitted@ == old(self).modules.uncommitted@,
            commit_axi_write_post(*old(self), *final(self), interface, index, writeresp_edge, node),
    {
                let pos = self.axi_entry(interface.address);
                let mut entry = self.axi.remove(pos);
                if !entry.1.update_write(index, node) {
                    self.consistent = false;
                }
                self.axi.insert(pos, entry);
                if let Some(edge) = writeresp_edge {
                    if !self.edges.checked_update_source(edge, node) {
                        self.consistent = false;
                    }
                }
                proof {
                    assert(commit_axi_write_post(
                        *old(self),
                        *self,
                        interface,
                        index,
                        writeresp_edge,
                        node,
                    )) by {
                        reveal(commit_axi_write_post);
                    }
                }
            }

    /// One committed event of this kind; see the named predicate.
    fn commit_axi_writeresp_ev(&mut self, interface: AxiInterface, index: usize, writeresp_edge: IncompleteEdgeKey, node: NodeWithDelay)
        requires
            old(self).wf(),
            node.in_bounds(old(self).edges.node_count()),
        ensures
            final(self).wf(),
            final(self).edges.node_offsets@ == old(self).edges.node_offsets@,
            final(self).modules.committed@ == old(self).modules.committed@,
            final(self).modules.uncommitted@ == old(self).modules.uncommitted@,
            commit_axi_writeresp_post(*old(self), *final(self), interface, index, writeresp_edge, node),
    {
                let pos = self.axi_entry(interface.address);
                let mut entry = self.axi.remove(pos);
                if !entry.1.update_writeresp(index, node) {
                    self.consistent = false;
                }
                self.axi.insert(pos, entry);
                if !self.edges.checked_push_destination(writeresp_edge) {
                    self.consistent = false;
                }
                proof {
                    assert(commit_axi_writeresp_post(
                        *old(self),
                        *self,
                        interface,
                        index,
                        writeresp_edge,
                        node,
                    )) by {
                        reveal(commit_axi_writeresp_post);
                    }
                }
            }

    /// Commits one event at its absolute time, wiring the edges it owns.
    /// Committing the start of a child call commits that child module and,
    /// in turn, the events it had deferred; deferred events never carry
    /// in-edges.
    #[verifier::rlimit(100)]
    pub fn commit_event(&mut self, module_key: ModuleKey, event: Event, node: NodeWithDelay)
        requires
            old(self).wf(),
            node.in_bounds(old(self).edges.node_count()),
        ensures
            final(self).wf(),
            final(self).edges.node_offsets@ == old(self).edges.node_offsets@,
            uncommitted_count(final(self).modules.uncommitted@) <= uncommitted_count(
                old(self).modules.uncommitted@,
            ),
            final(self).modules.committed@.len() == old(self).modules.committed@.len(),
            forall|i: int|
                0 <= i < old(self).modules.committed@.len() && (#[trigger] old(
                    self,
                ).modules.committed@[i]) is Some ==> final(self).modules.committed@[i] is Some,
            event matches Event::SubcallEnd { edge } ==> commit_subcall_end_post(
                *old(self),
                *final(self),
                edge,
            ),
            event matches Event::FifoRead { fifo, index, raw_edge }
                ==> commit_fifo_read_post(*old(self), *final(self), fifo, index, raw_edge, node),
            event matches Event::FifoWrite { fifo, index, raw_edge }
                ==> commit_fifo_write_post(*old(self), *final(self), fifo, index, raw_edge, node),
            event matches Event::AxiReadRequest { interface, index, read_edge }
                ==> commit_axi_readreq_post(
                *old(self),
                *final(self),
                interface,
                index,
                read_edge,
                node,
            ),
            event matches Event::AxiWriteRequest { interface, index }
                ==> commit_axi_writereq_post(*old(self), *final(self), interface, index, node),
            event matches Event::AxiWrite { interface, index, writeresp_edge }
                ==> commit_axi_write_post(
                *old(self),
                *final(self),
                interface,
                index,
                writeresp_edge,
                node,
            ),
            event matches Event::AxiWriteResponse { interface, index, writeresp_edge }
                ==> commit_axi_writeresp_post(
                *old(self),
                *final(self),
                interface,
                index,
                writeresp_edge,
                node,
            ),
            event matches Event::AxiRead { interface, index, first_read, rctl_out_edge }
                ==> commit_axi_read_post(
                *old(self),
                *final(self),
                interface,
                index,
                first_read,
                rctl_out_edge,
                node,
            ),
            event matches Event::SubcallStart { module_key: child, edge } ==> (old(
                self,
            ).modules.active(child as int) ==> final(self).modules.committed@[old(
                self,
            ).modules.at(child as int).index as int] is Some),
        decreases uncommitted_count(old(self).modules.uncommitted@),
    {
        let ghost entry_count = uncommitted_count(self.modules.uncommitted@);
        proof {
            crate::builder::module_builder::lemma_uncommitted_count_nonneg(
                self.modules.uncommitted@,
                self.modules.uncommitted@.len() as int,
            );
        }
        match event {
            Event::SubcallStart { module_key: child_key, edge } => {
                let nc = Ghost(self.edges.node_count());
                let deferred = self.modules.commit_module(child_key, node, nc);
                let ghost committed1 = self.modules.committed@;
                let ok = self.edges.checked_update_source(edge, node);
                if !ok {
                    self.consistent = false;
                }
                match deferred {
                    Some(deferred) => {
                        let mut i: usize = 0;
                        while i < deferred.len()
                            invariant
                                self.wf(),
                                self.edges.node_offsets@ == old(self).edges.node_offsets@,
                                i <= deferred@.len(),
                                forall|j: int|
                                    0 <= j < deferred@.len() ==> (#[trigger] deferred@[j]).0.in_bounds(
                                        old(self).edges.node_count(),
                                    ),
                                uncommitted_count(self.modules.uncommitted@) <= entry_count - 1,
                                entry_count == uncommitted_count(old(self).modules.uncommitted@),
                                self.modules.committed@.len() == committed1.len(),
                                forall|ii: int|
                                    0 <= ii < committed1.len() && (#[trigger] committed1[ii])
                                        is Some ==> self.modules.committed@[ii] is Some,
                            decreases deferred@.len() - i,
                        {
                            let (n, ev) = deferred[i];
                            if ev.has_in_edge() {
                                self.consistent = false;
                            } else {
                                proof {
                                    crate::builder::module_builder::lemma_uncommitted_count_nonneg(
                                        self.modules.uncommitted@,
                                        self.modules.uncommitted@.len() as int,
                                    );
                                }
                                self.commit_event(module_key, ev, n);
                            }
                            i += 1;
                        }
                        proof {
                            assert forall|ii: int|
                                0 <= ii < old(self).modules.committed@.len() && (#[trigger] old(
                                    self,
                                ).modules.committed@[ii]) is Some implies self.modules.committed@[ii]
                                is Some by {
                                assert(committed1[ii] is Some);
                            }
                            if old(self).modules.active(child_key as int) {
                                let idx = old(self).modules.at(child_key as int).index as int;
                                assert(committed1[idx] is Some);
                                assert(self.modules.committed@[idx] is Some);
                            }
                        }
                    },
                    None => {
                        self.consistent = false;
                        proof {
                            assert(self.modules.committed@ == committed1);
                            assert(committed1 == old(self).modules.committed@);
                            assert(!old(self).modules.active(child_key as int));
                        }
                    },
                }
            },
            Event::SubcallEnd { edge } => {
                self.commit_subcall_end_ev(edge, node);
            },
            Event::FifoRead { fifo, index, raw_edge } => {
                self.commit_fifo_read_ev(fifo, index, raw_edge, node);
            },
            Event::FifoWrite { fifo, index, raw_edge } => {
                self.commit_fifo_write_ev(fifo, index, raw_edge, node);
            },
            Event::AxiReadRequest { interface, index, read_edge } => {
                self.commit_axi_readreq_ev(interface, index, read_edge, node);
            },
            Event::AxiRead { interface, index, first_read, rctl_out_edge } => {
                self.commit_axi_read_ev(module_key, interface, index, first_read, rctl_out_edge, node);
            },
            Event::AxiWriteRequest { interface, index } => {
                self.commit_axi_writereq_ev(interface, index, node);
            },
            Event::AxiWrite { interface, index, writeresp_edge } => {
                self.commit_axi_write_ev(interface, index, writeresp_edge, node);
            },
            Event::AxiWriteResponse { interface, index, writeresp_edge } => {
                self.commit_axi_writeresp_ev(interface, index, writeresp_edge, node);
            },
        }
    }
}

impl SimulationComponentBuilders {
    /// Commits one window stage: a stage with an in-edge becomes its own
    /// node, closing the running control-flow edge and opening a new one;
    /// otherwise the stage only adds delay. Each event then commits at the
    /// stalled (post-commit) time, except a child-call start, which uses the
    /// pre-commit time; events at times relative to an unknown module start
    /// are deferred to that module.
    pub fn commit_node(
        &mut self,
        frame: &mut StackFrame,
        uncommitted_node: UncommittedNode,
        advance_by: SimulationStage,
    )
        requires
            old(self).wf(),
            old(frame).current_time.in_bounds(old(self).edges.node_count()),
        ensures
            final(self).wf(),
            final(self).edges.node_count() >= old(self).edges.node_count(),
            final(self).edges.node_count() <= old(self).edges.node_count() + 1,
            final(frame).current_time.in_bounds(final(self).edges.node_count()),
            final(frame).key == old(frame).key,
            final(frame).parent_end == old(frame).parent_end,
            final(frame).window@ == old(frame).window@,
            final(frame).offset == old(frame).offset + (if old(frame).offset + advance_by
                <= u32::MAX {
                advance_by as int
            } else {
                0int
            }),
            old(frame).offset + advance_by > u32::MAX ==> (final(frame).current_time == old(
                frame,
            ).current_time && final(frame).current_edge == old(frame).current_edge && !final(self).consistent && final(self).edges.node_count() == old(self).edges.node_count()),
            old(frame).offset + advance_by <= u32::MAX && !uncommitted_node.own_node_spec()
                ==> (final(self).edges.node_count() == old(self).edges.node_count() && final(frame).current_time == old(frame).current_time.add_spec(advance_by as u64) && final(frame).current_edge == old(frame).current_edge),
            old(frame).offset + advance_by <= u32::MAX && uncommitted_node.own_node_spec() && old(
                self,
            ).has_capacity_spec() ==> (final(self).edges.node_count() == old(
                self,
            ).edges.node_count() + 1 && (final(frame).current_time matches NodeTime::Absolute(u)
                && u.node as int == old(self).edges.node_count() && u.delay == advance_by as u64)
                && final(frame).current_edge as int == old(
                self,
            ).edges.incomplete_edges@.len() as int),
            old(frame).offset + advance_by <= u32::MAX && uncommitted_node.own_node_spec() && !old(
                self,
            ).has_capacity_spec() ==> (!final(self).consistent && final(frame).current_time == old(
                frame,
            ).current_time && final(frame).current_edge == old(frame).current_edge && final(self).edges.node_count() == old(self).edges.node_count()),
    {
        if frame.offset <= u32::MAX - advance_by {
            frame.offset = frame.offset + advance_by;
        } else {
            self.consistent = false;
            return ;
        }
        let delay: ClockCycle = advance_by as u64;
        let unstalled_time = frame.current_time;
        let stalled_time: NodeTime;
        if uncommitted_node.is_own_node() {
            if !self.has_capacity() {
                self.consistent = false;
                return ;
            }
            let node = self.edges.insert_node();
            if !self.edges.checked_push_destination(frame.current_edge) {
                self.consistent = false;
            }
            let node_with_delay = NodeWithDelay { node, delay };
            frame.current_edge = self.edges.insert_edge(IncompleteEdgeType::ControlFlow);
            frame.current_time = NodeTime::Absolute(node_with_delay);
            if !self.edges.checked_update_source(frame.current_edge, node_with_delay) {
                self.consistent = false;
            }
            stalled_time = NodeTime::Absolute(NodeWithDelay { node, delay: 0 });
        } else {
            if !self.edges.checked_add_delay(frame.current_edge, delay) {
                self.consistent = false;
            }
            frame.current_time = frame.current_time.add(delay);
            stalled_time = unstalled_time;
        }
        let ghost nc0 = self.edges.node_count();
        let ghost ct0 = frame.current_time;
        let ghost ce0 = frame.current_edge;
        let mut i: usize = 0;
        while i < uncommitted_node.events.len()
            invariant
                self.wf(),
                frame.current_time == ct0,
                frame.current_edge == ce0,
                self.edges.node_count() == nc0,
                nc0 <= old(self).edges.node_count() + 1,
                self.edges.node_count() >= nc0,
                stalled_time.in_bounds(nc0),
                unstalled_time.in_bounds(nc0),
                frame.current_time.in_bounds(nc0),
                frame.key == old(frame).key,
                frame.parent_end == old(frame).parent_end,
                frame.window@ == old(frame).window@,
                frame.offset == old(frame).offset + advance_by,
                i <= uncommitted_node.events@.len(),
            decreases uncommitted_node.events@.len() - i,
        {
            let event = uncommitted_node.events[i];
            let event_time = if event.is_stalled() {
                stalled_time
            } else {
                unstalled_time
            };
            match event_time {
                NodeTime::Absolute(node) => {
                    self.commit_event(frame.key, event, node);
                },
                NodeTime::RelativeToStart(rel_delay) => {
                    let ghost pre_modules = self.modules;
                    let deferred_ok = self.modules.defer_event(frame.key, rel_delay, event);
                    if !deferred_ok {
                        self.consistent = false;
                    }
                    proof {
                        assert forall|k: int| self.modules.active(k) implies (
                        #[trigger] self.modules.at(k)).index < self.modules.committed@.len()
                            && self.modules.at(k).end.in_bounds(self.edges.node_count()) by {
                            if k != frame.key as int || !deferred_ok {
                                assert(self.modules.uncommitted@[k]
                                    == pre_modules.uncommitted@[k]);
                                assert(pre_modules.active(k));
                            } else {
                                assert(pre_modules.active(k));
                                assert(self.modules.at(k).index == pre_modules.at(k).index);
                                assert(self.modules.at(k).end == pre_modules.at(k).end);
                            }
                        }
                    }
                },
            }
            i += 1;
        }
    }

    /// Commits every window stage before `stage`, then advances the frame's
    /// running delay across the stages that held no events.
    pub fn commit_until(&mut self, frame: &mut StackFrame, stage: SimulationStage)
        requires
            old(self).wf(),
            old(frame).current_time.in_bounds(old(self).edges.node_count()),
        ensures
            final(self).wf(),
            final(self).edges.node_count() >= old(self).edges.node_count(),
            final(frame).current_time.in_bounds(final(self).edges.node_count()),
            final(frame).key == old(frame).key,
            final(frame).parent_end == old(frame).parent_end,
            final(frame).offset == (if old(frame).offset >= stage {
                old(frame).offset
            } else {
                stage
            }),
            final(frame).window@.len() <= old(frame).window@.len(),
            old(frame).offset >= stage ==> (final(frame).window@ == old(frame).window@ && final(frame).current_time == old(frame).current_time && final(frame).current_edge == old(
                frame,
            ).current_edge && final(self).edges.st() == old(self).edges.st()),
            old(frame).offset < stage ==> final(frame).window@ == (if stage - old(frame).offset
                <= old(frame).window@.len() {
                old(frame).window@.skip(stage - old(frame).offset)
            } else {
                Seq::<UncommittedNode>::empty()
            }),
            old(frame).offset < stage && old(frame).window@.len() == 0 ==> (final(frame).current_time == old(frame).current_time.add_spec((stage - old(frame).offset) as u64)
                && final(frame).current_edge == old(frame).current_edge),
    {
        while frame.offset < stage && frame.window.len() > 0
            invariant
                self.wf(),
                self.edges.node_count() >= old(self).edges.node_count(),
                frame.current_time.in_bounds(self.edges.node_count()),
                frame.key == old(frame).key,
                frame.parent_end == old(frame).parent_end,
                old(frame).offset >= stage ==> (frame.offset == old(frame).offset && frame.window@
                    == old(frame).window@ && frame.current_time == old(frame).current_time
                    && frame.current_edge == old(frame).current_edge && self.edges.st() == old(
                    self,
                ).edges.st()),
                old(frame).offset < stage ==> frame.offset <= stage,
                frame.offset >= old(frame).offset,
                old(frame).offset < stage ==> frame.window@ == old(frame).window@.skip(
                    frame.offset - old(frame).offset,
                ),
                old(frame).offset < stage ==> frame.offset - old(frame).offset <= old(
                    frame,
                ).window@.len(),
                old(frame).window@.len() == 0 ==> (frame.offset == old(frame).offset
                    && frame.current_time == old(frame).current_time && frame.current_edge == old(
                    frame,
                ).current_edge),
                frame.window@.len() <= old(frame).window@.len(),
            decreases frame.window@.len(),
        {
            let ghost d = frame.offset - old(frame).offset;
            let uncommitted_node = frame.window.remove(0);
            let ghost wlen = frame.window@.len();
            self.commit_node(frame, uncommitted_node, 1);
            proof {
                assert(frame.window@.len() == wlen);
                if old(frame).offset < stage {
                    assert(0 <= d && d < old(frame).window@.len());
                    assert(old(frame).window@.skip(d).len() == old(frame).window@.len() - d);
                    assert(old(frame).window@.skip(d).drop_first() =~= old(frame).window@.skip(
                        d + 1,
                    ));
                }
            }
        }
        if frame.offset < stage {
            let remaining_stages = stage - frame.offset;
            let remaining_delay: ClockCycle = remaining_stages as u64;
            frame.offset = stage;
            frame.current_time = frame.current_time.add(remaining_delay);
            if !self.edges.checked_add_delay(frame.current_edge, remaining_delay) {
                self.consistent = false;
            }
        }
    }

    /// Queues one event: stages at or before the safe offset commit first,
    /// then the event joins its window stage.
    pub fn add_event(
        &mut self,
        frame: &mut StackFrame,
        safe_offset: SimulationStage,
        stage: SimulationStage,
        event: Event,
    )
        requires
            old(self).wf(),
            old(frame).current_time.in_bounds(old(self).edges.node_count()),
        ensures
            final(self).wf(),
            final(self).edges.node_count() >= old(self).edges.node_count(),
            final(frame).current_time.in_bounds(final(self).edges.node_count()),
            final(frame).key == old(frame).key,
            final(frame).parent_end == old(frame).parent_end,
            final(frame).window@.len() > stage as int,
            final(frame).window@[stage as int].events@.len() > 0,
            final(frame).window@[stage as int].events@.last() == event,
    {
        self.commit_until(frame, safe_offset);
        frame.add_event(stage, event);
    }
}

/// Builds a [`CompiledSimulation`] from one trace event at a time, tracking
/// the call stack of the traced kernel.
pub struct SimulationBuilder {
    pub builders: SimulationComponentBuilders,
    pub stack: Vec<StackFrame>,
}

impl SimulationBuilder {
    /// Structural soundness: the components are sound and every frame's time
    /// refers to a real node.
    pub open spec fn wf(self) -> bool {
        &&& self.builders.wf()
        &&& forall|i: int|
            0 <= i < self.stack@.len() ==> (#[trigger] self.stack@[i]).current_time.in_bounds(
                self.builders.edges.node_count(),
            )
    }

    /// Opens the build: one start node, the top module waiting under key
    /// zero, and the top control-flow edge sourced at the start node.
    pub fn new() -> (r: SimulationBuilder)
        ensures
            r.wf(),
            r.builders.consistent,
            r.builders.edges.node_offsets@ == seq![0usize],
            r.builders.edges.edges@.len() == 0,
            r.builders.edges.incomplete_edges@.len() == 1,
            r.builders.edges.incomplete_count == 1,
            r.builders.edges.at(0) == (crate::builder::edge_builder::IncompleteEdge {
                edge_type: IncompleteEdgeType::ControlFlow,
                delay: 0u64,
                endpoints: crate::builder::edge_builder::IncompleteEdgeEndpoints::SourceKnown(
                    Some(0u32),
                ),
            }),
            r.builders.modules.committed@ == seq![None::<
                crate::builder::module_builder::CommittedModule,
            >],
            r.builders.modules.active(0),
            r.builders.modules.at(0).index == 0,
            r.builders.modules.at(0).inherit_ap_continue,
            r.builders.modules.at(0).start_delay == 0,
            r.builders.modules.at(0).events@.len() == 0,
            r.builders.modules.at(0).submodule_indices@.len() == 0,
            r.builders.fifos@.len() == 0,
            r.builders.axi@.len() == 0,
            r.builders.rctls@.len() == 0,
            r.builders.end_node is None,
            r.stack@.len() == 1,
            r.stack@[0].key == 0,
            r.stack@[0].parent_end == 0,
            r.stack@[0].current_edge == 0,
            r.stack@[0].current_time == NodeTime::RelativeToStart(0u64),
            r.stack@[0].offset == 0,
            r.stack@[0].window@.len() == 0,
    {
        let mut edges = EdgeBuilder::new();
        let start_node = edges.insert_node();
        let mut modules = ModuleBuilder::new();
        let (top_module_key, _) = modules.insert_module(None, 0, true);
        let top_module_start_edge = edges.insert_edge(IncompleteEdgeType::ControlFlow);
        edges.update_source(top_module_start_edge, NodeWithDelay { node: start_node, delay: 0 });
        let top_frame = StackFrame::new(top_module_key, 0, top_module_start_edge);
        let mut stack: Vec<StackFrame> = Vec::new();
        stack.push(top_frame);
        SimulationBuilder {
            builders: SimulationComponentBuilders {
                edges,
                modules,
                fifos: Vec::new(),
                axi: Vec::new(),
                rctls: Vec::new(),
                end_node: None,
                consistent: true,
            },
            stack,
        }
    }

}

impl SimulationBuilder {
    /// Records a FIFO write at `stage` of the innermost open call.
    pub fn add_fifo_write(
        &mut self,
        safe_offset: SimulationStage,
        stage: SimulationStage,
        fifo_id: FifoId,
    )
        requires
            old(self).wf(),
        ensures
            final(self).wf(),
            old(self).stack@.len() == 0 ==> *final(self) == *old(self),
            old(self).stack@.len() > 0 && !old(self).builders.has_capacity_spec()
                ==> final(self).stack@ == old(self).stack@ && !final(self).builders.consistent,
            old(self).stack@.len() > 0 && old(self).builders.has_capacity_spec() ==> {
                let top = final(self).stack@[final(self).stack@.len() - 1];
                &&& final(self).stack@.len() == old(self).stack@.len()
                &&& top.window@.len() > stage as int
                &&& top.window@[stage as int].events@.len() > 0
                &&& (top.window@[stage as int].events@.last() matches Event::FifoWrite {
                    fifo,
                    index,
                    raw_edge,
                } && fifo == (Fifo { id: fifo_id }) && index as int == old(
                    self,
                ).builders.fifo_writes_count(fifo_id))
            },
    {
        if self.stack.len() == 0 {
            return ;
        }
        if !self.builders.has_capacity() {
            self.builders.consistent = false;
            return ;
        }
        let fifo = Fifo { id: fifo_id };
        let fi = self.stack.len() - 1;
        let mut frame = self.stack.remove(fi);
        let ghost pre_table = self.builders.fifos@;
        let pos = self.builders.fifo_entry(fifo_id);
        let ghost t1 = self.builders.fifos@;
        let mut entry = self.builders.fifos.remove(pos);
        let inserted = entry.1.insert_write();
        let index = inserted.index;
        let raw_edge = match inserted.raw_edge {
            Ok(key) => key,
            Err(claim) => {
                let new_edge = self.builders.edges.insert_edge(IncompleteEdgeType::FifoRaw(fifo));
                claim.provide_next(&mut entry.1.raw_edges, new_edge);
                new_edge
            },
        };
        self.builders.fifos.insert(pos, entry);
        proof {
            assert(self.builders.fifos@ =~= t1.update(pos as int, self.builders.fifos@[pos as int]));
            crate::alist::lemma_first_match_find(self.builders.fifos@, pos as int, fifo_id);
            if pos < pre_table.len() {
                assert(t1 == pre_table);
                assert forall|j: int| 0 <= j < pos implies pre_table[j].0 != fifo_id by {
                    assert(t1[j].0 != fifo_id);
                }
                crate::alist::lemma_first_match_find(pre_table, pos as int, fifo_id);
            } else {
                assert forall|j: int| 0 <= j < pre_table.len() implies pre_table[j].0
                    != fifo_id by {
                    assert(t1[j] == pre_table[j]);
                    assert(t1[j].0 != fifo_id);
                }
                crate::alist::lemma_alist_find_skip(pre_table, fifo_id, pre_table.len() as int);
                assert(pre_table.skip(pre_table.len() as int) =~= Seq::<
                    (FifoId, FifoBuilder),
                >::empty());
            }
            assert(pre_table == old(self).builders.fifos@);
            assert(t1[pos as int].0 == fifo_id);
            assert(index as int == t1[pos as int].1.writes@.len());
            if pos < pre_table.len() {
                assert(crate::alist::alist_find(pre_table, fifo_id) == Some(
                    pre_table[pos as int].1,
                ));
            } else {
                assert(crate::alist::alist_find(pre_table, fifo_id) is None);
                assert(t1[pos as int].1.writes@.len() == 0);
            }
            assert(index as int == old(self).builders.fifo_writes_count(fifo_id));
        }
        self.builders.add_event(
            &mut frame,
            safe_offset,
            stage,
            Event::FifoWrite { fifo, index, raw_edge },
        );
        self.stack.insert(fi, frame);
        proof {
            assert(final(self).stack@[fi as int] == frame);
        }
    }

    /// Records a FIFO read at `stage` of the innermost open call.
    pub fn add_fifo_read(
        &mut self,
        safe_offset: SimulationStage,
        stage: SimulationStage,
        fifo_id: FifoId,
    )
        requires
            old(self).wf(),
        ensures
            final(self).wf(),
            old(self).stack@.len() == 0 ==> *final(self) == *old(self),
            old(self).stack@.len() > 0 && !old(self).builders.has_capacity_spec()
                ==> final(self).stack@ == old(self).stack@ && !final(self).builders.consistent,
            old(self).stack@.len() > 0 && old(self).builders.has_capacity_spec() ==> {
                let top = final(self).stack@[final(self).stack@.len() - 1];
                &&& final(self).stack@.len() == old(self).stack@.len()
                &&& top.window@.len() > stage as int
                &&& top.window@[stage as int].events@.len() > 0
                &&& (top.window@[stage as int].events@.last() matches Event::FifoRead {
                    fifo,
                    index,
                    raw_edge,
                } && fifo == (Fifo { id: fifo_id }) && index as int == old(
                    self,
                ).builders.fifo_reads_count(fifo_id))
            },
    {
        if self.stack.len() == 0 {
            return ;
        }
        if !self.builders.has_capacity() {
            self.builders.consistent = false;
            return ;
        }
        let fifo = Fifo { id: fifo_id };
        let fi = self.stack.len() - 1;
        let mut frame = self.stack.remove(fi);
        let ghost pre_table = self.builders.fifos@;
        let pos = self.builders.fifo_entry(fifo_id);
        let ghost t1 = self.builders.fifos@;
        let mut entry = self.builders.fifos.remove(pos);
        let inserted = entry.1.insert_read();
        let index = inserted.index;
        let raw_edge = match inserted.raw_edge {
            Ok(key) => key,
            Err(claim) => {
                let new_edge = self.builders.edges.insert_edge(IncompleteEdgeType::FifoRaw(fifo));
                claim.provide_next(&mut entry.1.raw_edges, new_edge);
                new_edge
            },
        };
        self.builders.fifos.insert(pos, entry);
        proof {
            assert(self.builders.fifos@ =~= t1.update(pos as int, self.builders.fifos@[pos as int]));
            crate::alist::lemma_first_match_find(self.builders.fifos@, pos as int, fifo_id);
            if pos < pre_table.len() {
                assert(t1 == pre_table);
                assert forall|j: int| 0 <= j < pos implies pre_table[j].0 != fifo_id by {
                    assert(t1[j].0 != fifo_id);
                }
                crate::alist::lemma_first_match_find(pre_table, pos as int, fifo_id);
            } else {
                assert forall|j: int| 0 <= j < pre_table.len() implies pre_table[j].0
                    != fifo_id by {
                    assert(t1[j] == pre_table[j]);
                    assert(t1[j].0 != fifo_id);
                }
                crate::alist::lemma_alist_find_skip(pre_table, fifo_id, pre_table.len() as int);
                assert(pre_table.skip(pre_table.len() as int) =~= Seq::<
                    (FifoId, FifoBuilder),
                >::empty());
            }
            assert(index as int == old(self).builders.fifo_reads_count(fifo_id));
        }
        self.builders.add_event(
            &mut frame,
            safe_offset,
            stage,
            Event::FifoRead { fifo, index, raw_edge },
        );
        self.stack.insert(fi, frame);
        proof {
            assert(final(self).stack@[fi as int] == frame);
        }
    }

    /// Records an AXI read request and creates the three edges its reads
    /// will wire: request-to-first-read, read-control in, read-control out.
    pub fn add_axi_readreq(
        &mut self,
        safe_offset: SimulationStage,
        stage: SimulationStage,
        interface_address: AxiAddress,
        request: AxiRequestRange,
    )
        requires
            old(self).wf(),
        ensures
            final(self).wf(),
            old(self).stack@.len() == 0 ==> *final(self) == *old(self),
            old(self).stack@.len() > 0 && !old(self).builders.has_capacity_spec()
                ==> final(self).stack@ == old(self).stack@ && !final(self).builders.consistent,
            old(self).stack@.len() > 0 && old(self).builders.has_capacity_spec()
                && !SimulationComponentBuilders::readreq_acceptable(request)
                ==> !final(self).builders.consistent,
            old(self).stack@.len() > 0 && old(self).builders.has_capacity_spec()
                && SimulationComponentBuilders::readreq_acceptable(request) ==> {
                let top = final(self).stack@[final(self).stack@.len() - 1];
                &&& final(self).stack@.len() == old(self).stack@.len()
                &&& top.window@.len() > stage as int
                &&& top.window@[stage as int].events@.len() > 0
                &&& (top.window@[stage as int].events@.last() matches Event::AxiReadRequest {
                    interface,
                    index,
                    read_edge,
                } && interface == (AxiInterface { address: interface_address }) && index as int
                    == old(self).builders.axi_readreqs_count(interface_address))
            },
    {
        if self.stack.len() == 0 {
            return ;
        }
        if !self.builders.has_capacity() {
            self.builders.consistent = false;
            return ;
        }
        // A request must cover at least one byte, stay inside the address
        // space, and split into a representable number of bursts.
        if request.count < 1 || request.increment < 1 {
            self.builders.consistent = false;
            return ;
        }
        let count64: u64 = request.count as u64;
        if count64 > u64::MAX / request.increment {
            self.builders.consistent = false;
            return ;
        }
        proof {
            assert(request.increment * request.count <= u64::MAX) by (nonlinear_arith)
                requires
                    request.increment >= 1,
                    request.count as u64 <= u64::MAX as u64 / request.increment,
            ;
            assert(request.increment * request.count >= 1) by (nonlinear_arith)
                requires
                    request.increment >= 1,
                    request.count >= 1,
            ;
        }
        let length: u64 = request.increment * count64;
        if request.offset > u64::MAX - length {
            self.builders.consistent = false;
            return ;
        }
        let pages: u64 = (request.offset + (length - 1)) / 4096 - request.offset / 4096;
        if pages > (usize::MAX - 1) as u64 {
            self.builders.consistent = false;
            return ;
        }
        proof {
            assert(request.increment * request.count >= 1) by (nonlinear_arith)
                requires
                    request.increment >= 1,
                    request.count >= 1,
            ;
            assert((request.offset + (length - 1)) / 4096 >= request.offset / 4096)
                by (nonlinear_arith)
                requires
                    length >= 1,
                    request.offset + length - 1 <= u64::MAX,
            ;
            assert(crate::axi_interface::burst_count_spec(request.range_spec()) <= usize::MAX);
        }
        let interface = AxiInterface { address: interface_address };
        let fi = self.stack.len() - 1;
        let mut frame = self.stack.remove(fi);
        let read_edge = self.builders.edges.insert_edge(IncompleteEdgeType::AxiRead(interface));
        let rctl_in_edge = self.builders.edges.insert_edge(
            IncompleteEdgeType::AxiRctl(interface),
        );
        let rctl_out_edge = self.builders.edges.insert_edge(
            IncompleteEdgeType::AxiRctl(interface),
        );
        let ghost pre_table = self.builders.axi@;
        let pos = self.builders.axi_entry(interface_address);
        let ghost t1 = self.builders.axi@;
        let mut entry = self.builders.axi.remove(pos);
        let inserted = entry.1.insert_readreq(&request, read_edge, rctl_in_edge, rctl_out_edge);
        self.builders.axi.insert(pos, entry);
        proof {
            lemma_axi_find_at(pre_table, t1, pos as int, interface_address);
            assert(inserted.index as int == t1[pos as int].1.readreqs@.len());
            assert(inserted.index as int == old(self).builders.axi_readreqs_count(
                interface_address,
            ));
        }
        self.builders.add_event(
            &mut frame,
            safe_offset,
            stage,
            Event::AxiReadRequest { interface, index: inserted.index, read_edge },
        );
        self.stack.insert(fi, frame);
        proof {
            assert(final(self).stack@[fi as int] == frame);
        }
    }

    /// Records an AXI write request.
    pub fn add_axi_writereq(
        &mut self,
        safe_offset: SimulationStage,
        stage: SimulationStage,
        interface_address: AxiAddress,
        request: AxiRequestRange,
    )
        requires
            old(self).wf(),
        ensures
            final(self).wf(),
            old(self).stack@.len() == 0 ==> *final(self) == *old(self),
            old(self).stack@.len() > 0 && !old(self).builders.has_capacity_spec()
                ==> final(self).stack@ == old(self).stack@ && !final(self).builders.consistent,
            old(self).stack@.len() > 0 && old(self).builders.has_capacity_spec()
                && !SimulationComponentBuilders::writereq_acceptable(request)
                ==> !final(self).builders.consistent,
            old(self).stack@.len() > 0 && old(self).builders.has_capacity_spec()
                && SimulationComponentBuilders::writereq_acceptable(request) ==> {
                let top = final(self).stack@[final(self).stack@.len() - 1];
                &&& final(self).stack@.len() == old(self).stack@.len()
                &&& top.window@.len() > stage as int
                &&& top.window@[stage as int].events@.len() > 0
                &&& (top.window@[stage as int].events@.last() matches Event::AxiWriteRequest {
                    interface,
                    index,
                } && interface == (AxiInterface { address: interface_address }) && index as int
                    == old(self).builders.axi_writereqs_count(interface_address))
            },
    {
        if self.stack.len() == 0 {
            return ;
        }
        if !self.builders.has_capacity() {
            self.builders.consistent = false;
            return ;
        }
        if request.increment >= 1 && request.count as u64 > u64::MAX / request.increment {
            self.builders.consistent = false;
            return ;
        }
        proof {
            if request.increment >= 1 {
                assert(request.increment * request.count <= u64::MAX) by (nonlinear_arith)
                    requires
                        request.increment >= 1,
                        request.count as u64 <= u64::MAX as u64 / request.increment,
                ;
            }
        }
        let interface = AxiInterface { address: interface_address };
        let fi = self.stack.len() - 1;
        let mut frame = self.stack.remove(fi);
        let ghost pre_table = self.builders.axi@;
        let pos = self.builders.axi_entry(interface_address);
        let ghost t1 = self.builders.axi@;
        let mut entry = self.builders.axi.remove(pos);
        let inserted = entry.1.insert_writereq(&request);
        self.builders.axi.insert(pos, entry);
        proof {
            lemma_axi_find_at(pre_table, t1, pos as int, interface_address);
            assert(inserted.index as int == t1[pos as int].1.writereqs@.len());
            assert(inserted.index as int == old(self).builders.axi_writereqs_count(
                interface_address,
            ));
        }
        self.builders.add_event(
            &mut frame,
            safe_offset,
            stage,
            Event::AxiWriteRequest { interface, index: inserted.index },
        );
        self.stack.insert(fi, frame);
        proof {
            assert(final(self).stack@[fi as int] == frame);
        }
    }

    /// Records an AXI read of the open read request.
    pub fn add_axi_read(
        &mut self,
        safe_offset: SimulationStage,
        stage: SimulationStage,
        interface_address: AxiAddress,
    )
        requires
            old(self).wf(),
        ensures
            final(self).wf(),
            old(self).stack@.len() == 0 ==> *final(self) == *old(self),
            old(self).stack@.len() > 0 && !old(self).builders.has_capacity_spec()
                ==> final(self).stack@ == old(self).stack@ && !final(self).builders.consistent,
            old(self).stack@.len() > 0 && old(self).builders.has_capacity_spec() && !(old(
                self,
            ).builders.axi_find(interface_address) matches Some(b)
                && b.readreq_reads_remaining >= 1 && b.current_read.offset
                + b.current_read.length <= u64::MAX) ==> !final(self).builders.consistent,
            old(self).stack@.len() > 0 && old(self).builders.has_capacity_spec() && (old(
                self,
            ).builders.axi_find(interface_address) matches Some(b)
                && b.readreq_reads_remaining >= 1 && b.current_read.offset
                + b.current_read.length <= u64::MAX) ==> {
                let top = final(self).stack@[final(self).stack@.len() - 1];
                &&& final(self).stack@.len() == old(self).stack@.len()
                &&& top.window@.len() > stage as int
                &&& top.window@[stage as int].events@.len() > 0
                &&& (top.window@[stage as int].events@.last() matches Event::AxiRead {
                    interface,
                    index,
                    first_read,
                    rctl_out_edge,
                } && interface == (AxiInterface { address: interface_address }) && index as int
                    == old(self).builders.axi_reads_count(interface_address))
            },
    {
        if self.stack.len() == 0 {
            return ;
        }
        if !self.builders.has_capacity() {
            self.builders.consistent = false;
            return ;
        }
        let interface = AxiInterface { address: interface_address };
        let fi = self.stack.len() - 1;
        let mut frame = self.stack.remove(fi);
        let ghost pre_table = self.builders.axi@;
        let pos = self.builders.axi_entry(interface_address);
        let ghost t1 = self.builders.axi@;
        proof {
            lemma_axi_find_at(pre_table, t1, pos as int, interface_address);
        }
        let mut entry = self.builders.axi.remove(pos);
        if entry.1.readreq_reads_remaining < 1 || entry.1.current_read.offset
            > u64::MAX - entry.1.current_read.length {
            // A read with no open request is a malformed trace.
            self.builders.consistent = false;
            self.builders.axi.insert(pos, entry);
            self.stack.insert(fi, frame);
            return ;
        }
        let inserted = entry.1.insert_read();
        self.builders.axi.insert(pos, entry);
        proof {
            assert(inserted.index as int == t1[pos as int].1.reads@.len());
            assert(inserted.index as int == old(self).builders.axi_reads_count(
                interface_address,
            ));
        }
        self.builders.add_event(
            &mut frame,
            safe_offset,
            stage,
            Event::AxiRead {
                interface,
                index: inserted.index,
                first_read: inserted.first_read,
                rctl_out_edge: inserted.rctl_out_edge,
            },
        );
        self.stack.insert(fi, frame);
        proof {
            assert(final(self).stack@[fi as int] == frame);
        }
    }

    /// Records an AXI write of the open write request; the last write is
    /// handed a fresh write-response edge.
    pub fn add_axi_write(
        &mut self,
        safe_offset: SimulationStage,
        stage: SimulationStage,
        interface_address: AxiAddress,
    )
        requires
            old(self).wf(),
        ensures
            final(self).wf(),
            old(self).stack@.len() == 0 ==> *final(self) == *old(self),
            old(self).stack@.len() > 0 && !old(self).builders.has_capacity_spec()
                ==> final(self).stack@ == old(self).stack@ && !final(self).builders.consistent,
            old(self).stack@.len() > 0 && old(self).builders.has_capacity_spec() && !(old(
                self,
            ).builders.axi_find(interface_address) matches Some(b)
                && b.writereq_writes_remaining >= 1 && b.current_write.offset
                + b.current_write.length <= u64::MAX) ==> !final(self).builders.consistent,
            old(self).stack@.len() > 0 && old(self).builders.has_capacity_spec() && (old(
                self,
            ).builders.axi_find(interface_address) matches Some(b)
                && b.writereq_writes_remaining >= 1 && b.current_write.offset
                + b.current_write.length <= u64::MAX) ==> {
                let top = final(self).stack@[final(self).stack@.len() - 1];
                &&& final(self).stack@.len() == old(self).stack@.len()
                &&& top.window@.len() > stage as int
                &&& top.window@[stage as int].events@.len() > 0
                &&& (top.window@[stage as int].events@.last() matches Event::AxiWrite {
                    interface,
                    index,
                    writeresp_edge,
                } && interface == (AxiInterface { address: interface_address }) && index as int
                    == old(self).builders.axi_writes_count(interface_address))
            },
    {
        if self.stack.len() == 0 {
            return ;
        }
        if !self.builders.has_capacity() {
            self.builders.consistent = false;
            return ;
        }
        let interface = AxiInterface { address: interface_address };
        let fi = self.stack.len() - 1;
        let mut frame = self.stack.remove(fi);
        let ghost pre_table = self.builders.axi@;
        let pos = self.builders.axi_entry(interface_address);
        let ghost t1 = self.builders.axi@;
        proof {
            lemma_axi_find_at(pre_table, t1, pos as int, interface_address);
        }
        let mut entry = self.builders.axi.remove(pos);
        if entry.1.writereq_writes_remaining < 1 || entry.1.current_write.offset
            > u64::MAX - entry.1.current_write.length {
            self.builders.consistent = false;
            self.builders.axi.insert(pos, entry);
            self.stack.insert(fi, frame);
            return ;
        }
        let inserted = entry.1.insert_write();
        let writeresp_edge = if inserted.writeresp_edge_needed {
            let new_edge = self.builders.edges.insert_edge(
                IncompleteEdgeType::AxiWriteResp(interface),
            );
            entry.1.provide_writeresp_edge(new_edge);
            Some(new_edge)
        } else {
            None
        };
        self.builders.axi.insert(pos, entry);
        proof {
            assert(inserted.index as int == t1[pos as int].1.writes@.len());
            assert(inserted.index as int == old(self).builders.axi_writes_count(
                interface_address,
            ));
        }
        self.builders.add_event(
            &mut frame,
            safe_offset,
            stage,
            Event::AxiWrite { interface, index: inserted.index, writeresp_edge },
        );
        self.stack.insert(fi, frame);
        proof {
            assert(final(self).stack@[fi as int] == frame);
        }
    }

    /// Records an AXI write response for the last completed write request.
    pub fn add_axi_writeresp(
        &mut self,
        safe_offset: SimulationStage,
        stage: SimulationStage,
        interface_address: AxiAddress,
    )
        requires
            old(self).wf(),
        ensures
            final(self).wf(),
            old(self).stack@.len() == 0 ==> *final(self) == *old(self),
            old(self).stack@.len() > 0 && !old(self).builders.has_capacity_spec()
                ==> final(self).stack@ == old(self).stack@ && !final(self).builders.consistent,
            old(self).stack@.len() > 0 && old(self).builders.has_capacity_spec() && !(old(
                self,
            ).builders.axi_find(interface_address) matches Some(b) && b.writeresp_edge is Some)
                ==> !final(self).builders.consistent,
            old(self).stack@.len() > 0 && old(self).builders.has_capacity_spec() && (old(
                self,
            ).builders.axi_find(interface_address) matches Some(b) && b.writeresp_edge is Some)
                ==> {
                let top = final(self).stack@[final(self).stack@.len() - 1];
                &&& final(self).stack@.len() == old(self).stack@.len()
                &&& top.window@.len() > stage as int
                &&& top.window@[stage as int].events@.len() > 0
                &&& (top.window@[stage as int].events@.last() matches Event::AxiWriteResponse {
                    interface,
                    index,
                    writeresp_edge,
                } && interface == (AxiInterface { address: interface_address }) && index as int
                    == old(self).builders.axi_writeresps_count(interface_address))
            },
    {
        if self.stack.len() == 0 {
            return ;
        }
        if !self.builders.has_capacity() {
            self.builders.consistent = false;
            return ;
        }
        let interface = AxiInterface { address: interface_address };
        let fi = self.stack.len() - 1;
        let mut frame = self.stack.remove(fi);
        let ghost pre_table = self.builders.axi@;
        let pos = self.builders.axi_entry(interface_address);
        let ghost t1 = self.builders.axi@;
        proof {
            lemma_axi_find_at(pre_table, t1, pos as int, interface_address);
        }
        let mut entry = self.builders.axi.remove(pos);
        let inserted = entry.1.insert_writeresp();
        self.builders.axi.insert(pos, entry);
        proof {
            assert(inserted.index as int == t1[pos as int].1.writeresps@.len());
        }
        match inserted.writeresp_edge {
            Some(writeresp_edge) => {
                self.builders.add_event(
                    &mut frame,
                    safe_offset,
                    stage,
                    Event::AxiWriteResponse {
                        interface,
                        index: inserted.index,
                        writeresp_edge,
                    },
                );
            },
            None => {
                // A response with no completed write request is malformed.
                self.builders.consistent = false;
            },
        }
        self.stack.insert(fi, frame);
        proof {
            assert(final(self).stack@[fi as int] == frame);
        }
    }

    /// Enters a child call: opens its module and start edge and pushes its
    /// frame.
    pub fn call(
        &mut self,
        safe_offset: SimulationStage,
        start_stage: SimulationStage,
        end_stage: SimulationStage,
        start_delay: ClockCycle,
        inherit_ap_continue: bool,
    )
        requires
            old(self).wf(),
        ensures
            final(self).wf(),
            old(self).stack@.len() == 0 ==> *final(self) == *old(self),
            old(self).stack@.len() > 0 && !old(self).builders.has_capacity_spec()
                ==> final(self).stack@ == old(self).stack@ && !final(self).builders.consistent,
            old(self).stack@.len() > 0 && old(self).builders.has_capacity_spec() ==> {
                let top = final(self).stack@[final(self).stack@.len() - 1];
                let parent = final(self).stack@[final(self).stack@.len() - 2];
                &&& final(self).stack@.len() == old(self).stack@.len() + 1
                &&& top.key == old(self).builders.modules.uncommitted@.len()
                &&& top.parent_end == end_stage
                &&& top.offset == 0
                &&& top.window@.len() == 0
                &&& top.current_time == NodeTime::RelativeToStart(0u64)
                &&& parent.window@.len() > start_stage as int
                &&& parent.window@[start_stage as int].events@.len() > 0
                &&& (parent.window@[start_stage as int].events@.last() matches
                    Event::SubcallStart { module_key, edge } && module_key == old(
                    self,
                ).builders.modules.uncommitted@.len())
            },
    {
        if self.stack.len() == 0 {
            return ;
        }
        if !self.builders.has_capacity() {
            self.builders.consistent = false;
            return ;
        }
        let fi = self.stack.len() - 1;
        let mut parent = self.stack.remove(fi);
        let start_edge = self.builders.edges.insert_edge(IncompleteEdgeType::ControlFlow);
        if !self.builders.edges.checked_add_delay(start_edge, start_delay) {
            self.builders.consistent = false;
        }
        let ghost pre_modules = self.builders.modules;
        let (module_key, parent_ok) = self.builders.modules.insert_module(
            Some(parent.key),
            start_delay,
            inherit_ap_continue,
        );
        if !parent_ok {
            self.builders.consistent = false;
        }
        proof {
            assert forall|k: int| self.builders.modules.active(k) implies (
            #[trigger] self.builders.modules.at(k)).index
                < self.builders.modules.committed@.len() && self.builders.modules.at(
                k,
            ).end.in_bounds(self.builders.edges.node_count()) by {
                if k < pre_modules.uncommitted@.len() {
                    if k != parent.key as int {
                        assert(self.builders.modules.uncommitted@[k]
                            == pre_modules.uncommitted@[k]);
                        assert(pre_modules.active(k));
                        assert(pre_modules.at(k).index < pre_modules.committed@.len());
                        assert(pre_modules.at(k).end.in_bounds(
                            self.builders.edges.node_count(),
                        ));
                    } else {
                        if pre_modules.active(k) {
                            assert(pre_modules.at(k).index < pre_modules.committed@.len());
                            assert(pre_modules.at(k).end.in_bounds(
                                self.builders.edges.node_count(),
                            ));
                            assert(self.builders.modules.at(k).index == pre_modules.at(k).index);
                            assert(self.builders.modules.at(k).end == pre_modules.at(k).end);
                        } else {
                            assert(self.builders.modules.uncommitted@[k]
                                == pre_modules.uncommitted@[k]);
                        }
                    }
                } else {
                    assert(self.builders.modules.at(k).index == pre_modules.committed@.len());
                }
            }
        }
        self.builders.add_event(
            &mut parent,
            safe_offset,
            start_stage,
            Event::SubcallStart { module_key, edge: start_edge },
        );
        let frame = StackFrame::new(module_key, end_stage, start_edge);
        self.stack.insert(fi, parent);
        self.stack.push(frame);
        proof {
            assert(final(self).stack@[fi as int] == parent);
            assert(final(self).stack@[fi + 1] == frame);
        }
    }

    /// Leaves the innermost call: commits its remaining window, stores its
    /// name and end, merges its read-control queues into its parent, and at
    /// the top of the trace commits the top module and the end node.
    #[verifier::rlimit(100)]
    pub fn return_(&mut self, module_name: String, end_stage: SimulationStage)
        requires
            old(self).wf(),
        ensures
            final(self).wf(),
            old(self).stack@.len() == 0 ==> *final(self) == *old(self),
            old(self).stack@.len() > 0 && !old(self).builders.has_capacity_spec()
                ==> final(self).stack@ == old(self).stack@ && !final(self).builders.consistent,
            old(self).stack@.len() > 0 && old(self).builders.has_capacity_spec()
                ==> final(self).stack@.len() == old(self).stack@.len() - 1,
            old(self).stack@.len() == 1 && old(self).builders.has_capacity_spec()
                ==> final(self).builders.end_node is Some || !final(self).builders.consistent,
            old(self).stack@.len() > 1 && old(self).builders.has_capacity_spec() ==> {
                let fkey = old(self).stack@[old(self).stack@.len() - 1].key;
                let pend = old(self).stack@[old(self).stack@.len() - 1].parent_end as int;
                let parent = final(self).stack@[final(self).stack@.len() - 1];
                &&& (final(self).builders.modules.active(fkey as int)
                    ==> final(self).builders.modules.at(fkey as int).name@ == module_name@)
                &&& parent.key == old(self).stack@[old(self).stack@.len() - 2].key
                &&& parent.parent_end == old(self).stack@[old(self).stack@.len() - 2].parent_end
                &&& parent.window@.len() > pend
                &&& parent.window@[pend].events@.len() > 0
                &&& (exists|k: IncompleteEdgeKey|
                    parent.window@[pend].events@.last() == (Event::SubcallEnd { edge: k }))
            },
    {
        if self.stack.len() == 0 {
            return ;
        }
        if !self.builders.has_capacity() {
            self.builders.consistent = false;
            return ;
        }
        let fi = self.stack.len() - 1;
        let mut frame = self.stack.remove(fi);
        while frame.window.len() > 0
            invariant
                self.wf(),
                frame.current_time.in_bounds(self.builders.edges.node_count()),
                self.stack@ == old(self).stack@.drop_last(),
                self.stack@.len() == fi,
                frame.key == old(self).stack@[fi as int].key,
                frame.parent_end == old(self).stack@[fi as int].parent_end,
            decreases frame.window@.len(),
        {
            let uncommitted_node = frame.window.remove(0);
            let advance_by: SimulationStage = if frame.window.len() > 0 {
                1
            } else {
                0
            };
            let ghost wlen = frame.window@.len();
            self.builders.commit_node(&mut frame, uncommitted_node, advance_by);
            proof {
                assert(frame.window@.len() == wlen);
            }
        }
        if end_stage >= frame.offset {
            let remaining_delay: ClockCycle = (end_stage - frame.offset) as u64;
            frame.current_time = frame.current_time.add(remaining_delay);
            if !self.builders.edges.checked_add_delay(frame.current_edge, remaining_delay) {
                self.builders.consistent = false;
            }
        }
        proof {
            assert(frame.current_time.in_bounds(self.builders.edges.node_count()));
        }
        let ghost m0 = self.builders.modules;
        if !self.builders.modules.update_module_name(frame.key, module_name) {
            self.builders.consistent = false;
        }
        let ghost m1 = self.builders.modules;
        proof {
            assert forall|k: int| self.builders.modules.active(k) implies (
            #[trigger] self.builders.modules.at(k)).index
                < self.builders.modules.committed@.len() && self.builders.modules.at(
                k,
            ).end.in_bounds(self.builders.edges.node_count()) by {
                if k != frame.key as int {
                    assert(m1.uncommitted@[k] == m0.uncommitted@[k]);
                    assert(m0.active(k));
                    assert(m0.at(k).index < m0.committed@.len());
                    assert(m0.at(k).end.in_bounds(self.builders.edges.node_count()));
                } else {
                    assert(m0.active(k));
                    assert(m0.at(k).index < m0.committed@.len());
                    assert(m0.at(k).end.in_bounds(self.builders.edges.node_count()));
                    assert(m1.at(k).index == m0.at(k).index);
                    assert(m1.at(k).end == m0.at(k).end);
                }
            }
        }
        if !self.builders.modules.update_module_end(frame.key, frame.current_time) {
            self.builders.consistent = false;
        }
        proof {
            assert forall|k: int| self.builders.modules.active(k) implies (
            #[trigger] self.builders.modules.at(k)).index
                < self.builders.modules.committed@.len() && self.builders.modules.at(
                k,
            ).end.in_bounds(self.builders.edges.node_count()) by {
                if k != frame.key as int {
                    assert(self.builders.modules.uncommitted@[k] == m1.uncommitted@[k]);
                    assert(m1.active(k));
                    assert(m1.at(k).index < m1.committed@.len());
                    assert(m1.at(k).end.in_bounds(self.builders.edges.node_count()));
                } else {
                    assert(m1.active(k));
                    assert(m1.at(k).index < m1.committed@.len());
                    assert(self.builders.modules.at(k).index == m1.at(k).index);
                    assert(self.builders.modules.at(k).end == frame.current_time);
                }
            }
        }
        proof {
            assert(self.builders.modules.active(frame.key as int)
                ==> self.builders.modules.at(frame.key as int).name@ == module_name@);
        }
        // Detach this call's read-control queues.
        let child_rctls: Vec<(AxiAddress, AxiRctl)> = match alist_position_u64(
            &self.builders.rctls,
            frame.key as u64,
        ) {
            Some(pos) => {
                let entry = self.builders.rctls.remove(pos);
                entry.1
            },
            None => Vec::new(),
        };
        if self.stack.len() > 0 {
            // Merge the child's read-control state into the parent's, so
            // sibling calls of one region share it.
            let pi = self.stack.len() - 1;
            let mut parent = self.stack.remove(pi);
            parent.add_event(frame.parent_end, Event::SubcallEnd { edge: frame.current_edge });
            let ghost psnap = parent;
            let ghost fkey = frame.key;
            let mut child_rctls = child_rctls;
            while child_rctls.len() > 0
                invariant
                    self.wf(),
                    self.stack@ == old(self).stack@.drop_last().drop_last(),
                    self.stack@.len() == pi,
                    parent == psnap,
                    self.builders.modules.active(fkey as int)
                        ==> self.builders.modules.at(fkey as int).name@ == module_name@,
                    parent.current_time.in_bounds(self.builders.edges.node_count()),
                    forall|j: int|
                        0 <= j < child_rctls@.len() ==> (#[trigger] child_rctls@[j]).1.wf(),
                decreases child_rctls@.len(),
            {
                let mpos = match alist_position_u64(&self.builders.rctls, parent.key as u64) {
                    Some(mpos) => mpos,
                    None => {
                        let mpos = self.builders.rctls.len();
                        self.builders.rctls.push((parent.key as u64, Vec::new()));
                        mpos
                    },
                };
                let mut map_entry = self.builders.rctls.remove(mpos);
                let child_entry = child_rctls.remove(0);
                let addr = child_entry.0;
                let ipos = match alist_position_u64(&map_entry.1, addr) {
                    Some(ipos) => ipos,
                    None => {
                        let ipos = map_entry.1.len();
                        map_entry.1.push((addr, AxiRctl::new()));
                        ipos
                    },
                };
                let mut rctl_entry = map_entry.1.remove(ipos);
                rctl_entry.1.extend(&mut self.builders.edges, child_entry.1);
                map_entry.1.insert(ipos, rctl_entry);
                self.builders.rctls.insert(mpos, map_entry);
            }
            self.stack.insert(pi, parent);
        } else {
            // Top of the trace: fix the top module at the start node, run
            // its deferred events, retire its read-control queues, and close
            // the graph with the end node.
            let nc = Ghost(self.builders.edges.node_count());
            let deferred = self.builders.modules.commit_module(
                frame.key,
                NodeWithDelay { node: 0, delay: 0 },
                nc,
            );
            match deferred {
                Some(deferred) => {
                    let mut i: usize = 0;
                    while i < deferred.len()
                        invariant
                            self.wf(),
                            self.stack@.len() == fi,
                            i <= deferred@.len(),
                            self.builders.edges.node_count() >= nc@,
                            forall|j: int|
                                0 <= j < deferred@.len() ==> (#[trigger] deferred@[j]).0.in_bounds(
                                    nc@,
                                ),
                        decreases deferred@.len() - i,
                    {
                        let (n, ev) = deferred[i];
                        if ev.has_in_edge() {
                            self.builders.consistent = false;
                        } else {
                            self.builders.commit_event(frame.key, ev, n);
                        }
                        i += 1;
                    }
                },
                None => {
                    self.builders.consistent = false;
                },
            }
            let mut remaining = child_rctls;
            while remaining.len() > 0
                invariant
                    self.wf(),
                    self.stack@.len() == fi,
                    forall|j: int|
                        0 <= j < remaining@.len() ==> (#[trigger] remaining@[j]).1.wf(),
                decreases remaining@.len(),
            {
                let entry = remaining.remove(0);
                entry.1.finish(&mut self.builders.edges);
            }
            if !self.builders.has_capacity() {
                self.builders.consistent = false;
                return ;
            }
            let end = self.builders.edges.insert_node();
            if !self.builders.edges.checked_push_destination(frame.current_edge) {
                self.builders.consistent = false;
            }
            self.builders.end_node = Some(end);
        }
    }

    /// Closes the build into an immutable simulation.
    ///
    /// Succeeds only when the trace was complete and consistent: the top
    /// call returned, every incomplete edge was completed or voided, every
    /// access was committed, no builder invariant was violated, and the
    /// module tree resolved. Each failure is attributed: an inconsistency,
    /// a missing top return, a leftover incomplete edge, an uncommitted
    /// FIFO or AXI access; once everything else is complete only the module
    /// resolution can still fail. The artifact is the builders' content:
    /// the compacted edge list over the same nodes, the recorded module
    /// tree, and the finished transfer tables.
    pub fn finish(self) -> (r: Result<CompiledSimulation, BuildError>)
        requires
            self.wf(),
        ensures
            r matches Ok(sim) ==> {
                &&& sim.wf()
                &&& self.builders.edges.incomplete_count == 0
                &&& self.builders.consistent
                &&& self.builders.end_node == Some(sim.end_node)
                &&& sim.graph.node_offsets@.len() == self.builders.edges.node_offsets@.len()
                &&& sim.graph.edges@ == crate::builder::edge_builder::compact_edges(
                    self.builders.edges.edges@,
                )
                &&& self.builders.modules.committed@.len() > 0
                &&& self.builders.modules.committed@[0] is Some
                &&& crate::builder::module_builder::tree_matches(
                    self.builders.modules.committed@.update(0, None),
                    self.builders.modules.committed@[0]->0,
                    sim.top_module,
                )
                &&& fifo_tables_finished(self.builders.fifos@, sim.fifo_nodes@)
                &&& axi_tables_finished(self.builders.axi@, sim.axi_interface_nodes@)
            },
            r == Err::<CompiledSimulation, BuildError>(BuildError::InconsistentTrace)
                <==> !self.builders.consistent,
            self.builders.consistent && self.builders.end_node is None ==> r == Err::<
                CompiledSimulation,
                BuildError,
            >(BuildError::IncompleteTrace),
            self.builders.consistent && self.builders.end_node is Some
                && self.builders.edges.incomplete_count != 0 ==> r == Err::<
                CompiledSimulation,
                BuildError,
            >(BuildError::IncompleteEdges),
            r == Err::<CompiledSimulation, BuildError>(BuildError::IncompleteFifo)
                ==> (exists|i: int|
                0 <= i < self.builders.fifos@.len() && !(#[trigger] self.builders.fifos@[i]).1.complete()),
            r == Err::<CompiledSimulation, BuildError>(BuildError::IncompleteAxi)
                ==> (exists|i: int|
                0 <= i < self.builders.axi@.len() && !(#[trigger] self.builders.axi@[i]).1.complete()),
            ({
                &&& self.builders.consistent
                &&& self.builders.end_node is Some
                &&& self.builders.edges.incomplete_count == 0
                &&& forall|i: int|
                    0 <= i < self.builders.fifos@.len()
                        ==> (#[trigger] self.builders.fifos@[i]).1.complete()
                &&& forall|i: int|
                    0 <= i < self.builders.axi@.len()
                        ==> (#[trigger] self.builders.axi@[i]).1.complete()
                &&& self.builders.modules.committed@.len() > 0
                &&& self.builders.modules.committed@[0] is Some
            } ==> (r is Ok || r == Err::<CompiledSimulation, BuildError>(
                BuildError::ModulesNotCommitted,
            ))),
    {
        let SimulationBuilder { builders, stack } = self;
        let SimulationComponentBuilders {
            edges,
            modules,
            fifos,
            axi,
            rctls,
            end_node,
            consistent,
        } = builders;
        if !consistent {
            return Err(BuildError::InconsistentTrace);
        }
        let end_node = match end_node {
            Some(n) => n,
            None => {
                return Err(BuildError::IncompleteTrace);
            },
        };
        let ghost node_count = edges.node_count();
        let graph = match edges.finish_graph() {
            Ok(g) => g,
            Err(e) => {
                return Err(e);
            },
        };
        let top_module = match modules.finish_modules(Ghost(node_count)) {
            Ok(m) => m,
            Err(e) => {
                return Err(e);
            },
        };
        let mut fifo_nodes: Vec<(FifoId, FifoIoNodes)> = Vec::new();
        let mut remaining_fifos = fifos;
        proof {
            assert(remaining_fifos@ =~= self.builders.fifos@.skip(0));
        }
        while remaining_fifos.len() > 0
            invariant
                forall|i: int|
                    0 <= i < remaining_fifos@.len() ==> (#[trigger] remaining_fifos@[i]).1.in_bounds(
                        node_count,
                    ),
                forall|i: int|
                    0 <= i < fifo_nodes@.len() ==> (#[trigger] fifo_nodes@[i]).1.in_bounds(
                        node_count,
                    ),
                self.builders.consistent,
                self.builders.end_node is Some,
                self.builders.edges.incomplete_count == 0,
                fifo_nodes@.len() + remaining_fifos@.len() == self.builders.fifos@.len(),
                remaining_fifos@ == self.builders.fifos@.skip(fifo_nodes@.len() as int),
                fifo_tables_finished(
                    self.builders.fifos@.take(fifo_nodes@.len() as int),
                    fifo_nodes@,
                ),
            decreases remaining_fifos@.len(),
        {
            let ghost done = fifo_nodes@.len() as int;
            proof {
                assert(remaining_fifos@[0] == self.builders.fifos@[done]);
            }
            let entry = remaining_fifos.remove(0);
            let id = entry.0;
            let ghost pending = entry.1;
            match entry.1.finish() {
                Ok(nodes) => {
                    proof {
                        assert forall|j: int|
                            0 <= j < nodes.writes@.len() implies (
                        #[trigger] nodes.writes@[j]).in_bounds(node_count) by {
                            assert(pending.writes@[j] == Some(nodes.writes@[j]));
                        }
                        assert forall|j: int|
                            0 <= j < nodes.reads@.len() implies (#[trigger] nodes.reads@[j])
                            < node_count by {
                            assert(pending.reads@[j] == Some(nodes.reads@[j]));
                        }
                    }
                    fifo_nodes.push((id, nodes));
                    proof {
                        assert(remaining_fifos@ =~= self.builders.fifos@.skip(
                            fifo_nodes@.len() as int,
                        ));
                        assert(self.builders.fifos@.take(fifo_nodes@.len() as int)
                            =~= self.builders.fifos@.take(done).push(self.builders.fifos@[done]));
                        assert(fifo_tables_finished(
                            self.builders.fifos@.take(fifo_nodes@.len() as int),
                            fifo_nodes@,
                        ));
                    }
                },
                Err(e) => {
                    proof {
                        assert(!self.builders.fifos@[done].1.complete());
                    }
                    return Err(e);
                },
            }
        }
        proof {
            assert(self.builders.fifos@.take(self.builders.fifos@.len() as int)
                =~= self.builders.fifos@);
        }
        let mut axi_interface_nodes: Vec<(AxiAddress, AxiInterfaceIoNodes)> = Vec::new();
        let mut remaining_axi = axi;
        proof {
            assert(remaining_axi@ =~= self.builders.axi@.skip(0));
        }
        while remaining_axi.len() > 0
            invariant
                forall|i: int|
                    0 <= i < remaining_axi@.len() ==> (#[trigger] remaining_axi@[i]).1.in_bounds(
                        node_count,
                    ),
                forall|i: int|
                    0 <= i < axi_interface_nodes@.len() ==> (
                    #[trigger] axi_interface_nodes@[i]).1.in_bounds(node_count),
                self.builders.consistent,
                self.builders.end_node is Some,
                self.builders.edges.incomplete_count == 0,
                axi_interface_nodes@.len() + remaining_axi@.len() == self.builders.axi@.len(),
                remaining_axi@ == self.builders.axi@.skip(axi_interface_nodes@.len() as int),
                axi_tables_finished(
                    self.builders.axi@.take(axi_interface_nodes@.len() as int),
                    axi_interface_nodes@,
                ),
            decreases remaining_axi@.len(),
        {
            let ghost done = axi_interface_nodes@.len() as int;
            proof {
                assert(remaining_axi@[0] == self.builders.axi@[done]);
            }
            let entry = remaining_axi.remove(0);
            let address = entry.0;
            let ghost pending = entry.1;
            match entry.1.finish() {
                Ok(nodes) => {
                    proof {
                        lemma_filled_in_bounds(pending, nodes, node_count);
                    }
                    axi_interface_nodes.push((address, nodes));
                    proof {
                        assert(remaining_axi@ =~= self.builders.axi@.skip(
                            axi_interface_nodes@.len() as int,
                        ));
                        assert(self.builders.axi@.take(axi_interface_nodes@.len() as int)
                            =~= self.builders.axi@.take(done).push(self.builders.axi@[done]));
                        assert(axi_tables_finished(
                            self.builders.axi@.take(axi_interface_nodes@.len() as int),
                            axi_interface_nodes@,
                        ));
                    }
                },
                Err(e) => {
                    proof {
                        assert(!self.builders.axi@[done].1.complete());
                    }
                    return Err(e);
                },
            }
        }
        proof {
            assert(self.builders.axi@.take(self.builders.axi@.len() as int)
                =~= self.builders.axi@);
        }
        let end_ok = (end_node as usize) < graph.node_offsets.len();
        if !end_ok {
            return Err(BuildError::IncompleteTrace);
        }
        let sim = CompiledSimulation { graph, top_module, fifo_nodes, axi_interface_nodes, end_node };
        proof {
            assert(sim.wf());
        }
        Ok(sim)
    }
}

impl Default for SimulationBuilder {
    /// A fresh builder, ready for the top call's events.
    fn default() -> (r: SimulationBuilder)
        ensures
            r.wf(),
            r.stack@.len() == 1,
            r.builders.consistent,
    {
        SimulationBuilder::new()
    }
}

/// Pointwise relation between the pending FIFO tables and the finished ones:
/// same identifiers in the same order, every slot committed.
pub open spec fn fifo_tables_finished(
    pending: Seq<(FifoId, FifoBuilder)>,
    out: Seq<(FifoId, FifoIoNodes)>,
) -> bool {
    &&& out.len() == pending.len()
    &&& forall|i: int|
        0 <= i < pending.len() ==> {
            &&& (#[trigger] out[i]).0 == pending[i].0
            &&& out[i].1.writes@.len() == pending[i].1.writes@.len()
            &&& out[i].1.reads@.len() == pending[i].1.reads@.len()
            &&& forall|j: int|
                0 <= j < out[i].1.writes@.len() ==> pending[i].1.writes@[j] == Some(
                    #[trigger] out[i].1.writes@[j],
                )
            &&& forall|j: int|
                0 <= j < out[i].1.reads@.len() ==> pending[i].1.reads@[j] == Some(
                    #[trigger] out[i].1.reads@[j],
                )
        }
}

/// Pointwise relation between the pending AXI tables and the finished ones.
pub open spec fn axi_tables_finished(
    pending: Seq<(AxiAddress, AxiBuilder)>,
    out: Seq<(AxiAddress, AxiInterfaceIoNodes)>,
) -> bool {
    &&& out.len() == pending.len()
    &&& forall|i: int|
        0 <= i < pending.len() ==> {
            &&& (#[trigger] out[i]).0 == pending[i].0
            &&& crate::builder::axi_builder::all_filled(pending[i].1.readreqs@, out[i].1.readreqs@)
            &&& crate::builder::axi_builder::all_filled(pending[i].1.reads@, out[i].1.reads@)
            &&& crate::builder::axi_builder::all_filled(
                pending[i].1.writereqs@,
                out[i].1.writereqs@,
            )
            &&& crate::builder::axi_builder::all_filled(pending[i].1.writes@, out[i].1.writes@)
            &&& out[i].1.writeresps@.len() == pending[i].1.writeresps@.len()
            &&& forall|j: int|
                0 <= j < out[i].1.writeresps@.len() ==> pending[i].1.writeresps@[j] == Some(
                    #[trigger] out[i].1.writeresps@[j],
                )
        }
}

/// A finished AXI table inherits the bounds of its pending table.
proof fn lemma_filled_in_bounds(
    pending: AxiBuilder,
    nodes: AxiInterfaceIoNodes,
    node_count: int,
)
    requires
        pending.in_bounds(node_count),
        crate::builder::axi_builder::all_filled(pending.readreqs@, nodes.readreqs@),
        crate::builder::axi_builder::all_filled(pending.reads@, nodes.reads@),
        crate::builder::axi_builder::all_filled(pending.writereqs@, nodes.writereqs@),
        crate::builder::axi_builder::all_filled(pending.writes@, nodes.writes@),
        nodes.writeresps@.len() == pending.writeresps@.len(),
        forall|i: int|
            0 <= i < pending.writeresps@.len() ==> pending.writeresps@[i] == Some(
                #[trigger] nodes.writeresps@[i],
            ),
    ensures
        nodes.in_bounds(node_count),
{
    assert forall|j: int|
        0 <= j < nodes.readreqs@.len() implies (#[trigger] nodes.readreqs@[j]).node.in_bounds(
        node_count,
    ) by {
        assert(pending.readreqs@[j].node == Some(nodes.readreqs@[j].node));
    }
    assert forall|j: int|
        0 <= j < nodes.reads@.len() implies (#[trigger] nodes.reads@[j]).node.in_bounds(
        node_count,
    ) by {
        assert(pending.reads@[j].node == Some(nodes.reads@[j].node));
    }
    assert forall|j: int|
        0 <= j < nodes.writereqs@.len() implies (#[trigger] nodes.writereqs@[j]).node.in_bounds(
        node_count,
    ) by {
        assert(pending.writereqs@[j].node == Some(nodes.writereqs@[j].node));
    }
    assert forall|j: int|
        0 <= j < nodes.writes@.len() implies (#[trigger] nodes.writes@[j]).node.in_bounds(
        node_count,
    ) by {
        assert(pending.writes@[j].node == Some(nodes.writes@[j].node));
    }
    assert forall|j: int|
        0 <= j < nodes.writeresps@.len() implies (#[trigger] nodes.writeresps@[j]).in_bounds(
        node_count,
    ) by {
        assert(pending.writeresps@[j] == Some(nodes.writeresps@[j]));
    }
}

} // verus!