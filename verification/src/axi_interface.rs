//! AXI interfaces, address ranges, and resolved I/O views.

use vstd::prelude::*;

use crate::node::NodeWithDelay;
use crate::ClockCycle;

verus! {

/// Cycles between an AXI read request and the first read of its data.
pub const AXI_READ_OVERHEAD: ClockCycle = 12;

/// Cycles between the last write of a request and its write response.
pub const AXI_WRITE_OVERHEAD: ClockCycle = 7;

/// Most 4 KiB bursts the read-control FIFO of one interface can track.
pub const MAX_RCTL_DEPTH: usize = 16;

pub type AxiAddress = u64;

/// A count of outstanding 4 KiB bursts.
pub type RctlDepth = usize;

#[derive(Clone, Copy, PartialEq, Eq, Structural, Debug)]
pub struct AxiInterface {
    pub address: AxiAddress,
}

/// A contiguous byte range `[offset, offset + length)` of one interface.
#[derive(Clone, Copy, PartialEq, Eq, Structural, Debug)]
pub struct AxiAddressRange {
    pub offset: AxiAddress,
    pub length: AxiAddress,
}

/// The number of 4 KiB pages a range touches: one burst per page boundary
/// crossed, plus one.
pub open spec fn burst_count_spec(range: AxiAddressRange) -> int {
    (range.offset + range.length - 1) / 4096 - range.offset / 4096 + 1
}

impl AxiAddressRange {
    /// How many AXI bursts the range splits into at 4 KiB page boundaries.
    /// An empty range touches at most the page it points into: one burst
    /// mid-page, none exactly on a boundary.
    pub fn burst_count(&self) -> (r: usize)
        requires
            self.offset + self.length >= 1,
            self.offset + self.length - 1 <= u64::MAX,
            burst_count_spec(*self) <= usize::MAX,
        ensures
            r == burst_count_spec(*self),
            self.length >= 1 ==> r >= 1,
    {
        let first_page: u64 = self.offset / 4096;
        if self.length == 0 {
            let last_page: u64 = (self.offset - 1) / 4096;
            proof {
                assert(self.offset / 4096 - 1 <= (self.offset - 1) / 4096 <= self.offset
                    / 4096) by (nonlinear_arith)
                    requires
                        self.offset >= 1,
                ;
            }
            if last_page < first_page {
                0
            } else {
                ((last_page - first_page) + 1) as usize
            }
        } else {
            proof {
                assert((self.offset + self.length - 1) / 4096 >= self.offset
                    / 4096) by (nonlinear_arith)
                    requires
                        self.length >= 1,
                        self.offset + self.length - 1 <= u64::MAX,
                ;
            }
            let last_page: u64 = (self.offset + (self.length - 1)) / 4096;
            ((last_page - first_page) + 1) as usize
        }
    }

    /// The same range, `rhs` bytes later.
    pub fn add(self, rhs: AxiAddress) -> (r: AxiAddressRange)
        requires
            self.offset + rhs <= u64::MAX,
        ensures
            r.offset == self.offset + rhs,
            r.length == self.length,
    {
        AxiAddressRange { offset: self.offset + rhs, length: self.length }
    }
}

/// One AXI transfer of the compiled graph: the node it happens at and the
/// byte range it covers.
#[derive(Clone, Copy, Debug)]
pub struct AxiGenericIoNode {
    pub node: NodeWithDelay,
    pub range: AxiAddressRange,
}

/// Nodes of every transfer of one AXI interface in the compiled graph.
/// Write responses carry no range.
#[derive(Clone, Debug)]
pub struct AxiInterfaceIoNodes {
    pub readreqs: Vec<AxiGenericIoNode>,
    pub reads: Vec<AxiGenericIoNode>,
    pub writereqs: Vec<AxiGenericIoNode>,
    pub writes: Vec<AxiGenericIoNode>,
    pub writeresps: Vec<NodeWithDelay>,
}

pub open spec fn generic_io_in_bounds(io: Seq<AxiGenericIoNode>, node_count: int) -> bool {
    forall|i: int| 0 <= i < io.len() ==> io[i].node.in_bounds(node_count)
}

impl AxiInterfaceIoNodes {
    /// Every referenced node lies inside a graph of `node_count` nodes.
    pub open spec fn in_bounds(self, node_count: int) -> bool {
        &&& generic_io_in_bounds(self.readreqs@, node_count)
        &&& generic_io_in_bounds(self.reads@, node_count)
        &&& generic_io_in_bounds(self.writereqs@, node_count)
        &&& generic_io_in_bounds(self.writes@, node_count)
        &&& forall|i: int|
            0 <= i < self.writeresps@.len() ==> self.writeresps@[i].in_bounds(node_count)
    }
}

/// One resolved AXI transfer: its cycle and its byte range.
#[derive(Clone, Copy, PartialEq, Eq, Structural, Debug)]
pub struct AxiGenericIo {
    pub time: ClockCycle,
    pub range: AxiAddressRange,
}

/// The resolved I/O times of one AXI interface under one set of parameters.
#[derive(Clone, Debug)]
pub struct AxiInterfaceIo {
    pub readreqs: Vec<AxiGenericIo>,
    pub reads: Vec<AxiGenericIo>,
    pub writereqs: Vec<AxiGenericIo>,
    pub writes: Vec<AxiGenericIo>,
    pub writeresps: Vec<ClockCycle>,
}

/// The resolved view of one transfer list.
pub open spec fn resolved_generic_io(
    io: Seq<AxiGenericIoNode>,
    node_cycles: Seq<ClockCycle>,
) -> Seq<AxiGenericIo> {
    io.map(
        |i: int, g: AxiGenericIoNode| AxiGenericIo {
            time: g.node.resolve_spec(node_cycles),
            range: g.range,
        },
    )
}

fn resolve_generic_io(io: &Vec<AxiGenericIoNode>, node_cycles: &Vec<ClockCycle>) -> (r: Vec<
    AxiGenericIo,
>)
    requires
        generic_io_in_bounds(io@, node_cycles@.len() as int),
    ensures
        r@ == resolved_generic_io(io@, node_cycles@),
{
    let mut r: Vec<AxiGenericIo> = Vec::new();
    let mut i: usize = 0;
    while i < io.len()
        invariant
            generic_io_in_bounds(io@, node_cycles@.len() as int),
            i <= io@.len(),
            r@.len() == i,
            forall|j: int|
                0 <= j < i ==> r@[j] == (AxiGenericIo {
                    time: io@[j].node.resolve_spec(node_cycles@),
                    range: io@[j].range,
                }),
        decreases io@.len() - i,
    {
        let g = io[i];
        r.push(AxiGenericIo { time: g.node.resolve(node_cycles), range: g.range });
        i += 1;
    }
    proof {
        assert(r@ =~= resolved_generic_io(io@, node_cycles@));
    }
    r
}

impl AxiInterfaceIo {
    pub fn new(axi_io_nodes: &AxiInterfaceIoNodes, node_cycles: &Vec<ClockCycle>) -> (r:
        AxiInterfaceIo)
        requires
            axi_io_nodes.in_bounds(node_cycles@.len() as int),
        ensures
            r.readreqs@ == resolved_generic_io(axi_io_nodes.readreqs@, node_cycles@),
            r.reads@ == resolved_generic_io(axi_io_nodes.reads@, node_cycles@),
            r.writereqs@ == resolved_generic_io(axi_io_nodes.writereqs@, node_cycles@),
            r.writes@ == resolved_generic_io(axi_io_nodes.writes@, node_cycles@),
            r.writeresps@.len() == axi_io_nodes.writeresps@.len(),
            forall|i: int|
                0 <= i < r.writeresps@.len() ==> r.writeresps@[i]
                    == axi_io_nodes.writeresps@[i].resolve_spec(node_cycles@),
    {
        let readreqs = resolve_generic_io(&axi_io_nodes.readreqs, node_cycles);
        let reads = resolve_generic_io(&axi_io_nodes.reads, node_cycles);
        let writereqs = resolve_generic_io(&axi_io_nodes.writereqs, node_cycles);
        let writes = resolve_generic_io(&axi_io_nodes.writes, node_cycles);
        let mut writeresps: Vec<ClockCycle> = Vec::new();
        let mut i: usize = 0;
        while i < axi_io_nodes.writeresps.len()
            invariant
                axi_io_nodes.in_bounds(node_cycles@.len() as int),
                i <= axi_io_nodes.writeresps@.len(),
                writeresps@.len() == i,
                forall|j: int|
                    0 <= j < i ==> writeresps@[j] == axi_io_nodes.writeresps@[j].resolve_spec(
                        node_cycles@,
                    ),
            decreases axi_io_nodes.writeresps@.len() - i,
        {
            writeresps.push(axi_io_nodes.writeresps[i].resolve(node_cycles));
            i += 1;
        }
        AxiInterfaceIo { readreqs, reads, writereqs, writes, writeresps }
    }
}

} // verus!
