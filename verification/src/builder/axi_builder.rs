//! Per-interface AXI transfer tables under construction.

use vstd::prelude::*;

use crate::axi_interface::{AxiAddress, AxiAddressRange, AxiGenericIoNode, AxiInterfaceIoNodes};
use crate::builder::edge_builder::IncompleteEdgeKey;
use crate::builder::event::FirstReadData;
use crate::builder::BuildError;
use crate::node::NodeWithDelay;

verus! {

/// One transfer whose node is filled in when its stage commits.
#[derive(Clone, Copy, PartialEq, Eq, Structural, Debug)]
pub struct AxiGenericIoOptionalNode {
    pub node: Option<NodeWithDelay>,
    pub range: AxiAddressRange,
}

/// A request of `count` transfers of `increment` bytes each from `offset`.
#[derive(Clone, Copy, PartialEq, Eq, Structural, Debug)]
pub struct AxiRequestRange {
    pub offset: AxiAddress,
    pub increment: AxiAddress,
    pub count: u32,
}

impl AxiRequestRange {
    /// The whole range the request covers.
    pub open spec fn range_spec(self) -> AxiAddressRange {
        AxiAddressRange { offset: self.offset, length: (self.increment * self.count) as u64 }
    }

    /// The range of the request's first transfer.
    pub open spec fn front_spec(self) -> AxiAddressRange {
        AxiAddressRange { offset: self.offset, length: self.increment }
    }

    /// Whether the request's arithmetic stays inside 64 bits and covers at
    /// least one byte.
    pub open spec fn valid(self) -> bool {
        &&& self.count >= 1
        &&& self.increment >= 1
        &&& self.offset + self.increment * self.count <= u64::MAX
        &&& crate::axi_interface::burst_count_spec(self.range_spec()) <= usize::MAX
    }

    pub fn range(&self) -> (r: AxiAddressRange)
        requires
            self.increment * self.count <= u64::MAX,
        ensures
            r == self.range_spec(),
    {
        let count: AxiAddress = self.count as u64;
        AxiAddressRange { offset: self.offset, length: self.increment * count }
    }

    pub fn front(&self) -> (r: AxiAddressRange)
        ensures
            r == self.front_spec(),
    {
        AxiAddressRange { offset: self.offset, length: self.increment }
    }
}

/// A newly recorded AXI read request.
pub struct InsertedAxiReadReq {
    pub index: usize,
    pub burst_count: usize,
}

/// A newly recorded AXI read.
pub struct InsertedAxiRead {
    pub index: usize,
    pub first_read: Option<FirstReadData>,
    pub rctl_out_edge: Option<IncompleteEdgeKey>,
}

/// A newly recorded AXI write request.
pub struct InsertedAxiWriteReq {
    pub index: usize,
}

/// A newly recorded AXI write.
pub struct InsertedAxiWrite {
    pub index: usize,
    pub writeresp_edge_needed: bool,
}

/// A newly recorded AXI write response.
pub struct InsertedAxiWriteResp {
    pub index: usize,
    pub writeresp_edge: Option<IncompleteEdgeKey>,
}

/// Builds one interface's transfer tables, walking each request's transfers
/// with a cursor so every read and write receives its byte range.
pub struct AxiBuilder {
    pub readreqs: Vec<AxiGenericIoOptionalNode>,
    pub reads: Vec<AxiGenericIoOptionalNode>,
    pub writereqs: Vec<AxiGenericIoOptionalNode>,
    pub writes: Vec<AxiGenericIoOptionalNode>,
    pub writeresps: Vec<Option<NodeWithDelay>>,
    /// Wiring waiting for the first read of the open read request.
    pub first_read: Option<FirstReadData>,
    /// The write-response edge of the last completed write request.
    pub writeresp_edge: Option<IncompleteEdgeKey>,
    /// Cursor over the open read request.
    pub current_read: AxiAddressRange,
    pub readreq_reads_remaining: u32,
    /// The read-control edge leaving the open read request's last read.
    pub readreq_rctl_out_edge: Option<IncompleteEdgeKey>,
    /// Cursor over the open write request.
    pub current_write: AxiAddressRange,
    pub writereq_writes_remaining: u32,
}

pub open spec fn generic_table_in_bounds(t: Seq<AxiGenericIoOptionalNode>, node_count: int) -> bool {
    forall|i: int|
        0 <= i < t.len() ==> ((#[trigger] t[i]).node matches Some(u) ==> u.in_bounds(node_count))
}

impl AxiBuilder {
    /// Every recorded node lies inside a graph of `node_count` nodes.
    pub open spec fn in_bounds(self, node_count: int) -> bool {
        &&& generic_table_in_bounds(self.readreqs@, node_count)
        &&& generic_table_in_bounds(self.reads@, node_count)
        &&& generic_table_in_bounds(self.writereqs@, node_count)
        &&& generic_table_in_bounds(self.writes@, node_count)
        &&& forall|i: int|
            0 <= i < self.writeresps@.len() ==> ((#[trigger] self.writeresps@[i]) matches Some(u)
                ==> u.in_bounds(node_count))
    }

    pub fn new() -> (r: AxiBuilder)
        ensures
            r.readreqs@.len() == 0,
            r.reads@.len() == 0,
            r.writereqs@.len() == 0,
            r.writes@.len() == 0,
            r.writeresps@.len() == 0,
            r.first_read is None,
            r.writeresp_edge is None,
            r.readreq_reads_remaining == 0,
            r.writereq_writes_remaining == 0,
    {
        AxiBuilder {
            readreqs: Vec::new(),
            reads: Vec::new(),
            writereqs: Vec::new(),
            writes: Vec::new(),
            writeresps: Vec::new(),
            first_read: None,
            writeresp_edge: None,
            current_read: AxiAddressRange { offset: 0, length: 0 },
            readreq_reads_remaining: 0,
            readreq_rctl_out_edge: None,
            current_write: AxiAddressRange { offset: 0, length: 0 },
            writereq_writes_remaining: 0,
        }
    }

    /// Opens a read request: records its range, resets the read cursor, and
    /// parks the wiring for its first and last reads.
    pub fn insert_readreq(
        &mut self,
        request: &AxiRequestRange,
        read_edge: IncompleteEdgeKey,
        rctl_in_edge: IncompleteEdgeKey,
        rctl_out_edge: IncompleteEdgeKey,
    ) -> (r: InsertedAxiReadReq)
        requires
            request.valid(),
        ensures
            r.index == old(self).readreqs@.len(),
            r.burst_count as int == crate::axi_interface::burst_count_spec(request.range_spec()),
            r.burst_count >= 1,
            final(self).readreqs@ == old(self).readreqs@.push(
                AxiGenericIoOptionalNode { node: None, range: request.range_spec() },
            ),
            final(self).reads@ == old(self).reads@,
            final(self).writereqs@ == old(self).writereqs@,
            final(self).writes@ == old(self).writes@,
            final(self).writeresps@ == old(self).writeresps@,
            final(self).current_read == request.front_spec(),
            final(self).readreq_reads_remaining == request.count,
            final(self).first_read == Some(
                FirstReadData {
                    read_edge,
                    rctl_in_edge,
                    burst_count: r.burst_count,
                    rctl_out_edge,
                },
            ),
            final(self).readreq_rctl_out_edge == Some(rctl_out_edge),
            final(self).writeresp_edge == old(self).writeresp_edge,
            final(self).writereq_writes_remaining == old(self).writereq_writes_remaining,
            final(self).current_write == old(self).current_write,
    {
        let range = request.range();
        let index = self.readreqs.len();
        self.readreqs.push(AxiGenericIoOptionalNode { node: None, range });
        proof {
            assert(request.increment * request.count >= 1) by (nonlinear_arith)
                requires
                    request.increment >= 1,
                    request.count >= 1,
            ;
        }
        let burst_count = range.burst_count();
        self.current_read = request.front();
        self.first_read = Some(
            FirstReadData { read_edge, rctl_in_edge, burst_count, rctl_out_edge },
        );
        self.readreq_rctl_out_edge = Some(rctl_out_edge);
        self.readreq_reads_remaining = request.count;
        InsertedAxiReadReq { index, burst_count }
    }

    /// Opens a write request: records its range and resets the write cursor.
    pub fn insert_writereq(&mut self, request: &AxiRequestRange) -> (r: InsertedAxiWriteReq)
        requires
            request.increment * request.count <= u64::MAX,
        ensures
            r.index == old(self).writereqs@.len(),
            final(self).writereqs@ == old(self).writereqs@.push(
                AxiGenericIoOptionalNode { node: None, range: request.range_spec() },
            ),
            final(self).readreqs@ == old(self).readreqs@,
            final(self).reads@ == old(self).reads@,
            final(self).writes@ == old(self).writes@,
            final(self).writeresps@ == old(self).writeresps@,
            final(self).current_write == request.front_spec(),
            final(self).writereq_writes_remaining == request.count,
            final(self).first_read == old(self).first_read,
            final(self).writeresp_edge == old(self).writeresp_edge,
            final(self).readreq_reads_remaining == old(self).readreq_reads_remaining,
            final(self).readreq_rctl_out_edge == old(self).readreq_rctl_out_edge,
            final(self).current_read == old(self).current_read,
    {
        let range = request.range();
        let index = self.writereqs.len();
        self.writereqs.push(AxiGenericIoOptionalNode { node: None, range });
        self.current_write = request.front();
        self.writereq_writes_remaining = request.count;
        InsertedAxiWriteReq { index }
    }

    /// Records the next read of the open request, advancing the cursor; the
    /// first read takes the parked wiring, the last one the outgoing
    /// read-control edge.
    pub fn insert_read(&mut self) -> (r: InsertedAxiRead)
        requires
            old(self).readreq_reads_remaining >= 1,
            old(self).current_read.offset + old(self).current_read.length <= u64::MAX,
        ensures
            r.index == old(self).reads@.len(),
            final(self).reads@ == old(self).reads@.push(
                AxiGenericIoOptionalNode { node: None, range: old(self).current_read },
            ),
            final(self).readreqs@ == old(self).readreqs@,
            final(self).writereqs@ == old(self).writereqs@,
            final(self).writes@ == old(self).writes@,
            final(self).writeresps@ == old(self).writeresps@,
            final(self).current_read.offset == old(self).current_read.offset + old(
                self,
            ).current_read.length,
            final(self).current_read.length == old(self).current_read.length,
            final(self).readreq_reads_remaining == old(self).readreq_reads_remaining - 1,
            r.first_read == old(self).first_read,
            final(self).first_read is None,
            r.rctl_out_edge == (if old(self).readreq_reads_remaining == 1 {
                old(self).readreq_rctl_out_edge
            } else {
                None::<IncompleteEdgeKey>
            }),
            final(self).writeresp_edge == old(self).writeresp_edge,
            final(self).writereq_writes_remaining == old(self).writereq_writes_remaining,
            final(self).current_write == old(self).current_write,
    {
        let range = self.current_read;
        self.current_read = range.add(range.length);
        let index = self.reads.len();
        self.reads.push(AxiGenericIoOptionalNode { node: None, range });
        self.readreq_reads_remaining = self.readreq_reads_remaining - 1;
        let is_last_of_readreq = self.readreq_reads_remaining == 0;
        let first_read = self.first_read;
        self.first_read = None;
        let rctl_out_edge = if is_last_of_readreq {
            self.readreq_rctl_out_edge
        } else {
            None
        };
        InsertedAxiRead { index, first_read, rctl_out_edge }
    }

    /// Records the next write of the open request, advancing the cursor; the
    /// last write must be given the write-response edge.
    pub fn insert_write(&mut self) -> (r: InsertedAxiWrite)
        requires
            old(self).writereq_writes_remaining >= 1,
            old(self).current_write.offset + old(self).current_write.length <= u64::MAX,
        ensures
            r.index == old(self).writes@.len(),
            final(self).writes@ == old(self).writes@.push(
                AxiGenericIoOptionalNode { node: None, range: old(self).current_write },
            ),
            final(self).readreqs@ == old(self).readreqs@,
            final(self).reads@ == old(self).reads@,
            final(self).writereqs@ == old(self).writereqs@,
            final(self).writeresps@ == old(self).writeresps@,
            final(self).current_write.offset == old(self).current_write.offset + old(
                self,
            ).current_write.length,
            final(self).current_write.length == old(self).current_write.length,
            final(self).writereq_writes_remaining == old(self).writereq_writes_remaining - 1,
            r.writeresp_edge_needed == (old(self).writereq_writes_remaining == 1),
            final(self).first_read == old(self).first_read,
            final(self).writeresp_edge == old(self).writeresp_edge,
            final(self).readreq_reads_remaining == old(self).readreq_reads_remaining,
            final(self).readreq_rctl_out_edge == old(self).readreq_rctl_out_edge,
            final(self).current_read == old(self).current_read,
    {
        let range = self.current_write;
        self.current_write = range.add(range.length);
        let index = self.writes.len();
        self.writes.push(AxiGenericIoOptionalNode { node: None, range });
        self.writereq_writes_remaining = self.writereq_writes_remaining - 1;
        let is_last_of_writereq = self.writereq_writes_remaining == 0;
        InsertedAxiWrite { index, writeresp_edge_needed: is_last_of_writereq }
    }

    /// Hands the last write of a request its write-response edge.
    pub fn provide_writeresp_edge(&mut self, edge: IncompleteEdgeKey)
        ensures
            final(self).writeresp_edge == Some(edge),
            final(self).readreqs@ == old(self).readreqs@,
            final(self).reads@ == old(self).reads@,
            final(self).writereqs@ == old(self).writereqs@,
            final(self).writes@ == old(self).writes@,
            final(self).writeresps@ == old(self).writeresps@,
            final(self).first_read == old(self).first_read,
            final(self).current_read == old(self).current_read,
            final(self).readreq_reads_remaining == old(self).readreq_reads_remaining,
            final(self).readreq_rctl_out_edge == old(self).readreq_rctl_out_edge,
            final(self).current_write == old(self).current_write,
            final(self).writereq_writes_remaining == old(self).writereq_writes_remaining,
    {
        self.writeresp_edge = Some(edge);
    }

    /// Records a write response, consuming the pending response edge.
    pub fn insert_writeresp(&mut self) -> (r: InsertedAxiWriteResp)
        ensures
            r.index == old(self).writeresps@.len(),
            r.writeresp_edge == old(self).writeresp_edge,
            final(self).writeresps@ == old(self).writeresps@.push(None::<NodeWithDelay>),
            final(self).readreqs@ == old(self).readreqs@,
            final(self).reads@ == old(self).reads@,
            final(self).writereqs@ == old(self).writereqs@,
            final(self).writes@ == old(self).writes@,
            final(self).first_read == old(self).first_read,
            final(self).writeresp_edge == old(self).writeresp_edge,
            final(self).readreq_reads_remaining == old(self).readreq_reads_remaining,
            final(self).writereq_writes_remaining == old(self).writereq_writes_remaining,
    {
        let index = self.writeresps.len();
        self.writeresps.push(None);
        InsertedAxiWriteResp { index, writeresp_edge: self.writeresp_edge }
    }

    /// Fills in the node of a committed transfer.
    pub fn update_readreq(&mut self, index: usize, node: NodeWithDelay) -> (ok: bool)
        ensures
            ok == (index < old(self).readreqs@.len()),
            ok ==> final(self).readreqs@ == old(self).readreqs@.update(
                index as int,
                AxiGenericIoOptionalNode {
                    node: Some(node),
                    range: old(self).readreqs@[index as int].range,
                },
            ),
            !ok ==> final(self).readreqs@ == old(self).readreqs@,
            unchanged_but_readreqs(*old(self), *final(self)),
    {
        if index < self.readreqs.len() {
            let range = self.readreqs[index].range;
            self.readreqs.set(index, AxiGenericIoOptionalNode { node: Some(node), range });
            true
        } else {
            false
        }
    }

    pub fn update_read(&mut self, index: usize, node: NodeWithDelay) -> (ok: bool)
        ensures
            ok == (index < old(self).reads@.len()),
            ok ==> final(self).reads@ == old(self).reads@.update(
                index as int,
                AxiGenericIoOptionalNode {
                    node: Some(node),
                    range: old(self).reads@[index as int].range,
                },
            ),
            !ok ==> final(self).reads@ == old(self).reads@,
            unchanged_but_reads(*old(self), *final(self)),
    {
        if index < self.reads.len() {
            let range = self.reads[index].range;
            self.reads.set(index, AxiGenericIoOptionalNode { node: Some(node), range });
            true
        } else {
            false
        }
    }

    pub fn update_writereq(&mut self, index: usize, node: NodeWithDelay) -> (ok: bool)
        ensures
            ok == (index < old(self).writereqs@.len()),
            ok ==> final(self).writereqs@ == old(self).writereqs@.update(
                index as int,
                AxiGenericIoOptionalNode {
                    node: Some(node),
                    range: old(self).writereqs@[index as int].range,
                },
            ),
            !ok ==> final(self).writereqs@ == old(self).writereqs@,
            unchanged_but_writereqs(*old(self), *final(self)),
    {
        if index < self.writereqs.len() {
            let range = self.writereqs[index].range;
            self.writereqs.set(index, AxiGenericIoOptionalNode { node: Some(node), range });
            true
        } else {
            false
        }
    }

    pub fn update_write(&mut self, index: usize, node: NodeWithDelay) -> (ok: bool)
        ensures
            ok == (index < old(self).writes@.len()),
            ok ==> final(self).writes@ == old(self).writes@.update(
                index as int,
                AxiGenericIoOptionalNode {
                    node: Some(node),
                    range: old(self).writes@[index as int].range,
                },
            ),
            !ok ==> final(self).writes@ == old(self).writes@,
            unchanged_but_writes(*old(self), *final(self)),
    {
        if index < self.writes.len() {
            let range = self.writes[index].range;
            self.writes.set(index, AxiGenericIoOptionalNode { node: Some(node), range });
            true
        } else {
            false
        }
    }

    pub fn update_writeresp(&mut self, index: usize, node: NodeWithDelay) -> (ok: bool)
        ensures
            ok == (index < old(self).writeresps@.len()),
            ok ==> final(self).writeresps@ == old(self).writeresps@.update(
                index as int,
                Some(node),
            ),
            !ok ==> final(self).writeresps@ == old(self).writeresps@,
            unchanged_but_writeresps(*old(self), *final(self)),
    {
        if index < self.writeresps.len() {
            self.writeresps.set(index, Some(node));
            true
        } else {
            false
        }
    }

    /// Whether every transfer was committed and every open request received
    /// all its transfers.
    pub open spec fn complete(self) -> bool {
        &&& self.first_read is None
        &&& self.readreq_reads_remaining == 0
        &&& self.writereq_writes_remaining == 0
        &&& forall|i: int| 0 <= i < self.readreqs@.len() ==> (#[trigger] self.readreqs@[i]).node is Some
        &&& forall|i: int| 0 <= i < self.reads@.len() ==> (#[trigger] self.reads@[i]).node is Some
        &&& forall|i: int|
            0 <= i < self.writereqs@.len() ==> (#[trigger] self.writereqs@[i]).node is Some
        &&& forall|i: int| 0 <= i < self.writes@.len() ==> (#[trigger] self.writes@[i]).node is Some
        &&& forall|i: int| 0 <= i < self.writeresps@.len() ==> (#[trigger] self.writeresps@[i]) is Some
    }

    /// Closes the tables: succeeds exactly when every transfer was committed
    /// and every open request received all its transfers.
    pub fn finish(self) -> (r: Result<AxiInterfaceIoNodes, BuildError>)
        ensures
            r is Ok <==> self.complete(),
            r is Err ==> r == Err::<AxiInterfaceIoNodes, BuildError>(BuildError::IncompleteAxi),
            r matches Ok(nodes) ==> {
                &&& all_filled(self.readreqs@, nodes.readreqs@)
                &&& all_filled(self.reads@, nodes.reads@)
                &&& all_filled(self.writereqs@, nodes.writereqs@)
                &&& all_filled(self.writes@, nodes.writes@)
                &&& nodes.writeresps@.len() == self.writeresps@.len()
                &&& forall|i: int|
                    0 <= i < self.writeresps@.len() ==> self.writeresps@[i] == Some(
                        #[trigger] nodes.writeresps@[i],
                    )
                &&& self.first_read is None
                &&& self.readreq_reads_remaining == 0
                &&& self.writereq_writes_remaining == 0
            },
    {
        if self.first_read.is_some() || self.readreq_reads_remaining != 0
            || self.writereq_writes_remaining != 0 {
            return Err(BuildError::IncompleteAxi);
        }
        let readreqs = match collect_filled(&self.readreqs) {
            Some(v) => v,
            None => {
                return Err(BuildError::IncompleteAxi);
            },
        };
        let reads = match collect_filled(&self.reads) {
            Some(v) => v,
            None => {
                return Err(BuildError::IncompleteAxi);
            },
        };
        let writereqs = match collect_filled(&self.writereqs) {
            Some(v) => v,
            None => {
                return Err(BuildError::IncompleteAxi);
            },
        };
        let writes = match collect_filled(&self.writes) {
            Some(v) => v,
            None => {
                return Err(BuildError::IncompleteAxi);
            },
        };
        let mut writeresps: Vec<NodeWithDelay> = Vec::new();
        let mut i: usize = 0;
        while i < self.writeresps.len()
            invariant
                i <= self.writeresps@.len(),
                writeresps@.len() == i,
                forall|j: int|
                    0 <= j < i ==> self.writeresps@[j] == Some(#[trigger] writeresps@[j]),
            decreases self.writeresps@.len() - i,
        {
            match self.writeresps[i] {
                Some(node) => {
                    writeresps.push(node);
                },
                None => {
                    return Err(BuildError::IncompleteAxi);
                },
            }
            i += 1;
        }
        proof {
            assert forall|j: int| 0 <= j < self.readreqs@.len() implies (
            #[trigger] self.readreqs@[j]).node is Some by {
                assert(self.readreqs@[j].node == Some(readreqs@[j].node));
            }
            assert forall|j: int| 0 <= j < self.reads@.len() implies (
            #[trigger] self.reads@[j]).node is Some by {
                assert(self.reads@[j].node == Some(reads@[j].node));
            }
            assert forall|j: int| 0 <= j < self.writereqs@.len() implies (
            #[trigger] self.writereqs@[j]).node is Some by {
                assert(self.writereqs@[j].node == Some(writereqs@[j].node));
            }
            assert forall|j: int| 0 <= j < self.writes@.len() implies (
            #[trigger] self.writes@[j]).node is Some by {
                assert(self.writes@[j].node == Some(writes@[j].node));
            }
            assert forall|j: int| 0 <= j < self.writeresps@.len() implies (
            #[trigger] self.writeresps@[j]) is Some by {
                assert(self.writeresps@[j] == Some(writeresps@[j]));
            }
        }
        Ok(AxiInterfaceIoNodes { readreqs, reads, writereqs, writes, writeresps })
    }
}

/// The cursor and wiring fields two builder states share when only one
/// transfer table changed.
pub open spec fn cursors_equal(a: AxiBuilder, b: AxiBuilder) -> bool {
    &&& a.first_read == b.first_read
    &&& a.writeresp_edge == b.writeresp_edge
    &&& a.current_read == b.current_read
    &&& a.readreq_reads_remaining == b.readreq_reads_remaining
    &&& a.readreq_rctl_out_edge == b.readreq_rctl_out_edge
    &&& a.current_write == b.current_write
    &&& a.writereq_writes_remaining == b.writereq_writes_remaining
}

pub open spec fn unchanged_but_readreqs(a: AxiBuilder, b: AxiBuilder) -> bool {
    &&& a.reads@ == b.reads@
    &&& a.writereqs@ == b.writereqs@
    &&& a.writes@ == b.writes@
    &&& a.writeresps@ == b.writeresps@
    &&& cursors_equal(a, b)
}

pub open spec fn unchanged_but_reads(a: AxiBuilder, b: AxiBuilder) -> bool {
    &&& a.readreqs@ == b.readreqs@
    &&& a.writereqs@ == b.writereqs@
    &&& a.writes@ == b.writes@
    &&& a.writeresps@ == b.writeresps@
    &&& cursors_equal(a, b)
}

pub open spec fn unchanged_but_writereqs(a: AxiBuilder, b: AxiBuilder) -> bool {
    &&& a.readreqs@ == b.readreqs@
    &&& a.reads@ == b.reads@
    &&& a.writes@ == b.writes@
    &&& a.writeresps@ == b.writeresps@
    &&& cursors_equal(a, b)
}

pub open spec fn unchanged_but_writes(a: AxiBuilder, b: AxiBuilder) -> bool {
    &&& a.readreqs@ == b.readreqs@
    &&& a.reads@ == b.reads@
    &&& a.writereqs@ == b.writereqs@
    &&& a.writeresps@ == b.writeresps@
    &&& cursors_equal(a, b)
}

pub open spec fn unchanged_but_writeresps(a: AxiBuilder, b: AxiBuilder) -> bool {
    &&& a.readreqs@ == b.readreqs@
    &&& a.reads@ == b.reads@
    &&& a.writereqs@ == b.writereqs@
    &&& a.writes@ == b.writes@
    &&& cursors_equal(a, b)
}

/// Every pending entry matched the finished entry pointwise.
pub open spec fn all_filled(t: Seq<AxiGenericIoOptionalNode>, out: Seq<AxiGenericIoNode>) -> bool {
    &&& out.len() == t.len()
    &&& forall|i: int|
        0 <= i < t.len() ==> {
            &&& (#[trigger] t[i]).node == Some(out[i].node)
            &&& t[i].range == out[i].range
        }
}

/// Collects a table whose entries are all committed.
fn collect_filled(t: &Vec<AxiGenericIoOptionalNode>) -> (r: Option<Vec<AxiGenericIoNode>>)
    ensures
        r matches Some(out) ==> all_filled(t@, out@),
        r is None ==> exists|i: int| 0 <= i < t@.len() && (#[trigger] t@[i]).node is None,
{
    let mut out: Vec<AxiGenericIoNode> = Vec::new();
    let mut i: usize = 0;
    while i < t.len()
        invariant
            i <= t@.len(),
            out@.len() == i,
            forall|j: int|
                0 <= j < i ==> (#[trigger] t@[j]).node == Some(out@[j].node) && t@[j].range
                    == out@[j].range,
        decreases t@.len() - i,
    {
        match t[i].node {
            Some(node) => {
                out.push(AxiGenericIoNode { node, range: t[i].range });
            },
            None => {
                return None;
            },
        }
        i += 1;
    }
    Some(out)
}

} // verus!
