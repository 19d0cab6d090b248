//! Per-FIFO write and read node tables under construction.

use vstd::prelude::*;

use crate::builder::edge_builder::IncompleteEdgeKey;
use crate::builder::tee::{Tee, TeeConsumer, TeeEmptyError};
use crate::builder::BuildError;
use crate::fifo::FifoIoNodes;
use crate::node::{NodeIndex, NodeWithDelay};

verus! {

/// Builds one FIFO's node tables. Writes and reads share one read-after-write
/// edge per rank, handed between the two sides by a [`Tee`], so the edge is
/// created by whichever side arrives first.
pub struct FifoBuilder {
    pub writes: Vec<Option<NodeWithDelay>>,
    pub reads: Vec<Option<NodeIndex>>,
    pub raw_edges: Tee<IncompleteEdgeKey>,
}

/// A newly recorded FIFO write: its rank and the shared read-after-write
/// edge, or a claim to create it.
pub struct InsertedFifoWrite {
    pub index: usize,
    pub raw_edge: Result<IncompleteEdgeKey, TeeEmptyError>,
}

/// A newly recorded FIFO read.
pub struct InsertedFifoRead {
    pub index: usize,
    pub raw_edge: Result<IncompleteEdgeKey, TeeEmptyError>,
}

impl FifoBuilder {
    /// Every recorded node lies inside a graph of `node_count` nodes.
    pub open spec fn in_bounds(self, node_count: int) -> bool {
        &&& forall|i: int|
            0 <= i < self.writes@.len() ==> ((#[trigger] self.writes@[i]) matches Some(u)
                ==> u.in_bounds(node_count))
        &&& forall|i: int|
            0 <= i < self.reads@.len() ==> ((#[trigger] self.reads@[i]) matches Some(n) ==> n
                < node_count)
    }

    pub fn new() -> (r: FifoBuilder)
        ensures
            r.writes@.len() == 0,
            r.reads@.len() == 0,
            r.raw_edges.queue@.len() == 0,
    {
        FifoBuilder { writes: Vec::new(), reads: Vec::new(), raw_edges: Tee::new() }
    }

    /// Records a write and claims its read-after-write edge.
    pub fn insert_write(&mut self) -> (r: InsertedFifoWrite)
        ensures
            r.index == old(self).writes@.len(),
            final(self).writes@ == old(self).writes@.push(None::<NodeWithDelay>),
            final(self).reads@ == old(self).reads@,
            match r.raw_edge {
                Ok(key) => {
                    &&& old(self).raw_edges.leader != TeeConsumer::A
                    &&& old(self).raw_edges.queue@.len() > 0
                    &&& key == old(self).raw_edges.queue@[0]
                    &&& final(self).raw_edges.queue@ == old(self).raw_edges.queue@.drop_first()
                    &&& final(self).raw_edges.leader == old(self).raw_edges.leader
                },
                Err(e) => {
                    &&& e.consumer == TeeConsumer::A
                    &&& final(self).raw_edges == old(self).raw_edges
                },
            },
    {
        let index = self.writes.len();
        self.writes.push(None);
        let raw_edge = self.raw_edges.next(TeeConsumer::A);
        InsertedFifoWrite { index, raw_edge }
    }

    /// Records a read and claims its read-after-write edge.
    pub fn insert_read(&mut self) -> (r: InsertedFifoRead)
        ensures
            r.index == old(self).reads@.len(),
            final(self).reads@ == old(self).reads@.push(None::<NodeIndex>),
            final(self).writes@ == old(self).writes@,
            match r.raw_edge {
                Ok(key) => {
                    &&& old(self).raw_edges.leader != TeeConsumer::B
                    &&& old(self).raw_edges.queue@.len() > 0
                    &&& key == old(self).raw_edges.queue@[0]
                    &&& final(self).raw_edges.queue@ == old(self).raw_edges.queue@.drop_first()
                    &&& final(self).raw_edges.leader == old(self).raw_edges.leader
                },
                Err(e) => {
                    &&& e.consumer == TeeConsumer::B
                    &&& final(self).raw_edges == old(self).raw_edges
                },
            },
    {
        let index = self.reads.len();
        self.reads.push(None);
        let raw_edge = self.raw_edges.next(TeeConsumer::B);
        InsertedFifoRead { index, raw_edge }
    }

    /// Fills in the node of a committed write.
    pub fn update_write(&mut self, index: usize, node: NodeWithDelay) -> (ok: bool)
        ensures
            ok == (index < old(self).writes@.len()),
            ok ==> final(self).writes@ == old(self).writes@.update(index as int, Some(node)),
            !ok ==> final(self).writes@ == old(self).writes@,
            final(self).reads@ == old(self).reads@,
            final(self).raw_edges == old(self).raw_edges,
    {
        if index < self.writes.len() {
            self.writes.set(index, Some(node));
            true
        } else {
            false
        }
    }

    /// Fills in the node of a committed read; reads always own a node, so
    /// only a zero-delay point is accepted.
    pub fn update_read(&mut self, index: usize, node: NodeWithDelay) -> (ok: bool)
        ensures
            ok == (index < old(self).reads@.len() && node.delay == 0),
            ok ==> final(self).reads@ == old(self).reads@.update(index as int, Some(node.node)),
            !ok ==> final(self).reads@ == old(self).reads@,
            final(self).writes@ == old(self).writes@,
            final(self).raw_edges == old(self).raw_edges,
    {
        if index < self.reads.len() && node.delay == 0 {
            self.reads.set(index, Some(node.node));
            true
        } else {
            false
        }
    }

    /// Whether every access was committed and no read-after-write edge is
    /// left unpaired.
    pub open spec fn complete(self) -> bool {
        &&& self.raw_edges.queue@.len() == 0
        &&& forall|i: int| 0 <= i < self.writes@.len() ==> (#[trigger] self.writes@[i]) is Some
        &&& forall|i: int| 0 <= i < self.reads@.len() ==> (#[trigger] self.reads@[i]) is Some
    }

    /// Closes the table: succeeds exactly when every access was committed
    /// and no read-after-write edge is left unpaired.
    pub fn finish(self) -> (r: Result<FifoIoNodes, BuildError>)
        ensures
            r is Ok <==> self.complete(),
            r is Err ==> r == Err::<FifoIoNodes, BuildError>(BuildError::IncompleteFifo),
            r matches Ok(nodes) ==> {
                &&& nodes.writes@.len() == self.writes@.len()
                &&& nodes.reads@.len() == self.reads@.len()
                &&& forall|i: int|
                    0 <= i < self.writes@.len() ==> self.writes@[i] == Some(
                        #[trigger] nodes.writes@[i],
                    )
                &&& forall|i: int|
                    0 <= i < self.reads@.len() ==> self.reads@[i] == Some(
                        #[trigger] nodes.reads@[i],
                    )
                &&& self.raw_edges.queue@.len() == 0
            },
    {
        if !self.raw_edges.is_empty() {
            return Err(BuildError::IncompleteFifo);
        }
        let mut writes: Vec<NodeWithDelay> = Vec::new();
        let mut i: usize = 0;
        while i < self.writes.len()
            invariant
                i <= self.writes@.len(),
                writes@.len() == i,
                forall|j: int| 0 <= j < i ==> self.writes@[j] == Some(#[trigger] writes@[j]),
            decreases self.writes@.len() - i,
        {
            match self.writes[i] {
                Some(node) => {
                    writes.push(node);
                },
                None => {
                    return Err(BuildError::IncompleteFifo);
                },
            }
            i += 1;
        }
        let mut reads: Vec<NodeIndex> = Vec::new();
        let mut i: usize = 0;
        while i < self.reads.len()
            invariant
                i <= self.reads@.len(),
                reads@.len() == i,
                forall|j: int| 0 <= j < i ==> self.reads@[j] == Some(#[trigger] reads@[j]),
            decreases self.reads@.len() - i,
        {
            match self.reads[i] {
                Some(node) => {
                    reads.push(node);
                },
                None => {
                    return Err(BuildError::IncompleteFifo);
                },
            }
            i += 1;
        }
        proof {
            assert forall|j: int| 0 <= j < self.writes@.len() implies (
            #[trigger] self.writes@[j]) is Some by {
                assert(self.writes@[j] == Some(writes@[j]));
            }
            assert forall|j: int| 0 <= j < self.reads@.len() implies (
            #[trigger] self.reads@[j]) is Some by {
                assert(self.reads@[j] == Some(reads@[j]));
            }
        }
        Ok(FifoIoNodes { writes, reads })
    }
}

} // verus!
