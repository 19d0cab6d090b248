//! The incomplete-edge table and CSR assembly.
//!
//! During a build, every edge is created before both of its endpoints are
//! known. An incomplete edge lives in an arena under a stable key; operations
//! supply its source, reserve its destination slot in the CSR edge list, void
//! either endpoint, or join two incomplete edges into one. When both halves
//! are known the edge materializes into its reserved slot.

use vstd::prelude::*;

use crate::axi_interface::AxiInterface;
use crate::edge::{Edge, EdgeIndex};
use crate::fifo::Fifo;
use crate::graph::SimulationGraph;
use crate::node::{cycle_add, sat_add, NodeIndex, NodeWithDelay};
use crate::ClockCycle;

verus! {

pub type IncompleteEdgeKey = usize;

/// The kind of edge an incomplete edge will become.
#[derive(Clone, Copy, PartialEq, Eq, Structural, Debug)]
pub enum IncompleteEdgeType {
    ControlFlow,
    FifoRaw(Fifo),
    AxiRctl(AxiInterface),
    AxiRead(AxiInterface),
    AxiWriteResp(AxiInterface),
}

/// Which halves of an incomplete edge are known.
///
/// A voided half is `Known(None)`: the edge will never materialize, but its
/// bookkeeping still resolves. A redirected half is supplied through the
/// partner edge it was joined with.
#[derive(Clone, Copy, PartialEq, Eq, Structural, Debug)]
pub enum IncompleteEdgeEndpoints {
    EndpointsUnknown,
    SourceKnown(Option<NodeIndex>),
    SourceRedirected(IncompleteEdgeKey),
    DestinationKnown(Option<EdgeIndex>),
    DestinationRedirected(IncompleteEdgeKey),
}

#[derive(Clone, Copy, PartialEq, Eq, Structural, Debug)]
pub struct IncompleteEdge {
    pub edge_type: IncompleteEdgeType,
    pub delay: ClockCycle,
    pub endpoints: IncompleteEdgeEndpoints,
}

/// An edge of the given kind from node `source` after `delay` cycles.
pub open spec fn materialized_edge(
    edge_type: IncompleteEdgeType,
    delay: ClockCycle,
    source: NodeIndex,
) -> Edge {
    let u = NodeWithDelay { node: source, delay };
    match edge_type {
        IncompleteEdgeType::ControlFlow => Edge::ControlFlow(u),
        IncompleteEdgeType::FifoRaw(fifo) => Edge::FifoRaw { u, fifo },
        IncompleteEdgeType::AxiRctl(interface) => Edge::AxiRctl { u, interface },
        IncompleteEdgeType::AxiRead(interface) => Edge::AxiRead { u, interface },
        IncompleteEdgeType::AxiWriteResp(interface) => Edge::AxiWriteResp { u, interface },
    }
}

/// Number of active entries among the first `i` of the arena.
pub open spec fn active_upto(s: Seq<Option<IncompleteEdge>>, i: int) -> int
    decreases i,
{
    if i <= 0 {
        0
    } else {
        active_upto(s, i - 1) + if s[i - 1] is Some {
            1int
        } else {
            0int
        }
    }
}

/// Number of materialized entries among the first `k` CSR slots.
pub open spec fn some_before(s: Seq<Option<Edge>>, k: int) -> int
    decreases k,
{
    if k <= 0 {
        0
    } else {
        some_before(s, k - 1) + if s[k - 1] is Some {
            1int
        } else {
            0int
        }
    }
}

/// The materialized edges of the CSR scratch list, voided slots removed.
pub open spec fn compact_edges(s: Seq<Option<Edge>>) -> Seq<Edge>
    decreases s.len(),
{
    if s.len() == 0 {
        Seq::empty()
    } else {
        compact_edges(s.drop_last()) + if s.last() is Some {
            seq![s.last()->0]
        } else {
            Seq::empty()
        }
    }
}

/// Builds the CSR graph: nodes, materialized and reserved edge slots, and
/// the arena of incomplete edges.
pub struct EdgeBuilder {
    pub node_offsets: Vec<usize>,
    pub edges: Vec<Option<Edge>>,
    pub incomplete_edges: Vec<Option<IncompleteEdge>>,
    pub incomplete_count: usize,
}

impl EdgeBuilder {
    pub open spec fn node_count(self) -> int {
        self.node_offsets@.len() as int
    }

    /// Whether `key` names a live incomplete edge.
    pub open spec fn active(self, key: int) -> bool {
        0 <= key < self.incomplete_edges@.len() && self.incomplete_edges@[key] is Some
    }

    /// The live incomplete edge under `key`.
    pub open spec fn at(self, key: int) -> IncompleteEdge {
        self.incomplete_edges@[key]->0
    }

    /// The builder's mathematical state.
    pub open spec fn st(self) -> EbState {
        EbState {
            node_offsets: self.node_offsets@,
            edges: self.edges@,
            incomplete: self.incomplete_edges@,
            count: self.incomplete_count as int,
        }
    }

    /// Structural soundness of the builder.
    pub open spec fn wf(self) -> bool {
        &&& forall|i: int, j: int|
            0 <= i <= j < self.node_offsets@.len() ==> #[trigger] self.node_offsets@[i]
                <= #[trigger] self.node_offsets@[j]
        &&& forall|i: int|
            0 <= i < self.node_offsets@.len() ==> #[trigger] self.node_offsets@[i]
                <= self.edges@.len()
        &&& forall|i: int|
            0 <= i < self.edges@.len() ==> ((#[trigger] self.edges@[i]) matches Some(e)
                ==> e.in_bounds(self.node_count()))
        &&& forall|k: int| self.active(k) ==> #[trigger] self.entry_ok(k)
        &&& forall|k1: int, k2: int|
            #![trigger self.dest_slot(k1), self.dest_slot(k2)]
            self.active(k1) && self.active(k2) && k1 != k2 && self.dest_slot(k1) is Some
                && self.dest_slot(k2) is Some ==> self.dest_slot(k1) != self.dest_slot(k2)
        &&& self.incomplete_count == active_upto(
            self.incomplete_edges@,
            self.incomplete_edges@.len() as int,
        )
    }

    /// The reserved CSR slot of an incomplete edge, if any.
    pub open spec fn dest_slot(self, k: int) -> Option<int> {
        if self.active(k) {
            match self.at(k).endpoints {
                IncompleteEdgeEndpoints::DestinationKnown(dst) => match dst {
                    Some(i) => Some(i as int),
                    None => None,
                },
                _ => None,
            }
        } else {
            None
        }
    }

    /// Per-entry soundness: known halves are in range, reserved slots are
    /// still empty, and redirected halves pair up.
    pub open spec fn entry_ok(self, k: int) -> bool {
        match self.at(k).endpoints {
            IncompleteEdgeEndpoints::EndpointsUnknown => true,
            IncompleteEdgeEndpoints::SourceKnown(src) => match src {
                Some(n) => n < self.node_count(),
                None => true,
            },
            IncompleteEdgeEndpoints::DestinationKnown(dst) => match dst {
                Some(i) => i < self.edges@.len() && self.edges@[i as int] is None,
                None => true,
            },
            IncompleteEdgeEndpoints::SourceRedirected(k2) => {
                &&& self.active(k2 as int)
                &&& k2 != k
                &&& self.at(k2 as int).endpoints is DestinationRedirected
                &&& redirect_target(self.at(k2 as int).endpoints) == Some(k)
                &&& self.at(k2 as int).edge_type == self.at(k).edge_type
            },
            IncompleteEdgeEndpoints::DestinationRedirected(k2) => {
                &&& self.active(k2 as int)
                &&& k2 != k
                &&& self.at(k2 as int).endpoints is SourceRedirected
                &&& redirect_target(self.at(k2 as int).endpoints) == Some(k)
                &&& self.at(k2 as int).edge_type == self.at(k).edge_type
            },
        }
    }

    pub fn new() -> (r: EdgeBuilder)
        ensures
            r.wf(),
            r.node_offsets@.len() == 0,
            r.edges@.len() == 0,
            r.incomplete_edges@.len() == 0,
            r.incomplete_count == 0,
    {
        EdgeBuilder {
            node_offsets: Vec::new(),
            edges: Vec::new(),
            incomplete_edges: Vec::new(),
            incomplete_count: 0,
        }
    }

    /// Opens a new node: its in-edge slice starts at the current end of the
    /// edge list.
    pub fn insert_node(&mut self) -> (r: NodeIndex)
        requires
            old(self).wf(),
            old(self).node_offsets@.len() < u32::MAX,
        ensures
            final(self).wf(),
            r == old(self).node_offsets@.len(),
            final(self).node_offsets@ == old(self).node_offsets@.push(
                old(self).edges@.len() as usize,
            ),
            final(self).edges@ == old(self).edges@,
            final(self).incomplete_edges@ == old(self).incomplete_edges@,
            final(self).incomplete_count == old(self).incomplete_count,
    {
        let node_index = self.node_offsets.len() as u32;
        let e = self.edges.len();
        self.node_offsets.push(e);
        proof {
            assert forall|i: int, j: int|
                0 <= i <= j < self.node_offsets@.len() implies #[trigger] self.node_offsets@[i]
                <= #[trigger] self.node_offsets@[j] by {
                if j == self.node_offsets@.len() - 1 && i < j {
                    assert(old(self).node_offsets@[i] <= old(self).edges@.len());
                }
            }
            assert forall|k: int| self.active(k) implies #[trigger] self.entry_ok(k) by {
                assert(old(self).entry_ok(k));
            }
            assert forall|k1: int, k2: int|
                #![trigger self.dest_slot(k1), self.dest_slot(k2)]
                self.active(k1) && self.active(k2) && k1 != k2 && self.dest_slot(k1) is Some
                    && self.dest_slot(k2) is Some implies self.dest_slot(k1) != self.dest_slot(
                k2,
            ) by {
                assert(self.dest_slot(k1) == old(self).dest_slot(k1));
                assert(self.dest_slot(k2) == old(self).dest_slot(k2));
            }
        }
        node_index
    }

    /// Creates a fresh incomplete edge of the given kind.
    pub fn insert_edge(&mut self, edge_type: IncompleteEdgeType) -> (r: IncompleteEdgeKey)
        requires
            old(self).wf(),
            old(self).incomplete_edges@.len() < usize::MAX,
        ensures
            final(self).wf(),
            r == old(self).incomplete_edges@.len(),
            final(self).incomplete_edges@ == old(self).incomplete_edges@.push(
                Some(
                    IncompleteEdge {
                        edge_type,
                        delay: 0,
                        endpoints: IncompleteEdgeEndpoints::EndpointsUnknown,
                    },
                ),
            ),
            final(self).node_offsets@ == old(self).node_offsets@,
            final(self).edges@ == old(self).edges@,
            final(self).incomplete_count == old(self).incomplete_count + 1,
    {
        let key = self.incomplete_edges.len();
        proof {
            lemma_active_upto_le(
                old(self).incomplete_edges@,
                old(self).incomplete_edges@.len() as int,
            );
        }
        self.incomplete_edges.push(
            Some(
                IncompleteEdge {
                    edge_type,
                    delay: 0,
                    endpoints: IncompleteEdgeEndpoints::EndpointsUnknown,
                },
            ),
        );
        self.incomplete_count = self.incomplete_count + 1;
        proof {
            lemma_active_upto_push(
                old(self).incomplete_edges@,
                Some(
                    IncompleteEdge {
                        edge_type,
                        delay: 0,
                        endpoints: IncompleteEdgeEndpoints::EndpointsUnknown,
                    },
                ),
            );
            assert forall|k: int| self.active(k) implies #[trigger] self.entry_ok(k) by {
                if k < old(self).incomplete_edges@.len() {
                    assert(old(self).entry_ok(k));
                    assert(self.at(k) == old(self).at(k));
                }
            }
            assert forall|k1: int, k2: int|
                #![trigger self.dest_slot(k1), self.dest_slot(k2)]
                self.active(k1) && self.active(k2) && k1 != k2 && self.dest_slot(k1) is Some
                    && self.dest_slot(k2) is Some implies self.dest_slot(k1) != self.dest_slot(
                k2,
            ) by {
                assert(self.dest_slot(k1) == old(self).dest_slot(k1));
                assert(self.dest_slot(k2) == old(self).dest_slot(k2));
            }
        }
        key
    }

    /// Appends a fully known edge directly to the CSR scratch list.
    pub fn push_edge(&mut self, edge: Edge)
        requires
            old(self).wf(),
            edge.in_bounds(old(self).node_count()),
        ensures
            final(self).wf(),
            final(self).edges@ == old(self).edges@.push(Some(edge)),
            final(self).node_offsets@ == old(self).node_offsets@,
            final(self).incomplete_edges@ == old(self).incomplete_edges@,
            final(self).incomplete_count == old(self).incomplete_count,
    {
        self.edges.push(Some(edge));
        proof {
            assert forall|k: int| self.active(k) implies #[trigger] self.entry_ok(k) by {
                assert(old(self).entry_ok(k));
            }
            assert forall|k1: int, k2: int|
                #![trigger self.dest_slot(k1), self.dest_slot(k2)]
                self.active(k1) && self.active(k2) && k1 != k2 && self.dest_slot(k1) is Some
                    && self.dest_slot(k2) is Some implies self.dest_slot(k1) != self.dest_slot(
                k2,
            ) by {
                assert(self.dest_slot(k1) == old(self).dest_slot(k1));
                assert(self.dest_slot(k2) == old(self).dest_slot(k2));
            }
        }
    }

    /// Adds delay to a pending incomplete edge.
    pub fn add_delay(&mut self, key: IncompleteEdgeKey, delay: ClockCycle)
        requires
            old(self).wf(),
            old(self).active(key as int),
        ensures
            final(self).wf(),
            final(self).incomplete_edges@ == old(self).incomplete_edges@.update(
                key as int,
                Some(
                    IncompleteEdge {
                        delay: sat_add(old(self).at(key as int).delay, delay),
                        ..old(self).at(key as int)
                    },
                ),
            ),
            final(self).node_offsets@ == old(self).node_offsets@,
            final(self).edges@ == old(self).edges@,
            final(self).incomplete_count == old(self).incomplete_count,
    {
        let entry = self.incomplete_edges[key].unwrap();
        let updated = IncompleteEdge { delay: cycle_add(entry.delay, delay), ..entry };
        self.incomplete_edges.set(key, Some(updated));
        proof {
            lemma_active_upto_update(
                old(self).incomplete_edges@,
                key as int,
                Some(updated),
            );
            assert forall|k: int| self.active(k) implies #[trigger] self.entry_ok(k) by {
                assert(old(self).entry_ok(k));
                assert(old(self).entry_ok(key as int));
            }
            assert forall|k1: int, k2: int|
                #![trigger self.dest_slot(k1), self.dest_slot(k2)]
                self.active(k1) && self.active(k2) && k1 != k2 && self.dest_slot(k1) is Some
                    && self.dest_slot(k2) is Some implies self.dest_slot(k1) != self.dest_slot(
                k2,
            ) by {
                assert(self.dest_slot(k1) == old(self).dest_slot(k1));
                assert(self.dest_slot(k2) == old(self).dest_slot(k2));
            }
        }
    }
}

impl EdgeBuilder {
    /// Supplies the source of an incomplete edge: the edge materializes if
    /// its destination slot is known, forwards through a redirect if it was
    /// joined, and waits otherwise. A source may be supplied only once, and
    /// not to the receiving half of a join.
    pub fn update_source(&mut self, key: IncompleteEdgeKey, source: NodeWithDelay)
        requires
            old(self).wf(),
            old(self).active(key as int),
            !(old(self).at(key as int).endpoints is SourceKnown),
            !(old(self).at(key as int).endpoints is SourceRedirected),
            source.node < old(self).node_count(),
        ensures
            final(self).wf(),
            final(self).node_offsets@ == old(self).node_offsets@,
            final(self).incomplete_edges@.len() == old(self).incomplete_edges@.len(),
            final(self).edges@.len() == old(self).edges@.len(),
            update_source_transition(*old(self), *final(self), key, source),
    {
        let entry = self.incomplete_edges[key].unwrap();
        let total = NodeWithDelay { node: source.node, delay: cycle_add(entry.delay, source.delay) };
        match entry.endpoints {
            IncompleteEdgeEndpoints::EndpointsUnknown => {
                self.incomplete_edges.set(
                    key,
                    Some(
                        IncompleteEdge {
                            edge_type: entry.edge_type,
                            delay: total.delay,
                            endpoints: IncompleteEdgeEndpoints::SourceKnown(Some(source.node)),
                        },
                    ),
                );
                proof {
                    lemma_active_upto_update(
                        old(self).incomplete_edges@,
                        key as int,
                        self.incomplete_edges@[key as int],
                    );
                    self.lemma_untouched_ok(*old(self), key as int, key as int);
                }
            },
            IncompleteEdgeEndpoints::DestinationKnown(dst) => {
                proof {
                    lemma_active_upto_pos(
                        old(self).incomplete_edges@,
                        key as int,
                        old(self).incomplete_edges@.len() as int,
                    );
                }
                self.incomplete_edges.set(key, None);
                self.incomplete_count = self.incomplete_count - 1;
                if let Some(edge_index) = dst {
                    proof {
                        assert(old(self).entry_ok(key as int));
                        assert(old(self).dest_slot(key as int) == Some(edge_index as int));
                    }
                    let edge = into_edge(entry.edge_type, total.delay, source.node);
                    self.edges.set(edge_index, Some(edge));
                    proof {
                        assert(edge.in_bounds(self.node_count()));
                    }
                }
                proof {
                    lemma_active_upto_update(old(self).incomplete_edges@, key as int, None);
                    self.lemma_untouched_ok(*old(self), key as int, key as int);
                }
            },
            IncompleteEdgeEndpoints::DestinationRedirected(k2) => {
                proof {
                    assert(old(self).entry_ok(key as int));
                }
                proof {
                    lemma_active_upto_pos(
                        old(self).incomplete_edges@,
                        key as int,
                        old(self).incomplete_edges@.len() as int,
                    );
                }
                self.incomplete_edges.set(key, None);
                self.incomplete_count = self.incomplete_count - 1;
                let entry2 = self.incomplete_edges[k2].unwrap();
                self.incomplete_edges.set(
                    k2,
                    Some(
                        IncompleteEdge {
                            edge_type: entry2.edge_type,
                            delay: cycle_add(entry2.delay, total.delay),
                            endpoints: IncompleteEdgeEndpoints::SourceKnown(Some(source.node)),
                        },
                    ),
                );
                proof {
                    lemma_active_upto_update(old(self).incomplete_edges@, key as int, None);
                    lemma_active_upto_update(
                        old(self).incomplete_edges@.update(key as int, None),
                        k2 as int,
                        self.incomplete_edges@[k2 as int],
                    );
                    self.lemma_untouched_ok(*old(self), key as int, k2 as int);
                }
            },
            _ => {
                proof {
                    assert(false);
                }
            },
        }
    }

    /// Fixes the destination of an incomplete edge to the next CSR slot: the
    /// edge materializes there if its source is known, reserves the slot if
    /// not, skips entirely if its source was voided, and forwards through a
    /// redirect if it was joined. A destination may be fixed only once, and
    /// not on the giving half of a join.
    pub fn push_destination(&mut self, key: IncompleteEdgeKey)
        requires
            old(self).wf(),
            old(self).active(key as int),
            !(old(self).at(key as int).endpoints is DestinationKnown),
            !(old(self).at(key as int).endpoints is DestinationRedirected),
        ensures
            final(self).wf(),
            final(self).node_offsets@ == old(self).node_offsets@,
            final(self).incomplete_edges@.len() == old(self).incomplete_edges@.len(),
            push_destination_transition(*old(self), *final(self), key),
    {
        let entry = self.incomplete_edges[key].unwrap();
        match entry.endpoints {
            IncompleteEdgeEndpoints::EndpointsUnknown => {
                let slot = self.edges.len();
                self.incomplete_edges.set(
                    key,
                    Some(
                        IncompleteEdge {
                            edge_type: entry.edge_type,
                            delay: entry.delay,
                            endpoints: IncompleteEdgeEndpoints::DestinationKnown(Some(slot)),
                        },
                    ),
                );
                self.edges.push(None);
                proof {
                    lemma_active_upto_update(
                        old(self).incomplete_edges@,
                        key as int,
                        self.incomplete_edges@[key as int],
                    );
                    self.lemma_untouched_ok(*old(self), key as int, key as int);
                }
            },
            IncompleteEdgeEndpoints::SourceKnown(src) => {
                proof {
                    lemma_active_upto_pos(
                        old(self).incomplete_edges@,
                        key as int,
                        old(self).incomplete_edges@.len() as int,
                    );
                }
                self.incomplete_edges.set(key, None);
                self.incomplete_count = self.incomplete_count - 1;
                if let Some(n) = src {
                    proof {
                        assert(old(self).entry_ok(key as int));
                    }
                    let edge = into_edge(entry.edge_type, entry.delay, n);
                    self.edges.push(Some(edge));
                    proof {
                        assert(edge.in_bounds(self.node_count()));
                    }
                }
                proof {
                    lemma_active_upto_update(old(self).incomplete_edges@, key as int, None);
                    self.lemma_untouched_ok(*old(self), key as int, key as int);
                }
            },
            IncompleteEdgeEndpoints::SourceRedirected(k2) => {
                proof {
                    assert(old(self).entry_ok(key as int));
                }
                proof {
                    lemma_active_upto_pos(
                        old(self).incomplete_edges@,
                        key as int,
                        old(self).incomplete_edges@.len() as int,
                    );
                }
                self.incomplete_edges.set(key, None);
                self.incomplete_count = self.incomplete_count - 1;
                let entry2 = self.incomplete_edges[k2].unwrap();
                let slot = self.edges.len();
                self.incomplete_edges.set(
                    k2,
                    Some(
                        IncompleteEdge {
                            edge_type: entry2.edge_type,
                            delay: cycle_add(entry2.delay, entry.delay),
                            endpoints: IncompleteEdgeEndpoints::DestinationKnown(Some(slot)),
                        },
                    ),
                );
                self.edges.push(None);
                proof {
                    lemma_active_upto_update(old(self).incomplete_edges@, key as int, None);
                    lemma_active_upto_update(
                        old(self).incomplete_edges@.update(key as int, None),
                        k2 as int,
                        self.incomplete_edges@[k2 as int],
                    );
                    self.lemma_untouched_ok(*old(self), key as int, k2 as int);
                }
            },
            _ => {
                proof {
                    assert(false);
                }
            },
        }
    }

    /// Voids the source half: the edge will never impose a dependency, but
    /// any reserved destination slot keeps the CSR layout consistent.
    pub fn void_source(&mut self, key: IncompleteEdgeKey)
        requires
            old(self).wf(),
            old(self).active(key as int),
            !(old(self).at(key as int).endpoints is SourceKnown),
            !(old(self).at(key as int).endpoints is SourceRedirected),
        ensures
            final(self).wf(),
            final(self).node_offsets@ == old(self).node_offsets@,
            final(self).edges@ == old(self).edges@,
            final(self).incomplete_edges@.len() == old(self).incomplete_edges@.len(),
            void_source_transition(*old(self), *final(self), key),
    {
        let entry = self.incomplete_edges[key].unwrap();
        match entry.endpoints {
            IncompleteEdgeEndpoints::EndpointsUnknown => {
                self.incomplete_edges.set(
                    key,
                    Some(
                        IncompleteEdge {
                            edge_type: entry.edge_type,
                            delay: entry.delay,
                            endpoints: IncompleteEdgeEndpoints::SourceKnown(None),
                        },
                    ),
                );
                proof {
                    lemma_active_upto_update(
                        old(self).incomplete_edges@,
                        key as int,
                        self.incomplete_edges@[key as int],
                    );
                    self.lemma_untouched_ok(*old(self), key as int, key as int);
                }
            },
            IncompleteEdgeEndpoints::DestinationKnown(_) => {
                proof {
                    lemma_active_upto_pos(
                        old(self).incomplete_edges@,
                        key as int,
                        old(self).incomplete_edges@.len() as int,
                    );
                }
                self.incomplete_edges.set(key, None);
                self.incomplete_count = self.incomplete_count - 1;
                proof {
                    lemma_active_upto_update(old(self).incomplete_edges@, key as int, None);
                    self.lemma_untouched_ok(*old(self), key as int, key as int);
                }
            },
            IncompleteEdgeEndpoints::DestinationRedirected(k2) => {
                proof {
                    assert(old(self).entry_ok(key as int));
                }
                proof {
                    lemma_active_upto_pos(
                        old(self).incomplete_edges@,
                        key as int,
                        old(self).incomplete_edges@.len() as int,
                    );
                }
                self.incomplete_edges.set(key, None);
                self.incomplete_count = self.incomplete_count - 1;
                let entry2 = self.incomplete_edges[k2].unwrap();
                self.incomplete_edges.set(
                    k2,
                    Some(
                        IncompleteEdge {
                            edge_type: entry2.edge_type,
                            delay: entry2.delay,
                            endpoints: IncompleteEdgeEndpoints::SourceKnown(None),
                        },
                    ),
                );
                proof {
                    lemma_active_upto_update(old(self).incomplete_edges@, key as int, None);
                    lemma_active_upto_update(
                        old(self).incomplete_edges@.update(key as int, None),
                        k2 as int,
                        self.incomplete_edges@[k2 as int],
                    );
                    self.lemma_untouched_ok(*old(self), key as int, k2 as int);
                }
            },
            _ => {
                proof {
                    assert(false);
                }
            },
        }
    }

    /// Voids the destination half: whatever source the edge acquires is
    /// discarded.
    pub fn void_destination(&mut self, key: IncompleteEdgeKey)
        requires
            old(self).wf(),
            old(self).active(key as int),
            !(old(self).at(key as int).endpoints is DestinationKnown),
            !(old(self).at(key as int).endpoints is DestinationRedirected),
        ensures
            final(self).wf(),
            final(self).node_offsets@ == old(self).node_offsets@,
            final(self).edges@ == old(self).edges@,
            final(self).incomplete_edges@.len() == old(self).incomplete_edges@.len(),
            void_destination_transition(*old(self), *final(self), key),
    {
        let entry = self.incomplete_edges[key].unwrap();
        match entry.endpoints {
            IncompleteEdgeEndpoints::EndpointsUnknown => {
                self.incomplete_edges.set(
                    key,
                    Some(
                        IncompleteEdge {
                            edge_type: entry.edge_type,
                            delay: entry.delay,
                            endpoints: IncompleteEdgeEndpoints::DestinationKnown(None),
                        },
                    ),
                );
                proof {
                    lemma_active_upto_update(
                        old(self).incomplete_edges@,
                        key as int,
                        self.incomplete_edges@[key as int],
                    );
                    self.lemma_untouched_ok(*old(self), key as int, key as int);
                }
            },
            IncompleteEdgeEndpoints::SourceKnown(_) => {
                proof {
                    lemma_active_upto_pos(
                        old(self).incomplete_edges@,
                        key as int,
                        old(self).incomplete_edges@.len() as int,
                    );
                }
                self.incomplete_edges.set(key, None);
                self.incomplete_count = self.incomplete_count - 1;
                proof {
                    lemma_active_upto_update(old(self).incomplete_edges@, key as int, None);
                    self.lemma_untouched_ok(*old(self), key as int, key as int);
                }
            },
            IncompleteEdgeEndpoints::SourceRedirected(k2) => {
                proof {
                    assert(old(self).entry_ok(key as int));
                }
                proof {
                    lemma_active_upto_pos(
                        old(self).incomplete_edges@,
                        key as int,
                        old(self).incomplete_edges@.len() as int,
                    );
                }
                self.incomplete_edges.set(key, None);
                self.incomplete_count = self.incomplete_count - 1;
                let entry2 = self.incomplete_edges[k2].unwrap();
                self.incomplete_edges.set(
                    k2,
                    Some(
                        IncompleteEdge {
                            edge_type: entry2.edge_type,
                            delay: entry2.delay,
                            endpoints: IncompleteEdgeEndpoints::DestinationKnown(None),
                        },
                    ),
                );
                proof {
                    lemma_active_upto_update(old(self).incomplete_edges@, key as int, None);
                    lemma_active_upto_update(
                        old(self).incomplete_edges@.update(key as int, None),
                        k2 as int,
                        self.incomplete_edges@[k2 as int],
                    );
                    self.lemma_untouched_ok(*old(self), key as int, k2 as int);
                }
            },
            _ => {
                proof {
                    assert(false);
                }
            },
        }
    }

    /// Untouched entries stay sound across an operation that only touches
    /// the entries `t1` and `t2`, keeps redirect pairs among the touched
    /// entries, and fills at most the touched entries' reserved slots.
    proof fn lemma_untouched_ok(&self, prev: EdgeBuilder, t1: int, t2: int)
        requires
            prev.wf(),
            self.node_offsets@.len() >= prev.node_offsets@.len(),
            self.incomplete_edges@.len() == prev.incomplete_edges@.len(),
            forall|k: int|
                0 <= k < prev.incomplete_edges@.len() && k != t1 && k != t2
                    ==> #[trigger] self.incomplete_edges@[k] == prev.incomplete_edges@[k],
            self.edges@.len() >= prev.edges@.len(),
            forall|i: int|
                0 <= i < prev.edges@.len() && (#[trigger] prev.edges@[i]) is None
                    && self.edges@[i] is Some ==> prev.dest_slot(t1) == Some(i)
                    || prev.dest_slot(t2) == Some(i),
            forall|k: int|
                (k == t1 || k == t2) && self.active(k) ==> #[trigger] self.entry_ok(k),
            forall|k: int|
                #![trigger prev.at(k)]
                (k == t1 || k == t2) && prev.active(k) ==> (redirect_target(
                    prev.at(k).endpoints,
                ) matches Some(p) ==> p == t1 || p == t2),
            forall|k: int|
                #![trigger self.dest_slot(k)]
                (k == t1 || k == t2) && self.active(k) && self.dest_slot(k) is Some ==> (
                self.dest_slot(k)->0 >= prev.edges@.len() || prev.dest_slot(t1) == self.dest_slot(
                    k,
                ) || prev.dest_slot(t2) == self.dest_slot(k)),
            !(t1 != t2 && self.active(t1) && self.active(t2) && self.dest_slot(t1) is Some
                && self.dest_slot(t2) is Some),
        ensures
            forall|k: int| self.active(k) ==> #[trigger] self.entry_ok(k),
            forall|k1: int, k2: int|
                #![trigger self.dest_slot(k1), self.dest_slot(k2)]
                self.active(k1) && self.active(k2) && k1 != k2 && self.dest_slot(k1) is Some
                    && self.dest_slot(k2) is Some ==> self.dest_slot(k1) != self.dest_slot(k2),
    {
        assert forall|k: int|
            self.active(k) && k != t1 && k != t2 implies !(redirect_target(self.at(k).endpoints)
            matches Some(p) && (p == t1 || p == t2)) by {
            assert(self.at(k) == prev.at(k));
            assert(prev.entry_ok(k));
            match redirect_target(self.at(k).endpoints) {
                Some(p) => {
                    if p == t1 || p == t2 {
                        assert(prev.active(p));
                        assert(redirect_target(prev.at(p).endpoints) == Some(k));
                    }
                },
                None => {},
            }
        }
        assert forall|k: int| self.active(k) implies #[trigger] self.entry_ok(k) by {
            if k != t1 && k != t2 {
                assert(self.at(k) == prev.at(k));
                assert(prev.entry_ok(k));
                match self.at(k).endpoints {
                    IncompleteEdgeEndpoints::DestinationKnown(dst) => {
                        match dst {
                            Some(i) => {
                                assert(prev.dest_slot(k) == Some(i as int));
                                if self.edges@[i as int] is Some {
                                    assert(prev.dest_slot(t1) == Some(i as int)
                                        || prev.dest_slot(t2) == Some(i as int));
                                }
                            },
                            None => {},
                        }
                    },
                    IncompleteEdgeEndpoints::SourceRedirected(k2) => {
                        assert(self.incomplete_edges@[k2 as int]
                            == prev.incomplete_edges@[k2 as int]);
                    },
                    IncompleteEdgeEndpoints::DestinationRedirected(k2) => {
                        assert(self.incomplete_edges@[k2 as int]
                            == prev.incomplete_edges@[k2 as int]);
                    },
                    _ => {},
                }
            }
        }
        assert forall|k1: int, k2: int|
            #![trigger self.dest_slot(k1), self.dest_slot(k2)]
            self.active(k1) && self.active(k2) && k1 != k2 && self.dest_slot(k1) is Some
                && self.dest_slot(k2) is Some implies self.dest_slot(k1) != self.dest_slot(
            k2,
        ) by {
            let u1 = k1 != t1 && k1 != t2;
            let u2 = k2 != t1 && k2 != t2;
            if u1 {
                assert(self.dest_slot(k1) == prev.dest_slot(k1));
            }
            if u2 {
                assert(self.dest_slot(k2) == prev.dest_slot(k2));
            }
            if u1 && u2 {
            } else if u1 && !u2 {
                assert(prev.entry_ok(k1));
                assert(prev.dest_slot(k1)->0 < prev.edges@.len());
                if self.dest_slot(k2)->0 < prev.edges@.len() {
                    assert(prev.dest_slot(t1) == self.dest_slot(k2) || prev.dest_slot(t2)
                        == self.dest_slot(k2));
                    assert(prev.dest_slot(k1) != prev.dest_slot(t1) || prev.dest_slot(t1)
                        is None);
                    assert(prev.dest_slot(k1) != prev.dest_slot(t2) || prev.dest_slot(t2)
                        is None);
                }
            } else if !u1 && u2 {
                assert(prev.entry_ok(k2));
                assert(prev.dest_slot(k2)->0 < prev.edges@.len());
                if self.dest_slot(k1)->0 < prev.edges@.len() {
                    assert(prev.dest_slot(t1) == self.dest_slot(k1) || prev.dest_slot(t2)
                        == self.dest_slot(k1));
                    assert(prev.dest_slot(k2) != prev.dest_slot(t1) || prev.dest_slot(t1)
                        is None);
                    assert(prev.dest_slot(k2) != prev.dest_slot(t2) || prev.dest_slot(t2)
                        is None);
                }
            } else {
                assert((k1 == t1 && k2 == t2) || (k1 == t2 && k2 == t1));
            }
        }
    }
}

impl EdgeBuilder {
    /// Merges two incomplete edges of the same kind into one dependency:
    /// `source_edge` contributes the source half, `destination_edge` the
    /// destination half, and their delays add. When neither half is known
    /// yet, the two enter a redirect pair and resolve through each other.
    pub fn join(&mut self, source_edge: IncompleteEdgeKey, destination_edge: IncompleteEdgeKey)
        requires
            old(self).wf(),
            old(self).active(source_edge as int),
            old(self).active(destination_edge as int),
            source_edge != destination_edge,
            old(self).at(source_edge as int).edge_type == old(self).at(
                destination_edge as int,
            ).edge_type,
            old(self).at(source_edge as int).endpoints is EndpointsUnknown || old(self).at(
                source_edge as int,
            ).endpoints is SourceKnown,
            old(self).at(destination_edge as int).endpoints is EndpointsUnknown || old(self).at(
                destination_edge as int,
            ).endpoints is DestinationKnown,
        ensures
            final(self).wf(),
            final(self).node_offsets@ == old(self).node_offsets@,
            final(self).incomplete_edges@.len() == old(self).incomplete_edges@.len(),
            final(self).edges@.len() == old(self).edges@.len(),
            join_transition(*old(self), *final(self), source_edge, destination_edge),
    {
        let s_entry = self.incomplete_edges[source_edge].unwrap();
        let d_entry = self.incomplete_edges[destination_edge].unwrap();
        match (s_entry.endpoints, d_entry.endpoints) {
            (
                IncompleteEdgeEndpoints::EndpointsUnknown,
                IncompleteEdgeEndpoints::EndpointsUnknown,
            ) => {
                self.incomplete_edges.set(
                    source_edge,
                    Some(
                        IncompleteEdge {
                            edge_type: s_entry.edge_type,
                            delay: s_entry.delay,
                            endpoints: IncompleteEdgeEndpoints::DestinationRedirected(
                                destination_edge,
                            ),
                        },
                    ),
                );
                self.incomplete_edges.set(
                    destination_edge,
                    Some(
                        IncompleteEdge {
                            edge_type: d_entry.edge_type,
                            delay: d_entry.delay,
                            endpoints: IncompleteEdgeEndpoints::SourceRedirected(source_edge),
                        },
                    ),
                );
                proof {
                    lemma_active_upto_same_activity(
                        self.incomplete_edges@,
                        old(self).incomplete_edges@,
                        old(self).incomplete_edges@.len() as int,
                    );
                    self.lemma_untouched_ok(
                        *old(self),
                        source_edge as int,
                        destination_edge as int,
                    );
                }
            },
            (IncompleteEdgeEndpoints::SourceKnown(src), IncompleteEdgeEndpoints::EndpointsUnknown) => {
                proof {
                    lemma_active_upto_pos(
                        old(self).incomplete_edges@,
                        source_edge as int,
                        old(self).incomplete_edges@.len() as int,
                    );
                    assert(old(self).entry_ok(source_edge as int));
                }
                self.incomplete_edges.set(
                    destination_edge,
                    Some(
                        IncompleteEdge {
                            edge_type: d_entry.edge_type,
                            delay: cycle_add(d_entry.delay, s_entry.delay),
                            endpoints: IncompleteEdgeEndpoints::SourceKnown(src),
                        },
                    ),
                );
                self.incomplete_edges.set(source_edge, None);
                self.incomplete_count = self.incomplete_count - 1;
                proof {
                    lemma_active_upto_update(
                        old(self).incomplete_edges@,
                        destination_edge as int,
                        self.incomplete_edges@[destination_edge as int],
                    );
                    lemma_active_upto_update(
                        old(self).incomplete_edges@.update(
                            destination_edge as int,
                            self.incomplete_edges@[destination_edge as int],
                        ),
                        source_edge as int,
                        None,
                    );
                    self.lemma_untouched_ok(
                        *old(self),
                        source_edge as int,
                        destination_edge as int,
                    );
                }
            },
            (
                IncompleteEdgeEndpoints::EndpointsUnknown,
                IncompleteEdgeEndpoints::DestinationKnown(dst),
            ) => {
                proof {
                    lemma_active_upto_pos(
                        old(self).incomplete_edges@,
                        destination_edge as int,
                        old(self).incomplete_edges@.len() as int,
                    );
                    assert(old(self).entry_ok(destination_edge as int));
                }
                self.incomplete_edges.set(
                    source_edge,
                    Some(
                        IncompleteEdge {
                            edge_type: s_entry.edge_type,
                            delay: cycle_add(s_entry.delay, d_entry.delay),
                            endpoints: IncompleteEdgeEndpoints::DestinationKnown(dst),
                        },
                    ),
                );
                self.incomplete_edges.set(destination_edge, None);
                self.incomplete_count = self.incomplete_count - 1;
                proof {
                    lemma_active_upto_update(
                        old(self).incomplete_edges@,
                        source_edge as int,
                        self.incomplete_edges@[source_edge as int],
                    );
                    lemma_active_upto_update(
                        old(self).incomplete_edges@.update(
                            source_edge as int,
                            self.incomplete_edges@[source_edge as int],
                        ),
                        destination_edge as int,
                        None,
                    );
                    assert(old(self).dest_slot(destination_edge as int) == match dst {
                        Some(i) => Some(i as int),
                        None => None,
                    });
                    self.lemma_untouched_ok(
                        *old(self),
                        source_edge as int,
                        destination_edge as int,
                    );
                }
            },
            (
                IncompleteEdgeEndpoints::SourceKnown(src),
                IncompleteEdgeEndpoints::DestinationKnown(dst),
            ) => {
                proof {
                    lemma_active_upto_pos2(
                        old(self).incomplete_edges@,
                        source_edge as int,
                        destination_edge as int,
                        old(self).incomplete_edges@.len() as int,
                    );
                    assert(old(self).entry_ok(source_edge as int));
                    assert(old(self).entry_ok(destination_edge as int));
                }
                self.incomplete_edges.set(source_edge, None);
                self.incomplete_edges.set(destination_edge, None);
                self.incomplete_count = self.incomplete_count - 2;
                if let (Some(n), Some(edge_index)) = (src, dst) {
                    proof {
                        assert(old(self).dest_slot(destination_edge as int) == Some(
                            edge_index as int,
                        ));
                    }
                    let edge = into_edge(
                        d_entry.edge_type,
                        cycle_add(d_entry.delay, s_entry.delay),
                        n,
                    );
                    self.edges.set(edge_index, Some(edge));
                    proof {
                        assert(edge.in_bounds(self.node_count()));
                    }
                }
                proof {
                    lemma_active_upto_update(old(self).incomplete_edges@, source_edge as int, None);
                    lemma_active_upto_update(
                        old(self).incomplete_edges@.update(source_edge as int, None),
                        destination_edge as int,
                        None,
                    );
                    self.lemma_untouched_ok(
                        *old(self),
                        source_edge as int,
                        destination_edge as int,
                    );
                }
            },
            _ => {
                proof {
                    assert(false);
                }
            },
        }
    }
}


/// The state transition of [`EdgeBuilder::update_source`] on a live edge.
pub open spec fn update_source_transition(
    pre: EdgeBuilder,
    post: EdgeBuilder,
    key: IncompleteEdgeKey,
    source: NodeWithDelay,
) -> bool {
    &&& post.node_offsets@ == pre.node_offsets@
    &&& post.incomplete_edges@.len() == pre.incomplete_edges@.len()
    &&& post.edges@.len() == pre.edges@.len()
    &&& match pre.at(key as int).endpoints {
                IncompleteEdgeEndpoints::EndpointsUnknown => {
                    &&& post.incomplete_edges@ == pre.incomplete_edges@.update(
                        key as int,
                        Some(
                            IncompleteEdge {
                                edge_type: pre.at(key as int).edge_type,
                                delay: sat_add(pre.at(key as int).delay, source.delay),
                                endpoints: IncompleteEdgeEndpoints::SourceKnown(Some(source.node)),
                            },
                        ),
                    )
                    &&& post.edges@ == pre.edges@
                    &&& post.incomplete_count == pre.incomplete_count
                },
                IncompleteEdgeEndpoints::DestinationKnown(dst) => {
                    &&& post.incomplete_edges@ == pre.incomplete_edges@.update(
                        key as int,
                        None,
                    )
                    &&& post.incomplete_count == pre.incomplete_count - 1
                    &&& post.edges@ == match dst {
                        Some(i) => pre.edges@.update(
                            i as int,
                            Some(
                                materialized_edge(
                                    pre.at(key as int).edge_type,
                                    sat_add(pre.at(key as int).delay, source.delay),
                                    source.node,
                                ),
                            ),
                        ),
                        None => pre.edges@,
                    }
                },
                IncompleteEdgeEndpoints::DestinationRedirected(k2) => {
                    &&& post.incomplete_edges@ == pre.incomplete_edges@.update(
                        key as int,
                        None,
                    ).update(
                        k2 as int,
                        Some(
                            IncompleteEdge {
                                edge_type: pre.at(k2 as int).edge_type,
                                delay: sat_add(
                                    pre.at(k2 as int).delay,
                                    sat_add(pre.at(key as int).delay, source.delay),
                                ),
                                endpoints: IncompleteEdgeEndpoints::SourceKnown(Some(source.node)),
                            },
                        ),
                    )
                    &&& post.edges@ == pre.edges@
                    &&& post.incomplete_count == pre.incomplete_count - 1
                },
                _ => false,
            }
}

/// The state transition of [`EdgeBuilder::push_destination`] on a live edge.
pub open spec fn push_destination_transition(
    pre: EdgeBuilder,
    post: EdgeBuilder,
    key: IncompleteEdgeKey,
) -> bool {
    &&& post.node_offsets@ == pre.node_offsets@
    &&& post.incomplete_edges@.len() == pre.incomplete_edges@.len()
    &&& match pre.at(key as int).endpoints {
                IncompleteEdgeEndpoints::EndpointsUnknown => {
                    &&& post.incomplete_edges@ == pre.incomplete_edges@.update(
                        key as int,
                        Some(
                            IncompleteEdge {
                                edge_type: pre.at(key as int).edge_type,
                                delay: pre.at(key as int).delay,
                                endpoints: IncompleteEdgeEndpoints::DestinationKnown(
                                    Some(pre.edges@.len() as usize),
                                ),
                            },
                        ),
                    )
                    &&& post.edges@ == pre.edges@.push(None)
                    &&& post.incomplete_count == pre.incomplete_count
                },
                IncompleteEdgeEndpoints::SourceKnown(src) => {
                    &&& post.incomplete_edges@ == pre.incomplete_edges@.update(
                        key as int,
                        None,
                    )
                    &&& post.incomplete_count == pre.incomplete_count - 1
                    &&& post.edges@ == match src {
                        Some(n) => pre.edges@.push(
                            Some(
                                materialized_edge(
                                    pre.at(key as int).edge_type,
                                    pre.at(key as int).delay,
                                    n,
                                ),
                            ),
                        ),
                        None => pre.edges@,
                    }
                },
                IncompleteEdgeEndpoints::SourceRedirected(k2) => {
                    &&& post.incomplete_edges@ == pre.incomplete_edges@.update(
                        key as int,
                        None,
                    ).update(
                        k2 as int,
                        Some(
                            IncompleteEdge {
                                edge_type: pre.at(k2 as int).edge_type,
                                delay: sat_add(
                                    pre.at(k2 as int).delay,
                                    pre.at(key as int).delay,
                                ),
                                endpoints: IncompleteEdgeEndpoints::DestinationKnown(
                                    Some(pre.edges@.len() as usize),
                                ),
                            },
                        ),
                    )
                    &&& post.edges@ == pre.edges@.push(None)
                    &&& post.incomplete_count == pre.incomplete_count - 1
                },
                _ => false,
            }
}

/// The state transition of [`EdgeBuilder::void_source`] on a live edge.
pub open spec fn void_source_transition(
    pre: EdgeBuilder,
    post: EdgeBuilder,
    key: IncompleteEdgeKey,
) -> bool {
    &&& post.node_offsets@ == pre.node_offsets@
    &&& post.edges@ == pre.edges@
    &&& post.incomplete_edges@.len() == pre.incomplete_edges@.len()
    &&& match pre.at(key as int).endpoints {
                IncompleteEdgeEndpoints::EndpointsUnknown => {
                    &&& post.incomplete_edges@ == pre.incomplete_edges@.update(
                        key as int,
                        Some(
                            IncompleteEdge {
                                edge_type: pre.at(key as int).edge_type,
                                delay: pre.at(key as int).delay,
                                endpoints: IncompleteEdgeEndpoints::SourceKnown(None),
                            },
                        ),
                    )
                    &&& post.incomplete_count == pre.incomplete_count
                },
                IncompleteEdgeEndpoints::DestinationKnown(dst) => {
                    &&& post.incomplete_edges@ == pre.incomplete_edges@.update(
                        key as int,
                        None,
                    )
                    &&& post.incomplete_count == pre.incomplete_count - 1
                },
                IncompleteEdgeEndpoints::DestinationRedirected(k2) => {
                    &&& post.incomplete_edges@ == pre.incomplete_edges@.update(
                        key as int,
                        None,
                    ).update(
                        k2 as int,
                        Some(
                            IncompleteEdge {
                                edge_type: pre.at(k2 as int).edge_type,
                                delay: pre.at(k2 as int).delay,
                                endpoints: IncompleteEdgeEndpoints::SourceKnown(None),
                            },
                        ),
                    )
                    &&& post.incomplete_count == pre.incomplete_count - 1
                },
                _ => false,
            }
}

/// The state transition of [`EdgeBuilder::void_destination`] on a live edge.
pub open spec fn void_destination_transition(
    pre: EdgeBuilder,
    post: EdgeBuilder,
    key: IncompleteEdgeKey,
) -> bool {
    &&& post.node_offsets@ == pre.node_offsets@
    &&& post.edges@ == pre.edges@
    &&& post.incomplete_edges@.len() == pre.incomplete_edges@.len()
    &&& match pre.at(key as int).endpoints {
                IncompleteEdgeEndpoints::EndpointsUnknown => {
                    &&& post.incomplete_edges@ == pre.incomplete_edges@.update(
                        key as int,
                        Some(
                            IncompleteEdge {
                                edge_type: pre.at(key as int).edge_type,
                                delay: pre.at(key as int).delay,
                                endpoints: IncompleteEdgeEndpoints::DestinationKnown(None),
                            },
                        ),
                    )
                    &&& post.incomplete_count == pre.incomplete_count
                },
                IncompleteEdgeEndpoints::SourceKnown(src) => {
                    &&& post.incomplete_edges@ == pre.incomplete_edges@.update(
                        key as int,
                        None,
                    )
                    &&& post.incomplete_count == pre.incomplete_count - 1
                },
                IncompleteEdgeEndpoints::SourceRedirected(k2) => {
                    &&& post.incomplete_edges@ == pre.incomplete_edges@.update(
                        key as int,
                        None,
                    ).update(
                        k2 as int,
                        Some(
                            IncompleteEdge {
                                edge_type: pre.at(k2 as int).edge_type,
                                delay: pre.at(k2 as int).delay,
                                endpoints: IncompleteEdgeEndpoints::DestinationKnown(None),
                            },
                        ),
                    )
                    &&& post.incomplete_count == pre.incomplete_count - 1
                },
                _ => false,
            }
}

/// The state transition of [`EdgeBuilder::join`] on two joinable edges.
pub open spec fn join_transition(
    pre: EdgeBuilder,
    post: EdgeBuilder,
    source_edge: IncompleteEdgeKey,
    destination_edge: IncompleteEdgeKey,
) -> bool {
    &&& post.node_offsets@ == pre.node_offsets@
    &&& post.incomplete_edges@.len() == pre.incomplete_edges@.len()
    &&& post.edges@.len() == pre.edges@.len()
    &&& match (
                pre.at(source_edge as int).endpoints,
                pre.at(destination_edge as int).endpoints,
            ) {
                (
                    IncompleteEdgeEndpoints::EndpointsUnknown,
                    IncompleteEdgeEndpoints::EndpointsUnknown,
                ) => {
                    &&& post.incomplete_edges@ == pre.incomplete_edges@.update(
                        source_edge as int,
                        Some(
                            IncompleteEdge {
                                edge_type: pre.at(source_edge as int).edge_type,
                                delay: pre.at(source_edge as int).delay,
                                endpoints: IncompleteEdgeEndpoints::DestinationRedirected(
                                    destination_edge,
                                ),
                            },
                        ),
                    ).update(
                        destination_edge as int,
                        Some(
                            IncompleteEdge {
                                edge_type: pre.at(destination_edge as int).edge_type,
                                delay: pre.at(destination_edge as int).delay,
                                endpoints: IncompleteEdgeEndpoints::SourceRedirected(source_edge),
                            },
                        ),
                    )
                    &&& post.edges@ == pre.edges@
                    &&& post.incomplete_count == pre.incomplete_count
                },
                (
                    IncompleteEdgeEndpoints::SourceKnown(src),
                    IncompleteEdgeEndpoints::EndpointsUnknown,
                ) => {
                    &&& post.incomplete_edges@ == pre.incomplete_edges@.update(
                        destination_edge as int,
                        Some(
                            IncompleteEdge {
                                edge_type: pre.at(destination_edge as int).edge_type,
                                delay: sat_add(
                                    pre.at(destination_edge as int).delay,
                                    pre.at(source_edge as int).delay,
                                ),
                                endpoints: IncompleteEdgeEndpoints::SourceKnown(src),
                            },
                        ),
                    ).update(source_edge as int, None)
                    &&& post.edges@ == pre.edges@
                    &&& post.incomplete_count == pre.incomplete_count - 1
                },
                (
                    IncompleteEdgeEndpoints::EndpointsUnknown,
                    IncompleteEdgeEndpoints::DestinationKnown(dst),
                ) => {
                    &&& post.incomplete_edges@ == pre.incomplete_edges@.update(
                        source_edge as int,
                        Some(
                            IncompleteEdge {
                                edge_type: pre.at(source_edge as int).edge_type,
                                delay: sat_add(
                                    pre.at(source_edge as int).delay,
                                    pre.at(destination_edge as int).delay,
                                ),
                                endpoints: IncompleteEdgeEndpoints::DestinationKnown(dst),
                            },
                        ),
                    ).update(destination_edge as int, None)
                    &&& post.edges@ == pre.edges@
                    &&& post.incomplete_count == pre.incomplete_count - 1
                },
                (
                    IncompleteEdgeEndpoints::SourceKnown(src),
                    IncompleteEdgeEndpoints::DestinationKnown(dst),
                ) => {
                    &&& post.incomplete_edges@ == pre.incomplete_edges@.update(
                        source_edge as int,
                        None,
                    ).update(destination_edge as int, None)
                    &&& post.incomplete_count == pre.incomplete_count - 2
                    &&& post.edges@ == match (src, dst) {
                        (Some(n), Some(i)) => pre.edges@.update(
                            i as int,
                            Some(
                                materialized_edge(
                                    pre.at(destination_edge as int).edge_type,
                                    sat_add(
                                        pre.at(destination_edge as int).delay,
                                        pre.at(source_edge as int).delay,
                                    ),
                                    n,
                                ),
                            ),
                        ),
                        _ => pre.edges@,
                    }
                },
                _ => false,
            }
}

impl EdgeBuilder {
    /// Whether `key` names a live incomplete edge; exec counterpart of
    /// [`EdgeBuilder::active`].
    pub fn is_active(&self, key: IncompleteEdgeKey) -> (r: bool)
        ensures
            r == self.active(key as int),
    {
        key < self.incomplete_edges.len() && self.incomplete_edges[key].is_some()
    }

    /// [`EdgeBuilder::add_delay`], checked: leaves the builder unchanged and
    /// reports failure when `key` is not live.
    pub fn checked_add_delay(&mut self, key: IncompleteEdgeKey, delay: crate::ClockCycle) -> (ok:
        bool)
        requires
            old(self).wf(),
        ensures
            final(self).wf(),
            final(self).node_offsets@ == old(self).node_offsets@,
            final(self).edges@ == old(self).edges@,
            final(self).incomplete_count == old(self).incomplete_count,
            final(self).incomplete_edges@.len() == old(self).incomplete_edges@.len(),
            ok == old(self).active(key as int),
            ok ==> final(self).incomplete_edges@ == old(self).incomplete_edges@.update(
                key as int,
                Some(
                    IncompleteEdge {
                        delay: sat_add(old(self).at(key as int).delay, delay),
                        ..old(self).at(key as int)
                    },
                ),
            ),
            !ok ==> *final(self) == *old(self),
    {
        if self.is_active(key) {
            self.add_delay(key, delay);
            true
        } else {
            false
        }
    }

    /// [`EdgeBuilder::update_source`], checked: leaves the builder unchanged
    /// and reports failure when `key` is not live, already has a source, or
    /// the source node is out of range.
    pub fn checked_update_source(&mut self, key: IncompleteEdgeKey, source: NodeWithDelay) -> (ok:
        bool)
        requires
            old(self).wf(),
        ensures
            final(self).wf(),
            final(self).node_offsets@ == old(self).node_offsets@,
            final(self).edges@.len() == old(self).edges@.len(),
            final(self).incomplete_edges@.len() == old(self).incomplete_edges@.len(),
            final(self).incomplete_count <= old(self).incomplete_count,
            ok == (old(self).active(key as int) && !(old(self).at(key as int).endpoints
                is SourceKnown) && !(old(self).at(key as int).endpoints is SourceRedirected)
                && source.node < old(self).node_count()),
            ok ==> update_source_transition(*old(self), *final(self), key, source),
            final(self).st() == st_update_source(old(self).st(), key, source),
            !ok ==> *final(self) == *old(self),
    {
        proof {
            reveal(st_update_source);
        }
        if self.is_active(key) {
            let entry = self.incomplete_edges[key].unwrap();
            let state_ok = !matches!(entry.endpoints, IncompleteEdgeEndpoints::SourceKnown(_))
                && !matches!(entry.endpoints, IncompleteEdgeEndpoints::SourceRedirected(_));
            if state_ok && (source.node as usize) < self.node_offsets.len() {
                self.update_source(key, source);
                true
            } else {
                false
            }
        } else {
            false
        }
    }

    /// [`EdgeBuilder::push_destination`], checked.
    pub fn checked_push_destination(&mut self, key: IncompleteEdgeKey) -> (ok: bool)
        requires
            old(self).wf(),
        ensures
            final(self).wf(),
            final(self).node_offsets@ == old(self).node_offsets@,
            final(self).edges@.len() >= old(self).edges@.len(),
            final(self).incomplete_edges@.len() == old(self).incomplete_edges@.len(),
            final(self).incomplete_count <= old(self).incomplete_count,
            ok == (old(self).active(key as int) && !(old(self).at(key as int).endpoints
                is DestinationKnown) && !(old(self).at(key as int).endpoints
                is DestinationRedirected)),
            ok ==> push_destination_transition(*old(self), *final(self), key),
            final(self).st() == st_push_destination(old(self).st(), key),
            !ok ==> *final(self) == *old(self),
    {
        proof {
            reveal(st_push_destination);
        }
        if self.is_active(key) {
            let entry = self.incomplete_edges[key].unwrap();
            let state_ok = !matches!(entry.endpoints, IncompleteEdgeEndpoints::DestinationKnown(_))
                && !matches!(
                entry.endpoints,
                IncompleteEdgeEndpoints::DestinationRedirected(_),
            );
            if state_ok {
                self.push_destination(key);
                true
            } else {
                false
            }
        } else {
            false
        }
    }

    /// [`EdgeBuilder::void_source`], checked.
    pub fn checked_void_source(&mut self, key: IncompleteEdgeKey) -> (ok: bool)
        requires
            old(self).wf(),
        ensures
            final(self).wf(),
            final(self).node_offsets@ == old(self).node_offsets@,
            final(self).edges@ == old(self).edges@,
            final(self).incomplete_edges@.len() == old(self).incomplete_edges@.len(),
            final(self).incomplete_count <= old(self).incomplete_count,
            ok == (old(self).active(key as int) && !(old(self).at(key as int).endpoints
                is SourceKnown) && !(old(self).at(key as int).endpoints is SourceRedirected)),
            ok ==> void_source_transition(*old(self), *final(self), key),
            final(self).st() == st_void_source(old(self).st(), key),
            !ok ==> *final(self) == *old(self),
    {
        proof {
            reveal(st_void_source);
        }
        if self.is_active(key) {
            let entry = self.incomplete_edges[key].unwrap();
            let state_ok = !matches!(entry.endpoints, IncompleteEdgeEndpoints::SourceKnown(_))
                && !matches!(entry.endpoints, IncompleteEdgeEndpoints::SourceRedirected(_));
            if state_ok {
                self.void_source(key);
                true
            } else {
                false
            }
        } else {
            false
        }
    }

    /// [`EdgeBuilder::void_destination`], checked.
    pub fn checked_void_destination(&mut self, key: IncompleteEdgeKey) -> (ok: bool)
        requires
            old(self).wf(),
        ensures
            final(self).wf(),
            final(self).node_offsets@ == old(self).node_offsets@,
            final(self).edges@ == old(self).edges@,
            final(self).incomplete_edges@.len() == old(self).incomplete_edges@.len(),
            final(self).incomplete_count <= old(self).incomplete_count,
            ok == (old(self).active(key as int) && !(old(self).at(key as int).endpoints
                is DestinationKnown) && !(old(self).at(key as int).endpoints
                is DestinationRedirected)),
            ok ==> void_destination_transition(*old(self), *final(self), key),
            final(self).st() == st_void_destination(old(self).st(), key),
            !ok ==> *final(self) == *old(self),
    {
        proof {
            reveal(st_void_destination);
        }
        if self.is_active(key) {
            let entry = self.incomplete_edges[key].unwrap();
            let state_ok = !matches!(entry.endpoints, IncompleteEdgeEndpoints::DestinationKnown(_))
                && !matches!(
                entry.endpoints,
                IncompleteEdgeEndpoints::DestinationRedirected(_),
            );
            if state_ok {
                self.void_destination(key);
                true
            } else {
                false
            }
        } else {
            false
        }
    }

    /// [`EdgeBuilder::join`], checked.
    pub fn checked_join(
        &mut self,
        source_edge: IncompleteEdgeKey,
        destination_edge: IncompleteEdgeKey,
    ) -> (ok: bool)
        requires
            old(self).wf(),
        ensures
            final(self).wf(),
            final(self).node_offsets@ == old(self).node_offsets@,
            final(self).edges@.len() == old(self).edges@.len(),
            final(self).incomplete_edges@.len() == old(self).incomplete_edges@.len(),
            final(self).incomplete_count <= old(self).incomplete_count,
            ok == (source_edge != destination_edge && old(self).active(source_edge as int)
                && old(self).active(destination_edge as int) && (old(self).at(
                source_edge as int,
            ).endpoints is EndpointsUnknown || old(self).at(source_edge as int).endpoints
                is SourceKnown) && (old(self).at(destination_edge as int).endpoints
                is EndpointsUnknown || old(self).at(destination_edge as int).endpoints
                is DestinationKnown) && old(self).at(source_edge as int).edge_type == old(self).at(
                destination_edge as int,
            ).edge_type),
            ok ==> join_transition(*old(self), *final(self), source_edge, destination_edge),
            final(self).st() == st_join(old(self).st(), source_edge, destination_edge),
            !ok ==> *final(self) == *old(self),
    {
        proof {
            reveal(st_join);
        }
        if source_edge != destination_edge && self.is_active(source_edge) && self.is_active(
            destination_edge,
        ) {
            let s_entry = self.incomplete_edges[source_edge].unwrap();
            let d_entry = self.incomplete_edges[destination_edge].unwrap();
            let s_ok = matches!(s_entry.endpoints, IncompleteEdgeEndpoints::EndpointsUnknown)
                || matches!(s_entry.endpoints, IncompleteEdgeEndpoints::SourceKnown(_));
            let d_ok = matches!(d_entry.endpoints, IncompleteEdgeEndpoints::EndpointsUnknown)
                || matches!(d_entry.endpoints, IncompleteEdgeEndpoints::DestinationKnown(_));
            if s_ok && d_ok && s_entry.edge_type == d_entry.edge_type {
                self.join(source_edge, destination_edge);
                true
            } else {
                false
            }
        } else {
            false
        }
    }
}


/// The edge builder's mathematical state: the views of its four fields.
pub ghost struct EbState {
    pub node_offsets: Seq<usize>,
    pub edges: Seq<Option<Edge>>,
    pub incomplete: Seq<Option<IncompleteEdge>>,
    pub count: int,
}

/// Whether `key` names a live incomplete edge of the state.
pub open spec fn st_active(m: EbState, key: int) -> bool {
    0 <= key < m.incomplete.len() && m.incomplete[key] is Some
}

/// The live incomplete edge of the state under `key`.
pub open spec fn st_at(m: EbState, key: int) -> IncompleteEdge {
    m.incomplete[key]->0
}

/// What one checked source supply does to the state: the transition of
/// [`EdgeBuilder::update_source`] when `key` names an edge whose source half
/// is still open and the node is in range, and nothing otherwise.
#[verifier::opaque]
pub open spec fn st_update_source(m: EbState, key: IncompleteEdgeKey, source: NodeWithDelay) -> EbState {
    let k = key as int;
    if st_active(m, k) && !(st_at(m, k).endpoints is SourceKnown) && !(st_at(m, k).endpoints
        is SourceRedirected) && source.node < m.node_offsets.len() {
        match st_at(m, k).endpoints {
            IncompleteEdgeEndpoints::EndpointsUnknown => EbState {
                incomplete: m.incomplete.update(
                    k,
                    Some(
                        IncompleteEdge {
                            edge_type: st_at(m, k).edge_type,
                            delay: sat_add(st_at(m, k).delay, source.delay),
                            endpoints: IncompleteEdgeEndpoints::SourceKnown(Some(source.node)),
                        },
                    ),
                ),
                ..m
            },
            IncompleteEdgeEndpoints::DestinationKnown(dst) => EbState {
                incomplete: m.incomplete.update(k, None),
                count: m.count - 1,
                edges: match dst {
                    Some(i) => m.edges.update(
                        i as int,
                        Some(
                            materialized_edge(
                                st_at(m, k).edge_type,
                                sat_add(st_at(m, k).delay, source.delay),
                                source.node,
                            ),
                        ),
                    ),
                    None => m.edges,
                },
                ..m
            },
            IncompleteEdgeEndpoints::DestinationRedirected(k2) => EbState {
                incomplete: m.incomplete.update(k, None).update(
                    k2 as int,
                    Some(
                        IncompleteEdge {
                            edge_type: st_at(m, k2 as int).edge_type,
                            delay: sat_add(
                                st_at(m, k2 as int).delay,
                                sat_add(st_at(m, k).delay, source.delay),
                            ),
                            endpoints: IncompleteEdgeEndpoints::SourceKnown(Some(source.node)),
                        },
                    ),
                ),
                count: m.count - 1,
                ..m
            },
            _ => m,
        }
    } else {
        m
    }
}

/// What one checked destination push does to the state: the transition of
/// [`EdgeBuilder::push_destination`] when `key` names an edge whose
/// destination half is still open, and nothing otherwise.
#[verifier::opaque]
pub open spec fn st_push_destination(m: EbState, key: IncompleteEdgeKey) -> EbState {
    let k = key as int;
    if st_active(m, k) && !(st_at(m, k).endpoints is DestinationKnown) && !(st_at(m, k).endpoints
        is DestinationRedirected) {
        match st_at(m, k).endpoints {
            IncompleteEdgeEndpoints::EndpointsUnknown => EbState {
                incomplete: m.incomplete.update(
                    k,
                    Some(
                        IncompleteEdge {
                            edge_type: st_at(m, k).edge_type,
                            delay: st_at(m, k).delay,
                            endpoints: IncompleteEdgeEndpoints::DestinationKnown(
                                Some(m.edges.len() as usize),
                            ),
                        },
                    ),
                ),
                edges: m.edges.push(None),
                ..m
            },
            IncompleteEdgeEndpoints::SourceKnown(src) => EbState {
                incomplete: m.incomplete.update(k, None),
                count: m.count - 1,
                edges: match src {
                    Some(n) => m.edges.push(
                        Some(materialized_edge(st_at(m, k).edge_type, st_at(m, k).delay, n)),
                    ),
                    None => m.edges,
                },
                ..m
            },
            IncompleteEdgeEndpoints::SourceRedirected(k2) => EbState {
                incomplete: m.incomplete.update(k, None).update(
                    k2 as int,
                    Some(
                        IncompleteEdge {
                            edge_type: st_at(m, k2 as int).edge_type,
                            delay: sat_add(st_at(m, k2 as int).delay, st_at(m, k).delay),
                            endpoints: IncompleteEdgeEndpoints::DestinationKnown(
                                Some(m.edges.len() as usize),
                            ),
                        },
                    ),
                ),
                edges: m.edges.push(None),
                count: m.count - 1,
                ..m
            },
            _ => m,
        }
    } else {
        m
    }
}

/// What one checked source-void does to the state: the transition of
/// [`EdgeBuilder::void_source`] when `key` names an edge whose source half is
/// still open, and nothing otherwise.
#[verifier::opaque]
pub open spec fn st_void_source(m: EbState, key: IncompleteEdgeKey) -> EbState {
    let k = key as int;
    if st_active(m, k) && !(st_at(m, k).endpoints is SourceKnown) && !(st_at(m, k).endpoints
        is SourceRedirected) {
        match st_at(m, k).endpoints {
            IncompleteEdgeEndpoints::EndpointsUnknown => EbState {
                incomplete: m.incomplete.update(
                    k,
                    Some(
                        IncompleteEdge {
                            edge_type: st_at(m, k).edge_type,
                            delay: st_at(m, k).delay,
                            endpoints: IncompleteEdgeEndpoints::SourceKnown(None),
                        },
                    ),
                ),
                ..m
            },
            IncompleteEdgeEndpoints::DestinationKnown(dst) => EbState {
                incomplete: m.incomplete.update(k, None),
                count: m.count - 1,
                ..m
            },
            IncompleteEdgeEndpoints::DestinationRedirected(k2) => EbState {
                incomplete: m.incomplete.update(k, None).update(
                    k2 as int,
                    Some(
                        IncompleteEdge {
                            edge_type: st_at(m, k2 as int).edge_type,
                            delay: st_at(m, k2 as int).delay,
                            endpoints: IncompleteEdgeEndpoints::SourceKnown(None),
                        },
                    ),
                ),
                count: m.count - 1,
                ..m
            },
            _ => m,
        }
    } else {
        m
    }
}

/// What one checked destination-void does to the state: the transition of
/// [`EdgeBuilder::void_destination`] when `key` names an edge whose
/// destination half is still open, and nothing otherwise.
#[verifier::opaque]
pub open spec fn st_void_destination(m: EbState, key: IncompleteEdgeKey) -> EbState {
    let k = key as int;
    if st_active(m, k) && !(st_at(m, k).endpoints is DestinationKnown) && !(st_at(m, k).endpoints
        is DestinationRedirected) {
        match st_at(m, k).endpoints {
            IncompleteEdgeEndpoints::EndpointsUnknown => EbState {
                incomplete: m.incomplete.update(
                    k,
                    Some(
                        IncompleteEdge {
                            edge_type: st_at(m, k).edge_type,
                            delay: st_at(m, k).delay,
                            endpoints: IncompleteEdgeEndpoints::DestinationKnown(None),
                        },
                    ),
                ),
                ..m
            },
            IncompleteEdgeEndpoints::SourceKnown(src) => EbState {
                incomplete: m.incomplete.update(k, None),
                count: m.count - 1,
                ..m
            },
            IncompleteEdgeEndpoints::SourceRedirected(k2) => EbState {
                incomplete: m.incomplete.update(k, None).update(
                    k2 as int,
                    Some(
                        IncompleteEdge {
                            edge_type: st_at(m, k2 as int).edge_type,
                            delay: st_at(m, k2 as int).delay,
                            endpoints: IncompleteEdgeEndpoints::DestinationKnown(None),
                        },
                    ),
                ),
                count: m.count - 1,
                ..m
            },
            _ => m,
        }
    } else {
        m
    }
}

/// A checked destination-void of an optional key; an absent key does nothing.
pub open spec fn st_void_destination_opt(m: EbState, key: Option<IncompleteEdgeKey>) -> EbState {
    match key {
        Some(k) => st_void_destination(m, k),
        None => m,
    }
}

/// Appending one completed edge to the state.
pub open spec fn st_push_complete_edge(m: EbState, e: Edge) -> EbState {
    EbState { edges: m.edges.push(Some(e)), ..m }
}

/// What one checked join does to the state: the transition of
/// [`EdgeBuilder::join`] when the two keys name joinable halves of the same
/// kind, and nothing otherwise.
#[verifier::opaque]
pub open spec fn st_join(
    m: EbState,
    source_edge: IncompleteEdgeKey,
    destination_edge: IncompleteEdgeKey,
) -> EbState {
    let sk = source_edge as int;
    let dk = destination_edge as int;
    if source_edge != destination_edge && st_active(m, sk) && st_active(m, dk) && (st_at(
        m,
        sk,
    ).endpoints is EndpointsUnknown || st_at(m, sk).endpoints is SourceKnown) && (st_at(
        m,
        dk,
    ).endpoints is EndpointsUnknown || st_at(m, dk).endpoints is DestinationKnown) && st_at(
        m,
        sk,
    ).edge_type == st_at(m, dk).edge_type {
        match (st_at(m, sk).endpoints, st_at(m, dk).endpoints) {
            (
                IncompleteEdgeEndpoints::EndpointsUnknown,
                IncompleteEdgeEndpoints::EndpointsUnknown,
            ) => EbState {
                incomplete: m.incomplete.update(
                    sk,
                    Some(
                        IncompleteEdge {
                            edge_type: st_at(m, sk).edge_type,
                            delay: st_at(m, sk).delay,
                            endpoints: IncompleteEdgeEndpoints::DestinationRedirected(
                                destination_edge,
                            ),
                        },
                    ),
                ).update(
                    dk,
                    Some(
                        IncompleteEdge {
                            edge_type: st_at(m, dk).edge_type,
                            delay: st_at(m, dk).delay,
                            endpoints: IncompleteEdgeEndpoints::SourceRedirected(source_edge),
                        },
                    ),
                ),
                ..m
            },
            (
                IncompleteEdgeEndpoints::SourceKnown(src),
                IncompleteEdgeEndpoints::EndpointsUnknown,
            ) => EbState {
                incomplete: m.incomplete.update(
                    dk,
                    Some(
                        IncompleteEdge {
                            edge_type: st_at(m, dk).edge_type,
                            delay: sat_add(st_at(m, dk).delay, st_at(m, sk).delay),
                            endpoints: IncompleteEdgeEndpoints::SourceKnown(src),
                        },
                    ),
                ).update(sk, None),
                count: m.count - 1,
                ..m
            },
            (
                IncompleteEdgeEndpoints::EndpointsUnknown,
                IncompleteEdgeEndpoints::DestinationKnown(dst),
            ) => EbState {
                incomplete: m.incomplete.update(
                    sk,
                    Some(
                        IncompleteEdge {
                            edge_type: st_at(m, sk).edge_type,
                            delay: sat_add(st_at(m, sk).delay, st_at(m, dk).delay),
                            endpoints: IncompleteEdgeEndpoints::DestinationKnown(dst),
                        },
                    ),
                ).update(dk, None),
                count: m.count - 1,
                ..m
            },
            (
                IncompleteEdgeEndpoints::SourceKnown(src),
                IncompleteEdgeEndpoints::DestinationKnown(dst),
            ) => EbState {
                incomplete: m.incomplete.update(sk, None).update(dk, None),
                count: m.count - 2,
                edges: match (src, dst) {
                    (Some(n), Some(i)) => m.edges.update(
                        i as int,
                        Some(
                            materialized_edge(
                                st_at(m, dk).edge_type,
                                sat_add(st_at(m, dk).delay, st_at(m, sk).delay),
                                n,
                            ),
                        ),
                    ),
                    _ => m.edges,
                },
                ..m
            },
            _ => m,
        }
    } else {
        m
    }
}

/// The partner an endpoint is redirected through, if any.
pub open spec fn redirect_target(e: IncompleteEdgeEndpoints) -> Option<int> {
    match e {
        IncompleteEdgeEndpoints::SourceRedirected(k2) => Some(k2 as int),
        IncompleteEdgeEndpoints::DestinationRedirected(k2) => Some(k2 as int),
        _ => None,
    }
}

/// Builds an edge from its parts.
fn into_edge(edge_type: IncompleteEdgeType, delay: ClockCycle, source: NodeIndex) -> (r: Edge)
    ensures
        r == materialized_edge(edge_type, delay, source),
{
    let u = NodeWithDelay { node: source, delay };
    match edge_type {
        IncompleteEdgeType::ControlFlow => Edge::ControlFlow(u),
        IncompleteEdgeType::FifoRaw(fifo) => Edge::FifoRaw { u, fifo },
        IncompleteEdgeType::AxiRctl(interface) => Edge::AxiRctl { u, interface },
        IncompleteEdgeType::AxiRead(interface) => Edge::AxiRead { u, interface },
        IncompleteEdgeType::AxiWriteResp(interface) => Edge::AxiWriteResp { u, interface },
    }
}

/// An active entry below `i` contributes to the count.
pub proof fn lemma_active_upto_pos(s: Seq<Option<IncompleteEdge>>, key: int, i: int)
    requires
        0 <= key < i,
        s[key] is Some,
    ensures
        active_upto(s, i) >= 1,
    decreases i,
{
    if key < i - 1 {
        lemma_active_upto_pos(s, key, i - 1);
    } else {
        lemma_active_upto_le(s, i - 1);
    }
}

/// Two distinct active entries below `i` contribute two to the count.
pub proof fn lemma_active_upto_pos2(s: Seq<Option<IncompleteEdge>>, k1: int, k2: int, i: int)
    requires
        0 <= k1 < i,
        0 <= k2 < i,
        k1 != k2,
        s[k1] is Some,
        s[k2] is Some,
    ensures
        active_upto(s, i) >= 2,
    decreases i,
{
    if k1 < i - 1 && k2 < i - 1 {
        lemma_active_upto_pos2(s, k1, k2, i - 1);
    } else if k1 == i - 1 {
        lemma_active_upto_pos(s, k2, i - 1);
    } else {
        lemma_active_upto_pos(s, k1, i - 1);
    }
}

/// The active count never exceeds the arena length.
pub proof fn lemma_active_upto_le(s: Seq<Option<IncompleteEdge>>, i: int)
    requires
        i >= 0,
    ensures
        active_upto(s, i) <= i,
        active_upto(s, i) >= 0,
    decreases i,
{
    if i > 0 {
        lemma_active_upto_le(s, i - 1);
    }
}

/// Counting depends only on which entries are active.
pub proof fn lemma_active_upto_same_activity(
    s1: Seq<Option<IncompleteEdge>>,
    s2: Seq<Option<IncompleteEdge>>,
    i: int,
)
    requires
        forall|j: int| 0 <= j < i ==> ((#[trigger] s1[j]) is Some <==> s2[j] is Some),
    ensures
        active_upto(s1, i) == active_upto(s2, i),
    decreases i,
{
    if i > 0 {
        lemma_active_upto_same_activity(s1, s2, i - 1);
    }
}

/// Appending an entry adds its activity to the count.
pub proof fn lemma_active_upto_push(s: Seq<Option<IncompleteEdge>>, e: Option<IncompleteEdge>)
    ensures
        active_upto(s.push(e), s.push(e).len() as int) == active_upto(s, s.len() as int) + if e
            is Some {
            1int
        } else {
            0int
        },
    decreases s.len(),
{
    lemma_active_upto_agrees(s.push(e), s, s.len() as int);
}

/// Counting is pointwise.
pub proof fn lemma_active_upto_agrees(
    s1: Seq<Option<IncompleteEdge>>,
    s2: Seq<Option<IncompleteEdge>>,
    i: int,
)
    requires
        forall|j: int| 0 <= j < i ==> s1[j] == s2[j],
    ensures
        active_upto(s1, i) == active_upto(s2, i),
    decreases i,
{
    if i > 0 {
        lemma_active_upto_agrees(s1, s2, i - 1);
    }
}

proof fn lemma_active_upto_update_i(
    s: Seq<Option<IncompleteEdge>>,
    key: int,
    e: Option<IncompleteEdge>,
    i: int,
)
    requires
        0 <= key < s.len(),
        i <= s.len(),
    ensures
        active_upto(s.update(key, e), i) == active_upto(s, i) + if key < i {
            (if e is Some {
                1int
            } else {
                0int
            }) - (if s[key] is Some {
                1int
            } else {
                0int
            })
        } else {
            0int
        },
    decreases i,
{
    if i > 0 {
        lemma_active_upto_update_i(s, key, e, i - 1);
    }
}

/// Updating one entry changes the count by its activity difference.
pub proof fn lemma_active_upto_update(
    s: Seq<Option<IncompleteEdge>>,
    key: int,
    e: Option<IncompleteEdge>,
)
    requires
        0 <= key < s.len(),
    ensures
        active_upto(s.update(key, e), s.len() as int) == active_upto(s, s.len() as int) + (if e
            is Some {
            1int
        } else {
            0int
        }) - (if s[key] is Some {
            1int
        } else {
            0int
        }),
{
    lemma_active_upto_update_i(s, key, e, s.len() as int);
}


/// Prefix counts are monotone.
proof fn lemma_some_before_monotone(s: Seq<Option<Edge>>, k1: int, k2: int)
    requires
        k1 <= k2,
    ensures
        some_before(s, k1) <= some_before(s, k2),
    decreases k2 - k1,
{
    if k1 < k2 {
        lemma_some_before_monotone(s, k1, k2 - 1);
    }
}

/// The compacted list has one entry per materialized slot.
proof fn lemma_compact_len(s: Seq<Option<Edge>>)
    ensures
        compact_edges(s).len() == some_before(s, s.len() as int),
    decreases s.len(),
{
    if s.len() > 0 {
        lemma_compact_len(s.drop_last());
        lemma_some_before_agrees(s, s.drop_last(), s.len() - 1);
    }
}

proof fn lemma_some_before_agrees(s1: Seq<Option<Edge>>, s2: Seq<Option<Edge>>, i: int)
    requires
        forall|j: int| 0 <= j < i ==> s1[j] == s2[j],
    ensures
        some_before(s1, i) == some_before(s2, i),
    decreases i,
{
    if i > 0 {
        lemma_some_before_agrees(s1, s2, i - 1);
    }
}

/// Compaction keeps every edge inside the node array.
proof fn lemma_compact_in_bounds(s: Seq<Option<Edge>>, node_count: int)
    requires
        forall|i: int|
            0 <= i < s.len() ==> ((#[trigger] s[i]) matches Some(e) ==> e.in_bounds(node_count)),
    ensures
        forall|j: int|
            0 <= j < compact_edges(s).len() ==> (#[trigger] compact_edges(s)[j]).in_bounds(
                node_count,
            ),
    decreases s.len(),
{
    if s.len() > 0 {
        lemma_compact_in_bounds(s.drop_last(), node_count);
        assert forall|j: int|
            0 <= j < compact_edges(s).len() implies (#[trigger] compact_edges(s)[j]).in_bounds(
            node_count,
        ) by {
            if j < compact_edges(s.drop_last()).len() {
                assert(compact_edges(s)[j] == compact_edges(s.drop_last())[j]);
            } else {
                assert(s.last() is Some);
                assert(compact_edges(s)[j] == s.last()->0);
                assert(s[s.len() - 1] is Some);
            }
        }
    }
}

impl EdgeBuilder {
    /// Assembles the final CSR graph.
    ///
    /// Succeeds exactly when no incomplete edge remains: every edge created
    /// during the build was completed, voided, or joined into a completed
    /// one. Voided slots are removed and the node offsets rebased by the
    /// number of voided slots before them, so the result is a well-formed
    /// CSR layout over the same nodes.
    pub fn finish_graph(self) -> (r: Result<SimulationGraph, crate::builder::BuildError>)
        requires
            self.wf(),
        ensures
            r is Ok <==> self.incomplete_count == 0,
            r is Err ==> r == Err::<SimulationGraph, crate::builder::BuildError>(
                crate::builder::BuildError::IncompleteEdges,
            ),
            r matches Ok(g) ==> {
                &&& g.wf()
                &&& g.node_offsets@.len() == self.node_offsets@.len()
                &&& g.edges@ == compact_edges(self.edges@)
                &&& forall|i: int|
                    0 <= i < g.node_offsets@.len() ==> #[trigger] g.node_offsets@[i] as int
                        == some_before(self.edges@, self.node_offsets@[i] as int)
                &&& forall|j: int|
                    0 <= j < g.edges@.len() ==> (#[trigger] g.edges@[j]).in_bounds(
                        g.node_offsets@.len() as int,
                    )
            },
    {
        if self.incomplete_count != 0 {
            return Err(crate::builder::BuildError::IncompleteEdges);
        }
        let edge_count = self.edges.len();
        let mut compacted: Vec<Edge> = Vec::new();
        let mut prefix: Vec<usize> = Vec::new();
        let mut i: usize = 0;
        prefix.push(0);
        while i < edge_count
            invariant
                edge_count == self.edges@.len(),
                self.wf(),
                i <= edge_count,
                compacted@ == compact_edges(self.edges@.take(i as int)),
                compacted@.len() == some_before(self.edges@, i as int),
                prefix@.len() == i + 1,
                forall|k: int|
                    0 <= k <= i ==> #[trigger] prefix@[k] as int == some_before(self.edges@, k),
            decreases edge_count - i,
        {
            proof {
                assert(self.edges@.take(i + 1).drop_last() =~= self.edges@.take(i as int));
                assert(self.edges@.take(i + 1).last() == self.edges@[i as int]);
                lemma_some_before_agrees(
                    self.edges@.take(i + 1),
                    self.edges@,
                    i as int,
                );
            }
            match self.edges[i] {
                Some(edge) => {
                    compacted.push(edge);
                },
                None => {
                },
            }
            let p = prefix[i];
            proof {
                lemma_some_before_le(self.edges@, i as int);
            }
            prefix.push(
                if matches!(self.edges[i], Some(_)) {
                    p + 1
                } else {
                    p
                },
            );
            i += 1;
        }
        proof {
            assert(self.edges@.take(edge_count as int) =~= self.edges@);
        }
        let mut node_offsets: Vec<usize> = Vec::new();
        let mut v: usize = 0;
        while v < self.node_offsets.len()
            invariant
                self.wf(),
                edge_count == self.edges@.len(),
                prefix@.len() == edge_count + 1,
                forall|k: int|
                    0 <= k <= edge_count ==> #[trigger] prefix@[k] as int == some_before(
                        self.edges@,
                        k,
                    ),
                v <= self.node_offsets@.len(),
                node_offsets@.len() == v,
                forall|k: int|
                    0 <= k < v ==> #[trigger] node_offsets@[k] as int == some_before(
                        self.edges@,
                        self.node_offsets@[k] as int,
                    ),
            decreases self.node_offsets@.len() - v,
        {
            let o = self.node_offsets[v];
            node_offsets.push(prefix[o]);
            v += 1;
        }
        let g = SimulationGraph { node_offsets, edges: compacted };
        proof {
            lemma_compact_len(self.edges@);
            lemma_compact_in_bounds(self.edges@, self.node_count());
            assert forall|a: int, b: int|
                0 <= a <= b < g.node_offsets@.len() implies #[trigger] g.node_offsets@[a]
                <= #[trigger] g.node_offsets@[b] by {
                lemma_some_before_monotone(
                    self.edges@,
                    self.node_offsets@[a] as int,
                    self.node_offsets@[b] as int,
                );
            }
            assert forall|a: int|
                0 <= a < g.node_offsets@.len() implies #[trigger] g.node_offsets@[a]
                <= g.edges@.len() by {
                lemma_some_before_monotone(
                    self.edges@,
                    self.node_offsets@[a] as int,
                    edge_count as int,
                );
            }
        }
        Ok(g)
    }
}

/// Prefix counts never exceed the prefix length.
proof fn lemma_some_before_le(s: Seq<Option<Edge>>, i: int)
    requires
        i >= 0,
    ensures
        0 <= some_before(s, i) <= i,
    decreases i,
{
    if i > 0 {
        lemma_some_before_le(s, i - 1);
    }
}

} // verus!

