//! The bounded read-control queue of one AXI interface.
//!
//! Hardware tracks at most [`MAX_RCTL_DEPTH`] outstanding 4 KiB bursts per
//! interface. When a new request would exceed that, the oldest outstanding
//! request is retired first, and the new request's first read gains a
//! dependency on the retired request's last read.

use vstd::prelude::*;

use crate::axi_interface::MAX_RCTL_DEPTH;
use crate::builder::edge_builder::{
    st_join, st_void_destination_opt, st_void_source, EbState, EdgeBuilder, IncompleteEdgeKey,
};

verus! {

/// One outstanding read request: how many bursts it holds, the read-control
/// edge ending at its first read, and the one starting at its last read
/// (absent for transactions replayed from a sibling's overflow history).
#[derive(Clone, Copy, PartialEq, Eq, Structural, Debug)]
pub struct RctlTransaction {
    pub burst_count: usize,
    pub in_edge: IncompleteEdgeKey,
    pub out_edge: Option<IncompleteEdgeKey>,
}

/// A transaction remembered from the moment the queue first overflowed; only
/// its incoming linkage still matters.
#[derive(Clone, Copy, PartialEq, Eq, Structural, Debug)]
pub struct RctlHeadTransaction {
    pub burst_count: usize,
    pub in_edge: IncompleteEdgeKey,
}

/// The read-control model of one interface within one module: a two-state
/// machine. While within capacity only the live queue exists; at the first
/// overflow the queue of that moment is remembered as the head, the live
/// queue continues as its tail, and the overflow is sticky.
pub struct AxiRctl {
    /// The transactions outstanding at the first overflow; present exactly
    /// when the queue has overflowed.
    pub overflow_head: Option<Vec<RctlHeadTransaction>>,
    /// The live queue of outstanding transactions.
    pub queue: Vec<RctlTransaction>,
    /// Total bursts of the live queue.
    pub depth: usize,
}

/// Total bursts of a queue.
pub open spec fn sum_bursts(q: Seq<RctlTransaction>) -> int
    decreases q.len(),
{
    if q.len() == 0 {
        0
    } else {
        sum_bursts(q.drop_first()) + q[0].burst_count
    }
}

/// What admitting a transaction evicts: the queue and depth after retiring
/// front transactions until the depth is under capacity, and the outgoing
/// edge of the newest retired transaction, if any was retired.
pub open spec fn rctl_evict(q: Seq<RctlTransaction>, depth: int) -> (
    Seq<RctlTransaction>,
    int,
    Option<Option<IncompleteEdgeKey>>,
)
    decreases q.len(),
{
    if depth < MAX_RCTL_DEPTH as int || q.len() == 0 {
        (q, depth, None)
    } else {
        let rec = rctl_evict(q.drop_first(), depth - q[0].burst_count);
        (
            rec.0,
            rec.1,
            if rec.2 is Some {
                rec.2
            } else {
                Some(q[0].out_edge)
            },
        )
    }
}

/// Destination-voiding the retired transactions' outgoing edges, in
/// retirement order.
pub open spec fn rctl_retire_voids(m: EbState, retired: Seq<RctlTransaction>) -> EbState
    decreases retired.len(),
{
    if retired.len() == 0 {
        m
    } else {
        st_void_destination_opt(rctl_retire_voids(m, retired.drop_last()), retired.last().out_edge)
    }
}

/// The edge wiring of admitting one transaction: retired outgoing edges other
/// than the newest are destination-voided; then the newest retired outgoing
/// edge, if one exists, is joined to the arrival's incoming edge; an arrival
/// into an already-overflowed queue that retires nothing, or whose newest
/// retired transaction had no outgoing edge, has its incoming edge
/// source-voided; otherwise the edge builder is untouched.
#[verifier::opaque]
pub open spec fn rctl_push_eb(
    m: EbState,
    q: Seq<RctlTransaction>,
    depth: int,
    overflowed: bool,
    txn: RctlTransaction,
) -> EbState {
    let ev = rctl_evict(q, depth);
    let retired = q.take(q.len() - ev.0.len());
    let voided = if retired.len() == 0 {
        retired
    } else {
        retired.drop_last()
    };
    let m1 = rctl_retire_voids(m, voided);
    match ev.2 {
        Some(Some(blocking)) => st_join(m1, blocking, txn.in_edge),
        Some(None) => st_void_source(m1, txn.in_edge),
        None => if overflowed {
            st_void_source(m1, txn.in_edge)
        } else {
            m1
        },
    }
}

/// A sequence of admissions, each one an [`AxiRctl::push`], threading the
/// queue, its depth, its overflow state and the edge-builder state in order.
pub open spec fn rctl_pushes(
    q: Seq<RctlTransaction>,
    depth: int,
    overflowed: bool,
    m: EbState,
    txns: Seq<RctlTransaction>,
) -> (Seq<RctlTransaction>, int, bool, EbState)
    decreases txns.len(),
{
    if txns.len() == 0 {
        (q, depth, overflowed, m)
    } else {
        let prev = rctl_pushes(q, depth, overflowed, m, txns.drop_last());
        let t = txns.last();
        let ev = rctl_evict(prev.0, prev.1);
        (
            ev.0.push(t),
            ev.1 + t.burst_count,
            prev.2 || ev.2 is Some,
            rctl_push_eb(prev.3, prev.0, prev.1, prev.2, t),
        )
    }
}

/// Dropping one remaining transaction: its incoming edge's source half and
/// its outgoing edge's destination half are voided.
pub open spec fn rctl_txn_voids(m: EbState, t: RctlTransaction) -> EbState {
    st_void_destination_opt(st_void_source(m, t.in_edge), t.out_edge)
}

/// Dropping every remaining transaction of a queue, in order.
pub open spec fn rctl_finish_voids(m: EbState, q: Seq<RctlTransaction>) -> EbState
    decreases q.len(),
{
    if q.len() == 0 {
        m
    } else {
        rctl_txn_voids(rctl_finish_voids(m, q.drop_last()), q.last())
    }
}

/// Source-voiding every overflow-head transaction's incoming edge, in order.
pub open spec fn rctl_head_voids(m: EbState, head: Seq<RctlHeadTransaction>) -> EbState
    decreases head.len(),
{
    if head.len() == 0 {
        m
    } else {
        st_void_source(rctl_head_voids(m, head.drop_last()), head.last().in_edge)
    }
}

/// The synthetic transaction replaying one overflow-head entry: only the
/// incoming linkage survives the overflow.
pub open spec fn head_txn(h: RctlHeadTransaction) -> RctlTransaction {
    RctlTransaction { burst_count: h.burst_count, in_edge: h.in_edge, out_edge: None }
}

impl AxiRctl {
    /// The tracked depth is the burst total of the live queue, and every
    /// transaction holds at least one burst.
    pub open spec fn wf(self) -> bool {
        &&& self.depth == sum_bursts(self.queue@)
        &&& forall|i: int|
            1 <= (#[trigger] self.queue@[i]).burst_count <= usize::MAX - MAX_RCTL_DEPTH || !(0 <= i
                < self.queue@.len())
        &&& (self.overflow_head matches Some(head) ==> forall|i: int|
            1 <= (#[trigger] head@[i]).burst_count <= usize::MAX - MAX_RCTL_DEPTH || !(0 <= i
                < head@.len()))
    }

    pub fn new() -> (r: AxiRctl)
        ensures
            r.wf(),
            r.queue@.len() == 0,
            r.overflow_head is None,
    {
        AxiRctl { overflow_head: None, queue: Vec::new(), depth: 0 }
    }

    /// Retires the oldest outstanding transaction, transitioning to the
    /// overflowed state if this is the first retirement.
    fn evict_front(&mut self) -> (front: RctlTransaction)
        requires
            old(self).wf(),
            old(self).queue@.len() > 0,
        ensures
            final(self).wf(),
            front == old(self).queue@[0],
            final(self).queue@ == old(self).queue@.drop_first(),
            final(self).depth == old(self).depth - front.burst_count,
            final(self).overflow_head is Some,
            old(self).overflow_head is Some ==> final(self).overflow_head == old(
                self,
            ).overflow_head,
    {
        if self.overflow_head.is_none() {
            // First overflow: remember the whole queue as the head.
            let mut head: Vec<RctlHeadTransaction> = Vec::new();
            let mut i: usize = 0;
            while i < self.queue.len()
                invariant
                    self == old(self),
                    i <= self.queue@.len(),
                    head@.len() == i,
                    forall|j: int|
                        0 <= j < i ==> (#[trigger] head@[j]).burst_count
                            == self.queue@[j].burst_count,
                decreases self.queue@.len() - i,
            {
                head.push(
                    RctlHeadTransaction {
                        burst_count: self.queue[i].burst_count,
                        in_edge: self.queue[i].in_edge,
                    },
                );
                i += 1;
            }
            self.overflow_head = Some(head);
        }
        let front = self.queue.remove(0);
        proof {
            lemma_sum_bursts_nonneg(self.queue@);
        }
        self.depth = self.depth - front.burst_count;
        front
    }

    /// Admits a new outstanding request, retiring the oldest ones while the
    /// depth is at capacity. The newest retired request's outgoing edge is
    /// joined to the new request's incoming edge; earlier retired outgoing
    /// edges are voided, and once the queue has overflowed, an arrival that
    /// retires nothing has its incoming linkage voided instead.
    pub fn push(&mut self, edge_builder: &mut EdgeBuilder, transaction: RctlTransaction)
        requires
            old(self).wf(),
            old(edge_builder).wf(),
            1 <= transaction.burst_count <= usize::MAX - MAX_RCTL_DEPTH,
        ensures
            final(self).wf(),
            final(edge_builder).wf(),
            final(edge_builder).node_offsets@ == old(edge_builder).node_offsets@,
            final(edge_builder).edges@.len() == old(edge_builder).edges@.len(),
            final(self).depth <= MAX_RCTL_DEPTH - 1 + transaction.burst_count,
            final(self).queue@ == rctl_evict(old(self).queue@, old(self).depth as int).0.push(
                transaction,
            ),
            final(self).depth as int == rctl_evict(old(self).queue@, old(self).depth as int).1
                + transaction.burst_count,
            final(self).queue@.len() >= 1,
            final(self).queue@.last() == transaction,
            final(self).overflow_head is Some <==> (old(self).overflow_head is Some || rctl_evict(
                old(self).queue@,
                old(self).depth as int,
            ).2 is Some),
            final(edge_builder).st() == rctl_push_eb(
                old(edge_builder).st(),
                old(self).queue@,
                old(self).depth as int,
                old(self).overflow_head is Some,
                transaction,
            ),
    {
        let ghost q0 = old(self).queue@;
        let ghost m0 = old(edge_builder).st();
        let mut blocking_out_edge: Option<IncompleteEdgeKey> = None;
        let ghost mut r: int = 0;
        while self.depth >= MAX_RCTL_DEPTH
            invariant
                self.wf(),
                edge_builder.wf(),
                edge_builder.node_offsets@ == old(edge_builder).node_offsets@,
                edge_builder.edges@.len() == old(edge_builder).edges@.len(),
                0 <= r <= q0.len(),
                self.queue@ == q0.skip(r),
                self.overflow_head is Some <==> (old(self).overflow_head is Some || r >= 1),
                r == 0 ==> edge_builder.st() == m0 && blocking_out_edge is None,
                r >= 1 ==> edge_builder.st() == rctl_retire_voids(m0, q0.take(r - 1))
                    && blocking_out_edge == q0[r - 1].out_edge,
                rctl_evict(q0, old(self).depth as int).0 == rctl_evict(
                    self.queue@,
                    self.depth as int,
                ).0,
                rctl_evict(q0, old(self).depth as int).1 == rctl_evict(
                    self.queue@,
                    self.depth as int,
                ).1,
                rctl_evict(q0, old(self).depth as int).2 == (if rctl_evict(
                    self.queue@,
                    self.depth as int,
                ).2 is Some {
                    rctl_evict(self.queue@, self.depth as int).2
                } else if r >= 1 {
                    Some(blocking_out_edge)
                } else {
                    None
                }),
            decreases self.queue@.len(),
        {
            proof {
                if self.queue@.len() == 0 {
                    assert(self.depth == 0);
                }
            }
            let ghost m_pre = edge_builder.st();
            let front = self.evict_front();
            if let Some(unused_edge) = blocking_out_edge {
                let _ = edge_builder.checked_void_destination(unused_edge);
            }
            blocking_out_edge = front.out_edge;
            proof {
                assert(q0.skip(r).drop_first() =~= q0.skip(r + 1));
                assert(front == q0[r]);
                if r >= 1 {
                    assert(q0.take(r).drop_last() =~= q0.take(r - 1));
                    assert(q0.take(r).last() == q0[r - 1]);
                    assert(edge_builder.st() == st_void_destination_opt(
                        m_pre,
                        q0[r - 1].out_edge,
                    ));
                    assert(edge_builder.st() == rctl_retire_voids(m0, q0.take(r)));
                } else {
                    assert(edge_builder.st() == m0);
                    assert(q0.take(0).len() == 0);
                    assert(edge_builder.st() == rctl_retire_voids(m0, q0.take(0)));
                }
                r = r + 1;
            }
        }
        proof {
            assert(rctl_evict(self.queue@, self.depth as int).0 == self.queue@);
        }
        let ghost ev = rctl_evict(q0, old(self).depth as int);
        let ghost retired = q0.take(q0.len() - ev.0.len());
        let ghost voided = if retired.len() == 0 {
            retired
        } else {
            retired.drop_last()
        };
        let ghost m1 = edge_builder.st();
        proof {
            assert(ev.0 == q0.skip(r));
            assert(q0.skip(r).len() == q0.len() - r);
            assert(retired =~= q0.take(r));
            if r == 0 {
                assert(voided.len() == 0);
                assert(m1 == rctl_retire_voids(m0, voided));
            } else {
                assert(voided =~= q0.take(r - 1));
                assert(m1 == rctl_retire_voids(m0, voided));
            }
        }

        if let Some(blocking) = blocking_out_edge {
            let _ = edge_builder.checked_join(blocking, transaction.in_edge);
            proof {
                assert(r >= 1);
                assert(ev.2 == Some(Some(blocking)));
                assert(edge_builder.st() == st_join(m1, blocking, transaction.in_edge));
            }
        } else if self.overflow_head.is_some() {
            let _ = edge_builder.checked_void_source(transaction.in_edge);
            proof {
                assert(edge_builder.st() == st_void_source(m1, transaction.in_edge));
                if r >= 1 {
                    assert(ev.2 == Some(None::<IncompleteEdgeKey>));
                } else {
                    assert(ev.2 is None);
                    assert(old(self).overflow_head is Some);
                }
            }
        } else {
            proof {
                assert(r == 0);
                assert(ev.2 is None);
                assert(!(old(self).overflow_head is Some));
                assert(edge_builder.st() == m1);
            }
        }
        proof {
            reveal(rctl_push_eb);
            assert(edge_builder.st() == rctl_push_eb(
                m0,
                q0,
                old(self).depth as int,
                old(self).overflow_head is Some,
                transaction,
            ));
        }

        proof {
            lemma_sum_bursts_push(self.queue@, transaction);
            lemma_sum_bursts_nonneg(self.queue@);
        }
        self.depth = self.depth + transaction.burst_count;
        self.queue.push(transaction);
    }

    /// Splices a returning sibling's queue into this one: transactions the
    /// sibling still held pass through [`AxiRctl::push`]; if the sibling had
    /// overflowed, its overflow head is replayed first (with no outgoing
    /// linkage), this queue's own displaced transactions have their outgoing
    /// edges voided, and the sibling's live queue replaces the tail.
    pub fn extend(&mut self, edge_builder: &mut EdgeBuilder, other: AxiRctl)
        requires
            old(self).wf(),
            old(edge_builder).wf(),
            other.wf(),
        ensures
            final(self).wf(),
            final(edge_builder).wf(),
            final(edge_builder).node_offsets@ == old(edge_builder).node_offsets@,
            final(edge_builder).edges@.len() == old(edge_builder).edges@.len(),
            other.overflow_head is None ==> (final(self).queue@ == rctl_pushes(
                old(self).queue@,
                old(self).depth as int,
                old(self).overflow_head is Some,
                old(edge_builder).st(),
                other.queue@,
            ).0 && final(self).depth as int == rctl_pushes(
                old(self).queue@,
                old(self).depth as int,
                old(self).overflow_head is Some,
                old(edge_builder).st(),
                other.queue@,
            ).1 && (final(self).overflow_head is Some) == rctl_pushes(
                old(self).queue@,
                old(self).depth as int,
                old(self).overflow_head is Some,
                old(edge_builder).st(),
                other.queue@,
            ).2 && final(edge_builder).st() == rctl_pushes(
                old(self).queue@,
                old(self).depth as int,
                old(self).overflow_head is Some,
                old(edge_builder).st(),
                other.queue@,
            ).3),
            other.overflow_head matches Some(head) ==> (final(edge_builder).st()
                == rctl_retire_voids(
                rctl_pushes(
                    old(self).queue@,
                    old(self).depth as int,
                    old(self).overflow_head is Some,
                    old(edge_builder).st(),
                    head@.map_values(|h: RctlHeadTransaction| head_txn(h)),
                ).3,
                rctl_pushes(
                    old(self).queue@,
                    old(self).depth as int,
                    old(self).overflow_head is Some,
                    old(edge_builder).st(),
                    head@.map_values(|h: RctlHeadTransaction| head_txn(h)),
                ).0,
            ) && final(self).queue@ == other.queue@ && final(self).depth == other.depth
                && final(self).overflow_head is Some),
            other.overflow_head is None && other.queue@.len() == 0 ==> final(self).queue@ == old(
                self,
            ).queue@ && final(self).depth == old(self).depth,
    {
        let ghost q0 = old(self).queue@;
        let ghost d0 = old(self).depth as int;
        let ghost of0 = old(self).overflow_head is Some;
        let ghost m0 = old(edge_builder).st();
        match other.overflow_head {
            None => {
                let mut i: usize = 0;
                while i < other.queue.len()
                    invariant
                        self.wf(),
                        edge_builder.wf(),
                        edge_builder.node_offsets@ == old(edge_builder).node_offsets@,
                        edge_builder.edges@.len() == old(edge_builder).edges@.len(),
                        i <= other.queue@.len(),
                        other.wf(),
                        self.queue@ == rctl_pushes(q0, d0, of0, m0, other.queue@.take(i as int)).0,
                        self.depth as int == rctl_pushes(
                            q0,
                            d0,
                            of0,
                            m0,
                            other.queue@.take(i as int),
                        ).1,
                        (self.overflow_head is Some) == rctl_pushes(
                            q0,
                            d0,
                            of0,
                            m0,
                            other.queue@.take(i as int),
                        ).2,
                        edge_builder.st() == rctl_pushes(
                            q0,
                            d0,
                            of0,
                            m0,
                            other.queue@.take(i as int),
                        ).3,
                    decreases other.queue@.len() - i,
                {
                    let transaction = other.queue[i];
                    self.push(edge_builder, transaction);
                    proof {
                        assert(other.queue@.take(i + 1).drop_last() =~= other.queue@.take(
                            i as int,
                        ));
                        assert(other.queue@.take(i + 1).last() == other.queue@[i as int]);
                    }
                    i += 1;
                }
                proof {
                    assert(other.queue@.take(other.queue@.len() as int) =~= other.queue@);
                    assert(rctl_pushes(q0, d0, of0, m0, Seq::<RctlTransaction>::empty()).0 == q0);
                }
            },
            Some(head) => {
                let ghost txns = head@.map_values(|h: RctlHeadTransaction| head_txn(h));
                let mut i: usize = 0;
                while i < head.len()
                    invariant
                        self.wf(),
                        edge_builder.wf(),
                        edge_builder.node_offsets@ == old(edge_builder).node_offsets@,
                        edge_builder.edges@.len() == old(edge_builder).edges@.len(),
                        i <= head@.len(),
                        txns == head@.map_values(|h: RctlHeadTransaction| head_txn(h)),
                        forall|j: int|
                            1 <= (#[trigger] head@[j]).burst_count <= usize::MAX - MAX_RCTL_DEPTH
                                || !(0 <= j < head@.len()),
                        self.queue@ == rctl_pushes(q0, d0, of0, m0, txns.take(i as int)).0,
                        self.depth as int == rctl_pushes(q0, d0, of0, m0, txns.take(i as int)).1,
                        (self.overflow_head is Some) == rctl_pushes(
                            q0,
                            d0,
                            of0,
                            m0,
                            txns.take(i as int),
                        ).2,
                        edge_builder.st() == rctl_pushes(q0, d0, of0, m0, txns.take(i as int)).3,
                    decreases head@.len() - i,
                {
                    let h = head[i];
                    self.push(
                        edge_builder,
                        RctlTransaction {
                            burst_count: h.burst_count,
                            in_edge: h.in_edge,
                            out_edge: None,
                        },
                    );
                    proof {
                        assert(txns.take(i + 1).drop_last() =~= txns.take(i as int));
                        assert(txns.take(i + 1).last() == txns[i as int]);
                        assert(txns[i as int] == head_txn(head@[i as int]));
                    }
                    i += 1;
                }
                let ghost q1 = self.queue@;
                let ghost m1 = edge_builder.st();
                proof {
                    assert(txns.take(txns.len() as int) =~= txns);
                    assert(q1 == rctl_pushes(q0, d0, of0, m0, txns).0);
                    assert(m1 == rctl_pushes(q0, d0, of0, m0, txns).3);
                }
                // The sibling's live queue replaces this queue's tail; any
                // displaced transaction loses its outgoing linkage.
                let mut j: usize = 0;
                while j < self.queue.len()
                    invariant
                        edge_builder.wf(),
                        edge_builder.node_offsets@ == old(edge_builder).node_offsets@,
                        edge_builder.edges@.len() == old(edge_builder).edges@.len(),
                        j <= self.queue@.len(),
                        self.queue@ == q1,
                        edge_builder.st() == rctl_retire_voids(m1, q1.take(j as int)),
                    decreases self.queue@.len() - j,
                {
                    let ghost m_pre = edge_builder.st();
                    if let Some(out_edge) = self.queue[j].out_edge {
                        let _ = edge_builder.checked_void_destination(out_edge);
                    }
                    proof {
                        assert(q1.take(j + 1).drop_last() =~= q1.take(j as int));
                        assert(q1.take(j + 1).last() == q1[j as int]);
                        assert(edge_builder.st() == st_void_destination_opt(
                            m_pre,
                            q1[j as int].out_edge,
                        ));
                    }
                    j += 1;
                }
                proof {
                    assert(q1.take(q1.len() as int) =~= q1);
                    assert(edge_builder.st() == rctl_retire_voids(m1, q1));
                }
                let mut tail: Vec<RctlTransaction> = Vec::new();
                let mut k: usize = 0;
                while k < other.queue.len()
                    invariant
                        other.wf(),
                        k <= other.queue@.len(),
                        tail@ == other.queue@.take(k as int),
                    decreases other.queue@.len() - k,
                {
                    tail.push(other.queue[k]);
                    proof {
                        assert(tail@ =~= other.queue@.take(k + 1));
                    }
                    k += 1;
                }
                proof {
                    assert(other.queue@.take(other.queue@.len() as int) =~= other.queue@);
                }
                self.queue = tail;
                self.depth = other.depth;
                if self.overflow_head.is_none() {
                    // The replayed head itself forced the overflow bookkeeping.
                    self.overflow_head = Some(Vec::new());
                }
            },
        }
    }

    /// Drops the queue at the end of the top module: every remaining
    /// transaction's pending edges are voided so no incomplete edge is left.
    pub fn finish(self, edge_builder: &mut EdgeBuilder)
        requires
            old(edge_builder).wf(),
        ensures
            final(edge_builder).wf(),
            final(edge_builder).node_offsets@ == old(edge_builder).node_offsets@,
            final(edge_builder).edges@.len() == old(edge_builder).edges@.len(),
            self.overflow_head is None ==> final(edge_builder).st() == rctl_finish_voids(
                old(edge_builder).st(),
                self.queue@,
            ),
            self.overflow_head matches Some(head) ==> final(edge_builder).st()
                == rctl_retire_voids(
                rctl_head_voids(old(edge_builder).st(), head@),
                self.queue@,
            ),
    {
        let ghost m0 = old(edge_builder).st();
        match self.overflow_head {
            None => {
                let mut i: usize = 0;
                while i < self.queue.len()
                    invariant
                        edge_builder.wf(),
                        edge_builder.node_offsets@ == old(edge_builder).node_offsets@,
                        edge_builder.edges@.len() == old(edge_builder).edges@.len(),
                        i <= self.queue@.len(),
                        edge_builder.st() == rctl_finish_voids(m0, self.queue@.take(i as int)),
                    decreases self.queue@.len() - i,
                {
                    let ghost m_pre = edge_builder.st();
                    let t = self.queue[i];
                    let _ = edge_builder.checked_void_source(t.in_edge);
                    let ghost m_mid = edge_builder.st();
                    if let Some(out_edge) = t.out_edge {
                        let _ = edge_builder.checked_void_destination(out_edge);
                    }
                    proof {
                        assert(m_mid == st_void_source(m_pre, t.in_edge));
                        assert(edge_builder.st() == st_void_destination_opt(m_mid, t.out_edge));
                        assert(edge_builder.st() == rctl_txn_voids(m_pre, t));
                        assert(self.queue@.take(i + 1).drop_last() =~= self.queue@.take(i as int));
                        assert(self.queue@.take(i + 1).last() == self.queue@[i as int]);
                    }
                    i += 1;
                }
                proof {
                    assert(self.queue@.take(self.queue@.len() as int) =~= self.queue@);
                }
            },
            Some(head) => {
                let mut i: usize = 0;
                while i < head.len()
                    invariant
                        edge_builder.wf(),
                        edge_builder.node_offsets@ == old(edge_builder).node_offsets@,
                        edge_builder.edges@.len() == old(edge_builder).edges@.len(),
                        i <= head@.len(),
                        edge_builder.st() == rctl_head_voids(m0, head@.take(i as int)),
                    decreases head@.len() - i,
                {
                    let ghost m_pre = edge_builder.st();
                    let _ = edge_builder.checked_void_source(head[i].in_edge);
                    proof {
                        assert(edge_builder.st() == st_void_source(m_pre, head@[i as int].in_edge));
                        assert(head@.take(i + 1).drop_last() =~= head@.take(i as int));
                        assert(head@.take(i + 1).last() == head@[i as int]);
                    }
                    i += 1;
                }
                let ghost m1 = edge_builder.st();
                proof {
                    assert(head@.take(head@.len() as int) =~= head@);
                    assert(m1 == rctl_head_voids(m0, head@));
                }
                let mut i: usize = 0;
                while i < self.queue.len()
                    invariant
                        edge_builder.wf(),
                        edge_builder.node_offsets@ == old(edge_builder).node_offsets@,
                        edge_builder.edges@.len() == old(edge_builder).edges@.len(),
                        i <= self.queue@.len(),
                        edge_builder.st() == rctl_retire_voids(m1, self.queue@.take(i as int)),
                    decreases self.queue@.len() - i,
                {
                    let ghost m_pre = edge_builder.st();
                    if let Some(out_edge) = self.queue[i].out_edge {
                        let _ = edge_builder.checked_void_destination(out_edge);
                    }
                    proof {
                        assert(edge_builder.st() == st_void_destination_opt(
                            m_pre,
                            self.queue@[i as int].out_edge,
                        ));
                        assert(self.queue@.take(i + 1).drop_last() =~= self.queue@.take(i as int));
                        assert(self.queue@.take(i + 1).last() == self.queue@[i as int]);
                    }
                    i += 1;
                }
                proof {
                    assert(self.queue@.take(self.queue@.len() as int) =~= self.queue@);
                }
            },
        }
    }
}

/// Burst totals are nonnegative.
pub proof fn lemma_sum_bursts_nonneg(q: Seq<RctlTransaction>)
    ensures
        sum_bursts(q) >= 0,
    decreases q.len(),
{
    if q.len() > 0 {
        lemma_sum_bursts_nonneg(q.drop_first());
    }
}

/// Appending a transaction adds its bursts to the total.
pub proof fn lemma_sum_bursts_push(q: Seq<RctlTransaction>, t: RctlTransaction)
    ensures
        sum_bursts(q.push(t)) == sum_bursts(q) + t.burst_count,
    decreases q.len(),
{
    let q2 = q.push(t);
    assert(q2.len() == q.len() + 1);
    assert(sum_bursts(q2) == sum_bursts(q2.drop_first()) + q2[0].burst_count);
    if q.len() == 0 {
        assert(q2[0] == t);
        assert(q2.drop_first() =~= Seq::<RctlTransaction>::empty());
        assert(sum_bursts(q2.drop_first()) == 0);
        assert(sum_bursts(q) == 0);
    } else {
        assert(q2.drop_first() =~= q.drop_first().push(t));
        assert(q2[0] == q[0]);
        lemma_sum_bursts_push(q.drop_first(), t);
        assert(sum_bursts(q) == sum_bursts(q.drop_first()) + q[0].burst_count);
    }
}

} // verus!
