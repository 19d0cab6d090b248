//! The schedule resolver: a depth-first walk of the dependency graph that
//! computes, per node, the latest cycle any incoming dependency imposes.

use vstd::prelude::*;

use crate::alist::lemma_alist_find_is_entry;
use crate::edge::Edge;
use crate::node::{sat_add, NodeIndex, NodeWithDelay};
use crate::{ClockCycle, CompiledSimulation, SimulationError, SimulationParameters};

verus! {

/// One pending step of the iterative depth-first walk.
#[derive(Clone, Copy, PartialEq, Eq, Structural, Debug)]
pub struct Visit {
    pub node: NodeIndex,
    pub preorder: bool,
}

/// Number of in-edges of node `v`.
pub open spec fn in_degree(sim: CompiledSimulation, v: int) -> int {
    sim.graph.edge_end(v) - sim.graph.edge_start(v)
}

/// The `k`-th in-edge of node `v`.
pub open spec fn in_edge_at(sim: CompiledSimulation, v: int, k: int) -> Edge {
    sim.graph.edges@[sim.graph.edge_start(v) + k]
}

/// What the `k`-th in-edge of node `v` resolves to.
pub open spec fn resolved_in_edge(
    sim: CompiledSimulation,
    parameters: SimulationParameters,
    v: int,
    k: int,
) -> Result<Option<NodeWithDelay>, SimulationError> {
    in_edge_at(sim, v, k).resolve_spec(sim, parameters)
}

/// The latest cycle imposed by the first `k` in-edges of node `v`: the
/// maximum over their resolved sources of source cycle plus edge delay, zero
/// when none applies.
pub open spec fn max_in_upto(
    sim: CompiledSimulation,
    parameters: SimulationParameters,
    cycles: Seq<ClockCycle>,
    v: int,
    k: int,
) -> ClockCycle
    decreases k,
{
    if k <= 0 {
        0
    } else {
        let rest = max_in_upto(sim, parameters, cycles, v, k - 1);
        match resolved_in_edge(sim, parameters, v, k - 1) {
            Ok(Some(u)) => if u.resolve_spec(cycles) > rest {
                u.resolve_spec(cycles)
            } else {
                rest
            },
            _ => rest,
        }
    }
}

/// A scheduled node: all its in-edges resolve, their sources are scheduled
/// strictly earlier in the walk's finishing order, and its cycle is exactly
/// the latest its in-edges impose.
pub open spec fn node_ok(
    sim: CompiledSimulation,
    parameters: SimulationParameters,
    vis: Seq<bool>,
    ord: Map<int, int>,
    cycles: Seq<ClockCycle>,
    v: int,
) -> bool {
    &&& forall|k: int|
        0 <= k < in_degree(sim, v) ==> (#[trigger] resolved_in_edge(sim, parameters, v, k)) is Ok
    &&& forall|k: int|
        0 <= k < in_degree(sim, v) && (#[trigger] resolved_in_edge(sim, parameters, v, k)) is Ok
            && resolved_in_edge(sim, parameters, v, k)->Ok_0 is Some ==> {
            let u = src_of(sim, parameters, v, k);
            &&& 0 <= u.node < vis.len()
            &&& vis[u.node as int]
            &&& ord.contains_key(u.node as int)
            &&& ord[u.node as int] < ord[v]
        }
    &&& ord.contains_key(v)
    &&& 0 <= ord[v]
    &&& cycles[v] == max_in_upto(sim, parameters, cycles, v, in_degree(sim, v))
}

/// A set of nodes closed under resolved dependencies: every resolved in-edge
/// of a member has its source in the set.
pub open spec fn closed_set(
    sim: CompiledSimulation,
    parameters: SimulationParameters,
    vis2: Seq<bool>,
) -> bool {
    forall|v: int, k: int|
        (0 <= v < vis2.len() && vis2[v] && 0 <= k < in_degree(sim, v) && (
        #[trigger] resolved_in_edge(sim, parameters, v, k)) is Ok && resolved_in_edge(
            sim,
            parameters,
            v,
            k,
        )->Ok_0 is Some) ==> {
            let u = src_of(sim, parameters, v, k);
            0 <= u.node < vis2.len() && vis2[u.node as int]
        }
}

/// Whether node `w` is the resolved source of some in-edge of node `v`.
pub open spec fn is_source_of(
    sim: CompiledSimulation,
    parameters: SimulationParameters,
    v: int,
    w: int,
) -> bool {
    exists|k: int|
        0 <= k < in_degree(sim, v) && (#[trigger] resolved_in_edge(sim, parameters, v, k)) is Ok
            && resolved_in_edge(sim, parameters, v, k)->Ok_0 is Some && src_of(
            sim,
            parameters,
            v,
            k,
        ).node as int == w
}

/// A dependency cycle: a closed walk in which each node is a resolved source
/// of the one before it.
pub open spec fn is_dependency_cycle(
    sim: CompiledSimulation,
    parameters: SimulationParameters,
    c: Seq<int>,
) -> bool {
    &&& c.len() >= 2
    &&& c[0] == c[c.len() - 1]
    &&& forall|i: int|
        0 <= i < c.len() - 1 ==> is_source_of(sim, parameters, #[trigger] c[i], c[i + 1])
}

/// A set of nodes whose every in-edge resolves under the parameters.
pub open spec fn covered_set(
    sim: CompiledSimulation,
    parameters: SimulationParameters,
    vis2: Seq<bool>,
) -> bool {
    forall|v: int, k: int|
        0 <= v < vis2.len() && vis2[v] && 0 <= k < in_degree(sim, v) ==> (
        #[trigger] resolved_in_edge(sim, parameters, v, k)) is Ok
}

/// An order witnessing that the resolved dependencies within a set are
/// acyclic: every resolved source comes strictly earlier.
pub open spec fn ordered_set(
    sim: CompiledSimulation,
    parameters: SimulationParameters,
    vis2: Seq<bool>,
    ord2: Map<int, int>,
) -> bool {
    forall|v: int, k: int|
        (0 <= v < vis2.len() && vis2[v] && 0 <= k < in_degree(sim, v) && (
        #[trigger] resolved_in_edge(sim, parameters, v, k)) is Ok && resolved_in_edge(
            sim,
            parameters,
            v,
            k,
        )->Ok_0 is Some) ==> {
            let u = src_of(sim, parameters, v, k);
            &&& ord2.contains_key(u.node as int)
            &&& ord2.contains_key(v)
            &&& ord2[u.node as int] < ord2[v]
        }
}

/// Whether a replay can succeed: some dependency-closed set holds the end
/// node, all its in-edges resolve under the parameters, and its dependencies
/// admit an order (no cycle among them).
pub open spec fn resolvable(sim: CompiledSimulation, parameters: SimulationParameters) -> bool {
    exists|vis2: Seq<bool>, ord2: Map<int, int>|
        {
            &&& vis2.len() == sim.node_count_spec()
            &&& vis2[sim.end_node as int]
            &&& closed_set(sim, parameters, vis2)
            &&& covered_set(sim, parameters, vis2)
            &&& ordered_set(sim, parameters, vis2, ord2)
        }
}

/// Whether every dependency-closed set holding the end node contains a node
/// with an in-edge that fails to resolve with exactly this error: the error
/// is about a parameter the replay genuinely needs.
pub open spec fn needed_by_every_cover(
    sim: CompiledSimulation,
    parameters: SimulationParameters,
    e: SimulationError,
) -> bool {
    forall|vis2: Seq<bool>|
        vis2.len() == sim.node_count_spec() && vis2[sim.end_node as int] && #[trigger] closed_set(
            sim,
            parameters,
            vis2,
        ) ==> exists|v: int, k: int|
            0 <= v < vis2.len() && vis2[v] && 0 <= k < in_degree(sim, v)
                && #[trigger] resolved_in_edge(sim, parameters, v, k) == Err::<
                Option<crate::node::NodeWithDelay>,
                SimulationError,
            >(e)
}

/// A strictly order-decreasing closed walk is impossible.
proof fn lemma_ord_decreasing_along(
    sim: CompiledSimulation,
    parameters: SimulationParameters,
    c: Seq<int>,
    vis2: Seq<bool>,
    ord2: Map<int, int>,
    a: int,
    b: int,
)
    requires
        ordered_set(sim, parameters, vis2, ord2),
        forall|i: int| 0 <= i < c.len() ==> 0 <= #[trigger] c[i] < vis2.len() && vis2[c[i]],
        forall|i: int|
            0 <= i < c.len() - 1 ==> is_source_of(sim, parameters, #[trigger] c[i], c[i + 1]),
        0 <= a < b < c.len(),
    ensures
        ord2.contains_key(c[a]) && ord2.contains_key(c[b]) && ord2[c[b]] < ord2[c[a]],
    decreases b - a,
{
    let k = choose|k: int|
        0 <= k < in_degree(sim, c[a]) && (#[trigger] resolved_in_edge(
            sim,
            parameters,
            c[a],
            k,
        )) is Ok && resolved_in_edge(sim, parameters, c[a], k)->Ok_0 is Some && src_of(
            sim,
            parameters,
            c[a],
            k,
        ).node as int == c[a + 1];
    if a + 1 < b {
        lemma_ord_decreasing_along(sim, parameters, c, vis2, ord2, a + 1, b);
    }
}

/// The finish steps among the first `i` stack entries, bottom up.
pub open spec fn fins_below(stack: Seq<Visit>, i: int) -> Seq<int>
    decreases i,
{
    if i <= 0 {
        Seq::empty()
    } else {
        fins_below(stack, i - 1) + if stack[i - 1].preorder {
            Seq::empty()
        } else {
            seq![stack[i - 1].node as int]
        }
    }
}

/// The walk's pending finish steps, bottom up.
pub open spec fn stack_fins(stack: Seq<Visit>) -> Seq<int> {
    fins_below(stack, stack.len() as int)
}

/// Bookkeeping of the pending finish steps as a chain: the nodes under visit
/// are exactly the chain, each deeper chain node has the next as a resolved
/// source, and every exploration step's node is a resolved source of the
/// innermost node still finishing below it (or is the end node at the very
/// bottom). A repeated visit then closes a dependency cycle.
pub open spec fn chain_ok(
    sim: CompiledSimulation,
    parameters: SimulationParameters,
    stack: Seq<Visit>,
    visiting: Seq<bool>,
) -> bool {
    &&& forall|w: int|
        0 <= w < visiting.len() && #[trigger] visiting[w] ==> stack_fins(stack).contains(w)
    &&& forall|j: int|
        0 <= j < stack_fins(stack).len() ==> 0 <= #[trigger] stack_fins(stack)[j] < visiting.len()
            && visiting[stack_fins(stack)[j]]
    &&& forall|j1: int, j2: int|
        0 <= j1 < j2 < stack_fins(stack).len() ==> #[trigger] stack_fins(stack)[j1]
            != #[trigger] stack_fins(stack)[j2]
    &&& forall|i: int|
        0 <= i < stack_fins(stack).len() - 1 ==> is_source_of(
            sim,
            parameters,
            stack_fins(stack)[i],
            #[trigger] stack_fins(stack)[i + 1],
        )
    &&& forall|i: int|
        0 <= i < stack.len() && (#[trigger] stack[i]).preorder ==> {
            let fb = fins_below(stack, i);
            &&& (fb.len() == 0 ==> stack[i].node == sim.end_node)
            &&& (fb.len() > 0 ==> is_source_of(
                sim,
                parameters,
                fb[fb.len() - 1],
                stack[i].node as int,
            ))
        }
}

/// The finish steps only see the entries below them.
proof fn lemma_fins_below_agrees(s1: Seq<Visit>, s2: Seq<Visit>, i: int)
    requires
        forall|j: int| 0 <= j < i ==> s1[j] == s2[j],
    ensures
        fins_below(s1, i) == fins_below(s2, i),
    decreases i,
{
    if i > 0 {
        lemma_fins_below_agrees(s1, s2, i - 1);
    }
}

/// What a successful replay guarantees: the scheduled set `vis` is exactly
/// the nodes the end node depends on (the least dependency-closed set holding
/// it), the finishing order `ord` witnesses that their dependencies are
/// acyclic, every scheduled node's cycle is the maximum its resolved in-edges
/// impose, and unscheduled nodes keep cycle zero.
pub open spec fn schedule_post(
    sim: CompiledSimulation,
    parameters: SimulationParameters,
    vis: Seq<bool>,
    ord: Map<int, int>,
    cycles: Seq<ClockCycle>,
) -> bool {
    let n = sim.node_count_spec();
    &&& vis.len() == n
    &&& cycles.len() == n
    &&& vis[sim.end_node as int]
    &&& forall|v: int|
        0 <= v < n && vis[v] ==> #[trigger] node_ok(sim, parameters, vis, ord, cycles, v)
    &&& forall|v: int| 0 <= v < n && !vis[v] ==> cycles[v] == 0
    &&& forall|vis2: Seq<bool>|
        vis2.len() == n && vis2[sim.end_node as int] && #[trigger] closed_set(
            sim,
            parameters,
            vis2,
        ) ==> forall|v: int| 0 <= v < n && vis[v] ==> vis2[v]
}

/// The full contract of [`CompiledSimulation::resolve`]: a schedule
/// satisfying [`schedule_post`] on success, a constrained error otherwise.
pub open spec fn resolve_post(
    sim: CompiledSimulation,
    parameters: SimulationParameters,
    r: Result<Vec<ClockCycle>, SimulationError>,
) -> bool {
    match r {
        Ok(cycles) => exists|vis: Seq<bool>, ord: Map<int, int>|
            schedule_post(sim, parameters, vis, ord, cycles@),
        Err(e) => error_post(sim, parameters, e),
    }
}

/// What a failed replay guarantees about its error: a deadlock names a real
/// dependency cycle that every replay of these parameters must contain, and
/// a missing-parameter error names a parameter that is genuinely absent and
/// genuinely needed.
pub open spec fn error_post(
    sim: CompiledSimulation,
    parameters: SimulationParameters,
    e: SimulationError,
) -> bool {
    &&& (e is DeadlockDetected ==> exists|c: Seq<int>|
        {
            &&& is_dependency_cycle(sim, parameters, c)
            &&& forall|i: int| 0 <= i < c.len() ==> 0 <= #[trigger] c[i] < sim.node_count_spec()
            &&& forall|vis2: Seq<bool>|
                vis2.len() == sim.node_count_spec() && vis2[sim.end_node as int]
                    && #[trigger] closed_set(sim, parameters, vis2) ==> forall|i: int|
                    0 <= i < c.len() ==> vis2[#[trigger] c[i]]
        })
    &&& (e matches SimulationError::FifoDepthNotProvided(id) ==> parameters.fifo_depth_spec(id)
        is None && needed_by_every_cover(sim, parameters, e))
    &&& (e matches SimulationError::AxiDelayNotProvided(a) ==> parameters.axi_delay_spec(a)
        is None && needed_by_every_cover(sim, parameters, e))
    &&& !(e is FifoWidthNotProvided)
}

/// A resolved in-edge of a well-formed simulation points at a real node.
proof fn lemma_resolve_ok_in_bounds(
    sim: CompiledSimulation,
    parameters: SimulationParameters,
    e: Edge,
)
    requires
        sim.wf(),
        e.in_bounds(sim.node_count_spec()),
        e.resolve_spec(sim, parameters) matches Ok(Some(u)),
    ensures
        (e.resolve_spec(sim, parameters)->Ok_0->0).node < sim.node_count_spec(),
{
    match e {
        Edge::FifoWar { fifo, index } => {
            if sim.fifo_reads_spec(fifo.id) is Some {
                lemma_alist_find_is_entry(sim.fifo_nodes@, fifo.id);
                let nodes = crate::alist::alist_find(sim.fifo_nodes@, fifo.id)->0;
                let i = choose|i: int|
                    0 <= i < sim.fifo_nodes@.len() && sim.fifo_nodes@[i].1 == nodes;
                assert(sim.fifo_nodes@[i].1.in_bounds(sim.node_count_spec()));
            }
        },
        _ => {},
    }
}

/// Changing cycles outside the sources of `v`'s first `k` in-edges does not
/// change the maximum they impose.
proof fn lemma_max_in_agrees(
    sim: CompiledSimulation,
    parameters: SimulationParameters,
    cycles1: Seq<ClockCycle>,
    cycles2: Seq<ClockCycle>,
    v: int,
    k: int,
)
    requires
        forall|j: int|
            0 <= j < k && (#[trigger] resolved_in_edge(sim, parameters, v, j)) is Ok
                && resolved_in_edge(sim, parameters, v, j)->Ok_0 is Some ==> cycles1[src_of(
                sim,
                parameters,
                v,
                j,
            ).node as int] == cycles2[src_of(sim, parameters, v, j).node as int],
    ensures
        max_in_upto(sim, parameters, cycles1, v, k) == max_in_upto(sim, parameters, cycles2, v, k),
    decreases k,
{
    if k > 0 {
        lemma_max_in_agrees(sim, parameters, cycles1, cycles2, v, k - 1);
    }
}

/// The maximum over in-edges is at least what each single in-edge imposes.
pub proof fn lemma_max_in_ge(
    sim: CompiledSimulation,
    parameters: SimulationParameters,
    cycles: Seq<ClockCycle>,
    v: int,
    k: int,
    j: int,
)
    requires
        0 <= j < k,
        resolved_in_edge(sim, parameters, v, j) matches Ok(Some(u)),
    ensures
        max_in_upto(sim, parameters, cycles, v, k) >= src_of(sim, parameters, v, j).resolve_spec(
            cycles,
        ),
    decreases k,
{
    if j < k - 1 {
        lemma_max_in_ge(sim, parameters, cycles, v, k - 1, j);
    }
}

/// Number of marked nodes among the first `i`.
pub open spec fn num_marked(visited: Seq<bool>, visiting: Seq<bool>, i: int) -> int
    decreases i,
{
    if i <= 0 {
        0
    } else {
        num_marked(visited, visiting, i - 1) + if visited[i - 1] || visiting[i - 1] {
            1int
        } else {
            0int
        }
    }
}

proof fn lemma_num_marked_agrees(
    vd1: Seq<bool>,
    vg1: Seq<bool>,
    vd2: Seq<bool>,
    vg2: Seq<bool>,
    i: int,
)
    requires
        forall|j: int| 0 <= j < i ==> (vd1[j] || vg1[j]) == (vd2[j] || vg2[j]),
    ensures
        num_marked(vd1, vg1, i) == num_marked(vd2, vg2, i),
    decreases i,
{
    if i > 0 {
        lemma_num_marked_agrees(vd1, vg1, vd2, vg2, i - 1);
    }
}

proof fn lemma_num_marked_set(
    vd1: Seq<bool>,
    vg1: Seq<bool>,
    vd2: Seq<bool>,
    vg2: Seq<bool>,
    i: int,
    v: int,
)
    requires
        0 <= v < i,
        !(vd1[v] || vg1[v]),
        vd2[v] || vg2[v],
        forall|j: int| 0 <= j < i && j != v ==> (vd1[j] || vg1[j]) == (vd2[j] || vg2[j]),
    ensures
        num_marked(vd2, vg2, i) == num_marked(vd1, vg1, i) + 1,
    decreases i,
{
    if v == i - 1 {
        lemma_num_marked_agrees(vd1, vg1, vd2, vg2, i - 1);
    } else {
        lemma_num_marked_set(vd1, vg1, vd2, vg2, i - 1, v);
    }
}

proof fn lemma_num_marked_le(visited: Seq<bool>, visiting: Seq<bool>, i: int)
    requires
        i >= 0,
    ensures
        num_marked(visited, visiting, i) <= i,
    decreases i,
{
    if i > 0 {
        lemma_num_marked_le(visited, visiting, i - 1);
    }
}

/// The source point the `k`-th in-edge of `v` resolves to.
pub open spec fn src_of(
    sim: CompiledSimulation,
    parameters: SimulationParameters,
    v: int,
    k: int,
) -> NodeWithDelay {
    resolved_in_edge(sim, parameters, v, k)->Ok_0->0
}

/// Whether some pending step concerns node `v`.
pub open spec fn in_stack(stack: Seq<Visit>, v: int) -> bool {
    exists|j: int| 0 <= j < stack.len() && (#[trigger] stack[j]).node == v
}

/// Whether a step above position `i` concerns node `v`.
pub open spec fn covered_above(stack: Seq<Visit>, v: int, i: int) -> bool {
    exists|j: int| i < j < stack.len() && (#[trigger] stack[j]).node == v
}

/// Bookkeeping soundness of the walk's stack: entries name real nodes,
/// finish steps concern nodes currently being visited, no node has two finish
/// steps, and every node being visited has its finish step pending.
pub open spec fn stack_basic(
    sim: CompiledSimulation,
    stack: Seq<Visit>,
    visiting: Seq<bool>,
) -> bool {
    &&& forall|i: int| 0 <= i < stack.len() ==> (#[trigger] stack[i]).node < sim.node_count_spec()
    &&& forall|i: int|
        0 <= i < stack.len() && !(#[trigger] stack[i]).preorder ==> visiting[stack[i].node as int]
    &&& forall|i: int, j: int|
        0 <= i < j < stack.len() && !(#[trigger] stack[i]).preorder && !(
        #[trigger] stack[j]).preorder ==> stack[i].node != stack[j].node
}

/// What a pending finish step at position `i` already knows: all in-edges of
/// its node resolve, and every resolved source is either finished or will be
/// reached by a step above `i`.
pub open spec fn finish_step_ok(
    sim: CompiledSimulation,
    parameters: SimulationParameters,
    stack: Seq<Visit>,
    visited: Seq<bool>,
    i: int,
) -> bool {
    !stack[i].preorder ==> {
        let v = stack[i].node as int;
        &&& forall|k: int|
            0 <= k < in_degree(sim, v) ==> (#[trigger] resolved_in_edge(sim, parameters, v, k))
                is Ok
        &&& forall|k: int|
            0 <= k < in_degree(sim, v) && (#[trigger] resolved_in_edge(sim, parameters, v, k))
                is Ok && resolved_in_edge(sim, parameters, v, k)->Ok_0 is Some ==> {
                let u = src_of(sim, parameters, v, k);
                visited[u.node as int] || covered_above(stack, u.node as int, i)
            }
    }
}

/// Pushing an entry extends the finish chain exactly when it is a finish
/// step.
proof fn lemma_stack_fins_push(s: Seq<Visit>, e: Visit)
    ensures
        stack_fins(s.push(e)) == if e.preorder {
            stack_fins(s)
        } else {
            stack_fins(s).push(e.node as int)
        },
{
    lemma_fins_below_agrees(s.push(e), s, s.len() as int);
    assert(s.push(e)[s.len() as int] == e);
    if e.preorder {
        assert(fins_below(s.push(e), s.len() as int + 1) =~= stack_fins(s));
    } else {
        assert(fins_below(s.push(e), s.len() as int + 1) =~= stack_fins(s).push(e.node as int));
    }
}

/// Popping an entry shortens the finish chain exactly when it is a finish
/// step.
proof fn lemma_stack_fins_drop(s: Seq<Visit>)
    requires
        s.len() > 0,
    ensures
        stack_fins(s) == if s[s.len() - 1].preorder {
            stack_fins(s.drop_last())
        } else {
            stack_fins(s.drop_last()).push(s[s.len() - 1].node as int)
        },
{
    lemma_fins_below_agrees(s, s.drop_last(), s.len() - 1);
    if s[s.len() - 1].preorder {
        assert(fins_below(s, s.len() as int) =~= stack_fins(s.drop_last()));
    } else {
        assert(fins_below(s, s.len() as int) =~= stack_fins(s.drop_last()).push(
            s[s.len() - 1].node as int,
        ));
    }
}

/// Popping an exploration step leaves the finish chain unchanged.
proof fn lemma_chain_pop_pre(
    sim: CompiledSimulation,
    parameters: SimulationParameters,
    old_stack: Seq<Visit>,
    new_stack: Seq<Visit>,
    visiting: Seq<bool>,
)
    requires
        chain_ok(sim, parameters, old_stack, visiting),
        old_stack.len() > 0,
        old_stack[old_stack.len() - 1].preorder,
        new_stack == old_stack.drop_last(),
    ensures
        chain_ok(sim, parameters, new_stack, visiting),
        stack_fins(new_stack) == stack_fins(old_stack),
{
    lemma_stack_fins_drop(old_stack);
    assert forall|i: int|
        0 <= i < new_stack.len() && (#[trigger] new_stack[i]).preorder implies {
        let fb = fins_below(new_stack, i);
        &&& (fb.len() == 0 ==> new_stack[i].node == sim.end_node)
        &&& (fb.len() > 0 ==> is_source_of(
            sim,
            parameters,
            fb[fb.len() - 1],
            new_stack[i].node as int,
        ))
    } by {
        lemma_fins_below_agrees(new_stack, old_stack, i);
        assert(new_stack[i] == old_stack[i]);
    }
}

/// Converting the popped exploration step into its finish step puts its node
/// on top of the finish chain.
proof fn lemma_chain_push_finish(
    sim: CompiledSimulation,
    parameters: SimulationParameters,
    old_stack: Seq<Visit>,
    new_stack: Seq<Visit>,
    old_visiting: Seq<bool>,
    new_visiting: Seq<bool>,
    vi: int,
)
    requires
        chain_ok(sim, parameters, old_stack, old_visiting),
        old_stack.len() > 0,
        old_stack[old_stack.len() - 1].preorder,
        old_stack[old_stack.len() - 1].node as int == vi,
        0 <= vi < old_visiting.len(),
        !old_visiting[vi],
        new_visiting == old_visiting.update(vi, true),
        new_stack == old_stack.drop_last().push(
            Visit { node: old_stack[old_stack.len() - 1].node, preorder: false },
        ),
    ensures
        chain_ok(sim, parameters, new_stack, new_visiting),
        stack_fins(new_stack) == stack_fins(old_stack).push(vi),
{
    lemma_stack_fins_drop(old_stack);
    lemma_stack_fins_push(
        old_stack.drop_last(),
        Visit { node: old_stack[old_stack.len() - 1].node, preorder: false },
    );
    lemma_fins_below_agrees(old_stack, old_stack.drop_last(), old_stack.len() - 1);
    let fins_old = stack_fins(old_stack);
    let fins_new = stack_fins(new_stack);
    assert(fins_new == fins_old.push(vi));
    assert(fins_below(old_stack, old_stack.len() - 1) == fins_old);
    assert forall|w: int|
        0 <= w < new_visiting.len() && #[trigger] new_visiting[w] implies fins_new.contains(w) by {
        if w == vi {
            assert(fins_new[fins_new.len() - 1] == vi);
        } else {
            assert(old_visiting[w]);
            let j = choose|j: int| 0 <= j < fins_old.len() && fins_old[j] == w;
            assert(fins_new[j] == w);
        }
    }
    assert forall|j: int| 0 <= j < fins_new.len() implies 0 <= #[trigger] fins_new[j]
        < new_visiting.len() && new_visiting[fins_new[j]] by {
        if j < fins_old.len() {
            assert(fins_new[j] == fins_old[j]);
            assert(old_visiting[fins_old[j]]);
        } else {
            assert(fins_new[j] == vi);
        }
    }
    assert forall|j1: int, j2: int|
        0 <= j1 < j2 < fins_new.len() implies #[trigger] fins_new[j1] != #[trigger] fins_new[j2] by {
        if j2 < fins_old.len() {
            assert(fins_new[j1] == fins_old[j1]);
            assert(fins_new[j2] == fins_old[j2]);
        } else {
            assert(fins_new[j2] == vi);
            assert(fins_new[j1] == fins_old[j1]);
            assert(old_visiting[fins_old[j1]]);
        }
    }
    assert forall|i: int|
        0 <= i < fins_new.len() - 1 implies is_source_of(
        sim,
        parameters,
        fins_new[i],
        #[trigger] fins_new[i + 1],
    ) by {
        if i + 1 < fins_old.len() {
            assert(fins_new[i] == fins_old[i]);
            assert(fins_new[i + 1] == fins_old[i + 1]);
        } else {
            assert(fins_new[i + 1] == vi);
            assert(fins_new[i] == fins_old[fins_old.len() - 1]);
        }
    }
    assert forall|i: int|
        0 <= i < new_stack.len() && (#[trigger] new_stack[i]).preorder implies {
        let fb = fins_below(new_stack, i);
        &&& (fb.len() == 0 ==> new_stack[i].node == sim.end_node)
        &&& (fb.len() > 0 ==> is_source_of(
            sim,
            parameters,
            fb[fb.len() - 1],
            new_stack[i].node as int,
        ))
    } by {
        assert(i < new_stack.len() - 1);
        lemma_fins_below_agrees(new_stack, old_stack, i);
        assert(new_stack[i] == old_stack[i]);
    }
}

/// Pushing an exploration step whose node is a resolved source of the chain
/// top keeps the chain sound.
proof fn lemma_chain_push_pre(
    sim: CompiledSimulation,
    parameters: SimulationParameters,
    old_stack: Seq<Visit>,
    new_stack: Seq<Visit>,
    visiting: Seq<bool>,
    u_node: int,
)
    requires
        chain_ok(sim, parameters, old_stack, visiting),
        stack_fins(old_stack).len() > 0,
        is_source_of(
            sim,
            parameters,
            stack_fins(old_stack)[stack_fins(old_stack).len() - 1],
            u_node,
        ),
        new_stack.len() == old_stack.len() + 1,
        new_stack == old_stack.push(new_stack[new_stack.len() - 1]),
        new_stack[new_stack.len() - 1].preorder,
        new_stack[new_stack.len() - 1].node as int == u_node,
    ensures
        chain_ok(sim, parameters, new_stack, visiting),
        stack_fins(new_stack) == stack_fins(old_stack),
{
    lemma_stack_fins_push(old_stack, new_stack[new_stack.len() - 1]);
    lemma_fins_below_agrees(new_stack, old_stack, old_stack.len() as int);
    assert(fins_below(new_stack, new_stack.len() - 1) == stack_fins(old_stack));
    assert forall|i: int|
        0 <= i < new_stack.len() && (#[trigger] new_stack[i]).preorder implies {
        let fb = fins_below(new_stack, i);
        &&& (fb.len() == 0 ==> new_stack[i].node == sim.end_node)
        &&& (fb.len() > 0 ==> is_source_of(
            sim,
            parameters,
            fb[fb.len() - 1],
            new_stack[i].node as int,
        ))
    } by {
        if i < new_stack.len() - 1 {
            lemma_fins_below_agrees(new_stack, old_stack, i);
            assert(new_stack[i] == old_stack[i]);
        }
    }
}

/// Popping a finish step takes its node off the chain top and out of the
/// nodes under visit.
proof fn lemma_chain_pop_finish(
    sim: CompiledSimulation,
    parameters: SimulationParameters,
    old_stack: Seq<Visit>,
    new_stack: Seq<Visit>,
    old_visiting: Seq<bool>,
    new_visiting: Seq<bool>,
    vi: int,
)
    requires
        chain_ok(sim, parameters, old_stack, old_visiting),
        old_stack.len() > 0,
        !old_stack[old_stack.len() - 1].preorder,
        old_stack[old_stack.len() - 1].node as int == vi,
        0 <= vi < old_visiting.len(),
        new_visiting == old_visiting.update(vi, false),
        new_stack == old_stack.drop_last(),
    ensures
        chain_ok(sim, parameters, new_stack, new_visiting),
{
    lemma_stack_fins_drop(old_stack);
    let fins_old = stack_fins(old_stack);
    let fins_new = stack_fins(new_stack);
    assert(fins_old == fins_new.push(vi));
    assert(fins_old[fins_old.len() - 1] == vi);
    assert forall|w: int|
        0 <= w < new_visiting.len() && #[trigger] new_visiting[w] implies fins_new.contains(w) by {
        assert(old_visiting[w]);
        assert(w != vi);
        let j = choose|j: int| 0 <= j < fins_old.len() && fins_old[j] == w;
        assert(j < fins_old.len() - 1);
        assert(fins_new[j] == w);
    }
    assert forall|j: int| 0 <= j < fins_new.len() implies 0 <= #[trigger] fins_new[j]
        < new_visiting.len() && new_visiting[fins_new[j]] by {
        assert(fins_new[j] == fins_old[j]);
        assert(fins_old[j] != fins_old[fins_old.len() - 1]);
    }
    assert forall|j1: int, j2: int|
        0 <= j1 < j2 < fins_new.len() implies #[trigger] fins_new[j1] != #[trigger] fins_new[j2] by {
        assert(fins_new[j1] == fins_old[j1]);
        assert(fins_new[j2] == fins_old[j2]);
    }
    assert forall|i: int|
        0 <= i < fins_new.len() - 1 implies is_source_of(
        sim,
        parameters,
        fins_new[i],
        #[trigger] fins_new[i + 1],
    ) by {
        assert(fins_new[i] == fins_old[i]);
        assert(fins_new[i + 1] == fins_old[i + 1]);
    }
    assert forall|i: int|
        0 <= i < new_stack.len() && (#[trigger] new_stack[i]).preorder implies {
        let fb = fins_below(new_stack, i);
        &&& (fb.len() == 0 ==> new_stack[i].node == sim.end_node)
        &&& (fb.len() > 0 ==> is_source_of(
            sim,
            parameters,
            fb[fb.len() - 1],
            new_stack[i].node as int,
        ))
    } by {
        lemma_fins_below_agrees(new_stack, old_stack, i);
        assert(new_stack[i] == old_stack[i]);
    }
}

/// Reaching a node already under visit closes a dependency cycle through
/// nodes under visit.
proof fn lemma_deadlock_cycle(
    sim: CompiledSimulation,
    parameters: SimulationParameters,
    old_stack: Seq<Visit>,
    visiting: Seq<bool>,
    vi: int,
)
    requires
        chain_ok(sim, parameters, old_stack, visiting),
        old_stack.len() > 0,
        old_stack[old_stack.len() - 1].preorder,
        old_stack[old_stack.len() - 1].node as int == vi,
        0 <= vi < visiting.len(),
        visiting[vi],
    ensures
        exists|c: Seq<int>|
            {
                &&& is_dependency_cycle(sim, parameters, c)
                &&& forall|i: int|
                    0 <= i < c.len() ==> 0 <= #[trigger] c[i] < visiting.len() && visiting[c[i]]
            },
{
    lemma_stack_fins_drop(old_stack);
    let fins = stack_fins(old_stack);
    assert(fins.contains(vi));
    let j = choose|j: int| 0 <= j < fins.len() && fins[j] == vi;
    let c = fins.subrange(j, fins.len() as int).push(vi);
    assert(c[0] == vi);
    assert(c[c.len() - 1] == vi);
    assert(fins_below(old_stack, old_stack.len() - 1) == fins);
    assert(is_source_of(sim, parameters, fins[fins.len() - 1], vi));
    assert forall|i: int| 0 <= i < c.len() - 1 implies is_source_of(
        sim,
        parameters,
        #[trigger] c[i],
        c[i + 1],
    ) by {
        if i < c.len() - 2 {
            assert(c[i] == fins[j + i]);
            assert(c[i + 1] == fins[j + i + 1]);
        } else {
            assert(c[i] == fins[fins.len() - 1]);
            assert(c[i + 1] == vi);
        }
    }
    assert(is_dependency_cycle(sim, parameters, c));
    assert forall|i: int| 0 <= i < c.len() implies 0 <= #[trigger] c[i] < visiting.len()
        && visiting[c[i]] by {
        if i < c.len() - 1 {
            assert(c[i] == fins[j + i]);
        } else {
            assert(c[i] == vi);
        }
    }
}

/// Pushing a new exploration step on top of the stack invalidates no pending
/// finish step's knowledge.
proof fn lemma_finish_steps_push(
    sim: CompiledSimulation,
    parameters: SimulationParameters,
    stack: Seq<Visit>,
    visited: Seq<bool>,
    x: Visit,
    excl: int,
)
    requires
        forall|i: int|
            0 <= i < stack.len() && i != excl ==> #[trigger] finish_step_ok(
                sim,
                parameters,
                stack,
                visited,
                i,
            ),
        x.preorder,
    ensures
        forall|i: int|
            0 <= i < stack.push(x).len() && i != excl ==> #[trigger] finish_step_ok(
                sim,
                parameters,
                stack.push(x),
                visited,
                i,
            ),
{
    let stack2 = stack.push(x);
    assert forall|i: int| 0 <= i < stack2.len() && i != excl implies #[trigger] finish_step_ok(
        sim,
        parameters,
        stack2,
        visited,
        i,
    ) by {
        if i < stack.len() {
            assert(finish_step_ok(sim, parameters, stack, visited, i));
            assert(stack2[i] == stack[i]);
            if !stack2[i].preorder {
                let v = stack2[i].node as int;
                assert forall|k: int|
                    0 <= k < in_degree(sim, v) && (#[trigger] resolved_in_edge(
                        sim,
                        parameters,
                        v,
                        k,
                    )) is Ok && resolved_in_edge(sim, parameters, v, k)->Ok_0 is Some implies {
                    let u = src_of(sim, parameters, v, k);
                    visited[u.node as int] || covered_above(stack2, u.node as int, i)
                } by {
                    let u = src_of(sim, parameters, v, k);
                    if !visited[u.node as int] {
                        let j = choose|j: int|
                            i < j < stack.len() && (#[trigger] stack[j]).node == u.node as int;
                        assert(stack2[j] == stack[j]);
                        assert(covered_above(stack2, u.node as int, i));
                    }
                }
            }
        } else {
            assert(stack2[i] == x);
        }
    }
}

/// A step that touches no node outside the already-touched ones keeps the
/// walk inside every dependency-closed set holding the end node.
proof fn lemma_touched_preserved(
    sim: CompiledSimulation,
    parameters: SimulationParameters,
    stack1: Seq<Visit>,
    visited1: Seq<bool>,
    visiting1: Seq<bool>,
    stack2: Seq<Visit>,
    visited2: Seq<bool>,
    visiting2: Seq<bool>,
)
    requires
        touched_minimal(sim, parameters, stack1, visited1, visiting1),
        forall|w: int|
            0 <= w < sim.node_count_spec() && (visited2[w] || visiting2[w] || in_stack(stack2, w))
                ==> visited1[w] || visiting1[w] || in_stack(stack1, w),
    ensures
        touched_minimal(sim, parameters, stack2, visited2, visiting2),
{
}

/// Every node the walk has touched belongs to every dependency-closed set
/// that holds the end node; this pins the final scheduled set to the least
/// such set.
pub open spec fn touched_minimal(
    sim: CompiledSimulation,
    parameters: SimulationParameters,
    stack: Seq<Visit>,
    visited: Seq<bool>,
    visiting: Seq<bool>,
) -> bool {
    forall|vis2: Seq<bool>|
        vis2.len() == sim.node_count_spec() && vis2[sim.end_node as int] && #[trigger] closed_set(
            sim,
            parameters,
            vis2,
        ) ==> forall|v: int|
            0 <= v < sim.node_count_spec() && (visited[v] || visiting[v] || in_stack(stack, v))
                ==> #[trigger] vis2[v]
}

/// The law that the schedule respects every dependency: a scheduled node's
/// cycle is at least each resolved in-edge's source cycle plus that edge's
/// delay, and is exactly the largest of them.
pub proof fn lemma_monotone_schedule(
    sim: CompiledSimulation,
    parameters: SimulationParameters,
    vis: Seq<bool>,
    ord: Map<int, int>,
    cycles: Seq<ClockCycle>,
    v: int,
    k: int,
)
    requires
        schedule_post(sim, parameters, vis, ord, cycles),
        0 <= v < sim.node_count_spec(),
        vis[v],
        0 <= k < in_degree(sim, v),
        resolved_in_edge(sim, parameters, v, k) matches Ok(Some(u)),
    ensures
        cycles[v] >= sat_add(cycles[src_of(sim, parameters, v, k).node as int], src_of(
            sim,
            parameters,
            v,
            k,
        ).delay),
        cycles[v] == max_in_upto(sim, parameters, cycles, v, in_degree(sim, v)),
{
    assert(node_ok(sim, parameters, vis, ord, cycles, v));
    lemma_max_in_ge(sim, parameters, cycles, v, in_degree(sim, v), k);
}

/// A scheduled set is itself closed under resolved dependencies.
proof fn lemma_schedule_closed(
    sim: CompiledSimulation,
    parameters: SimulationParameters,
    vis: Seq<bool>,
    ord: Map<int, int>,
    cycles: Seq<ClockCycle>,
)
    requires
        schedule_post(sim, parameters, vis, ord, cycles),
    ensures
        closed_set(sim, parameters, vis),
{
    assert forall|v: int, k: int|
        (0 <= v < vis.len() && vis[v] && 0 <= k < in_degree(sim, v) && (
        #[trigger] resolved_in_edge(sim, parameters, v, k)) is Ok && resolved_in_edge(
            sim,
            parameters,
            v,
            k,
        )->Ok_0 is Some) implies {
        let u = src_of(sim, parameters, v, k);
        0 <= u.node < vis.len() && vis[u.node as int]
    } by {
        assert(node_ok(sim, parameters, vis, ord, cycles, v));
    }
}

/// Two successful replays schedule the same set of nodes.
proof fn lemma_scheduled_set_unique(
    sim: CompiledSimulation,
    parameters: SimulationParameters,
    vis1: Seq<bool>,
    ord1: Map<int, int>,
    cycles1: Seq<ClockCycle>,
    vis2: Seq<bool>,
    ord2: Map<int, int>,
    cycles2: Seq<ClockCycle>,
)
    requires
        schedule_post(sim, parameters, vis1, ord1, cycles1),
        schedule_post(sim, parameters, vis2, ord2, cycles2),
    ensures
        vis1 == vis2,
{
    lemma_schedule_closed(sim, parameters, vis1, ord1, cycles1);
    lemma_schedule_closed(sim, parameters, vis2, ord2, cycles2);
    assert forall|v: int| 0 <= v < vis1.len() implies vis1[v] == vis2[v] by {
        if vis1[v] {
            assert(vis2[v]);
        }
        if vis2[v] {
            assert(vis1[v]);
        }
    }
    assert(vis1 =~= vis2);
}

/// Within one scheduled set, the cycle of each scheduled node is determined
/// by the graph and the parameters alone.
proof fn lemma_cycles_agree_at(
    sim: CompiledSimulation,
    parameters: SimulationParameters,
    vis: Seq<bool>,
    ord1: Map<int, int>,
    cycles1: Seq<ClockCycle>,
    ord2: Map<int, int>,
    cycles2: Seq<ClockCycle>,
    v: int,
)
    requires
        schedule_post(sim, parameters, vis, ord1, cycles1),
        schedule_post(sim, parameters, vis, ord2, cycles2),
        0 <= v < sim.node_count_spec(),
        vis[v],
    ensures
        cycles1[v] == cycles2[v],
    decreases ord1[v],
{
    assert(node_ok(sim, parameters, vis, ord1, cycles1, v));
    assert(node_ok(sim, parameters, vis, ord2, cycles2, v));
    assert forall|k: int|
        0 <= k < in_degree(sim, v) && (#[trigger] resolved_in_edge(sim, parameters, v, k)) is Ok
            && resolved_in_edge(sim, parameters, v, k)->Ok_0 is Some implies cycles1[src_of(
        sim,
        parameters,
        v,
        k,
    ).node as int] == cycles2[src_of(sim, parameters, v, k).node as int] by {
        let u = src_of(sim, parameters, v, k);
        assert(vis[u.node as int]);
        assert(node_ok(sim, parameters, vis, ord1, cycles1, u.node as int));
        assert(0 <= ord1[u.node as int] < ord1[v]);
        lemma_cycles_agree_at(
            sim,
            parameters,
            vis,
            ord1,
            cycles1,
            ord2,
            cycles2,
            u.node as int,
        );
    }
    lemma_max_in_agrees(sim, parameters, cycles1, cycles2, v, in_degree(sim, v));
}

/// The law that a replay is a function of the compiled graph and the
/// parameters: any two schedules satisfying the replay's contract are equal,
/// node for node.
pub proof fn lemma_schedule_deterministic(
    sim: CompiledSimulation,
    parameters: SimulationParameters,
    vis1: Seq<bool>,
    ord1: Map<int, int>,
    cycles1: Seq<ClockCycle>,
    vis2: Seq<bool>,
    ord2: Map<int, int>,
    cycles2: Seq<ClockCycle>,
)
    requires
        schedule_post(sim, parameters, vis1, ord1, cycles1),
        schedule_post(sim, parameters, vis2, ord2, cycles2),
    ensures
        cycles1 == cycles2,
{
    lemma_scheduled_set_unique(
        sim,
        parameters,
        vis1,
        ord1,
        cycles1,
        vis2,
        ord2,
        cycles2,
    );
    assert forall|v: int| 0 <= v < cycles1.len() implies cycles1[v] == cycles2[v] by {
        if vis1[v] {
            lemma_cycles_agree_at(sim, parameters, vis1, ord1, cycles1, ord2, cycles2, v);
        }
    }
    assert(cycles1 =~= cycles2);
}

/// The law that two replays under the same parameters return the same
/// schedule.
pub proof fn lemma_resolve_deterministic(
    sim: CompiledSimulation,
    parameters: SimulationParameters,
    r1: Result<Vec<ClockCycle>, SimulationError>,
    r2: Result<Vec<ClockCycle>, SimulationError>,
)
    requires
        resolve_post(sim, parameters, r1),
        resolve_post(sim, parameters, r2),
        r1 is Ok,
        r2 is Ok,
    ensures
        r1->Ok_0@ == r2->Ok_0@,
{
    let (vis1, ord1) = choose|vis: Seq<bool>, ord: Map<int, int>|
        schedule_post(sim, parameters, vis, ord, r1->Ok_0@);
    let (vis2, ord2) = choose|vis: Seq<bool>, ord: Map<int, int>|
        schedule_post(sim, parameters, vis, ord, r2->Ok_0@);
    lemma_schedule_deterministic(
        sim,
        parameters,
        vis1,
        ord1,
        r1->Ok_0@,
        vis2,
        ord2,
        r2->Ok_0@,
    );
}

/// A vector of `n` copies of `value`.
fn filled_vec<T: Copy>(n: usize, value: T) -> (r: Vec<T>)
    ensures
        r@.len() == n,
        forall|i: int| 0 <= i < n ==> r@[i] == value,
{
    let mut r: Vec<T> = Vec::new();
    let mut i: usize = 0;
    while i < n
        invariant
            i <= n,
            r@.len() == i,
            forall|j: int| 0 <= j < i ==> r@[j] == value,
        decreases n - i,
    {
        r.push(value);
        i += 1;
    }
    r
}

impl CompiledSimulation {
    /// Computes the cycle of every node under the given parameters by a
    /// depth-first walk from the end node, detecting dependency cycles.
    ///
    /// On success the returned cycles satisfy [`schedule_post`] together with
    /// some scheduled set and finishing order: every node the end node
    /// depends on carries exactly the latest cycle its resolved in-edges
    /// impose, and no other node is touched.
    #[verifier::rlimit(100)]
    pub fn resolve(&self, parameters: &SimulationParameters) -> (r: Result<
        Vec<ClockCycle>,
        SimulationError,
    >)
        requires
            self.wf(),
        ensures
            resolve_post(*self, *parameters, r),
            r is Ok <==> resolvable(*self, *parameters),
    {
        let node_count = self.graph.node_offsets.len();
        let ghost n = self.node_count_spec();
        let ghost sim = *self;
        let ghost params = *parameters;
        let mut node_cycles: Vec<ClockCycle> = filled_vec(node_count, 0u64);
        let mut visited: Vec<bool> = filled_vec(node_count, false);
        let mut visiting: Vec<bool> = filled_vec(node_count, false);
        let mut stack: Vec<Visit> = Vec::new();
        stack.push(Visit { node: self.end_node, preorder: true });
        let ghost mut ord: Map<int, int> = Map::empty();
        let ghost mut counter: int = 0;

        proof {
            assert(stack@.len() == 1);
            assert(stack@[0] == (Visit { node: self.end_node, preorder: true }));
            assert(in_stack(stack@, sim.end_node as int));
            assert(fins_below(stack@, 0) =~= Seq::<int>::empty());
            assert(stack_fins(stack@) =~= Seq::<int>::empty());
            assert(chain_ok(sim, params, stack@, visiting@));
        }

        while stack.len() != 0
            invariant
                sim == *self,
                params == *parameters,
                sim.wf(),
                n == sim.node_count_spec(),
                node_count as int == n,
                node_cycles@.len() == n,
                visited@.len() == n,
                visiting@.len() == n,
                counter >= 0,
                stack_basic(sim, stack@, visiting@),
                forall|i: int|
                    0 <= i < stack@.len() ==> #[trigger] finish_step_ok(
                        sim,
                        params,
                        stack@,
                        visited@,
                        i,
                    ),
                forall|v: int| 0 <= v < n && visited@[v] ==> !visiting@[v],
                forall|v: int|
                    0 <= v < n && visited@[v] ==> #[trigger] node_ok(
                        sim,
                        params,
                        visited@,
                        ord,
                        node_cycles@,
                        v,
                    ),
                forall|v: int|
                    0 <= v < n && #[trigger] visited@[v] ==> ord.contains_key(v) && 0 <= ord[v]
                        < counter,
                forall|v: int| 0 <= v < n && !visited@[v] ==> node_cycles@[v] == 0,
                visited@[sim.end_node as int] || in_stack(stack@, sim.end_node as int),
                touched_minimal(sim, params, stack@, visited@, visiting@),
                chain_ok(sim, params, stack@, visiting@),
            decreases n - num_marked(visited@, visiting@, n), stack@.len(),
        {
            let ghost old_stack = stack@;
            let ghost old_visited = visited@;
            let ghost old_visiting = visiting@;
            let visit = stack.pop().unwrap();
            let v = visit.node;
            let v_usize = v as usize;
            let ghost vi = v as int;
            proof {
                assert(old_stack[old_stack.len() - 1] == visit);
                assert(stack@ == old_stack.drop_last());
                assert(visit.node < n);
                assert(vi < n);
            }
            if visit.preorder {
                if visited[v_usize] {
                    // Already scheduled; nothing to do.
                    proof {
                        assert forall|i: int| 0 <= i < stack@.len() implies #[trigger] finish_step_ok(
                            sim,
                            params,
                            stack@,
                            visited@,
                            i,
                        ) by {
                            assert(finish_step_ok(sim, params, old_stack, visited@, i));
                            assert(stack@[i] == old_stack[i]);
                            if !stack@[i].preorder {
                                let w = stack@[i].node as int;
                                assert forall|k: int|
                                    0 <= k < in_degree(sim, w) && (#[trigger] resolved_in_edge(
                                        sim,
                                        params,
                                        w,
                                        k,
                                    )) is Ok && resolved_in_edge(sim, params, w, k)->Ok_0 is Some
                                    implies visited@[src_of(sim, params, w, k).node as int]
                                    || covered_above(
                                    stack@,
                                    src_of(sim, params, w, k).node as int,
                                    i,
                                ) by {
                                    let u = src_of(sim, params, w, k);
                                    if !visited@[u.node as int] {
                                        assert(covered_above(old_stack, u.node as int, i));
                                        let j = choose|j: int|
                                            i < j < old_stack.len() && (#[trigger] old_stack[j]).node
                                                == u.node as int;
                                        if j < old_stack.len() - 1 {
                                            assert(stack@[j].node == u.node);
                                        } else {
                                            assert(u.node == v);
                                        }
                                    }
                                }
                            }
                        }
                        if !visited@[sim.end_node as int] {
                            let j = choose|j: int|
                                0 <= j < old_stack.len() && (#[trigger] old_stack[j]).node
                                    == sim.end_node as int;
                            if j < old_stack.len() - 1 {
                                assert(stack@[j].node == sim.end_node);
                                assert(in_stack(stack@, sim.end_node as int));
                            } else {
                                assert(v == sim.end_node);
                            }
                        }
                        assert forall|w: int|
                            0 <= w < n && (visited@[w] || visiting@[w] || in_stack(stack@, w))
                                implies old_visited[w] || old_visiting[w] || in_stack(
                            old_stack,
                            w,
                        ) by {
                            if !visited@[w] && !visiting@[w] {
                                let j = choose|j: int|
                                    0 <= j < stack@.len() && (#[trigger] stack@[j]).node == w;
                                assert(old_stack[j].node == w);
                                assert(in_stack(old_stack, w));
                            }
                        }
                        lemma_touched_preserved(
                            sim,
                            params,
                            old_stack,
                            old_visited,
                            old_visiting,
                            stack@,
                            visited@,
                            visiting@,
                        );
                        lemma_chain_pop_pre(sim, params, old_stack, stack@, visiting@);
                    }
                } else if visiting[v_usize] {
                    // A node already under visit was reached again: the
                    // pending finish steps from that node up, plus this step,
                    // close a dependency cycle.
                    proof {
                        lemma_deadlock_cycle(sim, params, old_stack, old_visiting, vi);
                        let c = choose|c: Seq<int>|
                            {
                                &&& is_dependency_cycle(sim, params, c)
                                &&& forall|i: int|
                                    0 <= i < c.len() ==> 0 <= #[trigger] c[i] < old_visiting.len()
                                        && old_visiting[c[i]]
                            };
                        assert forall|vis2: Seq<bool>|
                            vis2.len() == n && vis2[sim.end_node as int] && #[trigger] closed_set(
                                sim,
                                params,
                                vis2,
                            ) implies forall|i: int| 0 <= i < c.len() ==> vis2[#[trigger] c[i]] by {
                            assert forall|i: int| 0 <= i < c.len() implies vis2[
                            #[trigger] c[i]] by {
                                assert(old_visiting[c[i]]);
                                assert(vis2[c[i]]);
                            }
                        }
                        assert(error_post(sim, params, SimulationError::DeadlockDetected));
                        if resolvable(sim, params) {
                            let (vis2, ord2) = choose|vis2: Seq<bool>, ord2: Map<int, int>|
                                {
                                    &&& vis2.len() == sim.node_count_spec()
                                    &&& vis2[sim.end_node as int]
                                    &&& closed_set(sim, params, vis2)
                                    &&& covered_set(sim, params, vis2)
                                    &&& ordered_set(sim, params, vis2, ord2)
                                };
                            assert(forall|i: int| 0 <= i < c.len() ==> vis2[#[trigger] c[i]]);
                            lemma_ord_decreasing_along(
                                sim,
                                params,
                                c,
                                vis2,
                                ord2,
                                0,
                                c.len() - 1,
                            );
                            assert(ord2[c[c.len() - 1]] < ord2[c[0]]);
                        }
                        assert(!resolvable(sim, params));
                    }
                    return Err(SimulationError::DeadlockDetected);
                } else {
                    visiting.set(v_usize, true);
                    proof {
                        lemma_num_marked_set(
                            old_visited,
                            old_visiting,
                            visited@,
                            visiting@,
                            n,
                            vi,
                        );
                        lemma_num_marked_le(visited@, visiting@, n);
                    }
                    let ghost mark_stack = stack@;
                    stack.push(Visit { node: v, preorder: false });
                    let ghost p = stack@.len() - 1;
                    proof {
                        // The finish step replaces the popped exploration
                        // step at the same position with the same node.
                        assert(stack@.len() == old_stack.len());
                        assert forall|j: int| 0 <= j < stack@.len() implies (
                        #[trigger] stack@[j]).node == old_stack[j].node by {
                            if j < p {
                                assert(stack@[j] == old_stack[j]);
                            }
                        }
                        assert forall|i: int|
                            0 <= i < stack@.len() && i != p implies #[trigger] finish_step_ok(
                            sim,
                            params,
                            stack@,
                            visited@,
                            i,
                        ) by {
                            assert(finish_step_ok(sim, params, old_stack, visited@, i));
                            assert(stack@[i] == old_stack[i]);
                            if !stack@[i].preorder {
                                let w = stack@[i].node as int;
                                assert forall|k: int|
                                    0 <= k < in_degree(sim, w) && (#[trigger] resolved_in_edge(
                                        sim,
                                        params,
                                        w,
                                        k,
                                    )) is Ok && resolved_in_edge(sim, params, w, k)->Ok_0 is Some
                                    implies {
                                    let u = src_of(sim, params, w, k);
                                    visited@[u.node as int] || covered_above(
                                        stack@,
                                        u.node as int,
                                        i,
                                    )
                                } by {
                                    let u = src_of(sim, params, w, k);
                                    if !visited@[u.node as int] {
                                        assert(covered_above(old_stack, u.node as int, i));
                                        let j = choose|j: int|
                                            i < j < old_stack.len() && (#[trigger] old_stack[j]).node
                                                == u.node as int;
                                        assert(stack@[j].node == u.node);
                                        assert(covered_above(stack@, u.node as int, i));
                                    }
                                }
                            }
                        }
                        if !visited@[sim.end_node as int] {
                            let j = choose|j: int|
                                0 <= j < old_stack.len() && (#[trigger] old_stack[j]).node
                                    == sim.end_node as int;
                            assert(stack@[j].node == sim.end_node);
                            assert(in_stack(stack@, sim.end_node as int));
                        }
                        assert forall|w: int|
                            0 <= w < n && (visited@[w] || visiting@[w] || in_stack(stack@, w))
                                implies old_visited[w] || old_visiting[w] || in_stack(
                            old_stack,
                            w,
                        ) by {
                            if !visited@[w] && !old_visiting[w] {
                                if visiting@[w] {
                                    assert(w == vi);
                                    assert(old_stack[old_stack.len() - 1].node == w);
                                    assert(in_stack(old_stack, w));
                                } else {
                                    let j = choose|j: int|
                                        0 <= j < stack@.len() && (#[trigger] stack@[j]).node == w;
                                    assert(old_stack[j].node == w);
                                    assert(in_stack(old_stack, w));
                                }
                            }
                        }
                        lemma_touched_preserved(
                            sim,
                            params,
                            old_stack,
                            old_visited,
                            old_visiting,
                            stack@,
                            visited@,
                            visiting@,
                        );
                        // The finish chain gains this node at the top.
                        lemma_chain_push_finish(
                            sim,
                            params,
                            old_stack,
                            stack@,
                            old_visiting,
                            visiting@,
                            vi,
                        );
                        assert(stack_fins(stack@) == stack_fins(old_stack).push(vi));
                        assert(stack_fins(stack@)[stack_fins(stack@).len() - 1] == vi);
                    }

                    let ofs = self.graph.node_offsets[v_usize];
                    let end_ofs = if v_usize + 1 < node_count {
                        self.graph.node_offsets[v_usize + 1]
                    } else {
                        self.graph.edges.len()
                    };
                    let ghost deg = in_degree(sim, vi);
                    proof {
                        if vi + 1 < n {
                            assert(sim.graph.node_offsets@[vi] <= sim.graph.node_offsets@[vi + 1]);
                        }
                        assert(sim.graph.node_offsets@[vi] <= sim.graph.edges@.len());
                        assert(ofs <= end_ofs);
                        assert(end_ofs - ofs == deg);
                        assert forall|v2: int| 0 <= v2 < n && visited@[v2] implies
                            ord.contains_key(v2) && 0 <= ord[v2] < counter by {}
                    }
                    let mut k: usize = 0;
                    while k < end_ofs - ofs
                        invariant
                            sim == *self,
                            params == *parameters,
                            sim.wf(),
                            n == sim.node_count_spec(),
                            node_count as int == n,
                            node_cycles@.len() == n,
                            visited@.len() == n,
                            visiting@.len() == n,
                            counter >= 0,
                            0 <= vi < n,
                            visiting@[vi],
                            !visited@[vi],
                            ofs == sim.graph.edge_start(vi),
                            end_ofs == sim.graph.edge_end(vi),
                            deg == in_degree(sim, vi),
                            k <= deg,
                            0 <= p < stack@.len(),
                            stack@[p] == (Visit { node: v, preorder: false }),
                            stack@.subrange(0, p) == mark_stack,
                            forall|j: int| p < j < stack@.len() ==> (#[trigger] stack@[j]).preorder,
                            stack_basic(sim, stack@, visiting@),
                            forall|i: int|
                                0 <= i < stack@.len() && i != p ==> #[trigger] finish_step_ok(
                                    sim,
                                    params,
                                    stack@,
                                    visited@,
                                    i,
                                ),
                            forall|j: int|
                                0 <= j < k ==> (#[trigger] resolved_in_edge(sim, params, vi, j))
                                    is Ok,
                            forall|j: int|
                                0 <= j < k && (#[trigger] resolved_in_edge(sim, params, vi, j))
                                    is Ok && resolved_in_edge(sim, params, vi, j)->Ok_0 is Some
                                    ==> visited@[src_of(sim, params, vi, j).node as int]
                                    || covered_above(stack@, src_of(sim, params, vi, j).node as int, p),
                            forall|v2: int| 0 <= v2 < n && visited@[v2] ==> !visiting@[v2],
                            forall|v2: int|
                                0 <= v2 < n && visited@[v2] ==> #[trigger] node_ok(
                                    sim,
                                    params,
                                    visited@,
                                    ord,
                                    node_cycles@,
                                    v2,
                                ),
                            forall|v2: int|
                                0 <= v2 < n && #[trigger] visited@[v2] ==> ord.contains_key(v2)
                                    && 0 <= ord[v2] < counter,
                            forall|v2: int| 0 <= v2 < n && !visited@[v2] ==> node_cycles@[v2] == 0,
                            visited@[sim.end_node as int] || in_stack(stack@, sim.end_node as int),
                            touched_minimal(sim, params, stack@, visited@, visiting@),
                            chain_ok(sim, params, stack@, visiting@),
                            stack_fins(stack@).len() > 0,
                            stack_fins(stack@)[stack_fins(stack@).len() - 1] == vi,
                            num_marked(visited@, visiting@, n) == num_marked(
                                old_visited,
                                old_visiting,
                                n,
                            ) + 1,
                        decreases deg - k,
                    {
                        proof {
                            if vi + 1 < n {
                                assert(sim.graph.node_offsets@[vi + 1] <= sim.graph.edges@.len());
                            }
                            assert(ofs + k < sim.graph.edges@.len());
                        }
                        let edge = self.graph.edges[ofs + k];
                        proof {
                            assert(edge == in_edge_at(sim, vi, k as int));
                            assert(edge.in_bounds(n));
                        }
                        let resolved = edge.resolve(self, parameters);
                        match resolved {
                            Ok(Some(u)) => {
                                proof {
                                    lemma_resolve_ok_in_bounds(sim, params, edge);
                                }
                                let ghost pre_stack = stack@;
                                stack.push(Visit { node: u.node, preorder: true });
                                proof {
                                    let ug = u;
                                    assert(stack@[stack@.len() - 1].node == ug.node);
                                    assert(covered_above(stack@, ug.node as int, p));
                                    assert(stack@.subrange(0, p) =~= mark_stack);
                                    assert(resolved_in_edge(sim, params, vi, k as int) == Ok::<
                                        Option<NodeWithDelay>,
                                        SimulationError,
                                    >(Some(ug)));
                                    assert(is_source_of(sim, params, vi, ug.node as int));
                                    lemma_chain_push_pre(
                                        sim,
                                        params,
                                        pre_stack,
                                        stack@,
                                        visiting@,
                                        ug.node as int,
                                    );
                                    lemma_finish_steps_push(
                                        sim,
                                        params,
                                        pre_stack,
                                        visited@,
                                        Visit { node: ug.node, preorder: true },
                                        p,
                                    );
                                    // Earlier sources of this node stay covered.
                                    assert forall|j: int|
                                        0 <= j < k + 1 && (#[trigger] resolved_in_edge(
                                            sim,
                                            params,
                                            vi,
                                            j,
                                        )) is Ok && resolved_in_edge(sim, params, vi, j)->Ok_0
                                            is Some implies visited@[src_of(
                                        sim,
                                        params,
                                        vi,
                                        j,
                                    ).node as int] || covered_above(
                                        stack@,
                                        src_of(sim, params, vi, j).node as int,
                                        p,
                                    ) by {
                                        let uj = src_of(sim, params, vi, j);
                                        if j < k {
                                            if !visited@[uj.node as int] {
                                                let jj = choose|jj: int|
                                                    p < jj < pre_stack.len() && (
                                                    #[trigger] pre_stack[jj]).node
                                                        == uj.node as int;
                                                assert(stack@[jj].node == uj.node);
                                                assert(covered_above(stack@, uj.node as int, p));
                                            }
                                        } else {
                                            assert(uj == ug);
                                        }
                                    }
                                    if !visited@[sim.end_node as int] {
                                        let j = choose|j: int|
                                            0 <= j < pre_stack.len() && (
                                            #[trigger] pre_stack[j]).node == sim.end_node as int;
                                        assert(stack@[j].node == sim.end_node);
                                        assert(in_stack(stack@, sim.end_node as int));
                                    }
                                    assert forall|vis2: Seq<bool>|
                                        vis2.len() == n && vis2[sim.end_node as int]
                                            && #[trigger] closed_set(sim, params, vis2) implies
                                        forall|w: int|
                                            0 <= w < n && (visited@[w] || visiting@[w] || in_stack(
                                                stack@,
                                                w,
                                            )) ==> vis2[w] by {
                                        assert forall|w: int|
                                            0 <= w < n && (visited@[w] || visiting@[w] || in_stack(
                                                stack@,
                                                w,
                                            )) implies vis2[w] by {
                                            if !visited@[w] && !visiting@[w] {
                                                let j = choose|j: int|
                                                    0 <= j < stack@.len() && (
                                                    #[trigger] stack@[j]).node == w;
                                                if j < stack@.len() - 1 {
                                                    assert(pre_stack[j].node == w);
                                                    assert(in_stack(pre_stack, w));
                                                    assert(vis2[w]);
                                                } else {
                                                    // The newly pushed source: closure of
                                                    // `vis2` at the popped node yields it.
                                                    assert(vis2[vi]);
                                                    assert(resolved_in_edge(sim, params, vi, k as int)
                                                        == Ok::<
                                                        Option<NodeWithDelay>,
                                                        SimulationError,
                                                    >(Some(ug)));
                                                    assert(vis2[ug.node as int]);
                                                }
                                            }
                                        }
                                    }
                                }
                            },
                            Ok(None) => {
                            },
                            Err(e) => {
                                // The failing edge belongs to a node under
                                // visit, so every replay of these parameters
                                // hits the same missing parameter.
                                proof {
                                    assert(resolved_in_edge(sim, params, vi, k as int) == Err::<
                                        Option<NodeWithDelay>,
                                        SimulationError,
                                    >(e));
                                    assert forall|vis2: Seq<bool>|
                                        vis2.len() == n && vis2[sim.end_node as int]
                                            && #[trigger] closed_set(sim, params, vis2) implies
                                        exists|v2: int, k2: int|
                                            0 <= v2 < vis2.len() && vis2[v2] && 0 <= k2
                                                < in_degree(sim, v2)
                                                && #[trigger] resolved_in_edge(sim, params, v2, k2)
                                                == Err::<Option<NodeWithDelay>, SimulationError>(
                                                e,
                                            ) by {
                                        assert(vis2[vi]);
                                    }
                                    assert(needed_by_every_cover(sim, params, e));
                                    if resolvable(sim, params) {
                                        let (vis2, ord2) = choose|
                                            vis2: Seq<bool>,
                                            ord2: Map<int, int>,
                                        |
                                            {
                                                &&& vis2.len() == sim.node_count_spec()
                                                &&& vis2[sim.end_node as int]
                                                &&& closed_set(sim, params, vis2)
                                                &&& covered_set(sim, params, vis2)
                                                &&& ordered_set(sim, params, vis2, ord2)
                                            };
                                        assert(vis2[vi]);
                                        assert(resolved_in_edge(sim, params, vi, k as int) is Ok);
                                    }
                                    assert(!resolvable(sim, params));
                                }
                                return Err(e);
                            },
                        }
                        k += 1;
                    }
                    proof {
                        assert(finish_step_ok(sim, params, stack@, visited@, p));
                    }
                }
            } else {
                // Finish step: every source this node depends on is already
                // scheduled; its own cycle is the maximum they impose.
                proof {
                    assert(!old_stack[old_stack.len() - 1].preorder);
                    assert(old_stack[old_stack.len() - 1].node as int == vi);
                    assert(visiting@[vi]);
                    assert(!visited@[vi]);
                    assert(finish_step_ok(sim, params, old_stack, visited@, old_stack.len() - 1));
                    assert forall|k: int|
                        0 <= k < in_degree(sim, vi) implies (#[trigger] resolved_in_edge(
                        sim,
                        params,
                        vi,
                        k,
                    )) is Ok by {}
                    assert forall|k: int|
                        0 <= k < in_degree(sim, vi) && (#[trigger] resolved_in_edge(
                            sim,
                            params,
                            vi,
                            k,
                        )) is Ok && resolved_in_edge(sim, params, vi, k)->Ok_0 is Some implies
                        visited@[src_of(sim, params, vi, k).node as int] by {
                        let u = src_of(sim, params, vi, k);
                        assert(!covered_above(old_stack, u.node as int, old_stack.len() - 1));
                    }
                }
                visiting.set(v_usize, false);
                visited.set(v_usize, true);
                proof {
                    lemma_num_marked_agrees(old_visited, old_visiting, visited@, visiting@, n);
                    // The finish chain loses its top, which was this node.
                    lemma_chain_pop_finish(
                        sim,
                        params,
                        old_stack,
                        stack@,
                        old_visiting,
                        visiting@,
                        vi,
                    );
                }

                let ofs = self.graph.node_offsets[v_usize];
                let end_ofs = if v_usize + 1 < node_count {
                    self.graph.node_offsets[v_usize + 1]
                } else {
                    self.graph.edges.len()
                };
                let ghost deg = in_degree(sim, vi);
                proof {
                    if vi + 1 < n {
                        assert(sim.graph.node_offsets@[vi] <= sim.graph.node_offsets@[vi + 1]);
                    }
                    assert(sim.graph.node_offsets@[vi] <= sim.graph.edges@.len());
                    assert(ofs <= end_ofs);
                    assert(end_ofs - ofs == deg);
                    assert forall|j: int|
                        0 <= j < deg && (#[trigger] resolved_in_edge(sim, params, vi, j)) is Ok
                            && resolved_in_edge(sim, params, vi, j)->Ok_0 is Some implies 0
                        <= src_of(sim, params, vi, j).node < n by {
                        let e = in_edge_at(sim, vi, j);
                        assert(0 <= sim.graph.edge_start(vi) + j < sim.graph.edges@.len());
                        assert(e.in_bounds(n));
                        lemma_resolve_ok_in_bounds(sim, params, e);
                    }
                }
                let mut m: ClockCycle = 0;
                let mut k: usize = 0;
                while k < end_ofs - ofs
                    invariant
                        sim == *self,
                        params == *parameters,
                        sim.wf(),
                        n == sim.node_count_spec(),
                        node_count as int == n,
                        node_cycles@.len() == n,
                        0 <= vi < n,
                        ofs == sim.graph.edge_start(vi),
                        end_ofs == sim.graph.edge_end(vi),
                        deg == in_degree(sim, vi),
                        k <= deg,
                        forall|j: int|
                            0 <= j < deg ==> (#[trigger] resolved_in_edge(sim, params, vi, j))
                                is Ok,
                        forall|j: int|
                            0 <= j < deg && (#[trigger] resolved_in_edge(sim, params, vi, j))
                                is Ok && resolved_in_edge(sim, params, vi, j)->Ok_0 is Some ==> 0
                                <= src_of(sim, params, vi, j).node < n,
                        m == max_in_upto(sim, params, node_cycles@, vi, k as int),
                    decreases deg - k,
                {
                    proof {
                        if vi + 1 < n {
                            assert(sim.graph.node_offsets@[vi + 1] <= sim.graph.edges@.len());
                        }
                        assert(ofs + k < sim.graph.edges@.len());
                    }
                    let edge = self.graph.edges[ofs + k];
                    proof {
                        assert(edge == in_edge_at(sim, vi, k as int));
                        assert(edge.in_bounds(n));
                        assert(resolved_in_edge(sim, params, vi, k as int) is Ok);
                    }
                    let resolved = edge.resolve(self, parameters);
                    match resolved {
                        Ok(Some(u)) => {
                            proof {
                                assert(u == src_of(sim, params, vi, k as int));
                            }
                            let t = u.resolve(&node_cycles);
                            if t > m {
                                m = t;
                            }
                        },
                        Ok(None) => {
                        },
                        Err(e) => {
                            proof {
                                assert(resolved_in_edge(sim, params, vi, k as int) is Ok);
                                assert(false);
                            }
                            return Err(e);
                        },
                    }
                    k += 1;
                }
                let ghost cycles_before = node_cycles@;
                node_cycles.set(v_usize, m);
                proof {
                    let ord_before = ord;
                    ord = ord.insert(vi, counter);
                    counter = counter + 1;
                    assert forall|j: int|
                        0 <= j < deg && (#[trigger] resolved_in_edge(sim, params, vi, j)) is Ok
                            && resolved_in_edge(sim, params, vi, j)->Ok_0 is Some implies src_of(
                        sim,
                        params,
                        vi,
                        j,
                    ).node as int != vi && node_cycles@[src_of(sim, params, vi, j).node as int]
                        == cycles_before[src_of(sim, params, vi, j).node as int] by {
                        let u = src_of(sim, params, vi, j);
                        assert(visited@[u.node as int]);
                        assert(!old_visited[vi]);
                    }
                    lemma_max_in_agrees(sim, params, cycles_before, node_cycles@, vi, deg);
                    assert(node_ok(sim, params, visited@, ord, node_cycles@, vi));
                    assert forall|w: int| 0 <= w < n && old_visited[w] implies node_ok(
                        sim,
                        params,
                        visited@,
                        ord,
                        node_cycles@,
                        w,
                    ) by {
                        assert(node_ok(sim, params, old_visited, ord_before, cycles_before, w));
                        assert forall|j: int|
                            0 <= j < in_degree(sim, w) && (#[trigger] resolved_in_edge(
                                sim,
                                params,
                                w,
                                j,
                            )) is Ok && resolved_in_edge(sim, params, w, j)->Ok_0 is Some implies
                            cycles_before[src_of(sim, params, w, j).node as int]
                                == node_cycles@[src_of(sim, params, w, j).node as int] by {
                            let u = src_of(sim, params, w, j);
                            assert(old_visited[u.node as int]);
                            assert(u.node as int != vi);
                        }
                        lemma_max_in_agrees(
                            sim,
                            params,
                            cycles_before,
                            node_cycles@,
                            w,
                            in_degree(sim, w),
                        );
                    }
                    // Remaining finish steps: the popped step can only have
                    // covered its own node, which is now scheduled.
                    assert forall|i: int| 0 <= i < stack@.len() implies #[trigger] finish_step_ok(
                        sim,
                        params,
                        stack@,
                        visited@,
                        i,
                    ) by {
                        assert(finish_step_ok(sim, params, old_stack, old_visited, i));
                        assert(stack@[i] == old_stack[i]);
                        if !stack@[i].preorder {
                            let w = stack@[i].node as int;
                            assert forall|kk: int|
                                0 <= kk < in_degree(sim, w) && (#[trigger] resolved_in_edge(
                                    sim,
                                    params,
                                    w,
                                    kk,
                                )) is Ok && resolved_in_edge(sim, params, w, kk)->Ok_0 is Some
                                implies visited@[src_of(sim, params, w, kk).node as int]
                                || covered_above(
                                stack@,
                                src_of(sim, params, w, kk).node as int,
                                i,
                            ) by {
                                let u = src_of(sim, params, w, kk);
                                let e = in_edge_at(sim, w, kk);
                                assert(0 <= w < n);
                                if w + 1 < n {
                                    assert(sim.graph.node_offsets@[w]
                                        <= sim.graph.node_offsets@[w + 1]);
                                }
                                assert(sim.graph.node_offsets@[w] <= sim.graph.edges@.len());
                                assert(0 <= sim.graph.edge_start(w) + kk
                                    < sim.graph.edges@.len());
                                assert(e.in_bounds(n));
                                lemma_resolve_ok_in_bounds(sim, params, e);
                                assert(u.node < n);
                                if !old_visited[u.node as int] {
                                    assert(covered_above(old_stack, u.node as int, i));
                                    let j = choose|j: int|
                                        i < j < old_stack.len() && (#[trigger] old_stack[j]).node
                                            == u.node as int;
                                    if j < old_stack.len() - 1 {
                                        assert(stack@[j].node == u.node);
                                    } else {
                                        assert(u.node == v);
                                    }
                                }
                            }
                        }
                    }
                    if !visited@[sim.end_node as int] {
                        let j = choose|j: int|
                            0 <= j < old_stack.len() && (#[trigger] old_stack[j]).node
                                == sim.end_node as int;
                        assert(j < old_stack.len() - 1);
                        assert(stack@[j].node == sim.end_node);
                        assert(in_stack(stack@, sim.end_node as int));
                    }
                    // Other finish steps concern other nodes, which stay
                    // under visit.
                    assert forall|i: int|
                        0 <= i < stack@.len() && !(#[trigger] stack@[i]).preorder implies
                        visiting@[stack@[i].node as int] by {
                        assert(stack@[i] == old_stack[i]);
                        assert(old_stack[i].node != old_stack[old_stack.len() - 1].node);
                    }
                    assert forall|w: int|
                        0 <= w < n && (visited@[w] || visiting@[w] || in_stack(stack@, w)) implies
                        old_visited[w] || old_visiting[w] || in_stack(old_stack, w) by {
                        if !visited@[w] && !visiting@[w] {
                            let j = choose|j: int|
                                0 <= j < stack@.len() && (#[trigger] stack@[j]).node == w;
                            assert(old_stack[j].node == w);
                            assert(in_stack(old_stack, w));
                        }
                    }
                    lemma_touched_preserved(
                        sim,
                        params,
                        old_stack,
                        old_visited,
                        old_visiting,
                        stack@,
                        visited@,
                        visiting@,
                    );
                }
            }
        }
        proof {
            assert(visited@[sim.end_node as int]);
            assert forall|vis2: Seq<bool>|
                vis2.len() == n && vis2[sim.end_node as int] && #[trigger] closed_set(
                    sim,
                    params,
                    vis2,
                ) implies forall|w: int| 0 <= w < n && visited@[w] ==> vis2[w] by {
                assert forall|w: int| 0 <= w < n && visited@[w] implies vis2[w] by {
                    assert(visited@[w] || visiting@[w] || in_stack(stack@, w));
                }
            }
            assert(schedule_post(*self, *parameters, visited@, ord, node_cycles@));
            lemma_schedule_closed(sim, params, visited@, ord, node_cycles@);
            assert forall|v: int, k: int|
                0 <= v < visited@.len() && visited@[v] && 0 <= k < in_degree(sim, v) implies (
            #[trigger] resolved_in_edge(sim, params, v, k)) is Ok by {
                assert(node_ok(sim, params, visited@, ord, node_cycles@, v));
            }
            assert(covered_set(sim, params, visited@));
            assert forall|v: int, k: int|
                (0 <= v < visited@.len() && visited@[v] && 0 <= k < in_degree(sim, v) && (
                #[trigger] resolved_in_edge(sim, params, v, k)) is Ok && resolved_in_edge(
                    sim,
                    params,
                    v,
                    k,
                )->Ok_0 is Some) implies {
                let u = src_of(sim, params, v, k);
                &&& ord.contains_key(u.node as int)
                &&& ord.contains_key(v)
                &&& ord[u.node as int] < ord[v]
            } by {
                assert(node_ok(sim, params, visited@, ord, node_cycles@, v));
            }
            assert(ordered_set(sim, params, visited@, ord));
            assert(resolvable(sim, params));
            assert(resolvable(*self, *parameters));
        }
        let r: Result<Vec<ClockCycle>, SimulationError> = Ok(node_cycles);
        proof {
            assert(schedule_post(*self, *parameters, visited@, ord, r->Ok_0@));
            assert(resolve_post(*self, *parameters, r));
        }
        r
    }
}

} // verus!
