//! Graph nodes and saturating cycle arithmetic.

use vstd::prelude::*;

use crate::ClockCycle;

verus! {

/// Index of a node in the CSR node array.
pub type NodeIndex = u32;

/// Saturating sum of two cycle counts.
///
/// Cycle counts are accumulated along arbitrarily long event chains, so no
/// structural bound keeps the sums inside 64 bits; every accumulation in this
/// crate saturates instead of wrapping.
pub open spec fn sat_add(a: ClockCycle, b: ClockCycle) -> ClockCycle {
    if a + b > u64::MAX {
        u64::MAX
    } else {
        (a + b) as u64
    }
}

/// Exec counterpart of [`sat_add`].
pub fn cycle_add(a: ClockCycle, b: ClockCycle) -> (r: ClockCycle)
    ensures
        r == sat_add(a, b),
{
    if a <= u64::MAX - b {
        a + b
    } else {
        u64::MAX
    }
}

/// A point in time: `delay` cycles after node `node` completes.
#[derive(Clone, Copy, PartialEq, Eq, Structural, Debug)]
pub struct NodeWithDelay {
    pub node: NodeIndex,
    pub delay: ClockCycle,
}

impl NodeWithDelay {
    /// The time this point resolves to, given the cycle of every node.
    pub open spec fn resolve_spec(self, node_cycles: Seq<ClockCycle>) -> ClockCycle {
        sat_add(node_cycles[self.node as int], self.delay)
    }

    /// Whether this point refers to a node of a graph with `node_count` nodes.
    pub open spec fn in_bounds(self, node_count: int) -> bool {
        self.node < node_count
    }

    pub fn resolve(&self, node_cycles: &Vec<ClockCycle>) -> (r: ClockCycle)
        requires
            self.in_bounds(node_cycles@.len() as int),
        ensures
            r == self.resolve_spec(node_cycles@),
    {
        cycle_add(node_cycles[self.node as usize], self.delay)
    }

    /// The same point, `rhs` cycles later.
    pub fn add(self, rhs: ClockCycle) -> (r: NodeWithDelay)
        ensures
            r == self.add_spec(rhs),
    {
        NodeWithDelay { node: self.node, delay: cycle_add(self.delay, rhs) }
    }

    pub open spec fn add_spec(self, rhs: ClockCycle) -> NodeWithDelay {
        NodeWithDelay { node: self.node, delay: sat_add(self.delay, rhs) }
    }
}

} // verus!
