//! The per-call sliding window of uncommitted stages.

use vstd::prelude::*;

use crate::builder::edge_builder::IncompleteEdgeKey;
use crate::builder::event::{Event, NodeTime, UncommittedNode};
use crate::builder::module_builder::ModuleKey;
use crate::SimulationStage;

verus! {

/// One call being traced. Stages older than `offset` are committed; the
/// window holds the stages still open to new events, indexed by static
/// stage, with stage `s` of the window committing at dynamic stage
/// `offset + s`.
pub struct StackFrame {
    pub key: ModuleKey,
    /// The dynamic stage within this module's parent at which it ends.
    pub parent_end: SimulationStage,
    /// The control-flow edge leaving the last committed point.
    pub current_edge: IncompleteEdgeKey,
    /// The time of the last committed point.
    pub current_time: NodeTime,
    /// The dynamic stage at the start of the window.
    pub offset: SimulationStage,
    /// The stages not yet committed.
    pub window: Vec<UncommittedNode>,
}

impl StackFrame {
    pub fn new(key: ModuleKey, parent_end: SimulationStage, start_edge: IncompleteEdgeKey) -> (r:
        StackFrame)
        ensures
            r.key == key,
            r.parent_end == parent_end,
            r.current_edge == start_edge,
            r.current_time == NodeTime::RelativeToStart(0u64),
            r.offset == 0u32,
            r.window@.len() == 0,
    {
        StackFrame {
            key,
            parent_end,
            current_edge: start_edge,
            current_time: NodeTime::RelativeToStart(0),
            offset: 0,
            window: Vec::new(),
        }
    }

    /// Queues an event on the window stage `static_stage`, growing the
    /// window to reach it.
    pub fn add_event(&mut self, static_stage: SimulationStage, event: Event)
        ensures
            final(self).key == old(self).key,
            final(self).parent_end == old(self).parent_end,
            final(self).current_edge == old(self).current_edge,
            final(self).current_time == old(self).current_time,
            final(self).offset == old(self).offset,
            final(self).window@.len() >= old(self).window@.len(),
            final(self).window@.len() > static_stage as int,
            final(self).window@[static_stage as int].events@.len() > 0,
            final(self).window@[static_stage as int].events@.last() == event,
            final(self).window@[static_stage as int].events@ == (if (static_stage as int) < old(
                self,
            ).window@.len() {
                old(self).window@[static_stage as int].events@
            } else {
                Seq::<Event>::empty()
            }).push(event),
            forall|s: int|
                0 <= s < final(self).window@.len() && s != static_stage as int ==> (
                #[trigger] final(self).window@[s]).events@ == (if s < old(self).window@.len() {
                    old(self).window@[s].events@
                } else {
                    Seq::<Event>::empty()
                }),
    {
        let stage = static_stage as usize;
        while self.window.len() <= stage
            invariant
                self.key == old(self).key,
                self.parent_end == old(self).parent_end,
                self.current_edge == old(self).current_edge,
                self.current_time == old(self).current_time,
                self.offset == old(self).offset,
                self.window@.len() >= old(self).window@.len(),
                stage == static_stage as int,
                forall|s: int|
                    0 <= s < self.window@.len() ==> (#[trigger] self.window@[s]).events@ == (if s
                        < old(self).window@.len() {
                        old(self).window@[s].events@
                    } else {
                        Seq::<Event>::empty()
                    }),
            decreases stage + 1 - self.window@.len(),
        {
            self.window.push(UncommittedNode::new());
        }
        let ghost pre = self.window@;
        let mut node = self.window.remove(stage);
        node.events.push(event);
        self.window.insert(stage, node);
        proof {
            assert(self.window@ =~= pre.update(
                stage as int,
                UncommittedNode { events: self.window@[stage as int].events },
            ));
            assert(self.window@[stage as int].events@ == pre[stage as int].events@.push(event));
        }
    }
}

} // verus!
