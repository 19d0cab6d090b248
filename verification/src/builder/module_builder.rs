//! The tree of modules under construction.

use vstd::prelude::*;

use crate::builder::event::{Event, NodeTime};
use crate::builder::BuildError;
use crate::node::NodeWithDelay;
use crate::{ClockCycle, CompiledModule};

verus! {

pub type ModuleKey = usize;

/// A module whose parent's node is not yet known: its deferred events wait,
/// in cycles from its own start, until the parent commits.
pub struct UncommittedModule {
    pub index: usize,
    pub name: String,
    pub start_delay: ClockCycle,
    pub end: NodeTime,
    pub inherit_ap_continue: bool,
    pub submodule_indices: Vec<usize>,
    pub events: Vec<(ClockCycle, Event)>,
}

/// A module whose start and end points are fixed.
pub struct CommittedModule {
    pub name: String,
    pub start: NodeWithDelay,
    pub end: NodeWithDelay,
    pub inherit_ap_continue: bool,
    pub submodule_indices: Vec<usize>,
}

/// Modules by position in call order: a slot is filled when its module
/// commits; the arena holds the modules still waiting for their parent.
pub struct ModuleBuilder {
    pub committed: Vec<Option<CommittedModule>>,
    pub uncommitted: Vec<Option<UncommittedModule>>,
}

/// Whether a resolved tree mirrors a committed slot against the slot table:
/// same name, points and flag, and one subtree per recorded child slot, in
/// order.
pub open spec fn tree_matches(
    s: Seq<Option<CommittedModule>>,
    m: CommittedModule,
    out: CompiledModule,
) -> bool
    decreases out,
{
    &&& out.name@ == m.name@
    &&& out.start == m.start
    &&& out.end == m.end
    &&& out.inherit_ap_continue == m.inherit_ap_continue
    &&& out.submodules@.len() == m.submodule_indices@.len()
    &&& forall|i: int|
        0 <= i < m.submodule_indices@.len() ==> ((#[trigger] m.submodule_indices@[i]) as int)
            < s.len() && s[m.submodule_indices@[i] as int] is Some
    &&& forall|i: int|
        0 <= i < m.submodule_indices@.len() ==> tree_matches(
            s,
            s[m.submodule_indices@[i] as int]->0,
            (#[trigger] out.submodules@[i]),
        )
}

/// A tree that matches a state still matches any earlier state whose filled
/// slots it preserves.
pub proof fn lemma_tree_matches_grow(
    s1: Seq<Option<CommittedModule>>,
    s2: Seq<Option<CommittedModule>>,
    m: CommittedModule,
    out: CompiledModule,
)
    requires
        tree_matches(s1, m, out),
        s1.len() == s2.len(),
        forall|j: int| 0 <= j < s1.len() && (#[trigger] s1[j]) is Some ==> s2[j] == s1[j],
    ensures
        tree_matches(s2, m, out),
    decreases out,
{
    assert forall|i: int|
        0 <= i < m.submodule_indices@.len() implies ((#[trigger] m.submodule_indices@[i]) as int)
        < s2.len() && s2[m.submodule_indices@[i] as int] is Some by {
        let idx = m.submodule_indices@[i] as int;
        assert(s1[idx] is Some);
        assert(s2[idx] == s1[idx]);
    }
    assert forall|i: int|
        0 <= i < m.submodule_indices@.len() implies tree_matches(
        s2,
        s2[m.submodule_indices@[i] as int]->0,
        (#[trigger] out.submodules@[i]),
    ) by {
        let idx = m.submodule_indices@[i] as int;
        assert(s1[idx] is Some);
        assert(s2[idx] == s1[idx]);
        lemma_tree_matches_grow(s1, s2, s1[idx]->0, out.submodules@[i]);
    }
}

/// Number of committed slots still empty among the first `i`.
pub open spec fn none_upto(s: Seq<Option<CommittedModule>>, i: int) -> int
    decreases i,
{
    if i <= 0 {
        0
    } else {
        none_upto(s, i - 1) + if s[i - 1] is None {
            1int
        } else {
            0int
        }
    }
}

impl ModuleBuilder {
    /// Whether `key` names a module still waiting for its parent.
    pub open spec fn active(self, key: int) -> bool {
        0 <= key < self.uncommitted@.len() && self.uncommitted@[key] is Some
    }

    pub open spec fn at(self, key: int) -> UncommittedModule {
        self.uncommitted@[key]->0
    }

    /// Structural soundness: every recorded node index and slot index is in
    /// range.
    pub open spec fn wf(self, node_count: int) -> bool {
        &&& forall|k: int|
            self.active(k) ==> (#[trigger] self.at(k)).index < self.committed@.len()
                && self.at(k).end.in_bounds(node_count)
        &&& forall|i: int|
            0 <= i < self.committed@.len() ==> ((#[trigger] self.committed@[i]) matches Some(m)
                ==> m.start.in_bounds(node_count) && m.end.in_bounds(node_count))
    }

    pub fn new() -> (r: ModuleBuilder)
        ensures
            r.committed@.len() == 0,
            r.uncommitted@.len() == 0,
    {
        ModuleBuilder { committed: Vec::new(), uncommitted: Vec::new() }
    }

    /// Opens a new module under `parent`, reserving its committed slot.
    pub fn insert_module(
        &mut self,
        parent: Option<ModuleKey>,
        start_delay: ClockCycle,
        inherit_ap_continue: bool,
    ) -> (r: (ModuleKey, bool))
        ensures
            final(self).committed@.len() == old(self).committed@.len() + 1,
            final(self).committed@ == old(self).committed@.push(None::<CommittedModule>),
            r.0 == old(self).uncommitted@.len(),
            final(self).uncommitted@.len() == old(self).uncommitted@.len() + 1,
            final(self).active(r.0 as int),
            final(self).at(r.0 as int).index == old(self).committed@.len(),
            final(self).at(r.0 as int).start_delay == start_delay,
            final(self).at(r.0 as int).end == NodeTime::RelativeToStart(0u64),
            final(self).at(r.0 as int).inherit_ap_continue == inherit_ap_continue,
            final(self).at(r.0 as int).events@.len() == 0,
            final(self).at(r.0 as int).submodule_indices@.len() == 0,
            forall|k: int|
                0 <= k < old(self).uncommitted@.len() && k != (match parent {
                    Some(p) => p as int,
                    None => -1,
                }) ==> final(self).uncommitted@[k] == old(self).uncommitted@[k],
            r.1 == (match parent {
                Some(p) => old(self).active(p as int),
                None => true,
            }),
            match parent {
                Some(p) => {
                    &&& (old(self).active(p as int) ==> {
                        &&& final(self).active(p as int)
                        &&& final(self).at(p as int).index == old(self).at(p as int).index
                        &&& final(self).at(p as int).end == old(self).at(p as int).end
                    })
                    &&& ((p as int) < old(self).uncommitted@.len() && !old(self).active(p as int)
                        ==> final(self).uncommitted@[p as int] == old(self).uncommitted@[p as int])
                },
                None => true,
            },
    {
        let index = self.committed.len();
        self.committed.push(None);
        let key = self.uncommitted.len();
        let ok = match parent {
            Some(p) => {
                if p < self.uncommitted.len() && self.uncommitted[p].is_some() {
                    let mut entry = self.uncommitted.remove(p);
                    match &mut entry {
                        Some(m) => {
                            m.submodule_indices.push(index);
                        },
                        None => {},
                    }
                    self.uncommitted.insert(p, entry);
                    true
                } else {
                    false
                }
            },
            None => true,
        };
        self.uncommitted.push(
            Some(
                UncommittedModule {
                    index,
                    name: String::new(),
                    start_delay,
                    end: NodeTime::RelativeToStart(0),
                    inherit_ap_continue,
                    submodule_indices: Vec::new(),
                    events: Vec::new(),
                },
            ),
        );
        (key, ok)
    }

    /// Names a module when it returns.
    pub fn update_module_name(&mut self, key: ModuleKey, name: String) -> (ok: bool)
        ensures
            ok == old(self).active(key as int),
            final(self).committed@ == old(self).committed@,
            final(self).uncommitted@.len() == old(self).uncommitted@.len(),
            forall|k: int|
                0 <= k < old(self).uncommitted@.len() && k != key as int
                    ==> final(self).uncommitted@[k] == old(self).uncommitted@[k],
            !ok ==> final(self).uncommitted@ == old(self).uncommitted@,
            ok ==> final(self).active(key as int) && final(self).at(key as int)
                == (UncommittedModule { name, ..old(self).at(key as int) }),
    {
        if key < self.uncommitted.len() && self.uncommitted[key].is_some() {
            let mut entry = self.uncommitted.remove(key);
            match &mut entry {
                Some(m) => {
                    m.name = name;
                },
                None => {},
            }
            self.uncommitted.insert(key, entry);
            proof {
                assert(self.uncommitted@ =~= old(self).uncommitted@.update(
                    key as int,
                    self.uncommitted@[key as int],
                ));
            }
            true
        } else {
            false
        }
    }

    /// Records where a module ends, relative to its own start or absolutely.
    pub fn update_module_end(&mut self, key: ModuleKey, end: NodeTime) -> (ok: bool)
        ensures
            ok == old(self).active(key as int),
            final(self).committed@ == old(self).committed@,
            final(self).uncommitted@.len() == old(self).uncommitted@.len(),
            forall|k: int|
                0 <= k < old(self).uncommitted@.len() && k != key as int
                    ==> final(self).uncommitted@[k] == old(self).uncommitted@[k],
            !ok ==> final(self).uncommitted@ == old(self).uncommitted@,
            ok ==> final(self).active(key as int) && final(self).at(key as int)
                == (UncommittedModule { end, ..old(self).at(key as int) }),
    {
        if key < self.uncommitted.len() && self.uncommitted[key].is_some() {
            let mut entry = self.uncommitted.remove(key);
            match &mut entry {
                Some(m) => {
                    m.end = end;
                },
                None => {},
            }
            self.uncommitted.insert(key, entry);
            proof {
                assert(self.uncommitted@ =~= old(self).uncommitted@.update(
                    key as int,
                    self.uncommitted@[key as int],
                ));
            }
            true
        } else {
            false
        }
    }

    /// Defers an event to run `delay` cycles after the module's start, once
    /// the start is known.
    pub fn defer_event(&mut self, key: ModuleKey, delay: ClockCycle, event: Event) -> (ok: bool)
        ensures
            ok == old(self).active(key as int),
            final(self).committed@ == old(self).committed@,
            final(self).uncommitted@.len() == old(self).uncommitted@.len(),
            forall|k: int|
                0 <= k < old(self).uncommitted@.len() && k != key as int
                    ==> final(self).uncommitted@[k] == old(self).uncommitted@[k],
            !ok ==> final(self).uncommitted@ == old(self).uncommitted@,
            ok ==> final(self).active(key as int) && final(self).at(key as int).events@ == old(
                self,
            ).at(key as int).events@.push((delay, event)) && final(self).at(key as int).index
                == old(self).at(key as int).index && final(self).at(key as int).end == old(
                self,
            ).at(key as int).end,
    {
        if key < self.uncommitted.len() && self.uncommitted[key].is_some() {
            let mut entry = self.uncommitted.remove(key);
            match &mut entry {
                Some(m) => {
                    m.events.push((delay, event));
                },
                None => {},
            }
            self.uncommitted.insert(key, entry);
            proof {
                assert(self.uncommitted@ =~= old(self).uncommitted@.update(
                    key as int,
                    self.uncommitted@[key as int],
                ));
            }
            true
        } else {
            false
        }
    }

    /// Fixes a module's start against its parent's node, fills its
    /// committed slot, and hands back its deferred events at absolute times.
    pub fn commit_module(
        &mut self,
        key: ModuleKey,
        parent: NodeWithDelay,
        node_count: Ghost<int>,
    ) -> (r: Option<Vec<(NodeWithDelay, Event)>>)
        requires
            old(self).wf(node_count@),
            parent.in_bounds(node_count@),
        ensures
            final(self).wf(node_count@),
            final(self).committed@.len() == old(self).committed@.len(),
            final(self).uncommitted@.len() == old(self).uncommitted@.len(),
            match r {
                Some(deferred) => {
                    &&& old(self).active(key as int)
                    &&& final(self).uncommitted@ == old(self).uncommitted@.update(key as int, None)
                    &&& uncommitted_count(final(self).uncommitted@) == uncommitted_count(
                        old(self).uncommitted@,
                    ) - 1
                    &&& old(self).at(key as int).index < old(self).committed@.len()
                    &&& final(self).committed@ == old(self).committed@.update(
                        old(self).at(key as int).index as int,
                        Some(
                            CommittedModule {
                                name: old(self).at(key as int).name,
                                start: parent.add_spec(old(self).at(key as int).start_delay),
                                end: old(self).at(key as int).end.resolve_spec(
                                    parent.add_spec(old(self).at(key as int).start_delay),
                                ),
                                inherit_ap_continue: old(self).at(key as int).inherit_ap_continue,
                                submodule_indices: old(self).at(key as int).submodule_indices,
                            },
                        ),
                    )
                    &&& deferred@.len() == old(self).at(key as int).events@.len()
                    &&& forall|j: int|
                        0 <= j < deferred@.len() ==> (#[trigger] deferred@[j]).0.in_bounds(
                            node_count@,
                        ) && deferred@[j].1 == old(self).at(key as int).events@[j].1
                            && deferred@[j].0 == parent.add_spec(
                            old(self).at(key as int).start_delay,
                        ).add_spec(old(self).at(key as int).events@[j].0)
                },
                None => {
                    &&& !old(self).active(key as int)
                    &&& final(self).uncommitted@ == old(self).uncommitted@
                    &&& final(self).committed@ == old(self).committed@
                },
            },
    {
        if key >= self.uncommitted.len() || self.uncommitted[key].is_none() {
            return None;
        }
        let ghost pre = self.uncommitted@;
        let entry = self.uncommitted.remove(key);
        self.uncommitted.insert(key, None);
        proof {
            assert(self.uncommitted@ =~= pre.update(key as int, None));
            lemma_uncommitted_count_set_none(pre, self.uncommitted@, key as int);
        }
        let m = match entry {
            Some(m) => m,
            None => {
                return None;
            },
        };
        let start = parent.add(m.start_delay);
        let end = m.end.resolve(start);
        let committed_entry = CommittedModule {
            name: m.name,
            start,
            end,
            inherit_ap_continue: m.inherit_ap_continue,
            submodule_indices: m.submodule_indices,
        };
        if m.index < self.committed.len() {
            self.committed.set(m.index, Some(committed_entry));
        } else {
            return None;
        }
        let mut deferred: Vec<(NodeWithDelay, Event)> = Vec::new();
        let mut i: usize = 0;
        while i < m.events.len()
            invariant
                start.in_bounds(node_count@),
                i <= m.events@.len(),
                deferred@.len() == i,
                forall|j: int|
                    0 <= j < i ==> (#[trigger] deferred@[j]).0.in_bounds(node_count@)
                        && deferred@[j].1 == m.events@[j].1 && deferred@[j].0 == start.add_spec(
                        m.events@[j].0,
                    ),
            decreases m.events@.len() - i,
        {
            let (delay, event) = m.events[i];
            deferred.push((start.add(delay), event));
            i += 1;
        }
        proof {
            assert(old(self).active(key as int));
            assert(old(self).at(key as int).end.in_bounds(node_count@));
            assert forall|k: int| self.active(k) implies (#[trigger] self.at(k)).index
                < self.committed@.len() && self.at(k).end.in_bounds(node_count@) by {
                assert(old(self).active(k));
                assert(self.at(k) == old(self).at(k));
            }
            assert forall|i2: int|
                0 <= i2 < self.committed@.len() implies ((#[trigger] self.committed@[i2]) matches
                Some(mm) ==> mm.start.in_bounds(node_count@) && mm.end.in_bounds(node_count@)) by {
                if i2 != m.index as int {
                    assert(self.committed@[i2] == old(self).committed@[i2]);
                }
            }
        }
        Some(deferred)
    }

    /// Closes the tree. The top module's slot must be filled and every slot
    /// its subtree records must be filled and used only once; the returned
    /// tree then mirrors the recorded slots.
    pub fn finish_modules(self, node_count: Ghost<int>) -> (r: Result<CompiledModule, BuildError>)
        requires
            self.wf(node_count@),
        ensures
            r is Err ==> r == Err::<CompiledModule, BuildError>(BuildError::IncompleteTrace) || r
                == Err::<CompiledModule, BuildError>(BuildError::ModulesNotCommitted),
            r == Err::<CompiledModule, BuildError>(BuildError::IncompleteTrace)
                ==> self.committed@.len() == 0 || self.committed@[0] is None,
            r matches Ok(m) ==> m.in_bounds(node_count@),
            r matches Ok(m) ==> self.committed@.len() > 0 && self.committed@[0] is Some
                && tree_matches(
                self.committed@.update(0, None),
                self.committed@[0]->0,
                m,
            ),
            self.committed@.len() == 0 ==> r is Err,
            self.committed@.len() > 0 && self.committed@[0] is None ==> r is Err,
    {
        let mut committed = self.committed;
        if committed.len() == 0 {
            return Err(BuildError::IncompleteTrace);
        }
        let top = committed.remove(0);
        committed.insert(0, None);
        proof {
            assert(committed@ =~= self.committed@.update(0, None));
        }
        match top {
            Some(top) => {
                proof {
                    lemma_none_upto_le(committed@, committed@.len() as int);
                }
                match resolve_module(&mut committed, top, node_count) {
                    Some(m) => {
                        proof {
                            assert(tree_matches(
                                self.committed@.update(0, None),
                                self.committed@[0]->0,
                                m,
                            ));
                        }
                        Ok(m)
                    },
                    None => Err(BuildError::ModulesNotCommitted),
                }
            },
            None => Err(BuildError::IncompleteTrace),
        }
    }
}

/// Assembles one committed module and its subtree, taking each slot as it is
/// used so that every module appears in the tree at most once.
fn resolve_module(
    committed: &mut Vec<Option<CommittedModule>>,
    module: CommittedModule,
    node_count: Ghost<int>,
) -> (r: Option<CompiledModule>)
    requires
        forall|i: int|
            0 <= i < old(committed)@.len() ==> ((#[trigger] old(committed)@[i]) matches Some(m)
                ==> m.start.in_bounds(node_count@) && m.end.in_bounds(node_count@)),
        module.start.in_bounds(node_count@),
        module.end.in_bounds(node_count@),
    ensures
        final(committed)@.len() == old(committed)@.len(),
        forall|i: int|
            0 <= i < final(committed)@.len() ==> ((#[trigger] final(committed)@[i]) matches Some(m)
                ==> m.start.in_bounds(node_count@) && m.end.in_bounds(node_count@)),
        none_upto(final(committed)@, final(committed)@.len() as int) >= none_upto(
            old(committed)@,
            old(committed)@.len() as int,
        ),
        forall|j: int|
            0 <= j < final(committed)@.len() && (#[trigger] final(committed)@[j]) is Some
                ==> final(committed)@[j] == old(committed)@[j],
        r matches Some(m) ==> m.in_bounds(node_count@),
        r matches Some(m) ==> tree_matches(old(committed)@, module, m),
    decreases old(committed)@.len() - none_upto(old(committed)@, old(committed)@.len() as int),
{
    let CommittedModule { name, start, end, inherit_ap_continue, submodule_indices } = module;
    let mut submodules: Vec<CompiledModule> = Vec::new();
    let mut i: usize = 0;
    let ghost entry_nones = none_upto(committed@, committed@.len() as int);
    proof {
        lemma_none_upto_le(committed@, committed@.len() as int);
    }
    while i < submodule_indices.len()
        invariant
            committed@.len() == old(committed)@.len(),
            forall|k: int|
                0 <= k < committed@.len() ==> ((#[trigger] committed@[k]) matches Some(m)
                    ==> m.start.in_bounds(node_count@) && m.end.in_bounds(node_count@)),
            none_upto(committed@, committed@.len() as int) >= entry_nones,
            entry_nones == none_upto(old(committed)@, old(committed)@.len() as int),
            i <= submodule_indices@.len(),
            submodules@.len() == i,
            forall|j: int|
                0 <= j < submodules@.len() ==> (#[trigger] submodules@[j]).in_bounds(node_count@),
            forall|j: int|
                0 <= j < committed@.len() && (#[trigger] committed@[j]) is Some ==> committed@[j]
                    == old(committed)@[j],
            forall|j: int|
                0 <= j < i ==> ((#[trigger] submodule_indices@[j]) as int)
                    < old(committed)@.len() && old(committed)@[submodule_indices@[j] as int]
                    is Some,
            forall|j: int|
                0 <= j < i ==> tree_matches(
                    old(committed)@,
                    old(committed)@[submodule_indices@[j] as int]->0,
                    (#[trigger] submodules@[j]),
                ),
        decreases submodule_indices@.len() - i,
    {
        let index = submodule_indices[i];
        if index >= committed.len() {
            return None;
        }
        let ghost pre = committed@;
        let slot = committed.remove(index);
        committed.insert(index, None);
        proof {
            assert(committed@ =~= pre.update(index as int, None));
        }
        match slot {
            Some(sub) => {
                proof {
                    lemma_none_upto_set_none(pre, committed@, index as int);
                    lemma_none_upto_le(committed@, committed@.len() as int);
                    assert(none_upto(committed@, committed@.len() as int) >= entry_nones + 1);
                }
                let ghost child_entry = committed@;
                let resolved = resolve_module(committed, sub, node_count);
                match resolved {
                    Some(m) => {
                        proof {
                            assert(pre[index as int] is Some);
                            assert(old(committed)@[index as int] == pre[index as int]);
                            lemma_tree_matches_grow(child_entry, old(committed)@, sub, m);
                        }
                        submodules.push(m);
                    },
                    None => {
                        return None;
                    },
                }
            },
            None => {
                proof {
                    assert(committed@ =~= pre);
                }
                return None;
            },
        }
        i += 1;
    }
    let out = CompiledModule { name, start, end, submodules, inherit_ap_continue };
    proof {
        assert forall|j: int|
            0 <= j < module.submodule_indices@.len() implies tree_matches(
            old(committed)@,
            old(committed)@[module.submodule_indices@[j] as int]->0,
            (#[trigger] out.submodules@[j]),
        ) by {
            assert(out.submodules@[j] == submodules@[j]);
        }
        assert(tree_matches(old(committed)@, module, out));
    }
    Some(out)
}

/// Empty slots never outnumber the slots.
proof fn lemma_none_upto_le(s: Seq<Option<CommittedModule>>, i: int)
    requires
        i >= 0,
    ensures
        0 <= none_upto(s, i) <= i,
    decreases i,
{
    if i > 0 {
        lemma_none_upto_le(s, i - 1);
    }
}

/// Emptying a filled slot raises the empty count by one.
proof fn lemma_none_upto_set_none(
    s1: Seq<Option<CommittedModule>>,
    s2: Seq<Option<CommittedModule>>,
    index: int,
)
    requires
        s1.len() == s2.len(),
        0 <= index < s1.len(),
        s1[index] is Some,
        s2[index] is None,
        forall|j: int| 0 <= j < s1.len() && j != index ==> s1[j] == s2[j],
    ensures
        none_upto(s2, s2.len() as int) == none_upto(s1, s1.len() as int) + 1,
{
    lemma_none_upto_set_none_i(s1, s2, index, s1.len() as int);
}

/// Number of modules still waiting for their parent, among the first `i`.
pub open spec fn uncommitted_count_upto(s: Seq<Option<UncommittedModule>>, i: int) -> int
    decreases i,
{
    if i <= 0 {
        0
    } else {
        uncommitted_count_upto(s, i - 1) + if s[i - 1] is Some {
            1int
        } else {
            0int
        }
    }
}

/// Number of modules still waiting for their parent.
pub open spec fn uncommitted_count(s: Seq<Option<UncommittedModule>>) -> int {
    uncommitted_count_upto(s, s.len() as int)
}

proof fn lemma_uncommitted_count_set_none_i(
    s1: Seq<Option<UncommittedModule>>,
    s2: Seq<Option<UncommittedModule>>,
    key: int,
    i: int,
)
    requires
        s1.len() == s2.len(),
        0 <= key < s1.len(),
        s1[key] is Some,
        s2[key] is None,
        forall|j: int| 0 <= j < s1.len() && j != key ==> s1[j] == s2[j],
        i <= s1.len(),
    ensures
        uncommitted_count_upto(s2, i) == uncommitted_count_upto(s1, i) - if key < i {
            1int
        } else {
            0int
        },
    decreases i,
{
    if i > 0 {
        lemma_uncommitted_count_set_none_i(s1, s2, key, i - 1);
    }
}

/// Clearing a waiting module's slot lowers the count by one.
pub proof fn lemma_uncommitted_count_set_none(
    s1: Seq<Option<UncommittedModule>>,
    s2: Seq<Option<UncommittedModule>>,
    key: int,
)
    requires
        s1.len() == s2.len(),
        0 <= key < s1.len(),
        s1[key] is Some,
        s2[key] is None,
        forall|j: int| 0 <= j < s1.len() && j != key ==> s1[j] == s2[j],
    ensures
        uncommitted_count(s2) == uncommitted_count(s1) - 1,
{
    lemma_uncommitted_count_set_none_i(s1, s2, key, s1.len() as int);
}

/// The waiting count is never negative.
pub proof fn lemma_uncommitted_count_nonneg(s: Seq<Option<UncommittedModule>>, i: int)
    requires
        i >= 0,
    ensures
        uncommitted_count_upto(s, i) >= 0,
    decreases i,
{
    if i > 0 {
        lemma_uncommitted_count_nonneg(s, i - 1);
    }
}

proof fn lemma_none_upto_set_none_i(
    s1: Seq<Option<CommittedModule>>,
    s2: Seq<Option<CommittedModule>>,
    index: int,
    i: int,
)
    requires
        s1.len() == s2.len(),
        0 <= index < s1.len(),
        s1[index] is Some,
        s2[index] is None,
        forall|j: int| 0 <= j < s1.len() && j != index ==> s1[j] == s2[j],
        i <= s1.len(),
    ensures
        none_upto(s2, i) == none_upto(s1, i) + if index < i {
            1int
        } else {
            0int
        },
    decreases i,
{
    if i > 0 {
        lemma_none_upto_set_none_i(s1, s2, index, i - 1);
    }
}

} // verus!
