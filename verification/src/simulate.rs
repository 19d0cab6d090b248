//! Replaying a compiled simulation: per-module times, I/O views, and the
//! design-space sweep.

use vstd::prelude::*;

use crate::alist::{alist_find, alist_find_u32};
use crate::axi_interface::{AxiAddress, AxiInterfaceIo, AxiInterfaceIoNodes};
use crate::fifo::{FifoConfig, FifoId, FifoIo, FifoIoNodes, MAX_BRAM_DEPTH, MAX_BRAM_WIDTH};
use crate::node::{cycle_add, sat_add, NodeWithDelay};
use crate::resolve::{error_post, resolvable, resolve_post, schedule_post};
use crate::{
    ClockCycle, CompiledModule, CompiledSimulation, SimulationError, SimulationParameters,
    SAXI_STATUS_READ_DELAY, SAXI_STATUS_UPDATE_OVERHEAD, SAXI_STATUS_WRITE_DELAY,
};

verus! {

/// How the continue handshake applies to a module.
#[derive(Clone, Copy, PartialEq, Eq, Structural, Debug)]
pub enum ApContinue {
    /// The module does not take part in the handshake.
    NotApplicable,
    /// The top module under ap_ctrl_chain, with this many scalar parameters.
    TopLevel { num_parameters: u32 },
    /// An inheriting child: the parent's continue cycle applies.
    Propagated(ClockCycle),
}

impl ApContinue {
    pub open spec fn from_port_count(count: Option<u32>) -> ApContinue {
        match count {
            Some(num_parameters) => ApContinue::TopLevel { num_parameters },
            None => ApContinue::NotApplicable,
        }
    }
}

/// How often the slave control re-reads the done signal: one status update
/// plus one write per parameter plus the start write.
pub open spec fn saxi_read_interval(num_parameters: u32) -> ClockCycle {
    (SAXI_STATUS_UPDATE_OVERHEAD + num_parameters + 1) as u64
}

/// The cycle at which the slave control first reads the done signal as set:
/// the first multiple of the read interval at or after `ap_done` minus the
/// initial read delay, plus that delay.
pub open spec fn saxi_read_cycle(ap_done: ClockCycle, num_parameters: u32) -> ClockCycle {
    let interval = saxi_read_interval(num_parameters);
    let t = sat_add(ap_done, (interval - SAXI_STATUS_READ_DELAY - 1) as u64);
    sat_add(((t / interval) * interval) as u64, SAXI_STATUS_READ_DELAY)
}

/// When a module is really finished, given when it raised done and how the
/// continue handshake applies to it.
pub open spec fn ap_continue_end(ap_done: ClockCycle, ap_continue: ApContinue) -> ClockCycle {
    match ap_continue {
        ApContinue::NotApplicable => ap_done,
        ApContinue::TopLevel { num_parameters } => sat_add(
            saxi_read_cycle(ap_done, num_parameters),
            SAXI_STATUS_WRITE_DELAY,
        ),
        ApContinue::Propagated(end) => end,
    }
}

/// The resolved times of one module execution.
pub struct SimulatedModule {
    pub name: String,
    pub start: ClockCycle,
    pub end: ClockCycle,
    pub submodules: Vec<SimulatedModule>,
}

/// Whether a resolved module tree is exactly what the node cycles and the
/// continue handshake dictate for the compiled tree.
pub open spec fn simulated_matches(
    sm: SimulatedModule,
    cycles: Seq<ClockCycle>,
    m: CompiledModule,
    ap_continue: ApContinue,
) -> bool
    decreases m,
{
    let ap_done = m.end.resolve_spec(cycles);
    let effective = if m.inherit_ap_continue {
        ap_continue
    } else {
        ApContinue::NotApplicable
    };
    let end = ap_continue_end(ap_done, effective);
    let child_ap_continue = if effective is TopLevel {
        ApContinue::Propagated(end)
    } else {
        effective
    };
    &&& sm.name@ == m.name@
    &&& sm.start == m.start.resolve_spec(cycles)
    &&& sm.end == end
    &&& sm.submodules@.len() == m.submodules@.len()
    &&& forall|i: int|
        0 <= i < m.submodules@.len() ==> simulated_matches(
            #[trigger] sm.submodules@[i],
            cycles,
            m.submodules@[i],
            child_ap_continue,
        )
}

impl SimulatedModule {
    /// Resolves a compiled module tree against the node cycles, applying the
    /// continue-handshake overhead to the top module and its inheriting
    /// children.
    pub fn new(
        node_cycles: &Vec<ClockCycle>,
        module: &CompiledModule,
        ap_continue: ApContinue,
    ) -> (r: SimulatedModule)
        requires
            module.in_bounds(node_cycles@.len() as int),
        ensures
            simulated_matches(r, node_cycles@, *module, ap_continue),
        decreases *module,
    {
        let start = module.start.resolve(node_cycles);
        let ap_done = module.end.resolve(node_cycles);
        let ap_continue = if module.inherit_ap_continue {
            ap_continue
        } else {
            ApContinue::NotApplicable
        };
        let end = match ap_continue {
            ApContinue::NotApplicable => ap_done,
            ApContinue::TopLevel { num_parameters } => {
                // The slave control re-reads the done signal every
                // `interval` cycles, starting `SAXI_STATUS_READ_DELAY` cycles
                // in, and writes continue `SAXI_STATUS_WRITE_DELAY` cycles
                // after the read that sees it.
                let num_parameters: ClockCycle = num_parameters as u64;
                let saxi_status_read_interval = SAXI_STATUS_UPDATE_OVERHEAD + num_parameters + 1;
                let t = cycle_add(
                    ap_done,
                    saxi_status_read_interval - SAXI_STATUS_READ_DELAY - 1,
                );
                let q = t / saxi_status_read_interval;
                proof {
                    assert(q * saxi_status_read_interval <= t) by (nonlinear_arith)
                        requires
                            q == t / saxi_status_read_interval,
                            saxi_status_read_interval > 0,
                            t >= 0,
                    ;
                }
                let saxi_status_ap_done_read_cycle = cycle_add(
                    q * saxi_status_read_interval,
                    SAXI_STATUS_READ_DELAY,
                );
                cycle_add(saxi_status_ap_done_read_cycle, SAXI_STATUS_WRITE_DELAY)
            },
            ApContinue::Propagated(ap_continue) => ap_continue,
        };
        let ap_continue = match ap_continue {
            ApContinue::TopLevel { .. } => ApContinue::Propagated(end),
            _ => ap_continue,
        };

        let mut submodules: Vec<SimulatedModule> = Vec::new();
        let mut i: usize = 0;
        while i < module.submodules.len()
            invariant
                module.in_bounds(node_cycles@.len() as int),
                i <= module.submodules@.len(),
                submodules@.len() == i,
                forall|j: int|
                    0 <= j < i ==> simulated_matches(
                        #[trigger] submodules@[j],
                        node_cycles@,
                        module.submodules@[j],
                        ap_continue,
                    ),
            decreases module.submodules@.len() - i,
        {
            proof {
                assert(module.submodules@[i as int].in_bounds(node_cycles@.len() as int));
            }
            submodules.push(SimulatedModule::new(node_cycles, &module.submodules[i], ap_continue));
            i += 1;
        }
        SimulatedModule { name: module.name.clone(), start, end, submodules }
    }
}

/// Two trees that match the same compiled module under the same cycles and
/// handshake agree on every time and name.
pub open spec fn simulated_equal(a: SimulatedModule, b: SimulatedModule) -> bool
    decreases a,
{
    &&& a.name@ == b.name@
    &&& a.start == b.start
    &&& a.end == b.end
    &&& a.submodules@.len() == b.submodules@.len()
    &&& forall|i: int|
        0 <= i < a.submodules@.len() ==> simulated_equal(
            (#[trigger] a.submodules@[i]),
            b.submodules@[i],
        )
}

/// The law that the resolved module tree is a function of the node cycles:
/// two trees matching the same compiled tree agree everywhere.
pub proof fn lemma_simulated_unique(
    a: SimulatedModule,
    b: SimulatedModule,
    cycles: Seq<ClockCycle>,
    m: CompiledModule,
    ap_continue: ApContinue,
)
    requires
        simulated_matches(a, cycles, m, ap_continue),
        simulated_matches(b, cycles, m, ap_continue),
    ensures
        simulated_equal(a, b),
    decreases m,
{
    let ap_done = m.end.resolve_spec(cycles);
    let effective = if m.inherit_ap_continue {
        ap_continue
    } else {
        ApContinue::NotApplicable
    };
    let end = ap_continue_end(ap_done, effective);
    let child_ap_continue = if effective is TopLevel {
        ApContinue::Propagated(end)
    } else {
        effective
    };
    assert forall|i: int| 0 <= i < a.submodules@.len() implies simulated_equal(
        (#[trigger] a.submodules@[i]),
        b.submodules@[i],
    ) by {
        lemma_simulated_unique(
            a.submodules@[i],
            b.submodules@[i],
            cycles,
            m.submodules@[i],
            child_ap_continue,
        );
    }
}

/// A replayed simulation: the cycle of every node, the resolved module tree,
/// and the transfer tables needed for the I/O views.
pub struct Simulation {
    pub node_cycles: Vec<ClockCycle>,
    pub top_module: SimulatedModule,
    pub fifo_nodes: Vec<(FifoId, FifoIoNodes)>,
    pub axi_interface_nodes: Vec<(AxiAddress, AxiInterfaceIoNodes)>,
}

/// The plain content of a FIFO node table.
pub open spec fn fifo_table_view(t: Seq<(FifoId, FifoIoNodes)>) -> Seq<
    (FifoId, (Seq<NodeWithDelay>, Seq<crate::node::NodeIndex>)),
> {
    t.map(|i: int, e: (FifoId, FifoIoNodes)| (e.0, (e.1.writes@, e.1.reads@)))
}

/// The plain content of an AXI node table.
pub open spec fn axi_table_view(t: Seq<(AxiAddress, AxiInterfaceIoNodes)>) -> Seq<
    (
        AxiAddress,
        (
            Seq<crate::axi_interface::AxiGenericIoNode>,
            Seq<crate::axi_interface::AxiGenericIoNode>,
            Seq<crate::axi_interface::AxiGenericIoNode>,
            Seq<crate::axi_interface::AxiGenericIoNode>,
            Seq<NodeWithDelay>,
        ),
    ),
> {
    t.map(
        |i: int, e: (AxiAddress, AxiInterfaceIoNodes)| (
            e.0,
            (e.1.readreqs@, e.1.reads@, e.1.writereqs@, e.1.writes@, e.1.writeresps@),
        ),
    )
}

/// What a successful replay hands back.
pub open spec fn execute_post(
    sim: CompiledSimulation,
    parameters: SimulationParameters,
    s: Simulation,
) -> bool {
    &&& exists|vis: Seq<bool>, ord: Map<int, int>|
        schedule_post(sim, parameters, vis, ord, s.node_cycles@)
    &&& simulated_matches(
        s.top_module,
        s.node_cycles@,
        sim.top_module,
        ApContinue::from_port_count(parameters.ap_ctrl_chain_top_port_count),
    )
    &&& fifo_table_view(s.fifo_nodes@) == fifo_table_view(sim.fifo_nodes@)
    &&& axi_table_view(s.axi_interface_nodes@) == axi_table_view(sim.axi_interface_nodes@)
    &&& s.node_cycles@.len() == sim.node_count_spec()
}

/// The full contract of [`CompiledSimulation::execute`].
pub open spec fn execute_res_post(
    sim: CompiledSimulation,
    parameters: SimulationParameters,
    r: Result<Simulation, SimulationError>,
) -> bool {
    match r {
        Ok(s) => execute_post(sim, parameters, s),
        Err(e) => error_post(sim, parameters, e),
    }
}

/// The law that a replay is repeatable: two simulations produced under the
/// same parameters carry the same node cycles and the same module tree.
pub proof fn lemma_execute_deterministic(
    sim: CompiledSimulation,
    parameters: SimulationParameters,
    s1: Simulation,
    s2: Simulation,
)
    requires
        execute_post(sim, parameters, s1),
        execute_post(sim, parameters, s2),
    ensures
        s1.node_cycles@ == s2.node_cycles@,
        simulated_equal(s1.top_module, s2.top_module),
{
    let (vis1, ord1) = choose|vis: Seq<bool>, ord: Map<int, int>|
        schedule_post(sim, parameters, vis, ord, s1.node_cycles@);
    let (vis2, ord2) = choose|vis: Seq<bool>, ord: Map<int, int>|
        schedule_post(sim, parameters, vis, ord, s2.node_cycles@);
    crate::resolve::lemma_schedule_deterministic(
        sim,
        parameters,
        vis1,
        ord1,
        s1.node_cycles@,
        vis2,
        ord2,
        s2.node_cycles@,
    );
    lemma_simulated_unique(
        s1.top_module,
        s2.top_module,
        s1.node_cycles@,
        sim.top_module,
        ApContinue::from_port_count(parameters.ap_ctrl_chain_top_port_count),
    );
}

/// An element-for-element copy of a vector of plain values.
fn copy_vec<T: Copy>(v: &Vec<T>) -> (r: Vec<T>)
    ensures
        r@ == v@,
{
    let mut r: Vec<T> = Vec::new();
    let mut i: usize = 0;
    while i < v.len()
        invariant
            i <= v@.len(),
            r@ == v@.take(i as int),
        decreases v@.len() - i,
    {
        r.push(v[i]);
        proof {
            assert(r@ =~= v@.take(i + 1));
        }
        i += 1;
    }
    proof {
        assert(v@.take(v@.len() as int) =~= v@);
    }
    r
}

fn copy_fifo_table(v: &Vec<(FifoId, FifoIoNodes)>) -> (r: Vec<(FifoId, FifoIoNodes)>)
    ensures
        fifo_table_view(r@) == fifo_table_view(v@),
{
    let mut r: Vec<(FifoId, FifoIoNodes)> = Vec::new();
    let mut i: usize = 0;
    while i < v.len()
        invariant
            i <= v@.len(),
            r@.len() == i,
            forall|j: int|
                0 <= j < i ==> (#[trigger] r@[j]).0 == v@[j].0 && r@[j].1.writes@ == v@[j].1.writes@
                    && r@[j].1.reads@ == v@[j].1.reads@,
        decreases v@.len() - i,
    {
        let entry = &v[i];
        r.push(
            (
                entry.0,
                FifoIoNodes { writes: copy_vec(&entry.1.writes), reads: copy_vec(&entry.1.reads) },
            ),
        );
        i += 1;
    }
    proof {
        assert(fifo_table_view(r@) =~= fifo_table_view(v@));
    }
    r
}

fn copy_axi_table(v: &Vec<(AxiAddress, AxiInterfaceIoNodes)>) -> (r: Vec<
    (AxiAddress, AxiInterfaceIoNodes),
>)
    ensures
        axi_table_view(r@) == axi_table_view(v@),
{
    let mut r: Vec<(AxiAddress, AxiInterfaceIoNodes)> = Vec::new();
    let mut i: usize = 0;
    while i < v.len()
        invariant
            i <= v@.len(),
            r@.len() == i,
            forall|j: int|
                0 <= j < i ==> (#[trigger] r@[j]).0 == v@[j].0 && r@[j].1.readreqs@
                    == v@[j].1.readreqs@ && r@[j].1.reads@ == v@[j].1.reads@ && r@[j].1.writereqs@
                    == v@[j].1.writereqs@ && r@[j].1.writes@ == v@[j].1.writes@
                    && r@[j].1.writeresps@ == v@[j].1.writeresps@,
        decreases v@.len() - i,
    {
        let entry = &v[i];
        r.push(
            (
                entry.0,
                AxiInterfaceIoNodes {
                    readreqs: copy_vec(&entry.1.readreqs),
                    reads: copy_vec(&entry.1.reads),
                    writereqs: copy_vec(&entry.1.writereqs),
                    writes: copy_vec(&entry.1.writes),
                    writeresps: copy_vec(&entry.1.writeresps),
                },
            ),
        );
        i += 1;
    }
    proof {
        assert(axi_table_view(r@) =~= axi_table_view(v@));
    }
    r
}

impl CompiledSimulation {
    /// Replays the graph under the given parameters: on success, every node's
    /// cycle together with the resolved module tree and I/O tables.
    pub fn execute(&self, parameters: &SimulationParameters) -> (r: Result<
        Simulation,
        SimulationError,
    >)
        requires
            self.wf(),
        ensures
            execute_res_post(*self, *parameters, r),
            r is Ok <==> resolvable(*self, *parameters),
    {
        let node_cycles = match self.resolve(parameters) {
            Ok(c) => c,
            Err(e) => {
                return Err(e);
            },
        };
        proof {
            let (vis, ord) = choose|vis: Seq<bool>, ord: Map<int, int>|
                schedule_post(*self, *parameters, vis, ord, node_cycles@);
            assert(node_cycles@.len() == self.node_count_spec());
            assert(self.top_module.in_bounds(node_cycles@.len() as int));
        }
        let ap_continue = match parameters.ap_ctrl_chain_top_port_count {
            Some(num_parameters) => ApContinue::TopLevel { num_parameters },
            None => ApContinue::NotApplicable,
        };
        let top_module = SimulatedModule::new(&node_cycles, &self.top_module, ap_continue);
        Ok(
            Simulation {
                node_cycles,
                top_module,
                fifo_nodes: copy_fifo_table(&self.fifo_nodes),
                axi_interface_nodes: copy_axi_table(&self.axi_interface_nodes),
            },
        )
    }
}

impl Simulation {
    /// The resolved I/O times of every FIFO.
    pub fn fifo_io(&self) -> (r: Vec<(FifoId, FifoIo)>)
        requires
            forall|i: int|
                0 <= i < self.fifo_nodes@.len() ==> (#[trigger] self.fifo_nodes@[i]).1.in_bounds(
                    self.node_cycles@.len() as int,
                ),
        ensures
            r@.len() == self.fifo_nodes@.len(),
            forall|i: int|
                0 <= i < r@.len() ==> {
                    &&& (#[trigger] r@[i]).0 == self.fifo_nodes@[i].0
                    &&& r@[i].1.writes@.len() == self.fifo_nodes@[i].1.writes@.len()
                    &&& r@[i].1.reads@.len() == self.fifo_nodes@[i].1.reads@.len()
                    &&& forall|j: int|
                        0 <= j < r@[i].1.writes@.len() ==> r@[i].1.writes@[j]
                            == self.fifo_nodes@[i].1.writes@[j].resolve_spec(self.node_cycles@)
                    &&& forall|j: int|
                        0 <= j < r@[i].1.reads@.len() ==> r@[i].1.reads@[j]
                            == self.node_cycles@[self.fifo_nodes@[i].1.reads@[j] as int]
                },
    {
        let mut r: Vec<(FifoId, FifoIo)> = Vec::new();
        let mut i: usize = 0;
        while i < self.fifo_nodes.len()
            invariant
                forall|k: int|
                    0 <= k < self.fifo_nodes@.len() ==> (
                    #[trigger] self.fifo_nodes@[k]).1.in_bounds(self.node_cycles@.len() as int),
                i <= self.fifo_nodes@.len(),
                r@.len() == i,
                forall|k: int|
                    0 <= k < i ==> {
                        &&& (#[trigger] r@[k]).0 == self.fifo_nodes@[k].0
                        &&& r@[k].1.writes@.len() == self.fifo_nodes@[k].1.writes@.len()
                        &&& r@[k].1.reads@.len() == self.fifo_nodes@[k].1.reads@.len()
                        &&& forall|j: int|
                            0 <= j < r@[k].1.writes@.len() ==> r@[k].1.writes@[j]
                                == self.fifo_nodes@[k].1.writes@[j].resolve_spec(self.node_cycles@)
                        &&& forall|j: int|
                            0 <= j < r@[k].1.reads@.len() ==> r@[k].1.reads@[j]
                                == self.node_cycles@[self.fifo_nodes@[k].1.reads@[j] as int]
                    },
            decreases self.fifo_nodes@.len() - i,
        {
            let entry = &self.fifo_nodes[i];
            let io = FifoIo::new(&entry.1, &self.node_cycles);
            r.push((entry.0, io));
            i += 1;
        }
        r
    }

    /// The resolved I/O times of every AXI interface.
    pub fn axi_io(&self) -> (r: Vec<(AxiAddress, AxiInterfaceIo)>)
        requires
            forall|i: int|
                0 <= i < self.axi_interface_nodes@.len() ==> (
                #[trigger] self.axi_interface_nodes@[i]).1.in_bounds(
                    self.node_cycles@.len() as int,
                ),
        ensures
            r@.len() == self.axi_interface_nodes@.len(),
            forall|i: int|
                0 <= i < r@.len() ==> {
                    &&& (#[trigger] r@[i]).0 == self.axi_interface_nodes@[i].0
                    &&& r@[i].1.reads@ == crate::axi_interface::resolved_generic_io(
                        self.axi_interface_nodes@[i].1.reads@,
                        self.node_cycles@,
                    )
                    &&& r@[i].1.readreqs@ == crate::axi_interface::resolved_generic_io(
                        self.axi_interface_nodes@[i].1.readreqs@,
                        self.node_cycles@,
                    )
                    &&& r@[i].1.writereqs@ == crate::axi_interface::resolved_generic_io(
                        self.axi_interface_nodes@[i].1.writereqs@,
                        self.node_cycles@,
                    )
                    &&& r@[i].1.writes@ == crate::axi_interface::resolved_generic_io(
                        self.axi_interface_nodes@[i].1.writes@,
                        self.node_cycles@,
                    )
                    &&& r@[i].1.writeresps@.len()
                        == self.axi_interface_nodes@[i].1.writeresps@.len()
                    &&& forall|j: int|
                        0 <= j < r@[i].1.writeresps@.len() ==> r@[i].1.writeresps@[j]
                            == self.axi_interface_nodes@[i].1.writeresps@[j].resolve_spec(
                            self.node_cycles@,
                        )
                },
    {
        let mut r: Vec<(AxiAddress, AxiInterfaceIo)> = Vec::new();
        let mut i: usize = 0;
        while i < self.axi_interface_nodes.len()
            invariant
                forall|k: int|
                    0 <= k < self.axi_interface_nodes@.len() ==> (
                    #[trigger] self.axi_interface_nodes@[k]).1.in_bounds(
                        self.node_cycles@.len() as int,
                    ),
                i <= self.axi_interface_nodes@.len(),
                r@.len() == i,
                forall|k: int|
                    0 <= k < i ==> {
                        &&& (#[trigger] r@[k]).0 == self.axi_interface_nodes@[k].0
                        &&& r@[k].1.reads@ == crate::axi_interface::resolved_generic_io(
                            self.axi_interface_nodes@[k].1.reads@,
                            self.node_cycles@,
                        )
                        &&& r@[k].1.readreqs@ == crate::axi_interface::resolved_generic_io(
                            self.axi_interface_nodes@[k].1.readreqs@,
                            self.node_cycles@,
                        )
                        &&& r@[k].1.writereqs@ == crate::axi_interface::resolved_generic_io(
                            self.axi_interface_nodes@[k].1.writereqs@,
                            self.node_cycles@,
                        )
                        &&& r@[k].1.writes@ == crate::axi_interface::resolved_generic_io(
                            self.axi_interface_nodes@[k].1.writes@,
                            self.node_cycles@,
                        )
                        &&& r@[k].1.writeresps@.len()
                            == self.axi_interface_nodes@[k].1.writeresps@.len()
                        &&& forall|j: int|
                            0 <= j < r@[k].1.writeresps@.len() ==> r@[k].1.writeresps@[j]
                                == self.axi_interface_nodes@[k].1.writeresps@[j].resolve_spec(
                                self.node_cycles@,
                            )
                    },
            decreases self.axi_interface_nodes@.len() - i,
        {
            let entry = &self.axi_interface_nodes[i];
            let io = AxiInterfaceIo::new(&entry.1, &self.node_cycles);
            r.push((entry.0, io));
            i += 1;
        }
        r
    }
}

/// One point of the design-space sweep: the total latency of the kernel
/// under one depth configuration (`None` when it deadlocks) and the total
/// block-RAM cost of that configuration.
#[derive(Clone, Copy, PartialEq, Eq, Structural, Debug)]
pub struct DsePoint {
    pub latency: Option<ClockCycle>,
    pub bram_count: usize,
}

/// Saturating usize sum.
pub open spec fn usat_add(a: usize, b: usize) -> usize {
    if a + b > usize::MAX {
        usize::MAX
    } else {
        (a + b) as usize
    }
}

/// Block-RAM cost of one FIFO given its width and a configured depth.
pub open spec fn bram_of(width: u32, depth: usize) -> u32 {
    FifoConfig { width, depth: depth as u32 }.bram_count_spec()
}

/// Exec counterpart of [`bram_of`].
pub fn get_bram_count(width: u32, depth: usize) -> (r: u32)
    requires
        width <= MAX_BRAM_WIDTH,
        depth <= MAX_BRAM_DEPTH as usize,
    ensures
        r == bram_of(width, depth),
{
    let config = FifoConfig { width, depth: depth as u32 };
    config.bram_count()
}

/// The total block-RAM cost of a depth table: the saturating sum, over every
/// FIFO with a configured depth, of its cost under its width; the first FIFO
/// whose width is missing fails the sweep.
pub open spec fn bram_fold(
    depths: Seq<(FifoId, Option<usize>)>,
    widths: Seq<(FifoId, u32)>,
    acc: usize,
) -> Result<usize, SimulationError>
    decreases depths.len(),
{
    if depths.len() == 0 {
        Ok(acc)
    } else {
        match depths[0].1 {
            Some(depth) => match alist_find(widths, depths[0].0) {
                Some(width) => bram_fold(
                    depths.drop_first(),
                    widths,
                    usat_add(acc, bram_of(width, depth) as usize),
                ),
                None => Err(SimulationError::FifoWidthNotProvided(depths[0].0)),
            },
            None => bram_fold(depths.drop_first(), widths, acc),
        }
    }
}

/// A depth table with one FIFO's depth replaced, or appended when absent.
pub open spec fn upsert_depth(
    s: Seq<(FifoId, Option<usize>)>,
    id: FifoId,
    depth: usize,
) -> Seq<(FifoId, Option<usize>)>
    decreases s.len(),
{
    if s.len() == 0 {
        seq![(id, Some(depth))]
    } else if s[0].0 == id {
        seq![(id, Some(depth))] + s.drop_first()
    } else {
        seq![s[0]] + upsert_depth(s.drop_first(), id, depth)
    }
}

/// A whole configuration overlaid on a base depth table.
pub open spec fn overlay_depths(
    base: Seq<(FifoId, Option<usize>)>,
    config: Seq<(FifoId, usize)>,
) -> Seq<(FifoId, Option<usize>)>
    decreases config.len(),
{
    if config.len() == 0 {
        base
    } else {
        overlay_depths(upsert_depth(base, config[0].0, config[0].1), config.drop_first())
    }
}

proof fn lemma_upsert_at(s: Seq<(FifoId, Option<usize>)>, id: FifoId, depth: usize, i: int)
    requires
        0 <= i < s.len(),
        s[i].0 == id,
        forall|j: int| 0 <= j < i ==> s[j].0 != id,
    ensures
        upsert_depth(s, id, depth) == s.update(i, (id, Some(depth))),
    decreases i,
{
    if i == 0 {
        assert(upsert_depth(s, id, depth) =~= s.update(0, (id, Some(depth))));
    } else {
        lemma_upsert_at(s.drop_first(), id, depth, i - 1);
        assert(s.drop_first().update(i - 1, (id, Some(depth))) =~= s.update(
            i,
            (id, Some(depth)),
        ).drop_first());
        assert(upsert_depth(s, id, depth) =~= s.update(i, (id, Some(depth))));
    }
}

proof fn lemma_upsert_absent(s: Seq<(FifoId, Option<usize>)>, id: FifoId, depth: usize)
    requires
        forall|j: int| 0 <= j < s.len() ==> s[j].0 != id,
    ensures
        upsert_depth(s, id, depth) == s.push((id, Some(depth))),
    decreases s.len(),
{
    if s.len() == 0 {
        assert(upsert_depth(s, id, depth) =~= s.push((id, Some(depth))));
    } else {
        lemma_upsert_absent(s.drop_first(), id, depth);
        assert(upsert_depth(s, id, depth) =~= s.push((id, Some(depth))));
    }
}

/// Replaces the depth of one FIFO in the table, appending it when absent.
fn upsert_depth_exec(v: &mut Vec<(FifoId, Option<usize>)>, id: FifoId, depth: usize)
    ensures
        final(v)@ == upsert_depth(old(v)@, id, depth),
{
    match crate::alist::alist_position_u32(v, id) {
        Some(i) => {
            v.set(i, (id, Some(depth)));
            proof {
                lemma_upsert_at(old(v)@, id, depth, i as int);
            }
        },
        None => {
            v.push((id, Some(depth)));
            proof {
                lemma_upsert_absent(old(v)@, id, depth);
            }
        },
    }
}

/// Saturating exec usize sum.
fn usize_sat_add(a: usize, b: usize) -> (r: usize)
    ensures
        r == usat_add(a, b),
{
    if a <= usize::MAX - b {
        a + b
    } else {
        usize::MAX
    }
}

/// Every configured depth and width in the table is small enough for the
/// block-RAM accounting.
pub open spec fn bram_inputs_bounded(
    depths: Seq<(FifoId, Option<usize>)>,
    widths: Seq<(FifoId, u32)>,
) -> bool {
    &&& forall|i: int|
        0 <= i < depths.len() ==> ((#[trigger] depths[i]).1 matches Some(d) ==> d
            <= MAX_BRAM_DEPTH as usize)
    &&& forall|i: int| 0 <= i < widths.len() ==> (#[trigger] widths[i]).1 <= MAX_BRAM_WIDTH
}

/// Whether `ps` carries exactly the overlaid depth table together with the
/// base parameters' delays and port count.
pub open spec fn params_with(
    depths: Seq<(FifoId, Option<usize>)>,
    base: SimulationParameters,
    ps: SimulationParameters,
) -> bool {
    &&& ps.fifo_depths@ == depths
    &&& ps.axi_delays@ == base.axi_delays@
    &&& ps.ap_ctrl_chain_top_port_count == base.ap_ctrl_chain_top_port_count
}

/// What one point of the sweep promises for its configuration: the cost is
/// the folded block-RAM sum of the overlaid table; a recorded latency is the
/// end time of the top module under some valid schedule for parameters
/// carrying exactly that table; and an absent latency means exactly that the
/// overlaid parameters deadlock.
pub open spec fn dse_point_post(
    sim: CompiledSimulation,
    base: SimulationParameters,
    widths: Seq<(FifoId, u32)>,
    config: Seq<(FifoId, usize)>,
    p: DsePoint,
) -> bool {
    let depths = overlay_depths(base.fifo_depths@, config);
    &&& bram_fold(depths, widths, 0) == Ok::<usize, SimulationError>(p.bram_count)
    &&& (p.latency matches Some(t) ==> exists|
        ps: SimulationParameters,
        vis: Seq<bool>,
        ord: Map<int, int>,
        cycles: Seq<ClockCycle>,
    |
        {
            &&& params_with(depths, base, ps)
            &&& #[trigger] schedule_post(sim, ps, vis, ord, cycles)
            &&& t == sim.top_module.end.resolve_spec(cycles)
        })
    &&& (p.latency is None ==> exists|ps: SimulationParameters|
        #[trigger] params_with(depths, base, ps) && error_post(
            sim,
            ps,
            SimulationError::DeadlockDetected,
        ) && !resolvable(sim, ps))
}

/// When one configuration of the sweep is owed success: its block-RAM fold
/// succeeds and every parameter value carrying its overlaid table resolves.
pub open spec fn dse_config_ok(
    sim: CompiledSimulation,
    base: SimulationParameters,
    widths: Seq<(FifoId, u32)>,
    config: Seq<(FifoId, usize)>,
) -> bool {
    let depths = overlay_depths(base.fifo_depths@, config);
    &&& bram_fold(depths, widths, 0) is Ok
    &&& forall|ps: SimulationParameters|
        #[trigger] params_with(depths, base, ps) ==> resolvable(sim, ps)
}

/// What a failed configuration guarantees about its error: a deadlock is
/// never propagated, a missing width is the fold's own error, and a missing
/// depth or delay is genuinely needed by the overlaid parameters.
pub open spec fn dse_config_err(
    sim: CompiledSimulation,
    base: SimulationParameters,
    widths: Seq<(FifoId, u32)>,
    config: Seq<(FifoId, usize)>,
    e: SimulationError,
) -> bool {
    let depths = overlay_depths(base.fifo_depths@, config);
    &&& !(e is DeadlockDetected)
    &&& (e matches SimulationError::FifoWidthNotProvided(id) ==> bram_fold(depths, widths, 0)
        == Err::<usize, SimulationError>(e))
    &&& ((e is FifoDepthNotProvided || e is AxiDelayNotProvided) ==> exists|
        ps: SimulationParameters,
    |
        #[trigger] params_with(depths, base, ps) && error_post(sim, ps, e))
}

impl CompiledSimulation {
    /// Sweeps the design space: replays the graph once per depth
    /// configuration overlaid on the base parameters, recording each
    /// configuration's latency (`None` on deadlock) and block-RAM cost.
    /// Configurations are independent; the output order is the input order.
    pub fn dse(
        &self,
        base_config: &SimulationParameters,
        fifo_widths: &Vec<(FifoId, u32)>,
        fifo_design_space: &Vec<Vec<(FifoId, usize)>>,
    ) -> (r: Result<Vec<DsePoint>, SimulationError>)
        requires
            self.wf(),
            forall|c: int|
                0 <= c < fifo_design_space@.len() ==> bram_inputs_bounded(
                    overlay_depths(base_config.fifo_depths@, (#[trigger] fifo_design_space@[c])@),
                    fifo_widths@,
                ),
        ensures
            r matches Ok(points) ==> {
                &&& points@.len() == fifo_design_space@.len()
                &&& forall|c: int|
                    0 <= c < points@.len() ==> dse_point_post(
                        *self,
                        *base_config,
                        fifo_widths@,
                        (#[trigger] fifo_design_space@[c])@,
                        points@[c],
                    )
            },
            r matches Err(e) ==> exists|c: int|
                0 <= c < fifo_design_space@.len() && dse_config_err(
                    *self,
                    *base_config,
                    fifo_widths@,
                    (#[trigger] fifo_design_space@[c])@,
                    e,
                ),
            (forall|c: int|
                0 <= c < fifo_design_space@.len() ==> dse_config_ok(
                    *self,
                    *base_config,
                    fifo_widths@,
                    (#[trigger] fifo_design_space@[c])@,
                )) ==> r is Ok,
    {
        let mut points: Vec<DsePoint> = Vec::new();
        let mut c: usize = 0;
        while c < fifo_design_space.len()
            invariant
                self.wf(),
                forall|k: int|
                    0 <= k < fifo_design_space@.len() ==> bram_inputs_bounded(
                        overlay_depths(
                            base_config.fifo_depths@,
                            (#[trigger] fifo_design_space@[k])@,
                        ),
                        fifo_widths@,
                    ),
                c <= fifo_design_space@.len(),
                points@.len() == c,
                forall|k: int|
                    0 <= k < c ==> dse_point_post(
                        *self,
                        *base_config,
                        fifo_widths@,
                        (#[trigger] fifo_design_space@[k])@,
                        points@[k],
                    ),
            decreases fifo_design_space@.len() - c,
        {
            let config = &fifo_design_space[c];
            let point = match self.run_dse_config(base_config, fifo_widths, config) {
                Ok(p) => p,
                Err(e) => {
                    proof {
                        assert(dse_config_err(
                            *self,
                            *base_config,
                            fifo_widths@,
                            (fifo_design_space@[c as int])@,
                            e,
                        ));
                    }
                    return Err(e);
                },
            };
            points.push(point);
            c += 1;
        }
        Ok(points)
    }

    /// Replays one configuration of the sweep.
    pub fn run_dse_config(
        &self,
        base_config: &SimulationParameters,
        fifo_widths: &Vec<(FifoId, u32)>,
        config: &Vec<(FifoId, usize)>,
    ) -> (r: Result<DsePoint, SimulationError>)
        requires
            self.wf(),
            bram_inputs_bounded(
                overlay_depths(base_config.fifo_depths@, config@),
                fifo_widths@,
            ),
        ensures
            r matches Ok(p) ==> dse_point_post(*self, *base_config, fifo_widths@, config@, p),
            r matches Err(e) ==> dse_config_err(*self, *base_config, fifo_widths@, config@, e),
            dse_config_ok(*self, *base_config, fifo_widths@, config@) ==> r is Ok,
    {
        let mut fifo_depths = copy_vec(&base_config.fifo_depths);
        let mut i: usize = 0;
        while i < config.len()
            invariant
                i <= config@.len(),
                fifo_depths@ == overlay_depths(base_config.fifo_depths@, config@.take(i as int)),
            decreases config@.len() - i,
        {
            let (id, depth) = config[i];
            upsert_depth_exec(&mut fifo_depths, id, depth);
            proof {
                lemma_overlay_snoc(base_config.fifo_depths@, config@.take(i as int), id, depth);
                assert(config@.take(i as int).push((id, depth)) =~= config@.take(i + 1));
            }
            i += 1;
        }
        proof {
            assert(config@.take(config@.len() as int) =~= config@);
        }

        // Block-RAM accounting over the overlaid table.
        proof {
            assert(fifo_depths@.skip(0) =~= fifo_depths@);
        }
        let mut bram_count: usize = 0;
        let mut i: usize = 0;
        while i < fifo_depths.len()
            invariant
                bram_inputs_bounded(fifo_depths@, fifo_widths@),
                fifo_depths@ == overlay_depths(base_config.fifo_depths@, config@),
                i <= fifo_depths@.len(),
                bram_fold(fifo_depths@, fifo_widths@, 0) == bram_fold(
                    fifo_depths@.skip(i as int),
                    fifo_widths@,
                    bram_count,
                ),
            decreases fifo_depths@.len() - i,
        {
            let (fifo_id, depth_opt) = fifo_depths[i];
            match depth_opt {
                Some(depth) => {
                    match alist_find_u32(fifo_widths, fifo_id) {
                        Some(width) => {
                            proof {
                                assert(fifo_depths@.skip(i as int)[0] == fifo_depths@[i as int]);
                                assert(fifo_depths@.skip(i as int).drop_first() =~= fifo_depths@.skip(
                                    i + 1,
                                ));
                                crate::alist::lemma_alist_find_is_entry(fifo_widths@, fifo_id);
                                let wi = choose|wi: int|
                                    0 <= wi < fifo_widths@.len() && fifo_widths@[wi].1
                                        == alist_find(fifo_widths@, fifo_id)->0;
                                assert(fifo_widths@[wi].1 <= MAX_BRAM_WIDTH);
                                assert(fifo_depths@[i as int].1 matches Some(d) ==> d
                                    <= MAX_BRAM_DEPTH as usize);
                            }
                            bram_count = usize_sat_add(
                                bram_count,
                                get_bram_count(width, depth) as usize,
                            );
                        },
                        None => {
                            proof {
                                assert(fifo_depths@.skip(i as int)[0] == fifo_depths@[i as int]);
                                assert(bram_fold(
                                    fifo_depths@.skip(i as int),
                                    fifo_widths@,
                                    bram_count,
                                ) == Err::<usize, SimulationError>(
                                    SimulationError::FifoWidthNotProvided(fifo_id),
                                ));
                                assert(bram_fold(
                                    overlay_depths(base_config.fifo_depths@, config@),
                                    fifo_widths@,
                                    0,
                                ) == Err::<usize, SimulationError>(
                                    SimulationError::FifoWidthNotProvided(fifo_id),
                                ));
                            }
                            return Err(SimulationError::FifoWidthNotProvided(fifo_id));
                        },
                    }
                },
                None => {
                    proof {
                        assert(fifo_depths@.skip(i as int)[0] == fifo_depths@[i as int]);
                        assert(fifo_depths@.skip(i as int).drop_first() =~= fifo_depths@.skip(
                            i + 1,
                        ));
                    }
                },
            }
            i += 1;
        }
        proof {
            assert(fifo_depths@.skip(fifo_depths@.len() as int) =~= Seq::<
                (FifoId, Option<usize>),
            >::empty());
        }

        let parameters = SimulationParameters {
            fifo_depths,
            axi_delays: copy_vec(&base_config.axi_delays),
            ap_ctrl_chain_top_port_count: base_config.ap_ctrl_chain_top_port_count,
        };
        proof {
            assert(params_with(
                overlay_depths(base_config.fifo_depths@, config@),
                *base_config,
                parameters,
            ));
        }
        let latency = match self.resolve(&parameters) {
            Ok(node_cycles) => {
                proof {
                    let (vis, ord) = choose|vis: Seq<bool>, ord: Map<int, int>|
                        schedule_post(*self, parameters, vis, ord, node_cycles@);
                    assert(node_cycles@.len() == self.node_count_spec());
                }
                Some(self.top_module.end.resolve(&node_cycles))
            },
            Err(e) => {
                if matches!(e, SimulationError::DeadlockDetected) {
                    // A deadlocking configuration is recorded, not fatal.
                    proof {
                        assert(error_post(*self, parameters, SimulationError::DeadlockDetected));
                        assert(!resolvable(*self, parameters));
                    }
                    None
                } else {
                    proof {
                        assert(error_post(*self, parameters, e));
                        assert(!resolvable(*self, parameters));
                    }
                    return Err(e);
                }
            },
        };
        Ok(DsePoint { latency, bram_count })
    }
}

/// The largest committed write count among the named FIFOs of a table,
/// walking the first `i` names; zero when none applies.
pub open spec fn max_named_writes(
    table: Seq<(FifoId, FifoIoNodes)>,
    ids: Seq<FifoId>,
    i: int,
) -> int
    decreases i,
{
    if i <= 0 {
        0
    } else {
        let rest = max_named_writes(table, ids, i - 1);
        match alist_find(table, ids[i - 1]) {
            Some(nodes) => if nodes.writes@.len() > rest {
                nodes.writes@.len() as int
            } else {
                rest
            },
            None => rest,
        }
    }
}

impl CompiledSimulation {
    /// The depths worth sweeping for a set of FIFOs of one width: the design
    /// space sized by the largest write count among the named FIFOs. Fails
    /// with the first identifier that names no FIFO of the trace.
    pub fn get_fifo_design_space(&self, fifo_ids: &Vec<FifoId>, width: u32) -> (r: Result<
        Vec<usize>,
        FifoId,
    >)
        requires
            width <= MAX_BRAM_WIDTH,
            forall|i: int|
                0 <= i < self.fifo_nodes@.len() ==> (#[trigger] self.fifo_nodes@[i]).1.writes@.len()
                    + 2048 <= MAX_BRAM_DEPTH,
        ensures
            r matches Err(id) ==> alist_find(self.fifo_nodes@, id) is None && fifo_ids@.contains(
                id,
            ),
            r is Ok <==> (forall|i: int|
                0 <= i < fifo_ids@.len() ==> alist_find(
                    self.fifo_nodes@,
                    #[trigger] fifo_ids@[i],
                ) is Some),
            r matches Ok(depths) ==> depths@ == crate::fifo::design_space_spec(
                width,
                max_named_writes(
                    self.fifo_nodes@,
                    fifo_ids@,
                    fifo_ids@.len() as int,
                ) as u32,
            ).map(|i: int, c: FifoConfig| c.depth as usize),
    {
        let mut write_count: usize = 0;
        let mut i: usize = 0;
        while i < fifo_ids.len()
            invariant
                forall|k: int|
                    0 <= k < self.fifo_nodes@.len() ==> (
                    #[trigger] self.fifo_nodes@[k]).1.writes@.len() + 2048 <= MAX_BRAM_DEPTH,
                i <= fifo_ids@.len(),
                write_count + 2048 <= MAX_BRAM_DEPTH,
                write_count as int == max_named_writes(self.fifo_nodes@, fifo_ids@, i as int),
                forall|k: int|
                    0 <= k < i ==> alist_find(self.fifo_nodes@, #[trigger] fifo_ids@[k]) is Some,
            decreases fifo_ids@.len() - i,
        {
            let id = fifo_ids[i];
            match crate::alist::alist_position_u32(&self.fifo_nodes, id) {
                Some(pos) => {
                    proof {
                        crate::alist::lemma_first_match_find(self.fifo_nodes@, pos as int, id);
                    }
                    let len = self.fifo_nodes[pos].1.writes.len();
                    if len > write_count {
                        write_count = len;
                    }
                },
                None => {
                    proof {
                        crate::alist::lemma_alist_find_skip(self.fifo_nodes@, id, self.fifo_nodes@.len() as int);
                        assert(self.fifo_nodes@.skip(self.fifo_nodes@.len() as int) =~= Seq::<
                            (FifoId, FifoIoNodes),
                        >::empty());
                        assert(fifo_ids@[i as int] == id);
                    }
                    return Err(id);
                },
            }
            i += 1;
        }
        proof {
            assert(write_count as int == max_named_writes(
                self.fifo_nodes@,
                fifo_ids@,
                fifo_ids@.len() as int,
            ));
        }
        let configs = FifoConfig::get_design_space(width, write_count as u32);
        let mut depths: Vec<usize> = Vec::new();
        let mut i: usize = 0;
        while i < configs.len()
            invariant
                i <= configs@.len(),
                depths@.len() == i,
                forall|j: int| 0 <= j < i ==> depths@[j] == (#[trigger] configs@[j]).depth as usize,
            decreases configs@.len() - i,
        {
            depths.push(configs[i].depth as usize);
            i += 1;
        }
        proof {
            let wc = write_count as u32;
            assert(depths@ =~= crate::fifo::design_space_spec(width, wc).map(
                |j: int, c: FifoConfig| c.depth as usize,
            ));
        }
        Ok(depths)
    }
}

/// Checks, without ghost knowledge, that every configuration's overlaid
/// depth table stays inside the block-RAM accounting bounds, so the sweep's
/// preconditions hold. Meant for unverified callers that assemble the inputs
/// at run time.
pub fn check_dse_inputs(
    base_config: &SimulationParameters,
    fifo_widths: &Vec<(FifoId, u32)>,
    fifo_design_space: &Vec<Vec<(FifoId, usize)>>,
) -> (r: bool)
    ensures
        r == (forall|c: int|
            0 <= c < fifo_design_space@.len() ==> bram_inputs_bounded(
                overlay_depths(base_config.fifo_depths@, (#[trigger] fifo_design_space@[c])@),
                fifo_widths@,
            )),
{
    if fifo_design_space.len() == 0 {
        return true;
    }
    let mut w: usize = 0;
    while w < fifo_widths.len()
        invariant
            w <= fifo_widths@.len(),
            fifo_design_space@.len() >= 1,
            forall|i: int| 0 <= i < w ==> (#[trigger] fifo_widths@[i]).1 <= MAX_BRAM_WIDTH,
        decreases fifo_widths@.len() - w,
    {
        if fifo_widths[w].1 > MAX_BRAM_WIDTH {
            proof {
                assert(!bram_inputs_bounded(
                    overlay_depths(base_config.fifo_depths@, fifo_design_space@[0]@),
                    fifo_widths@,
                ));
            }
            return false;
        }
        w += 1;
    }
    let mut c: usize = 0;
    while c < fifo_design_space.len()
        invariant
            c <= fifo_design_space@.len(),
            forall|i: int| 0 <= i < fifo_widths@.len() ==> (#[trigger] fifo_widths@[i]).1 <= MAX_BRAM_WIDTH,
            forall|k: int|
                0 <= k < c ==> bram_inputs_bounded(
                    overlay_depths(
                        base_config.fifo_depths@,
                        (#[trigger] fifo_design_space@[k])@,
                    ),
                    fifo_widths@,
                ),
        decreases fifo_design_space@.len() - c,
    {
        let config = &fifo_design_space[c];
        let mut depths = copy_vec(&base_config.fifo_depths);
        let mut i: usize = 0;
        while i < config.len()
            invariant
                i <= config@.len(),
                depths@ == overlay_depths(base_config.fifo_depths@, config@.take(i as int)),
            decreases config@.len() - i,
        {
            let (id, depth) = config[i];
            upsert_depth_exec(&mut depths, id, depth);
            proof {
                lemma_overlay_snoc(base_config.fifo_depths@, config@.take(i as int), id, depth);
                assert(config@.take(i as int).push((id, depth)) =~= config@.take(i + 1));
            }
            i += 1;
        }
        proof {
            assert(config@.take(config@.len() as int) =~= config@);
        }
        let mut j: usize = 0;
        while j < depths.len()
            invariant
                j <= depths@.len(),
                depths@ == overlay_depths(base_config.fifo_depths@, config@),
                config@ == fifo_design_space@[c as int]@,
                c < fifo_design_space@.len(),
                forall|k: int|
                    0 <= k < j ==> ((#[trigger] depths@[k]).1 matches Some(d) ==> d
                        <= MAX_BRAM_DEPTH as usize),
            decreases depths@.len() - j,
        {
            match depths[j].1 {
                Some(d) => {
                    if d > MAX_BRAM_DEPTH as usize {
                        proof {
                            assert(!bram_inputs_bounded(
                                overlay_depths(
                                    base_config.fifo_depths@,
                                    fifo_design_space@[c as int]@,
                                ),
                                fifo_widths@,
                            ));
                        }
                        return false;
                    }
                },
                None => {
                },
            }
            j += 1;
        }
        c += 1;
    }
    true
}

proof fn lemma_overlay_snoc(
    base: Seq<(FifoId, Option<usize>)>,
    config: Seq<(FifoId, usize)>,
    id: FifoId,
    depth: usize,
)
    ensures
        overlay_depths(base, config.push((id, depth))) == upsert_depth(
            overlay_depths(base, config),
            id,
            depth,
        ),
    decreases config.len(),
{
    if config.len() == 0 {
        assert(config.push((id, depth)).drop_first() =~= Seq::<(FifoId, usize)>::empty());
        assert(config.push((id, depth))[0] == (id, depth));
        assert(overlay_depths(base, config.push((id, depth))) == overlay_depths(
            upsert_depth(base, id, depth),
            Seq::<(FifoId, usize)>::empty(),
        ));
        assert(overlay_depths(base, config) == base);
    } else {
        assert(config.push((id, depth))[0] == config[0]);
        assert(config.push((id, depth)).drop_first() =~= config.drop_first().push((id, depth)));
        lemma_overlay_snoc(
            upsert_depth(base, config[0].0, config[0].1),
            config.drop_first(),
            id,
            depth,
        );
    }
}

/// The law behind the continue-handshake formula: for a top module with
/// `num_parameters` scalar parameters the read interval is
/// `SAXI_STATUS_UPDATE_OVERHEAD + num_parameters + 1`, the done signal is
/// read at the first interval boundary (offset by the initial read delay) at
/// or after `ap_done`, and the module ends `SAXI_STATUS_WRITE_DELAY` cycles
/// later.
pub proof fn lemma_ap_continue_formula(ap_done: ClockCycle, num_parameters: u32)
    requires
        ap_done + saxi_read_interval(num_parameters) + SAXI_STATUS_READ_DELAY
            + SAXI_STATUS_WRITE_DELAY <= u64::MAX,
    ensures
        ap_continue_end(ap_done, ApContinue::TopLevel { num_parameters }) == (ap_done
            + saxi_read_interval(num_parameters) - SAXI_STATUS_READ_DELAY - 1) as u64
            / saxi_read_interval(num_parameters) * saxi_read_interval(num_parameters)
            + SAXI_STATUS_READ_DELAY + SAXI_STATUS_WRITE_DELAY,
{
    let interval = saxi_read_interval(num_parameters);
    let t = sat_add(ap_done, (interval - SAXI_STATUS_READ_DELAY - 1) as u64);
    assert(t == ap_done + interval - SAXI_STATUS_READ_DELAY - 1);
    assert((t / interval) * interval <= t) by (nonlinear_arith)
        requires
            interval > 0,
            t >= 0,
    ;
    assert(saxi_read_cycle(ap_done, num_parameters) == (t / interval) * interval
        + SAXI_STATUS_READ_DELAY);
}

} // verus!
