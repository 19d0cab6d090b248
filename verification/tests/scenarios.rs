//! End-to-end runs: a trace is compiled and replayed, and the resulting
//! cycles are checked against hand-computed schedules.

use lightningsim::axi_interface::AxiAddress;
use lightningsim::builder::axi_builder::AxiRequestRange;
use lightningsim::builder::{BuildError, SimulationBuilder};
use lightningsim::fifo::FifoId;
use lightningsim::{ClockCycle, SimulationError, SimulationParameters};

fn params(
    fifo_depths: Vec<(FifoId, Option<usize>)>,
    axi_delays: Vec<(AxiAddress, ClockCycle)>,
    ap: Option<u32>,
) -> SimulationParameters {
    SimulationParameters { fifo_depths, axi_delays, ap_ctrl_chain_top_port_count: ap }
}

#[test]
fn linear_module_runs_its_stage_count() {
    let mut b = SimulationBuilder::new();
    b.return_(String::from("top"), 10);
    let sim = b.finish().unwrap();
    let s = sim.execute(&params(vec![], vec![], None)).unwrap();
    assert_eq!(s.top_module.start, 0);
    assert_eq!(s.top_module.end, 10);
    assert_eq!(s.top_module.name, "top");
}

#[test]
fn fifo_pair_read_waits_for_control_flow() {
    let mut b = SimulationBuilder::new();
    b.add_fifo_write(0, 3, 7);
    b.add_fifo_read(0, 5, 7);
    b.return_(String::from("top"), 6);
    let sim = b.finish().unwrap();
    let s = sim.execute(&params(vec![(7, Some(2))], vec![], None)).unwrap();
    let fifo_io = s.fifo_io();
    assert_eq!(fifo_io.len(), 1);
    assert_eq!(fifo_io[0].0, 7);
    assert_eq!(fifo_io[0].1.writes, vec![3]);
    // The read could start one cycle after the write, but control flow only
    // reaches its stage at cycle five.
    assert_eq!(fifo_io[0].1.reads, vec![5]);
}

#[test]
fn fifo_pair_read_waits_for_its_write() {
    let mut b = SimulationBuilder::new();
    b.add_fifo_write(0, 3, 7);
    b.add_fifo_read(0, 4, 7);
    b.return_(String::from("top"), 6);
    let sim = b.finish().unwrap();
    let s = sim.execute(&params(vec![(7, Some(2))], vec![], None)).unwrap();
    let fifo_io = s.fifo_io();
    // Control flow reaches the read at cycle four, exactly when the data
    // arrives: one cycle after the write.
    assert_eq!(fifo_io[0].1.writes, vec![3]);
    assert_eq!(fifo_io[0].1.reads, vec![4]);
}

#[test]
fn crossed_dependency_deadlocks() {
    let mut b = SimulationBuilder::new();
    // The read sits at an earlier stage than the write feeding it, so the
    // read's node depends on a later point of its own control flow.
    b.add_fifo_read(0, 1, 1);
    b.add_fifo_write(0, 5, 1);
    b.return_(String::from("top"), 6);
    let sim = b.finish().unwrap();
    let r = sim.execute(&params(vec![(1, Some(1))], vec![], None));
    assert_eq!(r.err(), Some(SimulationError::DeadlockDetected));
}

#[test]
fn rctl_overflow_couples_requests() {
    let mut b = SimulationBuilder::new();
    // Seventeen parallel processes each issue one one-burst read request and
    // its read. The read-control queue, sixteen bursts deep, forces the
    // seventeenth process's read to wait for the first request to retire.
    for i in 0..17u64 {
        let req = AxiRequestRange { offset: i * 4096, increment: 4096, count: 1 };
        b.call(0, 0, 0, 0, false);
        b.add_axi_readreq(0, 0, 4096, req);
        b.add_axi_read(0, 1, 4096);
        b.return_(String::from("proc"), 2);
    }
    b.return_(String::from("top"), 4);
    let sim = b.finish().unwrap();
    let delay: ClockCycle = 100;
    let s = sim.execute(&params(vec![], vec![(4096, delay)], None)).unwrap();
    let axi_io = s.axi_io();
    assert_eq!(axi_io.len(), 1);
    let io = &axi_io[0].1;
    assert_eq!(io.readreqs.len(), 17);
    assert_eq!(io.reads.len(), 17);
    // All requests go out at once; each read waits for its data.
    for i in 0..16 {
        assert_eq!(io.readreqs[i].time, 0);
        assert_eq!(io.reads[i].time, io.readreqs[i].time + delay + 12);
    }
    // The seventeenth read additionally waits for the first request to
    // retire: its last read plus the read-control delay.
    assert_eq!(io.reads[16].time, io.reads[0].time + (delay + 12 - 7));
}

#[test]
fn write_response_follows_last_write() {
    let mut b = SimulationBuilder::new();
    let req = AxiRequestRange { offset: 0, increment: 8, count: 2 };
    b.add_axi_writereq(0, 0, 8192, req);
    b.add_axi_write(0, 1, 8192);
    b.add_axi_write(0, 2, 8192);
    b.add_axi_writeresp(0, 3, 8192);
    b.return_(String::from("top"), 5);
    let sim = b.finish().unwrap();
    let delay: ClockCycle = 10;
    let s = sim.execute(&params(vec![], vec![(8192, delay)], None)).unwrap();
    let axi_io = s.axi_io();
    let io = &axi_io[0].1;
    assert_eq!(io.writes.len(), 2);
    assert_eq!(io.writes[1].time, 2);
    assert_eq!(io.writes[1].range.offset, 8);
    assert_eq!(io.writes[1].range.length, 8);
    assert_eq!(io.writeresps, vec![io.writes[1].time + delay + 7]);
}

#[test]
fn dse_sweeps_the_design_space() {
    let mut b = SimulationBuilder::new();
    for i in 0..5000u32 {
        b.add_fifo_write(2 * i, 2 * i, 8);
        b.add_fifo_read(2 * i + 1, 2 * i + 1, 8);
    }
    b.return_(String::from("top"), 10001);
    let sim = b.finish().unwrap();
    let depths = sim.get_fifo_design_space(&vec![8], 8).unwrap();
    assert_eq!(depths, vec![2, 2048, 4096, 5000]);
    let base = params(vec![(8, None)], vec![], None);
    let widths = vec![(8u32, 8u32)];
    let space: Vec<Vec<(FifoId, usize)>> = depths.iter().map(|d| vec![(8u32, *d)]).collect();
    let points = sim.dse(&base, &widths, &space).unwrap();
    assert_eq!(points.len(), 4);
    let brams: Vec<usize> = points.iter().map(|p| p.bram_count).collect();
    assert_eq!(brams, vec![0, 1, 2, 4]);
    for p in &points {
        assert!(p.latency.is_some());
    }
    // A second sweep over the same configurations reports the same points.
    let again = sim.dse(&base, &widths, &space).unwrap();
    assert_eq!(points, again);
}

#[test]
fn replay_is_repeatable() {
    let mut b = SimulationBuilder::new();
    b.add_fifo_write(0, 3, 7);
    b.add_fifo_read(0, 5, 7);
    b.return_(String::from("top"), 6);
    let sim = b.finish().unwrap();
    let p = params(vec![(7, Some(2))], vec![], None);
    let s1 = sim.execute(&p).unwrap();
    let s2 = sim.execute(&p).unwrap();
    assert_eq!(s1.node_cycles, s2.node_cycles);
    assert_eq!(s1.top_module.start, s2.top_module.start);
    assert_eq!(s1.top_module.end, s2.top_module.end);
    assert_eq!(s1.top_module.name, s2.top_module.name);
    let io1 = s1.fifo_io();
    let io2 = s2.fifo_io();
    assert_eq!(io1.len(), io2.len());
    assert_eq!(io1[0].1.writes, io2[0].1.writes);
    assert_eq!(io1[0].1.reads, io2[0].1.reads);
}

#[test]
fn continue_handshake_delays_top_end() {
    let mut b = SimulationBuilder::new();
    b.return_(String::from("top"), 100);
    let sim = b.finish().unwrap();
    let s = sim.execute(&params(vec![], vec![], Some(2))).unwrap();
    // With two parameters the status loop takes eight cycles; done at cycle
    // one hundred is read at cycle one hundred one and continue written six
    // cycles later.
    assert_eq!(s.top_module.end, 107);
}

#[test]
fn missing_fifo_depth_is_reported() {
    let mut b = SimulationBuilder::new();
    b.add_fifo_write(0, 1, 9);
    b.add_fifo_read(0, 2, 9);
    b.return_(String::from("top"), 3);
    let sim = b.finish().unwrap();
    let r = sim.execute(&params(vec![], vec![], None));
    assert_eq!(r.err(), Some(SimulationError::FifoDepthNotProvided(9)));
}

#[test]
fn missing_axi_delay_is_reported() {
    let mut b = SimulationBuilder::new();
    let req = AxiRequestRange { offset: 0, increment: 8, count: 1 };
    b.add_axi_readreq(0, 0, 4096, req);
    b.add_axi_read(0, 1, 4096);
    b.return_(String::from("top"), 2);
    let sim = b.finish().unwrap();
    let r = sim.execute(&params(vec![], vec![], None));
    assert_eq!(r.err(), Some(SimulationError::AxiDelayNotProvided(4096)));
}

#[test]
fn missing_fifo_width_fails_the_sweep() {
    let mut b = SimulationBuilder::new();
    b.add_fifo_write(0, 1, 9);
    b.add_fifo_read(0, 2, 9);
    b.return_(String::from("top"), 3);
    let sim = b.finish().unwrap();
    let base = params(vec![(9, None)], vec![], None);
    let r = sim.dse(&base, &vec![], &vec![vec![(9u32, 4usize)]]);
    assert_eq!(r.err(), Some(SimulationError::FifoWidthNotProvided(9)));
}

#[test]
fn unfinished_trace_is_rejected() {
    let b = SimulationBuilder::new();
    let r = b.finish();
    assert!(matches!(r.err(), Some(BuildError::IncompleteTrace)));
}

#[test]
fn unread_fifo_write_is_rejected() {
    let mut b = SimulationBuilder::new();
    b.add_fifo_write(0, 1, 9);
    b.return_(String::from("top"), 3);
    let r = b.finish();
    assert!(matches!(r.err(), Some(BuildError::IncompleteEdges | BuildError::IncompleteFifo)));
}

#[test]
fn nested_call_is_timed_inside_its_parent() {
    let mut b = SimulationBuilder::new();
    // The child runs stages two through five of the parent, with a one-cycle
    // call overhead.
    b.call(0, 2, 5, 1, false);
    b.return_(String::from("child"), 3);
    b.return_(String::from("top"), 8);
    let sim = b.finish().unwrap();
    let s = sim.execute(&params(vec![], vec![], None)).unwrap();
    assert_eq!(s.top_module.start, 0);
    assert_eq!(s.top_module.submodules.len(), 1);
    let child = &s.top_module.submodules[0];
    assert_eq!(child.name, "child");
    assert_eq!(child.start, 3);
    assert_eq!(child.end, 6);
}
