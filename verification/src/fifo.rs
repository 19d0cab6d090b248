//! FIFO identities, hardware kinds, and block-RAM accounting.

use vstd::prelude::*;

use crate::node::{NodeIndex, NodeWithDelay};
use crate::ClockCycle;

verus! {

pub type FifoId = u32;

pub const SHIFT_REGISTER_RAW_DELAY: ClockCycle = 1;

pub const SHIFT_REGISTER_WAR_DELAY: ClockCycle = 1;

pub const RAM_RAW_DELAY: ClockCycle = 2;

pub const RAM_WAR_DELAY: ClockCycle = 1;

/// Largest FIFO depth accepted by the block-RAM accounting.
///
/// Keeps every intermediate product of the tile formulas inside 32 bits.
pub const MAX_BRAM_DEPTH: u32 = 0x0FFF_FFFF;

/// Largest FIFO width accepted by the block-RAM accounting.
pub const MAX_BRAM_WIDTH: u32 = 0xFFFF;

#[derive(Clone, Copy, PartialEq, Eq, Structural, Debug)]
pub struct Fifo {
    pub id: FifoId,
}

/// A candidate hardware configuration of one FIFO.
#[derive(Clone, Copy, PartialEq, Eq, Structural, Debug)]
pub struct FifoConfig {
    pub width: u32,
    pub depth: u32,
}

/// How a FIFO of a given depth is implemented in hardware.
#[derive(Clone, Copy, PartialEq, Eq, Structural, Debug)]
pub enum FifoType {
    ShiftRegister,
    Ram,
}

impl FifoType {
    /// The kind chosen for a given depth: two or fewer entries fit in a
    /// shift register, anything deeper needs RAM. An unset depth means a
    /// default shift register.
    pub open spec fn from_depth_spec(depth: Option<usize>) -> FifoType {
        match depth {
            Some(d) => if d <= 2 {
                FifoType::ShiftRegister
            } else {
                FifoType::Ram
            },
            None => FifoType::ShiftRegister,
        }
    }

    pub fn from_depth(depth: Option<usize>) -> (r: FifoType)
        ensures
            r == FifoType::from_depth_spec(depth),
    {
        match depth {
            Some(d) => if d <= 2 {
                FifoType::ShiftRegister
            } else {
                FifoType::Ram
            },
            None => FifoType::ShiftRegister,
        }
    }

    /// The kind selected by an optional configuration; no configuration
    /// means the default shift register.
    pub fn from_config(config: Option<&FifoConfig>) -> (r: FifoType)
        ensures
            r == match config {
                Some(c) => c.config_type_spec(),
                None => FifoType::ShiftRegister,
            },
    {
        match config {
            Some(config) => config.fifo_type(),
            None => FifoType::ShiftRegister,
        }
    }

    pub open spec fn raw_delay_spec(self) -> ClockCycle {
        match self {
            FifoType::ShiftRegister => SHIFT_REGISTER_RAW_DELAY,
            FifoType::Ram => RAM_RAW_DELAY,
        }
    }

    /// Read-after-write latency of this hardware kind.
    pub fn raw_delay(&self) -> (r: ClockCycle)
        ensures
            r == self.raw_delay_spec(),
    {
        match self {
            FifoType::ShiftRegister => SHIFT_REGISTER_RAW_DELAY,
            FifoType::Ram => RAM_RAW_DELAY,
        }
    }

    pub open spec fn war_delay_spec(self) -> ClockCycle {
        match self {
            FifoType::ShiftRegister => SHIFT_REGISTER_WAR_DELAY,
            FifoType::Ram => RAM_WAR_DELAY,
        }
    }

    /// Write-after-read latency of this hardware kind.
    pub fn war_delay(&self) -> (r: ClockCycle)
        ensures
            r == self.war_delay_spec(),
    {
        match self {
            FifoType::ShiftRegister => SHIFT_REGISTER_WAR_DELAY,
            FifoType::Ram => RAM_WAR_DELAY,
        }
    }
}

/// The law that delays follow the depth alone: depths of one, two, or unset
/// select the shift register (read-after-write one cycle, write-after-read
/// one cycle); a depth of three or more selects RAM (read-after-write two
/// cycles, write-after-read one cycle).
pub proof fn lemma_fifo_delay_selection(depth: Option<usize>)
    ensures
        (depth is None || depth->0 <= 2) ==> {
            &&& FifoType::from_depth_spec(depth).raw_delay_spec() == 1
            &&& FifoType::from_depth_spec(depth).war_delay_spec() == 1
        },
        (depth is Some && depth->0 >= 3) ==> {
            &&& FifoType::from_depth_spec(depth).raw_delay_spec() == 2
            &&& FifoType::from_depth_spec(depth).war_delay_spec() == 1
        },
{
}

impl FifoConfig {
    pub open spec fn config_type_spec(self) -> FifoType {
        if self.depth <= 2 {
            FifoType::ShiftRegister
        } else {
            FifoType::Ram
        }
    }

    /// The hardware kind this configuration selects.
    pub fn fifo_type(&self) -> (r: FifoType)
        ensures
            r == self.config_type_spec(),
    {
        if self.depth <= 2 {
            FifoType::ShiftRegister
        } else {
            FifoType::Ram
        }
    }

    /// Number of block-RAM tiles the configuration consumes, packing the
    /// width greedily into 1Kx18, 2Kx9, 4Kx4, 8Kx2 and 16Kx1 tiles, with one
    /// empirical special case. Shift registers consume none.
    pub open spec fn bram_count_spec(self) -> u32 {
        if self.config_type_spec() == FifoType::Ram {
            let w18 = ((self.width / 18) * ((self.depth + 1023) / 1024)) as u32;
            let r18 = (self.width % 18) as u32;
            if self.depth <= 1024 {
                (w18 + if r18 != 0 { 1u32 } else { 0u32 }) as u32
            } else {
                let w9 = (w18 + (r18 / 9) * ((self.depth + 2047) / 2048)) as u32;
                let r9 = (r18 % 9) as u32;
                if self.depth <= 2048 {
                    (w9 + if r9 != 0 { 1u32 } else { 0u32 }) as u32
                } else if self.depth <= 4096 && self.width > 18 && r9 == 3 {
                    (w9 + 2) as u32
                } else {
                    let w4 = (w9 + (r9 / 4) * ((self.depth + 4095) / 4096)) as u32;
                    let r4 = (r9 % 4) as u32;
                    if self.depth <= 4096 {
                        (w4 + if r4 != 0 { 1u32 } else { 0u32 }) as u32
                    } else {
                        let w2 = (w4 + (r4 / 2) * ((self.depth + 8191) / 8192)) as u32;
                        let r2 = (r4 % 2) as u32;
                        (w2 + r2 * ((self.depth + 16383) / 16384)) as u32
                    }
                }
            }
        } else {
            0
        }
    }

    pub fn bram_count(&self) -> (r: u32)
        requires
            self.width <= MAX_BRAM_WIDTH,
            self.depth <= MAX_BRAM_DEPTH,
        ensures
            r == self.bram_count_spec(),
    {
        if matches!(self.fifo_type(), FifoType::Ram) {
            let mut bram_count: u32 = 0;
            let mut remaining_width: u32 = self.width;

            proof {
                assert(remaining_width / 18 <= MAX_BRAM_WIDTH / 18);
                assert((self.depth + 1023) / 1024 <= (MAX_BRAM_DEPTH + 1023) / 1024);
                assert((remaining_width / 18) * ((self.depth + 1023) / 1024) <= (MAX_BRAM_WIDTH
                    / 18) * ((MAX_BRAM_DEPTH + 1023) / 1024)) by (nonlinear_arith)
                    requires
                        remaining_width / 18 <= MAX_BRAM_WIDTH / 18,
                        (self.depth + 1023) / 1024 <= (MAX_BRAM_DEPTH + 1023) / 1024,
                ;
            }
            // BRAMs can be configured as 1Kx18...
            bram_count += (remaining_width / 18) * ((self.depth + 1023) / 1024);
            remaining_width %= 18;
            if self.depth <= 1024 {
                bram_count += if remaining_width != 0 { 1 } else { 0 };
                return bram_count;
            }

            proof {
                assert((remaining_width / 9) * ((self.depth + 2047) / 2048) <= 1 * ((MAX_BRAM_DEPTH
                    + 2047) / 2048)) by (nonlinear_arith)
                    requires
                        remaining_width / 9 <= 1,
                        (self.depth + 2047) / 2048 <= (MAX_BRAM_DEPTH + 2047) / 2048,
                ;
            }
            // ...and/or as 2Kx9...
            bram_count += (remaining_width / 9) * ((self.depth + 2047) / 2048);
            remaining_width %= 9;
            if self.depth <= 2048 {
                bram_count += if remaining_width != 0 { 1 } else { 0 };
                return bram_count;
            }

            // (Ad-hoc special case found empirically)
            if self.depth <= 4096 && self.width > 18 && remaining_width == 3 {
                bram_count += 2;
                return bram_count;
            }

            proof {
                assert((remaining_width / 4) * ((self.depth + 4095) / 4096) <= 2 * ((MAX_BRAM_DEPTH
                    + 4095) / 4096)) by (nonlinear_arith)
                    requires
                        remaining_width / 4 <= 2,
                        (self.depth + 4095) / 4096 <= (MAX_BRAM_DEPTH + 4095) / 4096,
                ;
            }
            // ...and/or as 4Kx4...
            bram_count += (remaining_width / 4) * ((self.depth + 4095) / 4096);
            remaining_width %= 4;
            if self.depth <= 4096 {
                bram_count += if remaining_width != 0 { 1 } else { 0 };
                return bram_count;
            }

            proof {
                assert((remaining_width / 2) * ((self.depth + 8191) / 8192) <= 1 * ((MAX_BRAM_DEPTH
                    + 8191) / 8192)) by (nonlinear_arith)
                    requires
                        remaining_width / 2 <= 1,
                        (self.depth + 8191) / 8192 <= (MAX_BRAM_DEPTH + 8191) / 8192,
                ;
            }
            // ...and/or as 8Kx2...
            bram_count += (remaining_width / 2) * ((self.depth + 8191) / 8192);
            remaining_width %= 2;

            proof {
                assert(remaining_width * ((self.depth + 16383) / 16384) <= 1 * ((MAX_BRAM_DEPTH
                    + 16383) / 16384)) by (nonlinear_arith)
                    requires
                        remaining_width <= 1,
                        (self.depth + 16383) / 16384 <= (MAX_BRAM_DEPTH + 16383) / 16384,
                ;
            }
            // ...and/or as 16Kx1.
            bram_count += remaining_width * ((self.depth + 16383) / 16384);
            bram_count
        } else {
            0
        }
    }
}

/// The candidate depths the design-space sweep tries for one FIFO: depth 2,
/// then every multiple of 1024 below `max_depth`, then `max_depth` itself.
pub open spec fn design_space_candidates(width: u32, max_depth: u32) -> Seq<FifoConfig> {
    Seq::new(((max_depth + 1023) / 1024) as nat, |i: int| FifoConfig {
        width,
        depth: if i == 0 {
            2u32
        } else {
            (i * 1024) as u32
        },
    })
}

/// The depth rounded up to the next multiple of 1024.
pub open spec fn next_candidate_depth(depth: u32) -> u32 {
    (((depth + 1024) / 1024) * 1024) as u32
}

/// The tail of the design space from candidate `i` on: candidates are taken
/// in order until one already costs as much as the deepest configuration;
/// a candidate is kept only when deepening it to the next multiple of 1024
/// would change its block-RAM cost.
pub open spec fn design_space_from(cands: Seq<FifoConfig>, max_bram: u32, i: int) -> Seq<FifoConfig>
    decreases cands.len() - i,
{
    if i < 0 || i >= cands.len() {
        Seq::empty()
    } else {
        let c = cands[i];
        if c.bram_count_spec() == max_bram {
            Seq::empty()
        } else {
            let keep = c.bram_count_spec() != FifoConfig {
                width: c.width,
                depth: next_candidate_depth(c.depth),
            }.bram_count_spec();
            if keep {
                seq![c] + design_space_from(cands, max_bram, i + 1)
            } else {
                design_space_from(cands, max_bram, i + 1)
            }
        }
    }
}

/// The whole design space for one FIFO of a given width that saw
/// `write_count` writes.
pub open spec fn design_space_spec(width: u32, write_count: u32) -> Seq<FifoConfig> {
    let max_depth = if write_count >= 2 {
        write_count
    } else {
        2u32
    };
    let max_bram = FifoConfig { width, depth: max_depth }.bram_count_spec();
    design_space_from(design_space_candidates(width, max_depth), max_bram, 0) + seq![
        FifoConfig { width, depth: max_depth },
    ]
}

impl FifoConfig {
    /// Enumerates the hardware configurations worth trying for a FIFO of the
    /// given width that saw `write_count` writes.
    pub fn get_design_space(width: u32, write_count: u32) -> (r: Vec<FifoConfig>)
        requires
            width <= MAX_BRAM_WIDTH,
            write_count + 2048 <= MAX_BRAM_DEPTH,
        ensures
            r@ == design_space_spec(width, write_count),
    {
        let initial_depth: u32 = 2;
        let max_depth: u32 = if write_count >= initial_depth {
            write_count
        } else {
            initial_depth
        };
        let max_bram_count = FifoConfig { width, depth: max_depth }.bram_count();
        let ghost cands = design_space_candidates(width, max_depth);
        let cand_count: u32 = (max_depth + 1023) / 1024;
        let mut r: Vec<FifoConfig> = Vec::new();
        let mut i: u32 = 0;
        let mut stopped: bool = false;
        while i < cand_count && !stopped
            invariant
                width <= MAX_BRAM_WIDTH,
                write_count + 2048 <= MAX_BRAM_DEPTH,
                2 <= max_depth <= write_count + 2,
                max_bram_count == (FifoConfig { width, depth: max_depth }).bram_count_spec(),
                cands == design_space_candidates(width, max_depth),
                cand_count == cands.len(),
                0 <= i <= cand_count,
                !stopped ==> r@ + design_space_from(cands, max_bram_count, i as int)
                    == design_space_from(cands, max_bram_count, 0),
                stopped ==> r@ == design_space_from(cands, max_bram_count, 0),
            decreases cand_count - i + if stopped {
                0int
            } else {
                1int
            },
        {
            let depth: u32 = if i == 0 {
                2
            } else {
                i * 1024
            };
            proof {
                if i >= 1 {
                    assert(i * 1024 <= max_depth - 1) by (nonlinear_arith)
                        requires
                            1 <= i <= cand_count - 1,
                            cand_count == (max_depth + 1023) / 1024,
                            max_depth >= 2,
                    ;
                }
                assert(cands[i as int] == FifoConfig { width, depth });
            }
            let config = FifoConfig { width, depth };
            let bram_count = config.bram_count();
            if bram_count == max_bram_count {
                stopped = true;
                proof {
                    assert(design_space_from(cands, max_bram_count, i as int) =~= Seq::empty());
                }
            } else {
                let next_depth: u32 = ((depth + 1024) / 1024) * 1024;
                proof {
                    assert(((depth + 1024) / 1024) * 1024 <= depth + 1024) by (nonlinear_arith);
                    assert(next_depth == next_candidate_depth(depth));
                }
                let next_config = FifoConfig { width, depth: next_depth };
                if bram_count != next_config.bram_count() {
                    r.push(config);
                }
                proof {
                    assert(r@ + design_space_from(cands, max_bram_count, i + 1)
                        =~= design_space_from(cands, max_bram_count, 0));
                }
                i += 1;
            }
        }
        proof {
            if !stopped {
                assert(design_space_from(cands, max_bram_count, i as int) =~= Seq::empty());
                assert(r@ =~= design_space_from(cands, max_bram_count, 0));
            }
        }
        r.push(FifoConfig { width, depth: max_depth });
        proof {
            assert(r@ =~= design_space_spec(width, write_count));
        }
        r
    }
}

/// Nodes that wrote to and read from one FIFO in the compiled graph.
///
/// The first write to a FIFO may have no dependencies of its own, so writes
/// are kept as [`NodeWithDelay`]; every read depends on its write, so reads
/// always own a node.
#[derive(Clone, Debug)]
pub struct FifoIoNodes {
    pub writes: Vec<NodeWithDelay>,
    pub reads: Vec<NodeIndex>,
}

impl FifoIoNodes {
    /// Every referenced node lies inside a graph of `node_count` nodes.
    pub open spec fn in_bounds(self, node_count: int) -> bool {
        &&& forall|i: int| 0 <= i < self.writes@.len() ==> self.writes@[i].in_bounds(node_count)
        &&& forall|i: int| 0 <= i < self.reads@.len() ==> self.reads@[i] < node_count
    }
}

/// The resolved I/O times of one FIFO under one set of parameters.
#[derive(Clone, Debug)]
pub struct FifoIo {
    pub writes: Vec<ClockCycle>,
    pub reads: Vec<ClockCycle>,
}

impl FifoIo {
    pub fn new(fifo_io_nodes: &FifoIoNodes, node_cycles: &Vec<ClockCycle>) -> (r: FifoIo)
        requires
            fifo_io_nodes.in_bounds(node_cycles@.len() as int),
        ensures
            r.writes@.len() == fifo_io_nodes.writes@.len(),
            forall|i: int|
                0 <= i < r.writes@.len() ==> r.writes@[i] == fifo_io_nodes.writes@[i].resolve_spec(
                    node_cycles@,
                ),
            r.reads@.len() == fifo_io_nodes.reads@.len(),
            forall|i: int|
                0 <= i < r.reads@.len() ==> r.reads@[i] == node_cycles@[fifo_io_nodes.reads@[i] as int],
    {
        let mut writes: Vec<ClockCycle> = Vec::new();
        let mut i: usize = 0;
        while i < fifo_io_nodes.writes.len()
            invariant
                fifo_io_nodes.in_bounds(node_cycles@.len() as int),
                i <= fifo_io_nodes.writes@.len(),
                writes@.len() == i,
                forall|j: int|
                    0 <= j < i ==> writes@[j] == fifo_io_nodes.writes@[j].resolve_spec(node_cycles@),
            decreases fifo_io_nodes.writes@.len() - i,
        {
            writes.push(fifo_io_nodes.writes[i].resolve(node_cycles));
            i += 1;
        }
        let mut reads: Vec<ClockCycle> = Vec::new();
        let mut i: usize = 0;
        while i < fifo_io_nodes.reads.len()
            invariant
                fifo_io_nodes.in_bounds(node_cycles@.len() as int),
                i <= fifo_io_nodes.reads@.len(),
                reads@.len() == i,
                forall|j: int|
                    0 <= j < i ==> reads@[j] == node_cycles@[fifo_io_nodes.reads@[j] as int],
            decreases fifo_io_nodes.reads@.len() - i,
        {
            reads.push(node_cycles[fifo_io_nodes.reads[i] as usize]);
            i += 1;
        }
        FifoIo { writes, reads }
    }
}


/// The running FIFO occupancy of a merged walk over write and read times:
/// from state `(i, j)` the next write is taken when it happens strictly
/// before the next read, raising the occupancy, and the next read otherwise.
/// The result is the highest occupancy reached.
pub open spec fn observed_depth_from(
    writes: Seq<ClockCycle>,
    reads: Seq<ClockCycle>,
    i: int,
    j: int,
    depth: int,
    max_depth: int,
) -> int
    decreases writes.len() - i, reads.len() - j,
{
    if i < 0 || j < 0 || i >= writes.len() || j >= reads.len() {
        max_depth
    } else if writes[i] < reads[j] {
        observed_depth_from(
            writes,
            reads,
            i + 1,
            j,
            depth + 1,
            if depth + 1 > max_depth {
                depth + 1
            } else {
                max_depth
            },
        )
    } else {
        observed_depth_from(writes, reads, i, j + 1, depth - 1, max_depth)
    }
}

impl FifoIo {
    /// The deepest the FIFO ever was: the highest number of writes not yet
    /// matched by a read at any point of the run. Meaningful for the I/O of
    /// a real run, where each datum is read strictly after its write and
    /// every write happens before the last read.
    pub fn get_observed_depth(&self) -> (r: usize)
        requires
            self.writes@.len() > 0 ==> {
                &&& self.reads@.len() > 0
                &&& forall|i: int|
                    0 <= i < self.writes@.len() ==> #[trigger] self.writes@[i]
                        < self.reads@[self.reads@.len() - 1]
                &&& forall|k: int|
                    0 <= k < self.writes@.len() && k < self.reads@.len()
                        ==> #[trigger] self.writes@[k] < self.reads@[k]
            },
        ensures
            r == observed_depth_from(self.writes@, self.reads@, 0, 0, 0, 0),
            r <= self.writes@.len(),
    {
        let mut depth: usize = 0;
        let mut max_depth: usize = 0;
        let mut i: usize = 0;
        let mut j: usize = 0;
        while i < self.writes.len()
            invariant
                self.writes@.len() > 0 ==> {
                    &&& self.reads@.len() > 0
                    &&& forall|k: int|
                        0 <= k < self.writes@.len() ==> #[trigger] self.writes@[k]
                            < self.reads@[self.reads@.len() - 1]
                    &&& forall|k: int|
                        0 <= k < self.writes@.len() && k < self.reads@.len()
                            ==> #[trigger] self.writes@[k] < self.reads@[k]
                },
                i <= self.writes@.len(),
                j <= i,
                i < self.writes@.len() ==> j < self.reads@.len(),
                depth == i - j,
                max_depth <= i,
                depth <= max_depth,
                observed_depth_from(self.writes@, self.reads@, 0, 0, 0, 0)
                    == observed_depth_from(
                    self.writes@,
                    self.reads@,
                    i as int,
                    j as int,
                    depth as int,
                    max_depth as int,
                ),
            decreases self.writes@.len() - i, self.reads@.len() - j,
        {
            let write_cycle = self.writes[i];
            let read_cycle = self.reads[j];
            if write_cycle < read_cycle {
                depth = depth + 1;
                if depth > max_depth {
                    max_depth = depth;
                }
                i = i + 1;
            } else {
                proof {
                    assert(self.writes@[i as int] < self.reads@[self.reads@.len() - 1]);
                    assert(j < self.reads@.len() - 1);
                    assert(i as int != j as int);
                }
                depth = depth - 1;
                j = j + 1;
            }
        }
        proof {
            assert(observed_depth_from(
                self.writes@,
                self.reads@,
                i as int,
                j as int,
                depth as int,
                max_depth as int,
            ) == max_depth as int);
        }
        max_depth
    }
}

} // verus!
