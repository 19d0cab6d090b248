//! Unit checks of the arithmetic the replay relies on: burst splitting,
//! FIFO hardware selection, and block-RAM packing.

use lightningsim::axi_interface::AxiAddressRange;
use lightningsim::builder::SimulationBuilder;
use lightningsim::fifo::{FifoConfig, FifoType};
use lightningsim::SimulationParameters;

#[test]
fn burst_count_within_one_page() {
    let range = AxiAddressRange { offset: 0, length: 4096 };
    assert_eq!(range.burst_count(), 1);
}

#[test]
fn burst_count_crossing_one_boundary() {
    let range = AxiAddressRange { offset: 1, length: 4096 };
    assert_eq!(range.burst_count(), 2);
}

#[test]
fn burst_count_straddling_page_end() {
    let range = AxiAddressRange { offset: 4095, length: 2 };
    assert_eq!(range.burst_count(), 2);
}

#[test]
fn fifo_type_shallow_is_shift_register() {
    for depth in [None, Some(1), Some(2)] {
        let t = FifoType::from_depth(depth);
        assert!(matches!(t, FifoType::ShiftRegister));
        assert_eq!(t.raw_delay(), 1);
        assert_eq!(t.war_delay(), 1);
    }
}

#[test]
fn fifo_type_deep_is_ram() {
    for depth in [Some(3), Some(1024), Some(usize::MAX)] {
        let t = FifoType::from_depth(depth);
        assert!(matches!(t, FifoType::Ram));
        assert_eq!(t.raw_delay(), 2);
        assert_eq!(t.war_delay(), 1);
    }
}

#[test]
fn bram_count_examples() {
    assert_eq!(FifoConfig { width: 8, depth: 2 }.bram_count(), 0);
    assert_eq!(FifoConfig { width: 8, depth: 1024 }.bram_count(), 1);
    assert_eq!(FifoConfig { width: 8, depth: 2048 }.bram_count(), 1);
    assert_eq!(FifoConfig { width: 8, depth: 4096 }.bram_count(), 2);
    assert_eq!(FifoConfig { width: 8, depth: 5000 }.bram_count(), 4);
    assert_eq!(FifoConfig { width: 32, depth: 2048 }.bram_count(), 4);
}

#[test]
fn bram_count_empirical_special_case() {
    // A width of 21 leaves remaining width 3 after the 18- and 9-bit tiles,
    // which costs two extra tiles up to depth 4096.
    let c = FifoConfig { width: 21, depth: 4096 };
    let base = (21 / 18) * ((4096 + 1023) / 1024);
    assert_eq!(c.bram_count(), base + 2);
}

#[test]
fn design_space_changes_bram_count_between_entries() {
    let configs = FifoConfig::get_design_space(8, 5000);
    let depths: Vec<u32> = configs.iter().map(|c| c.depth).collect();
    assert_eq!(depths, vec![2, 2048, 4096, 5000]);
    for pair in configs.windows(2) {
        assert_ne!(pair[0].bram_count(), pair[1].bram_count());
    }
    assert_eq!(configs.first().unwrap().depth, 2);
    assert_eq!(configs.last().unwrap().depth, 5000);
}

#[test]
fn compiled_artifact_is_well_formed() {
    let mut b = SimulationBuilder::new();
    b.add_fifo_write(0, 3, 7);
    b.add_fifo_read(0, 5, 7);
    b.return_(String::from("top"), 6);
    let sim = b.finish().unwrap();
    assert!(sim.well_formed());
}

#[test]
fn dse_input_check_enforces_bram_bounds() {
    let base = SimulationParameters {
        fifo_depths: vec![(8, None)],
        axi_delays: vec![],
        ap_ctrl_chain_top_port_count: None,
    };
    // No configurations: nothing to replay, so nothing can be out of bounds.
    assert!(lightningsim::simulate::check_dse_inputs(&base, &vec![(8, 0x1_0000)], &vec![]));
    // An in-bounds sweep passes; an overlaid depth beyond the block-RAM
    // accounting range fails.
    assert!(lightningsim::simulate::check_dse_inputs(
        &base,
        &vec![(8, 32)],
        &vec![vec![(8, 1024)]],
    ));
    assert!(!lightningsim::simulate::check_dse_inputs(
        &base,
        &vec![(8, 32)],
        &vec![vec![(8, 0x1000_0000)]],
    ));
    // A width beyond the accounting range fails once a configuration exists.
    assert!(!lightningsim::simulate::check_dse_inputs(
        &base,
        &vec![(8, 0x1_0000)],
        &vec![vec![(8, 2)]],
    ));
}
