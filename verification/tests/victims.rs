use swage::blacksmith::{
    Aggressor, FuzzSummary, HammeringPattern, PatternAddressMapper, PatternBitFlip, PatternLoadError,
};
use swage::bit_def::BitDef;
use swage::consec_blocks::ConsecBlocks;
use swage::content::PageBuffer;
use swage::dram_addr::DRAMAddr;
use swage::hammerer::{Attempts, Bit, BlockShift, DevMem, Dummy, FlipAddr};
use swage::mem_configuration::{FromBitDefs, MemConfiguration};
use swage::memblock::Memory;
use swage::pattern::{BitFlip, DataPattern, FlipDirection};
use swage::phys_addr::PhysAddr;
use swage::profile::{DataPatternKind, InjectionConfig, MemoryError, RoundProfile};
use swage::report::{FormatPfns, GetConsecPfns, PfnResolver};
use swage::util::make_vec;
use swage::victim::{
    flips_result, ExcludeFromInit, HammerVictimError, HammerVictimTargetCheck, MemCheck,
    VictimOrchestrator, VictimResult,
};
use swage::virt_to_phys::VirtToPhysResolver;

#[test]
fn memory_check_victim() {
    let base = 0x80_0000;
    let memory = PageBuffer::new(base, 4).unwrap();
    let mut victim = MemCheck::new(
        memory,
        DataPattern::One,
        ExcludeFromInit(vec![base + 4096]),
    );
    assert!(victim.start().is_ok());
    victim.init();
    assert!(victim.memory.data[..4096].iter().all(|&b| b == 0xff));
    assert!(victim.memory.data[4096..8192].iter().all(|&b| b == 0));
    assert!(matches!(victim.check(), Err(HammerVictimError::NoFlips)));
    victim.memory.data[9000] = 0xfb;
    match victim.check() {
        Ok(VictimResult::BitFlips(flips)) => {
            assert_eq!(flips, vec![BitFlip::new(base + 9000, 0x04, 0xff)])
        }
        _ => panic!("one byte differs"),
    }
    victim.stop();
}

#[test]
fn memory_check_with_random_data() {
    let memory = PageBuffer::new(0, 3).unwrap();
    let mut victim = MemCheck::new(
        memory,
        DataPatternKind::Random.pattern(77),
        ExcludeFromInit(vec![]),
    );
    victim.init();
    assert!(matches!(victim.check(), Err(HammerVictimError::NoFlips)));
    let first = victim.memory.data.clone();
    victim.init();
    assert_eq!(victim.memory.data, first);
    victim.memory.data[5] ^= 0x10;
    let flips = victim.check().unwrap().bit_flips();
    assert_eq!(flips.len(), 1);
    assert_eq!((flips[0].addr, flips[0].bitmask), (5, 0x10));
    assert_eq!(flips[0].data, first[5]);
}

#[test]
fn target_check_victim() {
    let targets = vec![
        BitFlip::new(0x1000, 0x01, 0xff),
        BitFlip::new(0x2000, 0x80, 0x00),
        BitFlip::new(0x3000, 0x02, 0x55),
    ];
    let victim = HammerVictimTargetCheck::new(
        PageBuffer::new(0, 4).unwrap(),
        DataPattern::Zero,
        targets,
    );
    assert!(matches!(
        victim.check_values(&vec![0xff, 0x00, 0x55]),
        Err(HammerVictimError::NoFlips)
    ));
    let flips = victim
        .check_values(&vec![0xfe, 0x00, 0x75])
        .unwrap()
        .bit_flips();
    assert_eq!(
        flips,
        vec![
            BitFlip::new(0x1000, 0x01, 0xff),
            BitFlip::new(0x3000, 0x20, 0x55)
        ]
    );
}

#[test]
fn victim_results() {
    assert!(matches!(flips_result(vec![]), Err(HammerVictimError::NoFlips)));
    let flip = BitFlip::new(1, 2, 3);
    assert_eq!(
        VictimResult::BitFlips(vec![flip]).into_bit_flips(),
        Some(vec![flip])
    );
    assert_eq!(VictimResult::Nothing.into_bit_flips(), None);
    assert_eq!(VictimResult::String("done".to_string()).into_bit_flips(), None);
    assert_eq!(VictimResult::Strings(vec![]).into_bit_flips(), None);
}

#[test]
fn hammerers_change_bytes() {
    let set = DevMem::new(PhysAddr::new(0x1000), Bit(3), FlipDirection::ZeroToOne);
    assert_eq!(set.changed(0x00), 0x08);
    assert_eq!(set.changed(0x08), 0x08);
    let clear = DevMem::new(PhysAddr::new(0x1000), Bit(7), FlipDirection::OneToZero);
    assert_eq!(clear.changed(0xff), 0x7f);
    assert_eq!(clear.changed(0x7f), 0x7f);
    let invert = DevMem::new(PhysAddr::new(0x1000), Bit(0), FlipDirection::Any);
    assert_eq!(invert.changed(0xf0), 0xf1);
    assert_eq!(invert.changed(0xf1), 0xf0);
    assert_eq!(Dummy::changed(0x0f), 0xf0);
    assert_eq!(Dummy::new(FlipAddr(0x42)).flip_addr.0, 0x42);
    assert_eq!(Attempts(3).0, 3);
    assert_eq!(BlockShift(22).0, 22);
}

#[test]
fn pattern_kinds_and_profiles() {
    assert!(matches!(DataPatternKind::Zero.pattern(1), DataPattern::Zero));
    assert!(matches!(DataPatternKind::One.pattern(1), DataPattern::One));
    let mut a = DataPatternKind::Random.pattern(5);
    let mut b = DataPatternKind::Random.pattern(5);
    assert_eq!(a.get(0), b.get(0));
    let profile = RoundProfile {
        bit_flips: vec![BitFlip::new(1, 1, 1)],
        pattern: DataPattern::One,
    };
    assert_eq!(profile.bit_flips.len(), 1);
    assert_eq!(MemoryError::AllocFailed.message(), "Allocation failed");
    assert_eq!(MemoryError::ZeroSizeLayout.message(), "Zero size layout");
}

fn spans(blocks: &[Memory]) -> Vec<(usize, usize)> {
    blocks.iter().map(|b| (b.ptr, b.len)).collect()
}

#[test]
fn injection_release_plan() {
    let config = InjectionConfig {
        id: 1,
        target_addr: 0x7000_1234,
        flippy_page_size: 4096,
        bait_count_after: 2,
        bait_count_before: 3,
        stack_offset: 0,
    };
    assert_eq!(config.target_page(), 0x7000_1000);
    assert_eq!(config.bait_len(), Some(5 * 4096));
    assert_eq!(
        spans(&config.release_plan(0x1000_0000)),
        vec![
            (0x1000_0000, 3 * 4096),
            (0x7000_1000, 4096),
            (0x1000_0000 + 3 * 4096, 2 * 4096)
        ]
    );
    let none = InjectionConfig {
        bait_count_after: 0,
        bait_count_before: 0,
        ..config
    };
    assert_eq!(none.bait_len(), Some(0));
    assert_eq!(spans(&none.release_plan(0)), vec![(0x7000_1000, 4096)]);
    let huge = InjectionConfig {
        bait_count_after: usize::MAX,
        ..config
    };
    assert_eq!(huge.bait_len(), None);
}

fn mapper(id: &str, flips: &[usize]) -> PatternAddressMapper {
    let flip = PatternBitFlip {
        dram_addr: DRAMAddr::new(0, 0, 0),
        bitmask: 1,
        data: 0,
    };
    PatternAddressMapper {
        id: id.to_string(),
        aggressor_to_addr: [
            (1, DRAMAddr::new(0, 1, 0)),
            (2, DRAMAddr::new(1, 2, 64)),
            (1, DRAMAddr::new(0, 3, 0)),
        ]
        .into_iter()
        .collect(),
        bit_flips: flips.iter().map(|&n| vec![flip; n]).collect(),
    }
}

fn pattern(id: &str, mappings: Vec<PatternAddressMapper>) -> HammeringPattern {
    HammeringPattern {
        id: id.to_string(),
        total_activations: 1000,
        num_refresh_intervals: 8,
        access_ids: vec![Aggressor(1), Aggressor(2), Aggressor(1)],
        address_mappings: mappings,
    }
}

#[test]
fn mappings_of_a_pattern() {
    let p = pattern(
        "p",
        vec![
            mapper("a", &[1, 2]),
            mapper("b", &[4]),
            mapper("c", &[2, 2]),
            mapper("d", &[]),
            mapper("b", &[9]),
        ],
    );
    assert_eq!(p.address_mappings[0].count_bitflips(), 3);
    assert_eq!(p.address_mappings[3].count_bitflips(), 0);
    assert_eq!(p.find_mapping("b").unwrap().count_bitflips(), 4);
    assert!(p.find_mapping("x").is_none());
    assert_eq!(p.determine_most_effective_mapping().unwrap().count_bitflips(), 9);
    let tie = pattern("t", vec![mapper("a", &[4]), mapper("b", &[4]), mapper("c", &[1])]);
    // Of the mappings with the most flips the last one is taken.
    assert_eq!(tie.determine_most_effective_mapping().unwrap().id, "b");
    assert!(pattern("e", vec![]).determine_most_effective_mapping().is_none());
    assert_eq!(p.acts_per_tref(), Some(125));
    let mut still = pattern("s", vec![]);
    still.num_refresh_intervals = 0;
    assert_eq!(still.acts_per_tref(), None);
}

#[test]
fn patterns_by_identifier() {
    let summary = FuzzSummary {
        hammering_patterns: vec![
            pattern("one", vec![]),
            pattern("two", vec![mapper("m", &[1])]),
            pattern("two", vec![]),
        ],
    };
    let found = HammeringPattern::load_pattern_from_json(summary.hammering_patterns, "two").unwrap();
    assert_eq!(found.id, "two");
    assert_eq!(found.address_mappings.len(), 1);
    match HammeringPattern::load_pattern_from_json(vec![pattern("one", vec![])], "three") {
        Err(PatternLoadError::NotFound(id)) => assert_eq!(id, "three"),
        _ => panic!("no pattern has this identifier"),
    }
}

fn window_config() -> MemConfiguration {
    let rows: Vec<BitDef> = (13..29).rev().map(BitDef::Single).collect();
    let cols: Vec<BitDef> = (0..13).rev().map(BitDef::Single).collect();
    MemConfiguration::from_bitdefs(vec![BitDef::Single(29)], rows, cols).unwrap()
}

#[test]
fn addresses_of_aggressors() {
    let config = window_config();
    let m = mapper("m", &[]);
    assert_eq!(m.addr_of(Aggressor(1)), Some(DRAMAddr::new(0, 3, 0)));
    assert_eq!(m.addr_of(Aggressor(2)), Some(DRAMAddr::new(1, 2, 64)));
    assert_eq!(m.addr_of(Aggressor(3)), None);
    let base = 0x20_0000_0000;
    assert_eq!(
        m.get_hammering_addresses(&vec![Aggressor(2), Aggressor(1)], base, config),
        Some(vec![
            base | (1 << 29) | (2 << 13) | 64,
            base | (3 << 13)
        ])
    );
    assert_eq!(
        m.get_hammering_addresses(&vec![Aggressor(2), Aggressor(7)], base, config),
        None
    );
    assert_eq!(m.get_hammering_addresses(&vec![], base, config), Some(vec![]));
}

#[test]
fn report_of_ranges() {
    let ranges = vec![
        PhysAddr::new(0x1000)..PhysAddr::new(0x401000),
        PhysAddr::new(0)..PhysAddr::new(0x800),
        PhysAddr::new(0xabc000)..PhysAddr::new(0x1abc000),
    ];
    assert_eq!(
        ranges.format_pfns(),
        "0x1000..[4096 KB]..0x401000\n0x0..[0002 KB]..0x800\n0xabc000..[16384 KB]..0x1abc000\n"
    );
    assert_eq!(Vec::<std::ops::Range<PhysAddr>>::new().format_pfns(), "");
}

struct Identity;

impl VirtToPhysResolver for Identity {
    type Error = ();

    fn get_phys(&mut self, virt: u64) -> Result<PhysAddr, ()> {
        Ok(PhysAddr::new(virt as usize))
    }

    fn get_phys_range(&mut self, start: u64, end: u64) -> Result<Vec<PhysAddr>, ()> {
        Ok((start..end)
            .step_by(4096)
            .map(|a| PhysAddr::new(a as usize))
            .collect())
    }
}

#[test]
fn ranges_and_frames_through_the_traits() {
    let block = Memory::new(0x5000, 0x3000);
    assert_eq!(
        GetConsecPfns::consec_pfns(&block, &mut Identity).unwrap(),
        vec![PhysAddr::new(0x5000)..PhysAddr::new(0x8000)]
    );
    assert_eq!(block.pfn(&mut Identity), Ok(PhysAddr::new(0x5000)));
    let blocks = ConsecBlocks::new(vec![Memory::new(0x9000, 0x1000), block]);
    assert_eq!(blocks.pfn(&mut Identity), Ok(PhysAddr::new(0x9000)));
    assert_eq!(
        GetConsecPfns::consec_pfns(&blocks, &mut Identity).unwrap(),
        vec![
            PhysAddr::new(0x9000)..PhysAddr::new(0xa000),
            PhysAddr::new(0x5000)..PhysAddr::new(0x8000)
        ]
    );
}

#[test]
fn vectors_from_indices() {
    assert_eq!(make_vec(5, |i| i * i), vec![0, 1, 4, 9, 16]);
    assert_eq!(make_vec(0, |i| i), Vec::<usize>::new());
    assert_eq!(make_vec(3, |i| format!("{}", i)), vec!["0", "1", "2"]);
}
