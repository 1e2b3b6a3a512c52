use swage::blacksmith::{Aggressor, EntryList, PatternAddressMapper};
use swage::consec_blocks::ConsecBlocks;
use swage::memblock::Memory;
use swage::bit_def::BitDef;
use swage::dram_addr::DRAMAddr;
use swage::mem_configuration::{FromBitDefs, MemConfiguration};
use swage::util::{group_by_keys, GroupBy};

#[test]
fn test_group_mod2() {
    let addrs = vec![0, 1, 2, 3, 4, 5, 6, 7, 8, 9];
    let groups = addrs.group_by(|x| x % 2);
    assert_eq!(groups.len(), 2);
    assert_eq!(groups[&0], vec![0, 2, 4, 6, 8]);
    assert_eq!(groups[&1], vec![1, 3, 5, 7, 9]);
}

#[test]
fn test_group_identity() {
    let addrs = vec![0, 1, 2, 3, 4, 5, 6, 7, 8, 9];
    let groups = addrs.group_by(|x| *x);
    for (i, group) in groups {
        assert_eq!(group.len(), 1);
        assert_eq!(group[0], i);
    }
}

#[test]
fn test_group_prefix() {
    let addrs = vec!["apple", "banana", "apricot", "blueberry"];
    let groups = addrs.group_by(|x| &x[0..1]);
    assert_eq!(groups.len(), 2);
    assert_eq!(groups["a"], vec!["apple", "apricot"]);
    assert_eq!(groups["b"], vec!["banana", "blueberry"]);
}

#[test]
fn groups_by_given_keys() {
    let groups = group_by_keys(vec!['a', 'b', 'c', 'd'], vec![7u64, 3, 7, 7]);
    assert_eq!(groups.len(), 2);
    assert_eq!(groups[&7], vec!['a', 'c', 'd']);
    assert_eq!(groups[&3], vec!['b']);
    assert!(Vec::<u8>::new().group_by(|x| *x).is_empty());
}

fn window_config() -> MemConfiguration {
    let rows: Vec<BitDef> = (13..29).rev().map(BitDef::Single).collect();
    let cols: Vec<BitDef> = (0..13).rev().map(BitDef::Single).collect();
    MemConfiguration::from_bitdefs(vec![BitDef::Single(29)], rows, cols).unwrap()
}

fn block_entries() -> Vec<(Aggressor, DRAMAddr)> {
    vec![
        (Aggressor(1), DRAMAddr::new(0, 1, 0)),
        (Aggressor(2), DRAMAddr::new(0, 600, 0)),
        (Aggressor(3), DRAMAddr::new(0, 2, 0)),
        (Aggressor(1), DRAMAddr::new(0, 700, 0)),
        (Aggressor(4), DRAMAddr::new(1, 0, 0)),
    ]
}

fn mapper_of(entries: Vec<(Aggressor, DRAMAddr)>) -> PatternAddressMapper {
    PatternAddressMapper {
        id: "m".to_string(),
        aggressor_to_addr: entries.into_iter().map(|(a, d)| (a.0, d)).collect(),
        bit_flips: vec![],
    }
}

#[test]
fn aggressors_by_block_in_list_order() {
    // Blocks of 4 MiB hold 512 rows of 8 KiB.
    let list = EntryList {
        entries: block_entries(),
    };
    let sets = list.aggressor_sets(window_config(), 22);
    assert_eq!(sets.len(), 3);
    assert_eq!(sets[&0], vec![Aggressor(3)]);
    assert_eq!(sets[&1], vec![Aggressor(2), Aggressor(1)]);
    assert_eq!(sets[&128], vec![Aggressor(4)]);
}

#[test]
fn aggressors_by_block() {
    let mapper = mapper_of(block_entries());
    let listed = mapper.entry_list().entries;
    assert_eq!(listed.len(), 4);
    assert!(listed.contains(&(Aggressor(1), DRAMAddr::new(0, 700, 0))));
    let mut sets = mapper.aggressor_sets(window_config(), 22);
    assert_eq!(sets.len(), 3);
    for group in sets.values_mut() {
        group.sort_by_key(|a| a.0);
    }
    assert_eq!(sets[&0], vec![Aggressor(3)]);
    assert_eq!(sets[&1], vec![Aggressor(1), Aggressor(2)]);
    assert_eq!(sets[&128], vec![Aggressor(4)]);
}

fn relocation_entries() -> Vec<(Aggressor, DRAMAddr)> {
    vec![
        (Aggressor(1), DRAMAddr::new(0, 600, 8)),
        (Aggressor(2), DRAMAddr::new(0, 2, 0)),
        (Aggressor(3), DRAMAddr::new(0, 513, 64)),
    ]
}

#[test]
fn aggressors_are_relocated_into_blocks_in_list_order() {
    let config = window_config();
    let list = EntryList {
        entries: relocation_entries(),
    };
    let block = 4usize << 20;
    // Block 1 is reached first and takes the first block of the collection.
    let memory = ConsecBlocks::new(vec![
        Memory::new(0x7000_0000, block),
        Memory::new(0x1000_0000, block),
    ]);
    let order = vec![Aggressor(2), Aggressor(1), Aggressor(3), Aggressor(2)];
    assert_eq!(
        list.get_hammering_addresses_relocate(&order, config, 22, &memory),
        Some(vec![
            0x1000_0000 + 2 * 8192,
            0x7000_0000 + (600 - 512) * 8192 + 8,
            0x7000_0000 + 8192 + 64,
            0x1000_0000 + 2 * 8192
        ])
    );
    assert_eq!(
        list.get_hammering_addresses_relocate(&vec![Aggressor(9)], config, 22, &memory),
        None
    );
}

#[test]
fn aggressors_are_relocated_into_blocks() {
    let config = window_config();
    let mapper = mapper_of(relocation_entries());
    let block = 4usize << 20;
    let bases = [0x7000_0000usize, 0x1000_0000];
    let memory = ConsecBlocks::new(vec![
        Memory::new(bases[0], block),
        Memory::new(bases[1], block),
    ]);
    let order = vec![Aggressor(2), Aggressor(1), Aggressor(3), Aggressor(2)];
    let placed = mapper
        .get_hammering_addresses_relocate(&order, config, 22, &memory)
        .unwrap();
    let block_of = |addr: usize| bases.iter().position(|b| *b <= addr && addr < *b + block).unwrap();
    let within = |addr: usize| addr - bases[block_of(addr)];
    // Each aggressor keeps its offset within its block.
    assert_eq!(within(placed[0]), 2 * 8192);
    assert_eq!(within(placed[1]), (600 - 512) * 8192 + 8);
    assert_eq!(within(placed[2]), 8192 + 64);
    assert_eq!(placed[3], placed[0]);
    // Aggressors of one block share a block, those of another do not.
    assert_eq!(block_of(placed[1]), block_of(placed[2]));
    assert_ne!(block_of(placed[0]), block_of(placed[1]));
    assert_eq!(
        mapper.get_hammering_addresses_relocate(&vec![Aggressor(9)], config, 22, &memory),
        None
    );
    let short = ConsecBlocks::new(vec![Memory::new(0x7000_0000, block)]);
    assert_eq!(
        mapper.get_hammering_addresses_relocate(&order, config, 22, &short),
        None
    );
}
