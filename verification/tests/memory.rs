use std::ops::Range;
use swage::consec_blocks::{merge_into, merge_ranges, ConsecBlocks};
use swage::mem_configuration::MemConfiguration;
use swage::memblock::{
    all_pages_fit, coalesce_pfns, consec_pfns_with, ranges_of_answer, ranges_of_entries,
    record_gaps, same_config, ConsecPfnsError, Memory, PfnAlignError, PfnOffset,
};
use swage::phys_addr::PhysAddr;
use swage::virt_to_phys::{page_span, resolve_entries, resolve_entry, ResolveError, VirtToPhysResolver};

fn pages(addrs: &[usize]) -> Vec<PhysAddr> {
    addrs.iter().map(|&a| PhysAddr::new(a)).collect()
}

fn range(start: usize, end: usize) -> Range<PhysAddr> {
    PhysAddr::new(start)..PhysAddr::new(end)
}

#[test]
fn consecutive_pages_are_coalesced() {
    let pfns = pages(&[0x1000, 0x2000, 0x3000, 0x8000, 0x9000, 0x5000]);
    assert_eq!(
        coalesce_pfns(&pfns),
        Some(vec![
            range(0x1000, 0x4000),
            range(0x8000, 0xa000),
            range(0x5000, 0x6000)
        ])
    );
    assert_eq!(coalesce_pfns(&pages(&[0x7000])), Some(vec![range(0x7000, 0x8000)]));
    // Descending pages are not consecutive.
    assert_eq!(
        coalesce_pfns(&pages(&[0x2000, 0x1000])),
        Some(vec![range(0x2000, 0x3000), range(0x1000, 0x2000)])
    );
}

#[test]
fn region_without_pages_is_an_error() {
    assert_eq!(coalesce_pfns(&vec![]), None);
}

#[test]
fn ranges_merge_across_block_boundaries() {
    let per_block = vec![
        vec![range(0x1000, 0x3000), range(0x9000, 0xb000)],
        vec![range(0xb000, 0xc000), range(0x4000, 0x5000)],
        vec![range(0x6000, 0x7000)],
        vec![range(0x7000, 0x8000)],
    ];
    assert_eq!(
        merge_ranges(&per_block),
        vec![
            range(0x1000, 0x3000),
            range(0x9000, 0xc000),
            range(0x4000, 0x5000),
            range(0x6000, 0x8000)
        ]
    );
    let mut acc = vec![range(0x1000, 0x2000)];
    merge_into(&mut acc, &vec![]);
    assert_eq!(acc, vec![range(0x1000, 0x2000)]);
    assert_eq!(merge_ranges(&vec![]), vec![]);
}

struct TablePageMap {
    first: u64,
    frames: Vec<u64>,
    calls: usize,
}

impl VirtToPhysResolver for TablePageMap {
    type Error = ResolveError;

    fn get_phys(&mut self, virt: u64) -> Result<PhysAddr, ResolveError> {
        self.calls += 1;
        let (start, _) = page_span(virt);
        let index = ((start - self.first) / 4096) as usize;
        resolve_entry((1 << 63) | self.frames[index], virt)
    }

    fn get_phys_range(&mut self, start: u64, end: u64) -> Result<Vec<PhysAddr>, ResolveError> {
        self.calls += 1;
        let from = ((start - self.first) / 4096) as usize;
        let to = ((end - self.first) / 4096) as usize;
        let raws: Vec<u64> = self.frames[from..to].iter().map(|f| (1 << 63) | f).collect();
        resolve_entries(&raws)
    }
}

#[test]
fn ranges_of_a_collection() {
    let mut map = TablePageMap {
        first: 0x10000,
        frames: vec![0x100, 0x101, 0x102, 0x103, 0x200, 0x201],
        calls: 0,
    };
    let blocks = ConsecBlocks::new(vec![
        Memory::new(0x10000, 0x2000),
        Memory::new(0x12000, 0x2000),
        Memory::new(0x14000, 0x2000),
    ]);
    let expected = vec![range(0x100000, 0x104000), range(0x200000, 0x202000)];
    assert_eq!(blocks.consec_pfns(&mut map).unwrap(), expected);
    // Asking again gives the same ranges.
    assert_eq!(blocks.consec_pfns(&mut map).unwrap(), expected);
    assert_eq!(map.calls, 6);
    assert_eq!(
        consec_pfns_with(&mut map, 0x13000, 0x2000).unwrap(),
        vec![range(0x103000, 0x104000), range(0x200000, 0x201000)]
    );
}

#[test]
fn empty_region_has_no_ranges() {
    let mut map = TablePageMap {
        first: 0x10000,
        frames: vec![0x100],
        calls: 0,
    };
    assert!(matches!(
        consec_pfns_with(&mut map, 0x10000, 0),
        Err(ConsecPfnsError::EmptyPfnRange)
    ));
    let mut top = TablePageMap {
        first: 0,
        frames: vec![0xf_ffff_ffff_ffff],
        calls: 0,
    };
    assert!(matches!(
        consec_pfns_with(&mut top, 0, 0x1000),
        Err(ConsecPfnsError::PageOutOfRange)
    ));
    assert!(!all_pages_fit(&pages(&[usize::MAX - 4095])));
    assert!(all_pages_fit(&pages(&[usize::MAX - 4096])));
}

#[test]
fn page_table_entries() {
    let present: u64 = 1 << 63;
    assert_eq!(
        resolve_entry(present | 0x1234, 0x7fff_1234_5678),
        Ok(PhysAddr::new(0x1234_678))
    );
    // Flag bits above the frame number do not count.
    assert_eq!(
        resolve_entry(present | (1 << 62) | (1 << 55) | 0x1, 0xfff),
        Ok(PhysAddr::new(0x1fff))
    );
    assert_eq!(
        resolve_entry(0x1234, 0x1000),
        Err(ResolveError::PageNotPresent)
    );
    assert_eq!(resolve_entry(present, 0x1000), Err(ResolveError::ZeroPfn));
    assert_eq!(page_span(0x1234), (0x1000, 0x1fff));
    assert_eq!(page_span(0x2000), (0x2000, 0x2fff));
    assert_eq!(
        resolve_entries(&vec![present | 1, present | 2, present]),
        Ok(vec![
            PhysAddr::new(0x1000),
            PhysAddr::new(0x2000),
            PhysAddr::new(0)
        ])
    );
    assert_eq!(
        resolve_entries(&vec![present | 1, 2, present | 3]),
        Err(ResolveError::PageNotPresent)
    );
    assert_eq!(resolve_entries(&vec![]), Ok(vec![]));
}

#[test]
fn collection_addresses_run_through_the_blocks() {
    let blocks = ConsecBlocks::new(vec![
        Memory::new(0x10000, 0x1000),
        Memory::new(0x50000, 0x2000),
        Memory::new(0x20000, 0x1000),
    ]);
    assert_eq!(blocks.len(), 0x4000);
    assert_eq!(blocks.ptr(), 0x10000);
    assert_eq!(blocks.addr(0), 0x10000);
    assert_eq!(blocks.addr(0xfff), 0x10fff);
    assert_eq!(blocks.addr(0x1000), 0x50000);
    assert_eq!(blocks.addr(0x2fff), 0x51fff);
    assert_eq!(blocks.addr(0x3000), 0x20000);
    let handed = blocks.dealloc();
    assert_eq!(handed.len(), 3);
    assert_eq!(handed[1].ptr(), 0x50000);
    assert_eq!(handed[1].len(), 0x2000);
    assert_eq!(handed[1].addr(0x10), 0x50010);
}

#[test]
fn offset_cache_is_keyed() {
    let config = MemConfiguration::default();
    let mut other = config;
    other.max_bank_bit = 5;
    assert!(same_config(&config, &config));
    assert!(!same_config(&config, &other));
    let mut changed = config;
    changed.addr_mtx[29] = 1;
    assert!(!same_config(&config, &changed));

    assert_eq!(PfnOffset::Fixed(3).get_cached(&other, 9), Some(3));
    let mut cache = PfnOffset::Dynamic(None);
    assert_eq!(cache.get_cached(&config, 100), None);
    assert_eq!(cache.put(Some(17), config, 100), Some(17));
    assert_eq!(cache.get_cached(&config, 100), Some(17));
    assert_eq!(cache.get_cached(&config, 101), None);
    assert_eq!(cache.get_cached(&other, 100), None);
    // A new key overwrites the old one.
    assert_eq!(cache.put(Some(4), other, 100), Some(4));
    assert_eq!(cache.get_cached(&config, 100), None);
    assert_eq!(cache.get_cached(&other, 100), Some(4));
    assert_eq!(cache.put(None, other, 100), None);
    assert_eq!(cache.get_cached(&other, 100), None);
}

fn spans(blocks: &[Memory]) -> Vec<(usize, usize)> {
    blocks.iter().map(|b| (b.ptr, b.len)).collect()
}

#[test]
fn blocks_are_split_at_their_row_offset() {
    let len = 4 << 20;
    let whole = Memory::new_with_parts(0x4000_0000, len, PfnOffset::Fixed(0));
    assert_eq!(spans(&whole.pfn_align().unwrap()), vec![(0x4000_0000, len)]);
    let block = Memory::new_with_parts(0x4000_0000, len, PfnOffset::Fixed(3));
    assert_eq!(
        spans(&block.pfn_align().unwrap()),
        vec![
            (0x4000_0000 + len - 3 * 8192, 3 * 8192),
            (0x4000_0000, len - 3 * 8192)
        ]
    );
    assert_eq!(
        Memory::new(0, len).pfn_align().unwrap_err(),
        PfnAlignError::OffsetUnknown
    );
    let mut unknown = Memory::new(0, len);
    unknown.pfn_offset.put(None, MemConfiguration::default(), 1);
    assert_eq!(unknown.pfn_align().unwrap_err(), PfnAlignError::NotConsecutive);
    assert_eq!(
        Memory::new_with_parts(0, len / 2, PfnOffset::Fixed(1))
            .pfn_align()
            .unwrap_err(),
        PfnAlignError::UnsupportedLength
    );
    assert_eq!(
        Memory::new_with_parts(0, len, PfnOffset::Fixed(513))
            .pfn_align()
            .unwrap_err(),
        PfnAlignError::OffsetOutOfRange
    );
    assert_eq!(
        spans(
            &Memory::new_with_parts(0, len, PfnOffset::Fixed(512))
                .pfn_align()
                .unwrap()
        ),
        vec![(0, len), (0, 0)]
    );
}

#[test]
fn gaps_between_blocks() {
    let blocks = vec![Memory::new(100, 50), Memory::new(150, 10), Memory::new(200, 100)];
    let mut trash = vec![Memory::new(1, 1)];
    record_gaps(&blocks, 100, 400, &mut trash);
    assert_eq!(spans(&trash), vec![(1, 1), (160, 40), (300, 100)]);
    let mut all = vec![];
    record_gaps(&vec![], 10, 20, &mut all);
    assert_eq!(spans(&all), vec![(10, 10)]);
    let mut none = vec![];
    record_gaps(&vec![Memory::new(10, 10)], 10, 20, &mut none);
    assert_eq!(spans(&none), vec![]);
}

#[test]
fn rows_of_a_block() {
    let block = Memory::new(0x10000, 3 * 8192 + 100);
    assert_eq!(
        spans(&block.row_spans()),
        vec![
            (0x10000, 8192),
            (0x12000, 8192),
            (0x14000, 8192),
            (0x16000, 100)
        ]
    );
    assert_eq!(spans(&Memory::new(0x10000, 8192).row_spans()), vec![(0x10000, 8192)]);
    assert_eq!(spans(&Memory::new(0x10000, 0).row_spans()), vec![]);
    assert_eq!(spans(&Memory::new(0, 1).row_spans()), vec![(0, 1)]);
}

#[test]
fn ranges_from_page_table_entries() {
    let present: u64 = 1 << 63;
    let raws = vec![present | 0x10, present | 0x11, present | 0x40, present | 0x41];
    let ranges = ranges_of_entries(&raws).unwrap();
    assert_eq!(ranges, vec![range(0x10000, 0x12000), range(0x40000, 0x42000)]);
    // The same entries give the same ranges.
    assert_eq!(ranges_of_entries(&raws).unwrap(), ranges);
    assert!(matches!(
        ranges_of_entries(&vec![present | 0x10, 0x11]),
        Err(ConsecPfnsError::Resolver(ResolveError::PageNotPresent))
    ));
    assert!(matches!(
        ranges_of_entries(&vec![]),
        Err(ConsecPfnsError::EmptyPfnRange)
    ));
    assert!(matches!(
        ranges_of_entries(&vec![present | 0xf_ffff_ffff_ffff]),
        Err(ConsecPfnsError::PageOutOfRange)
    ));
}

#[test]
fn resolver_is_not_asked_where_there_is_nothing_to_resolve() {
    let mut map = TablePageMap {
        first: 0x10000,
        frames: vec![0x100, 0x101],
        calls: 0,
    };
    assert!(matches!(
        consec_pfns_with(&mut map, 0x10000, 0),
        Err(ConsecPfnsError::EmptyPfnRange)
    ));
    assert_eq!(map.calls, 0);
    let none = ConsecBlocks::new(vec![]);
    assert_eq!(none.consec_pfns(&mut map).unwrap(), vec![]);
    assert_eq!(map.calls, 0);
    // A block without bytes in a collection ends the query.
    let blocks = ConsecBlocks::new(vec![Memory::new(0x10000, 0x1000), Memory::new(0x11000, 0)]);
    assert!(matches!(
        blocks.consec_pfns(&mut map),
        Err(ConsecPfnsError::EmptyPfnRange)
    ));
    assert_eq!(map.calls, 1);
}

#[test]
fn ranges_of_a_resolver_answer() {
    assert_eq!(
        ranges_of_answer::<()>(Ok(pages(&[0x1000, 0x2000, 0x9000]))).unwrap(),
        vec![range(0x1000, 0x3000), range(0x9000, 0xa000)]
    );
    assert!(matches!(
        ranges_of_answer::<()>(Ok(vec![])),
        Err(ConsecPfnsError::EmptyPfnRange)
    ));
    assert!(matches!(
        ranges_of_answer::<()>(Ok(pages(&[0x1000, usize::MAX - 100]))),
        Err(ConsecPfnsError::PageOutOfRange)
    ));
    assert!(matches!(
        ranges_of_answer(Err::<Vec<PhysAddr>, u8>(7)),
        Err(ConsecPfnsError::Resolver(7))
    ));
}
