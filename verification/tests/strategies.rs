use std::collections::HashSet;
use swage::allocator::{
    alloc_memory, block_count, check_request, AllocError, ConsecAllocator, SizeError,
};
use swage::coco::CoCo;
use swage::consec_blocks::ConsecBlocks;
use swage::dram_addr::DRAMAddr;
use swage::hugepage::{
    admit_page, page_request, page_usable, HugepageAllocator, HugepageError, HugepageRandomized,
    NumHugePages, PoolError,
};
use swage::mem_configuration::MemConfiguration;
use swage::memblock::Memory;
use swage::pfn::{
    check_ranges, checked_low_order_bytes, low_order_bytes, Pfn, PfnAttempt, SharedMem,
};
use swage::phys_addr::PhysAddr;
use swage::size::Size;
use swage::spoiler::{BlockVerdict, ConflictThreshold, Spoiler};
use swage::thp::{ThpError, THP};

/// Hands out one block of the requested size at the next free address and
/// counts how often it is asked.
struct Counting {
    block: Size,
    next: usize,
    calls: usize,
    fail: bool,
}

impl ConsecAllocator for Counting {
    type Error = String;

    fn inv(&self) -> bool {
        true
    }

    fn spec_block_size(&self) -> Size {
        self.block
    }

    fn block_size(&self) -> Size {
        self.block
    }

    fn alloc_consec_blocks(&mut self, size: Size) -> Result<ConsecBlocks, String> {
        self.calls += 1;
        if self.fail {
            return Err("out of memory".to_string());
        }
        let ptr = self.next;
        self.next += size.bytes();
        Ok(ConsecBlocks::new(vec![Memory::new(ptr, size.bytes())]))
    }
}

fn counting(block: Size) -> Counting {
    Counting {
        block,
        next: 0x1_0000_0000,
        calls: 0,
        fail: false,
    }
}

#[test]
fn size_that_is_no_block_multiple_is_refused_before_any_allocation() {
    let mut strategy = counting(Size::MB(4));
    let r = alloc_memory(&mut strategy, Size::MB(6));
    assert!(matches!(r, Err(AllocError::NotBlockMultiple)));
    assert_eq!(strategy.calls, 0);
    let r = alloc_memory(&mut strategy, Size::B(4 * 1024 * 1024 + 1));
    assert!(matches!(r, Err(AllocError::NotBlockMultiple)));
    assert_eq!(strategy.calls, 0);
    assert_eq!(strategy.next, 0x1_0000_0000);
}

#[test]
fn zero_size_is_refused_before_any_allocation() {
    let mut strategy = counting(Size::MB(4));
    let r = alloc_memory(&mut strategy, Size::B(0));
    assert!(matches!(r, Err(AllocError::ZeroSize)));
    assert_eq!(strategy.calls, 0);
    let mut no_blocks = counting(Size::B(0));
    assert!(matches!(
        alloc_memory(&mut no_blocks, Size::MB(4)),
        Err(AllocError::NotBlockMultiple)
    ));
    assert!(matches!(
        alloc_memory(&mut no_blocks, Size::GB(usize::MAX)),
        Err(AllocError::NotBlockMultiple)
    ));
    assert_eq!(no_blocks.calls, 0);
}

#[test]
fn block_multiple_reaches_the_strategy() {
    let mut strategy = counting(Size::MB(4));
    let memory = alloc_memory(&mut strategy, Size::MB(8)).unwrap();
    assert_eq!(strategy.calls, 1);
    assert_eq!(memory.len(), 8 << 20);
    strategy.fail = true;
    match alloc_memory(&mut strategy, Size::MB(4)) {
        Err(AllocError::Strategy(e)) => assert_eq!(e, "out of memory"),
        _ => panic!("the strategy's error is handed on"),
    }
    assert_eq!(strategy.calls, 2);
    assert!(matches!(check_request(Size::MB(8), Size::MB(4)), Ok(8388608)));
    assert!(matches!(
        check_request(Size::KB(4), Size::MB(4)),
        Err(AllocError::NotBlockMultiple)
    ));
}

#[test]
fn pool_of_huge_pages() {
    let mut pages = counting(Size::GB(1));
    let pool = HugepageRandomized::new_with_count(&mut pages, NumHugePages(3)).unwrap();
    assert_eq!(pages.calls, 3);
    assert_eq!(pool.hugepages.len(), 3);
    assert_eq!(pool.hugepages[2].ptr(), 0x1_0000_0000 + (2 << 30));
    assert_eq!(pool.block_size().bytes(), 4 << 20);
    pages.fail = true;
    assert!(matches!(
        HugepageRandomized::new_with_count(&mut pages, NumHugePages(1)),
        Err(PoolError::Strategy(_))
    ));
    assert!(page_usable(&HugepageAllocator::block_for(0)));
    assert!(!page_usable(&ConsecBlocks::new(vec![Memory::new(0, 4096)])));
    assert!(!page_usable(&ConsecBlocks::new(vec![Memory::new(usize::MAX, 1 << 30)])));
}

struct ShortPages;

impl ConsecAllocator for ShortPages {
    type Error = ();

    fn inv(&self) -> bool {
        true
    }

    fn spec_block_size(&self) -> Size {
        Size::MB(2)
    }

    fn block_size(&self) -> Size {
        Size::MB(2)
    }

    fn alloc_consec_blocks(&mut self, _size: Size) -> Result<ConsecBlocks, ()> {
        Ok(ConsecBlocks::new(vec![Memory::new(0x1000, 2 << 20)]))
    }
}

#[test]
fn pool_refuses_short_pages() {
    assert!(matches!(
        HugepageRandomized::new_with_count(&mut ShortPages, NumHugePages(1)),
        Err(PoolError::UnusablePage)
    ));
    assert!(HugepageRandomized::new_with_count(&mut ShortPages, NumHugePages(0)).is_ok());
    // A pool without pages is made without asking the allocator.
    let mut failing = counting(Size::GB(1));
    failing.fail = true;
    let empty = HugepageRandomized::new_with_count(&mut failing, NumHugePages(0)).unwrap();
    assert!(empty.hugepages.is_empty());
    assert_eq!(failing.calls, 0);
}

fn two_page_pool() -> HugepageRandomized {
    HugepageRandomized {
        hugepages: vec![
            HugepageAllocator::block_for(0x10_0000_0000),
            HugepageAllocator::block_for(0x20_0000_0000),
        ],
    }
}

#[test]
fn chunks_by_index() {
    let pool = two_page_pool();
    let picks = vec![0, 255, 256, 300, 511];
    let chunks = pool.chunks(&picks, 4);
    let ptrs: Vec<usize> = chunks.iter().map(|c| c.ptr).collect();
    assert_eq!(
        ptrs,
        vec![
            0x10_0000_0000,
            0x10_0000_0000 + 255 * (4 << 20),
            0x20_0000_0000,
            0x20_0000_0000 + 44 * (4 << 20)
        ]
    );
    assert!(chunks.iter().all(|c| c.len == 4 << 20));
}

#[test]
fn random_chunks_are_distinct_chunks_of_the_pool() {
    let mut pool = two_page_pool();
    let all: HashSet<usize> = (0..512)
        .map(|i| [0x10_0000_0000usize, 0x20_0000_0000][i / 256] + (i % 256) * (4 << 20))
        .collect();
    let memory = pool.alloc_consec_blocks(Size::GB(2)).unwrap();
    assert_eq!(memory.blocks.len(), 512);
    let picked: HashSet<usize> = memory.blocks.iter().map(|b| b.ptr).collect();
    assert_eq!(picked, all);
    let some = pool.alloc_consec_blocks(Size::MB(40)).unwrap();
    assert_eq!(some.blocks.len(), 10);
    let distinct: HashSet<usize> = some.blocks.iter().map(|b| b.ptr).collect();
    assert_eq!(distinct.len(), 10);
    assert!(distinct.is_subset(&all));
    assert!(pool.alloc_consec_blocks(Size::B(0)).unwrap().blocks.is_empty());
}

#[test]
fn random_chunks_come_in_changing_order() {
    let mut pool = two_page_pool();
    let in_order: Vec<usize> = (0..512)
        .map(|i| [0x10_0000_0000usize, 0x20_0000_0000][i / 256] + (i % 256) * (4 << 20))
        .collect();
    let first: Vec<usize> = pool
        .alloc_consec_blocks(Size::GB(2))
        .unwrap()
        .blocks
        .iter()
        .map(|b| b.ptr)
        .collect();
    let second: Vec<usize> = pool
        .alloc_consec_blocks(Size::GB(2))
        .unwrap()
        .blocks
        .iter()
        .map(|b| b.ptr)
        .collect();
    assert_ne!(first, in_order);
    assert_ne!(first, second);
}

#[test]
fn pool_with_too_few_chunks() {
    let mut pool = two_page_pool();
    assert!(pool.alloc_consec_blocks(Size::MB(2052)).is_err());
    assert!(pool.alloc_consec_blocks(Size::GB(usize::MAX)).is_err());
    let mut through_entry = two_page_pool();
    assert!(matches!(
        alloc_memory(&mut through_entry, Size::MB(6)),
        Err(AllocError::NotBlockMultiple)
    ));
    assert_eq!(
        alloc_memory(&mut through_entry, Size::MB(8)).unwrap().blocks.len(),
        2
    );
}

#[test]
fn low_order_pages_in_bytes() {
    let mut histogram = [0i64; 11];
    histogram[0] = 3;
    histogram[1] = 1;
    histogram[9] = 2;
    histogram[10] = 1000;
    assert_eq!(low_order_bytes(&histogram, 9), (3 + 2 + 2 * 512) * 4096);
    assert_eq!(low_order_bytes(&histogram, 0), 3 * 4096);
    assert_eq!(low_order_bytes(&histogram, 10), (3 + 2 + 1024 + 1000 * 1024) * 4096);
    assert_eq!(checked_low_order_bytes(&histogram, 1), Some(5 * 4096));
    histogram[2] = -1;
    assert_eq!(checked_low_order_bytes(&histogram, 1), Some(5 * 4096));
    assert_eq!(checked_low_order_bytes(&histogram, 2), None);
    histogram[2] = i64::MAX;
    assert_eq!(checked_low_order_bytes(&histogram, 9), None);
}

fn bank_of_bit_22() -> MemConfiguration {
    // The bank is bit 22 of the address.
    let mut config = MemConfiguration::default();
    config.dram_mtx[29] = 1 << 22;
    config.bk_mask = 1;
    config
}

fn ranges(lens: &[(usize, usize)]) -> Vec<std::ops::Range<PhysAddr>> {
    lens.iter()
        .map(|&(start, len)| PhysAddr::new(start)..PhysAddr::new(start + len))
        .collect()
}

fn spans(blocks: &[Memory]) -> Vec<(usize, usize)> {
    blocks.iter().map(|b| (b.ptr, b.len)).collect()
}

#[test]
fn pfn_attempt_takes_whole_blocks_in_bank_zero() {
    let strategy = Pfn::new(bank_of_bit_22(), SharedMem(None));
    assert_eq!(strategy.block_size().bytes(), 4 << 20);
    assert_eq!(
        DRAMAddr::from_virt(0x40_0000, &strategy.mem_config).bank,
        1
    );
    let mb = 1usize << 20;
    let base = 0x20_0000_0000usize;
    let pfns = ranges(&[
        (0x1000_0000, 2 * mb),
        (0x0080_0000, 4 * mb),
        (0x0040_0000, 4 * mb),
        (0x5000_0000, 8 * mb),
        (0x0100_0000, 4 * mb),
        (0x0200_0000, 4 * mb),
    ]);
    assert!(check_ranges(&pfns));
    match strategy.plan_attempt(base, &pfns, 2) {
        PfnAttempt::Done { blocks, unmap } => {
            assert_eq!(
                spans(&blocks),
                vec![(base + 2 * mb, 4 * mb), (base + 18 * mb, 4 * mb)]
            );
            assert_eq!(
                spans(&unmap),
                vec![
                    (base, 2 * mb),
                    (base + 6 * mb, 12 * mb),
                    (base + 22 * mb, 1024 * mb - 22 * mb)
                ]
            );
        }
        PfnAttempt::Retry => panic!("the buffer holds two blocks"),
    }
    assert!(matches!(
        strategy.plan_attempt(base, &pfns, 4),
        PfnAttempt::Retry
    ));
    match strategy.plan_attempt(base, &pfns, 3) {
        PfnAttempt::Done { blocks, .. } => assert_eq!(blocks.len(), 3),
        PfnAttempt::Retry => panic!("the buffer holds three blocks"),
    }
}

#[test]
fn ranges_of_a_probe_buffer() {
    assert!(check_ranges(&vec![]));
    assert!(check_ranges(&ranges(&[(0, 1 << 30)])));
    assert!(!check_ranges(&ranges(&[(0, 1 << 30), (1 << 31, 4096)])));
    assert!(!check_ranges(&vec![PhysAddr::new(8192)..PhysAddr::new(4096)]));
}

#[test]
fn spoiler_verdicts() {
    let strategy = Spoiler::new(bank_of_bit_22(), ConflictThreshold(300));
    assert_eq!(strategy.block_size().bytes(), 4 << 20);
    let zero = Some(PhysAddr::new(0x1000));
    let one = Some(PhysAddr::new(0x40_1000));
    assert_eq!(strategy.judge_block(2, 2, 400, zero, zero), BlockVerdict::Surplus);
    assert_eq!(strategy.judge_block(1, 2, 299, zero, zero), BlockVerdict::WrongBank);
    assert_eq!(strategy.judge_block(1, 2, 300, zero, zero), BlockVerdict::Accept);
    assert_eq!(strategy.judge_block(1, 2, 300, zero, one), BlockVerdict::BankMismatch);
    assert_eq!(strategy.judge_block(1, 2, 300, None, one), BlockVerdict::Accept);
    assert_eq!(strategy.judge_block(0, 2, 300, one, None), BlockVerdict::Accept);
}

#[test]
fn thp_requests_and_blocks() {
    assert_eq!(THP::check_size(Size::MB(4)).unwrap(), 4 << 20);
    assert!(matches!(
        THP::check_size(Size::B(0)),
        Err(ThpError::SizeError(Size::MB(2)))
    ));
    assert!(matches!(
        THP::check_size(Size::MB(3)),
        Err(ThpError::SizeError(Size::MB(2)))
    ));
    assert!(THP::check_size(Size::GB(usize::MAX)).is_err());
    assert_eq!(THP::required_blocks(4 << 20), 1);
    assert_eq!(THP::required_blocks(1 << 30), 1);
    assert_eq!(THP::required_blocks(3 << 30), 3);
    assert!(THP::aligned(0));
    assert!(THP::aligned(6 << 20));
    assert!(!THP::aligned((2 << 20) + 4096));
    let strategy = THP::new(250);
    assert_eq!(strategy.block_size().bytes(), 1 << 30);
    assert!(strategy.accepts(false, 0));
    assert!(strategy.accepts(true, 250));
    assert!(!strategy.accepts(true, 249));
    let mut blocks = vec![];
    let mut garbage = vec![];
    assert!(strategy.offer(&mut blocks, &mut garbage, Memory::new(0x1000, 4096), 0));
    assert!(!strategy.offer(&mut blocks, &mut garbage, Memory::new(0x2000, 4096), 100));
    assert!(strategy.offer(&mut blocks, &mut garbage, Memory::new(0x3000, 4096), 300));
    assert_eq!(spans(&blocks), vec![(0x1000, 4096), (0x3000, 4096)]);
    assert_eq!(spans(&garbage), vec![(0x2000, 4096)]);
}

#[test]
fn coco_blocks() {
    assert_eq!(CoCo {}.block_size().bytes(), 4 << 20);
    assert_eq!(CoCo::check_size(Size::MB(8)), Ok(2));
    assert_eq!(CoCo::check_size(Size::B(0)), Err(SizeError::ZeroSize));
    assert_eq!(
        CoCo::check_size(Size::B((8 << 20) + 1)),
        Err(SizeError::NotBlockMultiple)
    );
    assert_eq!(Pfn::check_size(Size::MB(12)), Ok(3));
    assert_eq!(Pfn::check_size(Size::MB(6)), Err(SizeError::NotBlockMultiple));
    assert_eq!(Pfn::check_size(Size::B(0)), Err(SizeError::ZeroSize));
    assert_eq!(block_count(Size::KB(12), 4096), Ok(3));
    assert_eq!(block_count(Size::KB(12), 0), Err(SizeError::NotBlockMultiple));
    assert_eq!(block_count(Size::B(0), 0), Err(SizeError::NotBlockMultiple));
    let blocks = CoCo::blocks_for(&vec![0x7000_0000, 0x1000_0000]);
    assert_eq!(
        spans(&blocks.blocks),
        vec![(0x7000_0000, 4 << 20), (0x1000_0000, 4 << 20)]
    );
}

#[test]
fn pages_of_a_pool_are_admitted_one_by_one() {
    assert_eq!(page_request().bytes(), 1 << 30);
    let good = admit_page::<()>(Ok(HugepageAllocator::block_for(0x10_0000_0000))).unwrap();
    assert_eq!(good.blocks[0].ptr, 0x10_0000_0000);
    let short = ConsecBlocks::new(vec![Memory::new(0x1000, 4096)]);
    assert!(matches!(
        admit_page::<()>(Ok(short)),
        Err(PoolError::UnusablePage)
    ));
    assert!(matches!(
        admit_page(Err::<ConsecBlocks, u8>(3)),
        Err(PoolError::Strategy(3))
    ));
}

#[test]
fn pool_refuses_sizes_that_are_no_chunk_multiple() {
    let mut pool = two_page_pool();
    assert_eq!(
        pool.alloc_consec_blocks(Size::MB(6)).unwrap_err(),
        HugepageError::NotBlockMultiple
    );
    assert_eq!(
        pool.alloc_consec_blocks(Size::B(1)).unwrap_err(),
        HugepageError::NotBlockMultiple
    );
    assert_eq!(
        pool.alloc_consec_blocks(Size::GB(usize::MAX)).unwrap_err(),
        HugepageError::NotBlockMultiple
    );
    assert_eq!(
        pool.alloc_consec_blocks(Size::MB(2052)).unwrap_err(),
        HugepageError::NotEnoughChunks
    );
    assert_eq!(pool.alloc_consec_blocks(Size::MB(2048)).unwrap().blocks.len(), 512);
}
