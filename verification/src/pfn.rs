//! The page-frame-number search strategy: sizing the padding buffer from the
//! free-page histogram, and choosing the blocks of a probe buffer by its
//! physical ranges.
use vstd::prelude::*;
use vstd::arithmetic::power2::{pow2, lemma_pow2_unfold, lemma2_to64};
use core::ops::Range;
use crate::constants::PAGE_SIZE;
use crate::dram_addr::{DRAMAddr, spec_from_virt};
use crate::mem_configuration::MemConfiguration;
use crate::memblock::{Memory, PfnOffset, blocks_ascend, record_gaps, spec_gaps};
use crate::phys_addr::PhysAddr;
use crate::allocator::{SizeError, block_count, size_fault};
use crate::size::Size;

verus! {

/// Length of the blocks that the strategy hands out: 4 MiB.
pub const PFN_BLOCK_LEN: usize = 4194304;

/// Length of the probe buffer of an attempt: 1 GiB.
pub const PFN_BUFFER_LEN: usize = 1073741824;

/// Address at which the probe buffer is mapped.
pub const PFN_BASE_ADDR: u64 = 0x2000000000;

/// Name of a shared memory object to map the probe buffer from, if any.
#[derive(Clone, Debug)]
pub struct SharedMem(pub Option<String>);

/// The page-frame-number search strategy.
#[derive(Clone, Debug)]
pub struct Pfn {
    /// The DRAM configuration that banks are decoded with.
    pub mem_config: MemConfiguration,
    /// The shared memory object to map the probe buffer from.
    pub shared_mem: SharedMem,
}

/// What an attempt on one probe buffer leads to.
#[derive(Debug)]
pub enum PfnAttempt {
    /// The buffer holds too few blocks: all of it is released, and another
    /// buffer is tried.
    Retry,
    /// The buffer holds the blocks: they are kept, and the spans around them
    /// are released.
    Done {
        /// The blocks that are kept, in ascending order.
        blocks: Vec<Memory>,
        /// The spans of the buffer that are released.
        unmap: Vec<Memory>,
    },
}

/// The bytes in the free blocks of the orders below `n`: a block of order `i`
/// holds `2^i` pages.
pub open spec fn low_order_sum(blocks: Seq<i64>, n: nat) -> int
    decreases n,
{
    if n == 0 {
        0
    } else {
        low_order_sum(blocks, (n - 1) as nat) + blocks[n - 1] * pow2((n - 1) as nat) * PAGE_SIZE
    }
}

/// Whether the free-block counts up to order `max_order` are not negative
/// and stand for a number of bytes that fits a machine word.
pub open spec fn histogram_fits(blocks: Seq<i64>, max_order: usize) -> bool {
    &&& forall|i: int| 0 <= i <= max_order ==> #[trigger] blocks[i] >= 0
    &&& low_order_sum(blocks, (max_order + 1) as nat) <= usize::MAX
}

proof fn lemma_low_order_sum_mono(blocks: Seq<i64>, n: nat, m: nat)
    requires
        n <= m <= blocks.len(),
        forall|i: int| 0 <= i < m ==> #[trigger] blocks[i] >= 0,
    ensures
        0 <= low_order_sum(blocks, n) <= low_order_sum(blocks, m),
    decreases m,
{
    if m > 0 {
        if n < m {
            lemma_low_order_sum_mono(blocks, n, (m - 1) as nat);
        } else {
            lemma_low_order_sum_mono(blocks, (n - 1) as nat, (m - 1) as nat);
        }
        let b = blocks[m - 1] as int;
        let p = pow2((m - 1) as nat) as int;
        assert(b * p * PAGE_SIZE >= 0) by (nonlinear_arith)
            requires
                b >= 0,
                p >= 0,
                PAGE_SIZE == 4096,
        ;
    }
}

/// The bytes that the free blocks of the orders up to `max_order` hold, or
/// `None` where a count is negative or the bytes exceed a machine word.
pub fn checked_low_order_bytes(blocks: &[i64; 11], max_order: usize) -> (r: Option<usize>)
    requires
        max_order <= 10,
    ensures
        r.is_some() == histogram_fits(blocks@, max_order),
        r.is_some() ==> r.unwrap() == low_order_sum(blocks@, (max_order + 1) as nat),
{
    let mut bytes: usize = 0;
    let mut pages: usize = 1;
    let mut i: usize = 0;
    proof {
        lemma2_to64();
    }
    while i <= max_order
        invariant
            i <= max_order + 1,
            max_order <= 10,
            pages == pow2(i as nat),
            pages <= 2048,
            bytes == low_order_sum(blocks@, i as nat),
            forall|k: int| 0 <= k < i ==> #[trigger] blocks@[k] >= 0,
        decreases max_order + 1 - i,
    {
        let count: i64 = blocks[i];
        if count < 0 {
            return None;
        }
        proof {
            lemma2_to64();
            lemma_pow2_unfold((i + 1) as nat);
            assert(pow2(11) == 2048);
            if i < 10 {
                vstd::arithmetic::power2::lemma_pow2_strictly_increases((i + 1) as nat, 11);
            }
        }
        let step: u64 = (pages * PAGE_SIZE) as u64;
        let add: Option<u64> = (count as u64).checked_mul(step);
        let ghost term = count * pow2(i as nat) * PAGE_SIZE;
        assert(term == count * (pages * PAGE_SIZE)) by (nonlinear_arith)
            requires
                term == count * pow2(i as nat) * PAGE_SIZE,
                pages == pow2(i as nat),
        ;
        let next: Option<usize> = match add {
            Some(a) => if a <= (usize::MAX - bytes) as u64 {
                Some(bytes + a as usize)
            } else {
                None
            },
            None => None,
        };
        match next {
            Some(n) => {
                bytes = n;
            },
            None => {
                proof {
                    assert(low_order_sum(blocks@, (i + 1) as nat) > usize::MAX);
                    if forall|k: int| 0 <= k <= max_order ==> #[trigger] blocks@[k] >= 0 {
                        lemma_low_order_sum_mono(blocks@, (i + 1) as nat, (max_order + 1) as nat);
                    }
                }
                return None;
            },
        }
        pages = pages * 2;
        i += 1;
    }
    Some(bytes)
}

/// The bytes that the free blocks of the orders up to `max_order` hold.
pub fn low_order_bytes(blocks: &[i64; 11], max_order: usize) -> (r: usize)
    requires
        max_order <= 10,
        histogram_fits(blocks@, max_order),
    ensures
        r == low_order_sum(blocks@, (max_order + 1) as nat),
{
    checked_low_order_bytes(blocks, max_order).unwrap()
}

/// The sum of the lengths of the first `n` ranges.
pub open spec fn ranges_len(pfns: Seq<Range<PhysAddr>>, n: int) -> int
    decreases n,
{
    if n <= 0 {
        0
    } else {
        ranges_len(pfns, n - 1) + (pfns[n - 1].end.0 - pfns[n - 1].start.0)
    }
}

/// Whether the ranges are those of a probe buffer: none ends before it
/// starts, and together they are no longer than the buffer.
pub open spec fn ranges_fit(pfns: Seq<Range<PhysAddr>>) -> bool {
    &&& forall|i: int| 0 <= i < pfns.len() ==> (#[trigger] pfns[i]).start.0 <= pfns[i].end.0
    &&& ranges_len(pfns, pfns.len() as int) <= PFN_BUFFER_LEN
}

/// Whether a range gives a block: it is exactly one block long, and its
/// start decodes to bank 0.
pub open spec fn gives_block(range: Range<PhysAddr>, cfg: MemConfiguration) -> bool {
    range.end.0 - range.start.0 == PFN_BLOCK_LEN && spec_from_virt(range.start.0, cfg).bank == 0
}

/// The blocks that the first `n` ranges of a probe buffer at `base` give, up
/// to `needed` of them, each at the offset of its range in the buffer.
pub open spec fn blocks_among(
    pfns: Seq<Range<PhysAddr>>,
    cfg: MemConfiguration,
    base: usize,
    needed: nat,
    n: int,
) -> Seq<Memory>
    decreases n,
{
    if n <= 0 {
        Seq::empty()
    } else {
        let before = blocks_among(pfns, cfg, base, needed, n - 1);
        if before.len() < needed && gives_block(pfns[n - 1], cfg) {
            before.push(
                Memory {
                    ptr: (base + ranges_len(pfns, n - 1)) as usize,
                    len: PFN_BLOCK_LEN,
                    pfn_offset: PfnOffset::Dynamic(None),
                },
            )
        } else {
            before
        }
    }
}

proof fn lemma_ranges_len_mono(pfns: Seq<Range<PhysAddr>>, n: int, m: int)
    requires
        0 <= n <= m <= pfns.len(),
        forall|i: int| 0 <= i < pfns.len() ==> (#[trigger] pfns[i]).start.0 <= pfns[i].end.0,
    ensures
        0 <= ranges_len(pfns, n) <= ranges_len(pfns, m),
    decreases m,
{
    if m > 0 {
        if n < m {
            lemma_ranges_len_mono(pfns, n, m - 1);
        } else {
            lemma_ranges_len_mono(pfns, n - 1, m - 1);
        }
        assert(pfns[m - 1].start.0 <= pfns[m - 1].end.0);
    }
}

/// Whether the ranges are those of a probe buffer.
pub fn check_ranges(pfns: &Vec<Range<PhysAddr>>) -> (r: bool)
    ensures
        r == ranges_fit(pfns@),
{
    let mut sum: usize = 0;
    let mut i: usize = 0;
    while i < pfns.len()
        invariant
            i <= pfns.len(),
            sum == ranges_len(pfns@, i as int),
            sum <= PFN_BUFFER_LEN,
            forall|k: int| 0 <= k < i ==> (#[trigger] pfns@[k]).start.0 <= pfns@[k].end.0,
        decreases pfns.len() - i,
    {
        if pfns[i].start.0 > pfns[i].end.0 {
            return false;
        }
        let len: usize = pfns[i].end.0 - pfns[i].start.0;
        if len > PFN_BUFFER_LEN - sum {
            proof {
                if forall|k: int| 0 <= k < pfns@.len() ==> (#[trigger] pfns@[k]).start.0 <= pfns@[k].end.0 {
                    lemma_ranges_len_mono(pfns@, i as int + 1, pfns@.len() as int);
                }
            }
            return false;
        }
        sum = sum + len;
        i += 1;
    }
    true
}

impl Pfn {
    /// Creates the strategy for a DRAM configuration and an optional shared
    /// memory object.
    pub fn new(mem_config: MemConfiguration, shared_mem: SharedMem) -> (r: Self)
        ensures
            r.mem_config == mem_config,
            r.shared_mem == shared_mem,
    {
        Pfn { mem_config, shared_mem }
    }

    /// The length of the blocks that the strategy hands out: 4 MiB.
    pub fn block_size(&self) -> (r: Size)
        ensures
            r == Size::MB(4),
    {
        Size::MB(4)
    }

    /// Checks the size of a request and gives the number of blocks that it
    /// takes. A size that is zero or no multiple of the block length is
    /// refused, before anything is mapped.
    pub fn check_size(size: Size) -> (r: Result<usize, SizeError>)
        ensures
            r is Ok <==> size.fits() && size.spec_bytes() > 0 && size.spec_bytes() % (PFN_BLOCK_LEN as int) == 0,
            r is Ok ==> r->Ok_0 == size.spec_bytes() / (PFN_BLOCK_LEN as int),
            r is Err ==> size_fault(size, PFN_BLOCK_LEN) == Some(r->Err_0),
    {
        block_count(size, PFN_BLOCK_LEN)
    }

    /// Chooses the blocks of a probe buffer at `base` by its physical ranges.
    ///
    /// A range gives a block where it is exactly one block long and its start
    /// decodes to bank 0. The first `needed` such ranges are taken, each as
    /// the block at its offset in the buffer. Where the buffer gives fewer,
    /// the attempt is to be tried again on another buffer, and nothing of
    /// this one is kept; else the spans before, between and behind the
    /// blocks are to be released.
    pub fn plan_attempt(&self, base: usize, pfns: &Vec<Range<PhysAddr>>, needed: usize) -> (r: PfnAttempt)
        requires
            self.mem_config.shifts_ok(),
            base + PFN_BUFFER_LEN <= usize::MAX,
            ranges_fit(pfns@),
        ensures
            ({
                let found = blocks_among(pfns@, self.mem_config, base, needed as nat, pfns@.len() as int);
                match r {
                    PfnAttempt::Retry => found.len() < needed,
                    PfnAttempt::Done { blocks, unmap } => {
                        &&& found.len() == needed
                        &&& blocks@ == found
                        &&& unmap@ == spec_gaps(found, base as int, base + PFN_BUFFER_LEN)
                    },
                }
            }),
    {
        let mut blocks: Vec<Memory> = Vec::new();
        let mut offset: usize = 0;
        let mut i: usize = 0;
        while i < pfns.len()
            invariant
                i <= pfns.len(),
                self.mem_config.shifts_ok(),
                base + PFN_BUFFER_LEN <= usize::MAX,
                ranges_fit(pfns@),
                offset == ranges_len(pfns@, i as int),
                offset <= PFN_BUFFER_LEN,
                blocks@ == blocks_among(pfns@, self.mem_config, base, needed as nat, i as int),
                blocks@.len() <= needed,
                forall|j: int, k: int|
                    0 <= j < k < blocks@.len() ==> blocks@[j].ptr + blocks@[j].len <= blocks@[k].ptr,
                forall|k: int|
                    0 <= k < blocks@.len() ==> base <= (#[trigger] blocks@[k]).ptr && blocks@[k].ptr + blocks@[k].len
                        <= base + offset,
            decreases pfns.len() - i,
        {
            let start: PhysAddr = pfns[i].start;
            let end: PhysAddr = pfns[i].end;
            assert(pfns@[i as int].start.0 <= pfns@[i as int].end.0);
            proof {
                lemma_ranges_len_mono(pfns@, i as int + 1, pfns@.len() as int);
            }
            let len: usize = end.0 - start.0;
            if blocks.len() < needed && len == PFN_BLOCK_LEN {
                let bank = DRAMAddr::from_virt(start.0, &self.mem_config).bank;
                if bank == 0 {
                    blocks.push(Memory::new(base + offset, PFN_BLOCK_LEN));
                }
            }
            offset = offset + len;
            i += 1;
        }
        if blocks.len() < needed {
            return PfnAttempt::Retry;
        }
        let mut unmap: Vec<Memory> = Vec::new();
        assert(blocks_ascend(blocks@, base as int, base + PFN_BUFFER_LEN));
        record_gaps(&blocks, base, base + PFN_BUFFER_LEN, &mut unmap);
        assert(Seq::<Memory>::empty() + spec_gaps(blocks@, base as int, base + PFN_BUFFER_LEN) =~= spec_gaps(
            blocks@,
            base as int,
            base + PFN_BUFFER_LEN,
        ));
        PfnAttempt::Done { blocks, unmap }
    }
}

} // verus!
