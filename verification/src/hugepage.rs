//! The huge-page strategies: one page of 1 GiB, and chunks of 4 MiB picked at
//! random from a pool of such pages.
use vstd::prelude::*;
use crate::allocator::ConsecAllocator;
use crate::consec_blocks::{ConsecBlocks, total_len, locate};
use crate::meminfo::{parse_hugepage_size, spec_hugepage_size};
use crate::memblock::{Memory, PfnOffset};
use crate::size::Size;

verus! {

/// Length of a huge page: 1 GiB.
pub const HUGEPAGE_LEN: usize = 1073741824;

/// Length of a chunk of the randomized strategy: 4 MiB.
pub const CHUNK_LEN: usize = 4194304;

/// Chunks in a huge page.
pub const CHUNKS_PER_PAGE: usize = 256;

/// Supported huge page sizes.
#[derive(Clone, Copy, Debug, PartialEq, Eq, Structural)]
pub enum HugepageSize {
    /// 1 GiB huge page.
    OneGb,
}

impl HugepageSize {
    /// The length of a page of this size in bytes.
    pub fn bytes(&self) -> (r: usize)
        ensures
            r == HUGEPAGE_LEN,
    {
        match self {
            HugepageSize::OneGb => HUGEPAGE_LEN,
        }
    }
}

/// Why a huge-page strategy refuses a request.
#[derive(Clone, Copy, Debug, PartialEq, Eq, Structural)]
pub enum HugepageError {
    /// The system's huge page size is not 1 GiB.
    UnsupportedPageSize,
    /// The size is not a multiple of the strategy's block length, or does not
    /// fit a machine word.
    NotBlockMultiple,
    /// The size is zero.
    ZeroSize,
    /// The request takes more than the one huge page that a call gives.
    RequestTooLarge,
    /// The pool holds fewer chunks than the request takes.
    NotEnoughChunks,
}

/// Huge-page strategy with pages of 1 GiB.
#[derive(Debug, Copy, Clone)]
pub struct HugepageAllocator {
    /// The system's huge page size in bytes, or the invalid size.
    pub hugepage_size: isize,
}

impl HugepageAllocator {
    /// The strategy for the huge page size that the system's memory
    /// information gives.
    pub fn from_meminfo(meminfo: &str) -> (r: Self)
        ensures
            r.hugepage_size == spec_hugepage_size(meminfo@),
    {
        HugepageAllocator { hugepage_size: parse_hugepage_size(meminfo) }
    }

    /// The block size as a number of bytes: the huge page size, or the
    /// greatest machine word for a size below zero.
    pub open spec fn block_bytes(self) -> int {
        if self.hugepage_size >= 0 {
            self.hugepage_size as int
        } else {
            usize::MAX + 1 + self.hugepage_size
        }
    }

    /// The block size of the strategy: the system's huge page size.
    pub fn block_size(&self) -> (r: Size)
        ensures
            r == Size::B(self.block_bytes() as usize),
    {
        if self.hugepage_size >= 0 {
            Size::B(self.hugepage_size as usize)
        } else {
            let below: usize = (-(self.hugepage_size + 1)) as usize;
            Size::B(usize::MAX - below)
        }
    }

    /// The reason for which the strategy refuses a request of `size`, if it
    /// does: the huge page size is not 1 GiB; the size is no multiple of the
    /// page size, or zero; or the size is more than one page.
    pub open spec fn request_fault(self, size: Size) -> Option<HugepageError> {
        if self.hugepage_size != HUGEPAGE_LEN {
            Some(HugepageError::UnsupportedPageSize)
        } else if !size.fits() || size.spec_bytes() % (HUGEPAGE_LEN as int) != 0 {
            Some(HugepageError::NotBlockMultiple)
        } else if size.spec_bytes() == 0 {
            Some(HugepageError::ZeroSize)
        } else if size.spec_bytes() != HUGEPAGE_LEN {
            Some(HugepageError::RequestTooLarge)
        } else {
            None
        }
    }

    /// Whether the strategy serves a request of `size`: the huge page size is
    /// 1 GiB, and the request is for exactly one page. Every other request is
    /// refused before anything is opened or mapped.
    pub fn check_request(&self, size: Size) -> (r: Result<(), HugepageError>)
        ensures
            r is Ok <==> self.hugepage_size == HUGEPAGE_LEN && size.fits() && size.spec_bytes() == HUGEPAGE_LEN,
            r is Err ==> self.request_fault(size) == Some(r->Err_0),
    {
        if self.hugepage_size < 0 || self.hugepage_size as usize != HUGEPAGE_LEN {
            return Err(HugepageError::UnsupportedPageSize);
        }
        match size.checked_bytes() {
            Some(n) => {
                if n % HUGEPAGE_LEN != 0 {
                    Err(HugepageError::NotBlockMultiple)
                } else if n == 0 {
                    Err(HugepageError::ZeroSize)
                } else if n != HUGEPAGE_LEN {
                    Err(HugepageError::RequestTooLarge)
                } else {
                    Ok(())
                }
            },
            None => Err(HugepageError::NotBlockMultiple),
        }
    }

    /// The collection for a huge page that was mapped at `ptr`: one block of
    /// 1 GiB with the fixed row offset zero.
    pub fn block_for(ptr: usize) -> (r: ConsecBlocks)
        ensures
            r.blocks@ == seq![Memory { ptr, len: HUGEPAGE_LEN, pfn_offset: PfnOffset::Fixed(0) }],
    {
        let mut blocks: Vec<Memory> = Vec::new();
        blocks.push(Memory::new_with_parts(ptr, HugepageSize::OneGb.bytes(), PfnOffset::Fixed(0)));
        ConsecBlocks::new(blocks)
    }
}

/// Number of huge pages to put into a pool.
#[derive(Clone, Copy, Debug)]
pub struct NumHugePages(pub usize);

/// Strategy that hands out chunks picked at random from a pool of huge pages.
#[derive(Debug)]
pub struct HugepageRandomized {
    /// Pool of huge pages.
    pub hugepages: Vec<ConsecBlocks>,
}

/// Why a pool could not be filled.
#[derive(Debug)]
pub enum PoolError<E> {
    /// The strategy that provides the pages failed.
    Strategy(E),
    /// The strategy gave a page that is shorter than 1 GiB or reaches beyond
    /// the address space.
    UnusablePage,
}

/// Whether a collection can serve as a huge page of a pool.
pub open spec fn usable_page(page: ConsecBlocks) -> bool {
    page.wf() && total_len(page.blocks@) >= HUGEPAGE_LEN
}

/// The chunk with index `index` of a pool: chunk `index % 256` of page `index / 256`.
pub open spec fn chunk_at(pool: Seq<ConsecBlocks>, index: int) -> Memory {
    Memory {
        ptr: locate(pool[index / CHUNKS_PER_PAGE as int].blocks@, 0, (index % CHUNKS_PER_PAGE as int) * CHUNK_LEN) as usize,
        len: CHUNK_LEN,
        pfn_offset: PfnOffset::Dynamic(None),
    }
}

/// `rand::seq::SliceRandom::shuffle` with the thread's generator: permutes the
/// elements in place. Which permutation comes out is left open.
#[verifier::external_body]
fn shuffle(v: &mut Vec<usize>)
    ensures
        final(v)@.to_multiset() == old(v)@.to_multiset(),
{
    rand::seq::SliceRandom::shuffle(v.as_mut_slice(), &mut rand::rng());
}

/// Whether `picks` are indices of chunks of a pool of `total` chunks, none of
/// them twice.
pub open spec fn valid_picks(picks: Seq<usize>, total: int) -> bool {
    &&& picks.no_duplicates()
    &&& forall|i: int| 0 <= i < picks.len() ==> (#[trigger] picks[i]) < total
}

/// Whether `page` is usable: it ends within the address space and is at
/// least 1 GiB long.
pub fn page_usable(page: &ConsecBlocks) -> (r: bool)
    ensures
        r == usable_page(*page),
{
    let mut sum: usize = 0;
    let mut i: usize = 0;
    while i < page.blocks.len()
        invariant
            i <= page.blocks.len(),
            sum == total_len(page.blocks@.take(i as int)),
            forall|k: int| 0 <= k < i ==> (#[trigger] page.blocks@[k]).wf(),
        decreases page.blocks.len() - i,
    {
        let b = &page.blocks[i];
        proof {
            assert(page.blocks@.take(i as int + 1).drop_last() =~= page.blocks@.take(i as int));
        }
        if b.ptr > usize::MAX - b.len {
            return false;
        }
        if sum > usize::MAX - b.len {
            proof {
                lemma_total_len_mono(page.blocks@, i as int + 1);
            }
            return false;
        }
        sum = sum + b.len;
        i += 1;
    }
    assert(page.blocks@.take(i as int) =~= page.blocks@);
    sum >= HUGEPAGE_LEN
}

proof fn lemma_total_len_mono(blocks: Seq<Memory>, n: int)
    requires
        0 <= n <= blocks.len(),
    ensures
        total_len(blocks.take(n)) <= total_len(blocks),
    decreases blocks.len(),
{
    if n == blocks.len() {
        assert(blocks.take(n) =~= blocks);
    } else {
        assert(blocks.drop_last().take(n) =~= blocks.take(n));
        lemma_total_len_mono(blocks.drop_last(), n);
    }
}

/// The size that is asked of the allocator for each page of a pool: 1 GiB.
pub fn page_request() -> (r: Size)
    ensures
        r == Size::MB(1024),
        r.spec_bytes() == HUGEPAGE_LEN,
{
    Size::MB(1024)
}

/// What becomes of an allocator's answer to the request for one page of a
/// pool: its error is handed on, a page that is usable is taken, and a page
/// that is not usable is refused.
pub fn admit_page<E>(answer: Result<ConsecBlocks, E>) -> (r: Result<ConsecBlocks, PoolError<E>>)
    ensures
        r == (match answer {
            Err(e) => Err::<ConsecBlocks, PoolError<E>>(PoolError::Strategy(e)),
            Ok(p) => if usable_page(p) {
                Ok(p)
            } else {
                Err(PoolError::UnusablePage)
            },
        }),
{
    match answer {
        Err(e) => Err(PoolError::Strategy(e)),
        Ok(page) => {
            if page_usable(&page) {
                Ok(page)
            } else {
                Err(PoolError::UnusablePage)
            }
        },
    }
}

impl HugepageRandomized {
    /// Whether every page of the pool is usable.
    pub open spec fn pool_ok(self) -> bool {
        forall|i: int| 0 <= i < self.hugepages@.len() ==> usable_page(#[trigger] self.hugepages@[i])
    }

    /// Fills a pool with `num_hugepages` pages of 1 GiB from `allocator`.
    ///
    /// The allocator is asked for 1 GiB once for each page. Its first failure
    /// ends the filling with its error, and so does the first page that is
    /// not usable. A pool of no pages is made without asking the allocator.
    pub fn new_with_count<A: ConsecAllocator>(allocator: &mut A, num_hugepages: NumHugePages) -> (r: Result<
        Self,
        PoolError<A::Error>,
    >)
        requires
            old(allocator).inv(),
        ensures
            final(allocator).inv(),
            final(allocator).spec_block_size() == old(allocator).spec_block_size(),
            num_hugepages.0 == 0 ==> r is Ok && *final(allocator) == *old(allocator),
            r is Ok ==> r->Ok_0.pool_ok() && r->Ok_0.hugepages@.len() == num_hugepages.0,
    {
        let mut hugepages: Vec<ConsecBlocks> = Vec::new();
        let mut i: usize = 0;
        while i < num_hugepages.0
            invariant
                i <= num_hugepages.0,
                allocator.inv(),
                allocator.spec_block_size() == old(allocator).spec_block_size(),
                i == 0 ==> *allocator == *old(allocator),
                hugepages@.len() == i,
                forall|k: int| 0 <= k < i ==> usable_page(#[trigger] hugepages@[k]),
            decreases num_hugepages.0 - i,
        {
            let answer = allocator.alloc_consec_blocks(page_request());
            match admit_page(answer) {
                Ok(page) => {
                    hugepages.push(page);
                },
                Err(e) => {
                    return Err(e);
                },
            }
            i += 1;
        }
        Ok(HugepageRandomized { hugepages })
    }

    /// The chunks of the pool with the given indices, in their order.
    pub fn chunks(&self, picks: &Vec<usize>, count: usize) -> (r: Vec<Memory>)
        requires
            self.pool_ok(),
            count <= picks@.len(),
            forall|i: int| 0 <= i < count ==> (#[trigger] picks@[i]) < self.hugepages@.len() * CHUNKS_PER_PAGE,
        ensures
            r@.len() == count,
            forall|i: int| 0 <= i < count ==> #[trigger] r@[i] == chunk_at(self.hugepages@, picks@[i] as int),
    {
        let mut blocks: Vec<Memory> = Vec::new();
        let mut i: usize = 0;
        while i < count
            invariant
                i <= count,
                count <= picks@.len(),
                self.pool_ok(),
                forall|i: int| 0 <= i < count ==> (#[trigger] picks@[i]) < self.hugepages@.len() * CHUNKS_PER_PAGE,
                blocks@.len() == i,
                forall|k: int| 0 <= k < i ==> #[trigger] blocks@[k] == chunk_at(self.hugepages@, picks@[k] as int),
            decreases count - i,
        {
            let index: usize = picks[i];
            let page: usize = index / CHUNKS_PER_PAGE;
            let chunk: usize = index % CHUNKS_PER_PAGE;
            assert(page < self.hugepages@.len());
            assert(usable_page(self.hugepages@[page as int]));
            let ptr = self.hugepages[page].addr(chunk * CHUNK_LEN);
            blocks.push(Memory::new(ptr, CHUNK_LEN));
            i += 1;
        }
        blocks
    }
}

/// The indices from 0 up to `total`.
fn index_space(total: usize) -> (r: Vec<usize>)
    ensures
        r@.len() == total,
        forall|i: int| 0 <= i < total ==> #[trigger] r@[i] == i,
{
    let mut v: Vec<usize> = Vec::new();
    let mut i: usize = 0;
    while i < total
        invariant
            i <= total,
            v@.len() == i,
            forall|k: int| 0 <= k < i ==> #[trigger] v@[k] == k,
        decreases total - i,
    {
        v.push(i);
        i += 1;
    }
    v
}

/// A permutation of the indices below `total` holds each of them once.
proof fn lemma_shuffled_picks(before: Seq<usize>, after: Seq<usize>, total: int)
    requires
        before.len() == total,
        forall|i: int| 0 <= i < total ==> #[trigger] before[i] == i,
        after.to_multiset() == before.to_multiset(),
    ensures
        after.len() == total,
        valid_picks(after, total),
{
    broadcast use vstd::seq_lib::group_to_multiset_ensures;

    before.to_multiset_ensures();
    after.to_multiset_ensures();
    assert(before.no_duplicates());
    before.lemma_multiset_has_no_duplicates();
    after.lemma_multiset_has_no_duplicates_conv();
    assert forall|i: int| 0 <= i < after.len() implies (#[trigger] after[i]) < total by {
        assert(after.contains(after[i]));
        assert(after.to_multiset().count(after[i]) > 0);
        assert(before.contains(after[i]));
        let k = choose|k: int| 0 <= k < before.len() && before[k] == after[i];
        assert(before[k] == k);
    }
}

impl ConsecAllocator for HugepageRandomized {
    type Error = HugepageError;

    open spec fn inv(&self) -> bool {
        self.pool_ok()
    }

    open spec fn spec_block_size(&self) -> Size {
        Size::MB(4)
    }

    fn block_size(&self) -> (r: Size) {
        Size::MB(4)
    }

    /// Picks `size / 4 MiB` chunks of the pool at random, none of them twice.
    ///
    /// A size that is no multiple of the chunk length, and a size that takes
    /// more chunks than the pool holds, are refused.
    fn alloc_consec_blocks(&mut self, size: Size) -> (r: Result<ConsecBlocks, Self::Error>)
        ensures
            *final(self) == *old(self),
            r is Err <==> !size.fits() || size.spec_bytes() % (CHUNK_LEN as int) != 0 || size.spec_bytes()
                / CHUNK_LEN as int > old(self).hugepages@.len() * CHUNKS_PER_PAGE,
            r is Err ==> r->Err_0 == (if !size.fits() || size.spec_bytes() % (CHUNK_LEN as int) != 0 {
                HugepageError::NotBlockMultiple
            } else {
                HugepageError::NotEnoughChunks
            }),
            r is Ok ==> exists|picks: Seq<usize>|
                {
                    &&& valid_picks(picks, old(self).hugepages@.len() * CHUNKS_PER_PAGE)
                    &&& #[trigger] picks.len() >= r->Ok_0.blocks@.len()
                    &&& r->Ok_0.blocks@.len() == size.spec_bytes() / CHUNK_LEN as int
                    &&& forall|i: int|
                        0 <= i < r->Ok_0.blocks@.len() ==> #[trigger] r->Ok_0.blocks@[i] == chunk_at(
                            old(self).hugepages@,
                            picks[i] as int,
                        )
                },
    {
        let bytes: usize = match size.checked_bytes() {
            Some(b) => b,
            None => {
                return Err(HugepageError::NotBlockMultiple);
            },
        };
        if bytes % CHUNK_LEN != 0 {
            return Err(HugepageError::NotBlockMultiple);
        }
        let num_blocks: usize = bytes / CHUNK_LEN;
        let pages: usize = self.hugepages.len();
        if pages > usize::MAX / CHUNKS_PER_PAGE {
            // The pool holds more chunks than any request can take.
            assert(num_blocks <= pages * CHUNKS_PER_PAGE);
            let total: usize = usize::MAX / CHUNKS_PER_PAGE * CHUNKS_PER_PAGE;
            return Ok(self.pick(total, num_blocks));
        }
        let total: usize = pages * CHUNKS_PER_PAGE;
        if num_blocks > total {
            return Err(HugepageError::NotEnoughChunks);
        }
        Ok(self.pick(total, num_blocks))
    }
}

impl HugepageRandomized {
    /// Picks `num_blocks` chunks at random among the first `total` of the pool.
    fn pick(&self, total: usize, num_blocks: usize) -> (r: ConsecBlocks)
        requires
            self.pool_ok(),
            num_blocks <= total <= self.hugepages@.len() * CHUNKS_PER_PAGE,
        ensures
            exists|picks: Seq<usize>|
                {
                    &&& valid_picks(picks, self.hugepages@.len() * CHUNKS_PER_PAGE)
                    &&& #[trigger] picks.len() >= r.blocks@.len()
                    &&& r.blocks@.len() == num_blocks
                    &&& forall|i: int|
                        0 <= i < r.blocks@.len() ==> #[trigger] r.blocks@[i] == chunk_at(
                            self.hugepages@,
                            picks[i] as int,
                        )
                },
    {
        let mut chunk_indices = index_space(total);
        let ghost before = chunk_indices@;
        shuffle(&mut chunk_indices);
        proof {
            lemma_shuffled_picks(before, chunk_indices@, total as int);
        }
        let blocks = self.chunks(&chunk_indices, num_blocks);
        let out = ConsecBlocks::new(blocks);
        proof {
            let picks = chunk_indices@;
            assert(picks.len() >= out.blocks@.len());
            assert(valid_picks(picks, self.hugepages@.len() * CHUNKS_PER_PAGE));
        }
        out
    }
}

} // verus!
