//! Memory blocks, the cache of their row offset, and the physical ranges
//! that the pages of a region occupy.
use vstd::prelude::*;
use core::ops::Range;
use crate::constants::{PAGE_SIZE, ROW_SIZE};
use crate::mem_configuration::{MTX_SIZE, MemConfiguration};
use crate::phys_addr::PhysAddr;
use crate::virt_to_phys::{VirtToPhysResolver, ResolveError, resolve_entries, spec_resolve_all};

verus! {

/// The key and the value of a computed row offset.
#[derive(Clone, Copy, Debug)]
pub struct CachedOffset {
    /// The offset, or `None` where the block turned out not to be consecutive.
    pub value: Option<usize>,
    /// The DRAM configuration that the offset was computed for.
    pub config: MemConfiguration,
    /// The conflict threshold that the offset was computed for.
    pub threshold: u64,
}

/// Row offset of a block: either fixed, or computed and cached together with
/// the configuration and threshold it was computed for.
#[derive(Clone, Copy, Debug)]
pub enum PfnOffset {
    /// A constant offset that never changes.
    Fixed(usize),
    /// A computed offset, if any was stored yet.
    Dynamic(Option<CachedOffset>),
}

/// Whether two configurations are the same.
pub fn same_config(a: &MemConfiguration, b: &MemConfiguration) -> (r: bool)
    ensures
        r == (*a == *b),
{
    if a.bk_shift != b.bk_shift || a.bk_mask != b.bk_mask || a.row_shift != b.row_shift || a.row_mask
        != b.row_mask || a.col_shift != b.col_shift || a.col_mask != b.col_mask || a.max_bank_bit
        != b.max_bank_bit {
        return false;
    }
    let mut i: usize = 0;
    while i < MTX_SIZE
        invariant
            i <= MTX_SIZE,
            forall|k: int| 0 <= k < i ==> a.dram_mtx[k] == b.dram_mtx[k] && a.addr_mtx[k] == b.addr_mtx[k],
        decreases MTX_SIZE - i,
    {
        if a.dram_mtx[i] != b.dram_mtx[i] || a.addr_mtx[i] != b.addr_mtx[i] {
            return false;
        }
        i += 1;
    }
    assert(a.dram_mtx =~= b.dram_mtx);
    assert(a.addr_mtx =~= b.addr_mtx);
    true
}

impl PfnOffset {
    /// The offset that is known for the given key.
    pub open spec fn spec_get(self, config: MemConfiguration, threshold: u64) -> Option<usize> {
        match self {
            PfnOffset::Fixed(offset) => Some(offset),
            PfnOffset::Dynamic(Some(c)) => if c.value.is_some() && c.config == config && c.threshold == threshold {
                c.value
            } else {
                None
            },
            PfnOffset::Dynamic(None) => None,
        }
    }

    /// Returns the offset stored for the key, if there is one: a fixed offset
    /// answers every key, a cached one only the key that it was stored under.
    pub fn get_cached(&self, config: &MemConfiguration, threshold: u64) -> (r: Option<usize>)
        ensures
            r == self.spec_get(*config, threshold),
    {
        match self {
            PfnOffset::Fixed(offset) => Some(*offset),
            PfnOffset::Dynamic(Some(c)) => {
                if c.value.is_some() && c.threshold == threshold && same_config(&c.config, config) {
                    c.value
                } else {
                    None
                }
            },
            PfnOffset::Dynamic(None) => None,
        }
    }

    /// Stores `state` under the key, replacing whatever was stored, and returns it.
    pub fn put(&mut self, state: Option<usize>, config: MemConfiguration, threshold: u64) -> (r: Option<usize>)
        requires
            *old(self) is Dynamic,
        ensures
            r == state,
            *final(self) == PfnOffset::Dynamic(Some(CachedOffset { value: state, config, threshold })),
    {
        *self = PfnOffset::Dynamic(Some(CachedOffset { value: state, config, threshold }));
        state
    }
}

/// Types that hold a row offset.
pub trait CachedPfnOffset {
    /// Returns a reference to the row offset.
    fn cached_offset(&self) -> &PfnOffset;
}

/// A managed memory region: the address of its first byte, its length, and
/// the row offset known for it.
///
/// A block is not copied implicitly: who releases it gives it away.
#[derive(Clone, Debug)]
pub struct Memory {
    /// Address of the first byte.
    pub ptr: usize,
    /// Block length in bytes.
    pub len: usize,
    /// Row offset of the block.
    pub pfn_offset: PfnOffset,
}

/// Why a block could not be split at its row offset.
#[derive(Clone, Copy, Debug, PartialEq, Eq, Structural)]
pub enum PfnAlignError {
    /// No offset was determined for the block yet.
    OffsetUnknown,
    /// The offset was determined, and the block is not consecutive.
    NotConsecutive,
    /// The block is not 4 MiB long.
    UnsupportedLength,
    /// The offset lies outside the block.
    OffsetOutOfRange,
}

/// The length of the blocks that can be split at their row offset.
pub const ALIGN_BLOCK_LEN: usize = 4194304;

impl Memory {
    /// Whether the block ends within the address space.
    pub open spec fn wf(self) -> bool {
        self.ptr + self.len <= usize::MAX
    }

    /// The block of `len` bytes at `ptr` for which no row offset is known.
    pub open spec fn spec_span(ptr: usize, len: usize) -> Memory {
        Memory { ptr, len, pfn_offset: PfnOffset::Dynamic(None) }
    }

    /// Creates a new memory block with the given address and length.
    pub fn new(ptr: usize, len: usize) -> (r: Self)
        ensures
            r == (Memory { ptr, len, pfn_offset: PfnOffset::Dynamic(None) }),
    {
        Memory { ptr, len, pfn_offset: PfnOffset::Dynamic(None) }
    }

    /// Creates a new memory block with the given row offset.
    pub fn new_with_parts(ptr: usize, len: usize, pfn_offset: PfnOffset) -> (r: Self)
        ensures
            r == (Memory { ptr, len, pfn_offset }),
    {
        Memory { ptr, len, pfn_offset }
    }

    /// The address of the byte at `offset`.
    pub fn addr(&self, offset: usize) -> (r: usize)
        requires
            self.wf(),
            offset < self.len,
        ensures
            r == self.ptr + offset,
    {
        self.ptr + offset
    }

    /// The address of the first byte.
    pub fn ptr(&self) -> (r: usize)
        ensures
            r == self.ptr,
    {
        self.ptr
    }

    /// The length in bytes.
    pub fn len(&self) -> (r: usize)
        ensures
            r == self.len,
    {
        self.len
    }

    /// The number of rows that the block reaches into.
    pub open spec fn row_count(self) -> int {
        (self.len + ROW_SIZE - 1) / (ROW_SIZE as int)
    }

    /// The part of the block in row `k`, counted from the start of the block:
    /// a whole row, or what is left of the block.
    pub open spec fn row_span(self, k: int) -> Memory {
        Memory::spec_span(
            (self.ptr + k * ROW_SIZE) as usize,
            (if self.len - k * ROW_SIZE < ROW_SIZE {
                self.len - k * ROW_SIZE
            } else {
                ROW_SIZE as int
            }) as usize,
        )
    }

    /// The parts of the block row by row, in ascending order: what is written
    /// to in one step when the block is kept in memory.
    pub fn row_spans(&self) -> (r: Vec<Memory>)
        requires
            self.wf(),
        ensures
            r@.len() == self.row_count(),
            forall|k: int| 0 <= k < r@.len() ==> #[trigger] r@[k] == self.row_span(k),
    {
        let mut spans: Vec<Memory> = Vec::new();
        let rows: usize = if self.len % ROW_SIZE == 0 {
            self.len / ROW_SIZE
        } else {
            self.len / ROW_SIZE + 1
        };
        let mut k: usize = 0;
        while k < rows
            invariant
                self.wf(),
                k <= rows,
                rows == self.row_count(),
                spans@.len() == k,
                forall|j: int| 0 <= j < k ==> #[trigger] spans@[j] == self.row_span(j),
            decreases rows - k,
        {
            assert(k * ROW_SIZE < self.len) by (nonlinear_arith)
                requires
                    k < rows,
                    rows == (self.len + ROW_SIZE - 1) / (ROW_SIZE as int),
                    ROW_SIZE == 8192,
            ;
            let offset: usize = k * ROW_SIZE;
            let left: usize = self.len - offset;
            let count: usize = if left < ROW_SIZE { left } else { ROW_SIZE };
            spans.push(Memory::new(self.ptr + offset, count));
            k += 1;
        }
        spans
    }

    /// The row offset of the block, or the reason for which none can be used.
    pub open spec fn align_offset(self) -> Result<usize, PfnAlignError> {
        match self.pfn_offset {
            PfnOffset::Fixed(o) => Ok(o),
            PfnOffset::Dynamic(None) => Err(PfnAlignError::OffsetUnknown),
            PfnOffset::Dynamic(Some(c)) => match c.value {
                Some(o) => Ok(o),
                None => Err(PfnAlignError::NotConsecutive),
            },
        }
    }

    /// What `pfn_align` returns: the block itself for offset 0; else the part
    /// from `len - offset * ROW_SIZE` on, followed by the part below it.
    pub open spec fn spec_pfn_align(self) -> Result<Seq<Memory>, PfnAlignError> {
        match self.align_offset() {
            Err(e) => Err(e),
            Ok(o) => if o == 0 {
                Ok(seq![self])
            } else if self.len != ALIGN_BLOCK_LEN {
                Err(PfnAlignError::UnsupportedLength)
            } else if o * ROW_SIZE > self.len {
                Err(PfnAlignError::OffsetOutOfRange)
            } else {
                let cut = (self.len - o * ROW_SIZE) as usize;
                Ok(
                    seq![
                        Memory {
                            ptr: (self.ptr + cut) as usize,
                            len: (self.len - cut) as usize,
                            pfn_offset: PfnOffset::Dynamic(None),
                        },
                        Memory { ptr: self.ptr, len: cut, pfn_offset: self.pfn_offset },
                    ],
                )
            },
        }
    }

    /// Splits a 4 MiB block at its row offset, so that the upper part starts
    /// on a row that is aligned to the bank function.
    pub fn pfn_align(self) -> (r: Result<Vec<Memory>, PfnAlignError>)
        requires
            self.wf(),
        ensures
            match r {
                Ok(v) => self.spec_pfn_align() == Ok::<Seq<Memory>, PfnAlignError>(v@),
                Err(e) => self.spec_pfn_align() == Err::<Seq<Memory>, PfnAlignError>(e),
            },
    {
        let offset: usize = match self.pfn_offset {
            PfnOffset::Fixed(o) => o,
            PfnOffset::Dynamic(None) => {
                return Err(PfnAlignError::OffsetUnknown);
            },
            PfnOffset::Dynamic(Some(c)) => match c.value {
                Some(o) => o,
                None => {
                    return Err(PfnAlignError::NotConsecutive);
                },
            },
        };
        let mut blocks: Vec<Memory> = Vec::new();
        if offset == 0 {
            blocks.push(self);
            assert(blocks@ =~= seq![self]);
            return Ok(blocks);
        }
        if self.len != ALIGN_BLOCK_LEN {
            return Err(PfnAlignError::UnsupportedLength);
        }
        if offset > self.len / ROW_SIZE {
            assert(offset * ROW_SIZE > self.len) by (nonlinear_arith)
                requires
                    offset > self.len / 8192,
                    ROW_SIZE == 8192,
            ;
            return Err(PfnAlignError::OffsetOutOfRange);
        }
        assert(offset * ROW_SIZE <= self.len) by (nonlinear_arith)
            requires
                offset <= self.len / 8192,
                ROW_SIZE == 8192,
        ;
        let cut: usize = self.len - offset * ROW_SIZE;
        let upper = Memory::new(self.ptr + cut, self.len - cut);
        let lower = Memory { ptr: self.ptr, len: cut, pfn_offset: self.pfn_offset };
        blocks.push(upper);
        blocks.push(lower);
        assert(blocks@ =~= seq![upper, lower]);
        Ok(blocks)
    }
}

impl CachedPfnOffset for Memory {
    fn cached_offset(&self) -> (r: &PfnOffset)
        ensures
            *r == self.pfn_offset,
    {
        &self.pfn_offset
    }
}

/// Why the physical ranges of a region could not be given.
#[derive(Debug)]
pub enum ConsecPfnsError<E> {
    /// The resolver failed.
    Resolver(E),
    /// The region has no physical pages mapped.
    EmptyPfnRange,
    /// A page lies at the very top of the address space: no range can end behind it.
    PageOutOfRange,
}

/// The range of one page that starts at `p`.
pub open spec fn page_range(p: PhysAddr) -> Range<PhysAddr> {
    Range { start: p, end: PhysAddr((p.0 + PAGE_SIZE) as usize) }
}

/// The maximal runs of the page addresses `pfns` in which each page lies
/// exactly one page size above the one before it, as half-open ranges.
pub open spec fn spec_coalesce(pfns: Seq<PhysAddr>) -> Seq<Range<PhysAddr>>
    decreases pfns.len(),
{
    if pfns.len() == 0 {
        Seq::empty()
    } else if pfns.len() == 1 {
        seq![page_range(pfns[0])]
    } else {
        let before = spec_coalesce(pfns.drop_last());
        let prev = pfns[pfns.len() - 2];
        let last = pfns.last();
        if last.0 == prev.0 + PAGE_SIZE {
            before.drop_last().push(Range { start: before.last().start, end: page_range(last).end })
        } else {
            before.push(page_range(last))
        }
    }
}

/// Whether a page can follow each of the page addresses.
pub open spec fn pages_fit(pfns: Seq<PhysAddr>) -> bool {
    forall|i: int| 0 <= i < pfns.len() ==> (#[trigger] pfns[i]).0 + PAGE_SIZE <= usize::MAX
}

/// The runs of a region are as many as its pages at most, and at least one
/// where it has a page.
pub proof fn lemma_coalesce_len(pfns: Seq<PhysAddr>)
    ensures
        spec_coalesce(pfns).len() <= pfns.len(),
        pfns.len() > 0 ==> spec_coalesce(pfns).len() > 0,
    decreases pfns.len(),
{
    if pfns.len() > 1 {
        lemma_coalesce_len(pfns.drop_last());
    }
}

/// Coalesces the page-granular physical addresses of a region into maximal
/// consecutive ranges. A region without pages is an error.
pub fn coalesce_pfns(pfns: &Vec<PhysAddr>) -> (r: Option<Vec<Range<PhysAddr>>>)
    requires
        pages_fit(pfns@),
    ensures
        r.is_some() <==> pfns@.len() > 0,
        r.is_some() ==> r.unwrap()@ == spec_coalesce(pfns@),
{
    if pfns.len() == 0 {
        return None;
    }
    let mut consecs: Vec<Range<PhysAddr>> = Vec::new();
    let mut phys_prev: PhysAddr = pfns[0];
    let mut range_start: PhysAddr = phys_prev;
    let mut i: usize = 1;
    assert(pfns@.take(1) =~= seq![pfns@[0]]);
    while i < pfns.len()
        invariant
            1 <= i <= pfns.len(),
            pages_fit(pfns@),
            phys_prev == pfns@[i - 1],
            spec_coalesce(pfns@.take(i as int)) == consecs@.push(
                Range { start: range_start, end: page_range(phys_prev).end },
            ),
        decreases pfns.len() - i,
    {
        let phys: PhysAddr = pfns[i];
        proof {
            let t = pfns@.take(i as int + 1);
            assert(t.drop_last() =~= pfns@.take(i as int));
            assert(t[t.len() - 2] == phys_prev);
            assert(t.last() == phys);
            let before = spec_coalesce(pfns@.take(i as int));
            assert(before.drop_last() =~= consecs@);
        }
        assert(phys_prev.0 + PAGE_SIZE <= usize::MAX);
        if phys.0 != phys_prev.0 + PAGE_SIZE {
            consecs.push(Range { start: range_start, end: PhysAddr(phys_prev.0 + PAGE_SIZE) });
            range_start = phys;
        }
        phys_prev = phys;
        i += 1;
    }
    assert(pfns@.take(i as int) =~= pfns@);
    assert(phys_prev.0 + PAGE_SIZE <= usize::MAX);
    consecs.push(Range { start: range_start, end: PhysAddr(phys_prev.0 + PAGE_SIZE) });
    Some(consecs)
}

/// What becomes of a resolver's answer for the pages of a region: its error
/// is handed on; pages of which one lies at the very top of the address space
/// give `PageOutOfRange`; no page at all gives `EmptyPfnRange`; else the pages
/// are coalesced into consecutive ranges.
pub open spec fn spec_ranges_of_answer<E>(answer: Result<Vec<PhysAddr>, E>) -> Result<
    Seq<Range<PhysAddr>>,
    ConsecPfnsError<E>,
> {
    match answer {
        Err(e) => Err(ConsecPfnsError::Resolver(e)),
        Ok(pfns) => if !pages_fit(pfns@) {
            Err(ConsecPfnsError::PageOutOfRange)
        } else if pfns@.len() == 0 {
            Err(ConsecPfnsError::EmptyPfnRange)
        } else {
            Ok(spec_coalesce(pfns@))
        },
    }
}

/// Whether `r` gives what `expected` gives: the same error, or ranges that
/// are the same.
pub open spec fn same_ranges<E>(
    r: Result<Vec<Range<PhysAddr>>, ConsecPfnsError<E>>,
    expected: Result<Seq<Range<PhysAddr>>, ConsecPfnsError<E>>,
) -> bool {
    match expected {
        Ok(ranges) => r is Ok && r->Ok_0@ == ranges,
        Err(e) => r is Err && r->Err_0 == e,
    }
}

/// Turns a resolver's answer for the pages of a region into the consecutive
/// physical ranges of the region.
pub fn ranges_of_answer<E>(answer: Result<Vec<PhysAddr>, E>) -> (r: Result<
    Vec<Range<PhysAddr>>,
    ConsecPfnsError<E>,
>)
    ensures
        same_ranges(r, spec_ranges_of_answer(answer)),
{
    let pfns = match answer {
        Ok(p) => p,
        Err(e) => {
            return Err(ConsecPfnsError::Resolver(e));
        },
    };
    if !all_pages_fit(&pfns) {
        return Err(ConsecPfnsError::PageOutOfRange);
    }
    match coalesce_pfns(&pfns) {
        Some(v) => Ok(v),
        None => Err(ConsecPfnsError::EmptyPfnRange),
    }
}

/// Whether the ranges are the consecutive ranges of some pages, at least one,
/// after each of which a page fits.
pub open spec fn coalesced(ranges: Seq<Range<PhysAddr>>) -> bool {
    exists|pfns: Seq<PhysAddr>| coalesces(ranges, pfns)
}

/// Whether the ranges are the consecutive ranges of the pages `pfns`.
pub open spec fn coalesces(ranges: Seq<Range<PhysAddr>>, pfns: Seq<PhysAddr>) -> bool {
    &&& pfns.len() > 0
    &&& pages_fit(pfns)
    &&& ranges == spec_coalesce(pfns)
}

/// Resolves the pages of the region of `len` bytes at `ptr` and coalesces them
/// into consecutive physical ranges.
///
/// A region without bytes has no pages: it gives `EmptyPfnRange`, and the
/// resolver is not asked. Else the resolver is asked for the pages from `ptr`
/// up to `ptr + len`, and its answer decides: its error is handed on, no page
/// gives `EmptyPfnRange`, a page at the very top of the address space gives
/// `PageOutOfRange`, and pages give their consecutive ranges.
pub fn consec_pfns_with<R: VirtToPhysResolver>(resolver: &mut R, ptr: usize, len: usize) -> (r: Result<
    Vec<Range<PhysAddr>>,
    ConsecPfnsError<R::Error>,
>)
    requires
        ptr + len <= usize::MAX,
    ensures
        len == 0 ==> r is Err && r->Err_0 is EmptyPfnRange && *final(resolver) == *old(resolver),
        r is Ok ==> coalesced(r->Ok_0@) && r->Ok_0@.len() > 0,
{
    if len == 0 {
        return Err(ConsecPfnsError::EmptyPfnRange);
    }
    let answer = resolver.get_phys_range(ptr as u64, (ptr + len) as u64);
    let ghost given = answer;
    let r = ranges_of_answer(answer);
    proof {
        assert(same_ranges(r, spec_ranges_of_answer(given)));
        if r is Ok {
            let pfns = given->Ok_0@;
            lemma_coalesce_len(pfns);
            assert(coalesces(r->Ok_0@, pfns));
        }
    }
    r
}

/// The consecutive physical ranges of a region whose pages have the given
/// page-table entries, in ascending order of the pages.
///
/// Fails with the error of the first entry that gives no page, with
/// `PageOutOfRange` where a page lies at the very top of the address space,
/// and with `EmptyPfnRange` where there is no entry.
pub fn ranges_of_entries(raws: &Vec<u64>) -> (r: Result<Vec<Range<PhysAddr>>, ConsecPfnsError<ResolveError>>)
    ensures
        match spec_resolve_all(raws@) {
            Err(e) => r is Err && r->Err_0 == ConsecPfnsError::Resolver(e),
            Ok(pfns) => if !pages_fit(pfns) {
                r is Err && r->Err_0 is PageOutOfRange
            } else if pfns.len() == 0 {
                r is Err && r->Err_0 is EmptyPfnRange
            } else {
                r is Ok && r->Ok_0@ == spec_coalesce(pfns)
            },
        },
{
    ranges_of_answer(resolve_entries(raws))
}

/// Whether a page can follow each of the page addresses.
pub fn all_pages_fit(pfns: &Vec<PhysAddr>) -> (r: bool)
    ensures
        r == pages_fit(pfns@),
{
    let mut i: usize = 0;
    while i < pfns.len()
        invariant
            i <= pfns.len(),
            forall|k: int| 0 <= k < i ==> (#[trigger] pfns@[k]).0 + PAGE_SIZE <= usize::MAX,
        decreases pfns.len() - i,
    {
        if pfns[i].0 > usize::MAX - PAGE_SIZE {
            return false;
        }
        i += 1;
    }
    true
}

/// The spans between `cursor` and `end` that the blocks, in ascending order,
/// leave free.
pub open spec fn spec_gaps(blocks: Seq<Memory>, cursor: int, end: int) -> Seq<Memory>
    decreases blocks.len(),
{
    if blocks.len() == 0 {
        if cursor < end {
            seq![Memory { ptr: cursor as usize, len: (end - cursor) as usize, pfn_offset: PfnOffset::Dynamic(None) }]
        } else {
            Seq::empty()
        }
    } else {
        let b = blocks[0];
        let rest = spec_gaps(blocks.drop_first(), b.ptr + b.len, end);
        if b.ptr > cursor {
            seq![
                Memory { ptr: cursor as usize, len: (b.ptr - cursor) as usize, pfn_offset: PfnOffset::Dynamic(None) },
            ] + rest
        } else {
            rest
        }
    }
}

/// Whether the blocks lie in ascending order, without overlap, between
/// `cursor` and `end`.
pub open spec fn blocks_ascend(blocks: Seq<Memory>, cursor: int, end: int) -> bool {
    &&& forall|j: int, k: int| 0 <= j < k < blocks.len() ==> blocks[j].ptr + blocks[j].len <= blocks[k].ptr
    &&& forall|k: int| 0 <= k < blocks.len() ==> cursor <= (#[trigger] blocks[k]).ptr && blocks[k].ptr + blocks[k].len <= end
}

/// Appends to `trash` the spans between `start` and `end` that the blocks leave free.
pub fn record_gaps(blocks: &Vec<Memory>, start: usize, end: usize, trash: &mut Vec<Memory>)
    requires
        start <= end,
        blocks_ascend(blocks@, start as int, end as int),
    ensures
        final(trash)@ == old(trash)@ + spec_gaps(blocks@, start as int, end as int),
{
    let ghost before = trash@;
    let mut cursor: usize = start;
    let mut i: usize = 0;
    assert(blocks@.skip(0) =~= blocks@);
    while i < blocks.len()
        invariant
            i <= blocks.len(),
            start <= cursor <= end,
            blocks_ascend(blocks@, start as int, end as int),
            forall|k: int| i <= k < blocks.len() ==> cursor <= (#[trigger] blocks@[k]).ptr,
            before + spec_gaps(blocks@, start as int, end as int) == trash@ + spec_gaps(
                blocks@.skip(i as int),
                cursor as int,
                end as int,
            ),
        decreases blocks.len() - i,
    {
        let b = &blocks[i];
        proof {
            assert(blocks@.skip(i as int)[0] == b);
            assert(blocks@.skip(i as int).drop_first() =~= blocks@.skip(i as int + 1));
            let rest = spec_gaps(blocks@.skip(i as int + 1), b.ptr + b.len, end as int);
            if b.ptr > cursor {
                let gap = Memory {
                    ptr: cursor,
                    len: (b.ptr - cursor) as usize,
                    pfn_offset: PfnOffset::Dynamic(None),
                };
                assert(trash@ + (seq![gap] + rest) =~= trash@.push(gap) + rest);
            }
        }
        if b.ptr > cursor {
            trash.push(Memory::new(cursor, b.ptr - cursor));
        }
        cursor = b.ptr + b.len;
        i += 1;
    }
    proof {
        assert(blocks@.skip(i as int) =~= Seq::<Memory>::empty());
        if cursor < end {
            let gap = Memory { ptr: cursor, len: (end - cursor) as usize, pfn_offset: PfnOffset::Dynamic(None) };
            assert(trash@ + seq![gap] =~= trash@.push(gap));
        } else {
            assert(trash@ + Seq::<Memory>::empty() =~= trash@);
        }
    }
    if cursor < end {
        trash.push(Memory::new(cursor, end - cursor));
    }
}

} // verus!
