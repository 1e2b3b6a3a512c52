//! A collection of memory blocks that is addressed as one region.
use vstd::prelude::*;
use core::ops::Range;
use crate::memblock::{Memory, ConsecPfnsError, consec_pfns_with, spec_coalesce, coalesces, pages_fit};
use crate::phys_addr::PhysAddr;
use crate::virt_to_phys::VirtToPhysResolver;

verus! {

/// Collection of memory blocks.
///
/// The blocks may or may not be physically contiguous. Offsets into the
/// collection run through the blocks in their order.
#[derive(Clone, Debug)]
pub struct ConsecBlocks {
    /// The memory blocks of this collection.
    pub blocks: Vec<Memory>,
}

/// The sum of the lengths of the blocks.
pub open spec fn total_len(blocks: Seq<Memory>) -> int
    decreases blocks.len(),
{
    if blocks.len() == 0 {
        0
    } else {
        total_len(blocks.drop_last()) + blocks.last().len
    }
}

/// The address of the byte at `offset`, counted through the blocks from `from` on.
pub open spec fn locate(blocks: Seq<Memory>, from: int, offset: int) -> int
    decreases blocks.len() - from,
{
    if from < 0 || from >= blocks.len() {
        0
    } else if offset < blocks[from].len {
        blocks[from].ptr + offset
    } else {
        locate(blocks, from + 1, offset - blocks[from].len)
    }
}

/// The ranges of a collection after those of one more block: where the last
/// range so far ends at the start of the block's first range, the two become one.
pub open spec fn merge_step(acc: Seq<Range<PhysAddr>>, next: Seq<Range<PhysAddr>>) -> Seq<Range<PhysAddr>> {
    if acc.len() > 0 && next.len() > 0 && acc.last().end == next[0].start {
        acc.drop_last().push(Range { start: acc.last().start, end: next[0].end }) + next.drop_first()
    } else {
        acc + next
    }
}

/// The ranges of a collection whose blocks have the given ranges.
pub open spec fn spec_merge(per_block: Seq<Seq<Range<PhysAddr>>>) -> Seq<Range<PhysAddr>>
    decreases per_block.len(),
{
    if per_block.len() == 0 {
        Seq::empty()
    } else {
        merge_step(spec_merge(per_block.drop_last()), per_block.last())
    }
}

/// The ranges of a collection whose blocks have the given page addresses.
pub open spec fn spec_consec_ranges(pages: Seq<Seq<PhysAddr>>) -> Seq<Range<PhysAddr>> {
    spec_merge(Seq::new(pages.len(), |i: int| spec_coalesce(pages[i])))
}

/// The ranges of a collection are determined by the page addresses of its
/// blocks: two queries that see the same pages give the same ranges.
pub proof fn lemma_consec_ranges_repeat(
    pages: Seq<Seq<PhysAddr>>,
    first: Seq<Range<PhysAddr>>,
    second: Seq<Range<PhysAddr>>,
)
    requires
        first == spec_consec_ranges(pages),
        second == spec_consec_ranges(pages),
    ensures
        first == second,
{
}

/// Appends the ranges of one more block to those of a collection.
pub fn merge_into(acc: &mut Vec<Range<PhysAddr>>, next: &Vec<Range<PhysAddr>>)
    ensures
        final(acc)@ == merge_step(old(acc)@, next@),
{
    let ghost start = acc@;
    let mut from: usize = 0;
    if acc.len() > 0 && next.len() > 0 {
        let last = Range { start: acc[acc.len() - 1].start, end: acc[acc.len() - 1].end };
        if last.end.0 == next[0].start.0 {
            acc.pop();
            acc.push(Range { start: last.start, end: next[0].end });
            from = 1;
        }
    }
    let ghost head = acc@;
    let mut i: usize = from;
    while i < next.len()
        invariant
            from <= i <= next.len() || (next.len() == 0 && i == 0),
            acc@ == head + next@.subrange(from as int, i as int),
        decreases next.len() - i,
    {
        acc.push(Range { start: next[i].start, end: next[i].end });
        proof {
            assert(next@.subrange(from as int, i as int + 1) =~= next@.subrange(from as int, i as int).push(
                next@[i as int],
            ));
        }
        i += 1;
    }
    proof {
        if from == 1 {
            assert(next@.subrange(1, next@.len() as int) =~= next@.drop_first());
        } else {
            assert(next@.subrange(0, i as int) =~= next@);
        }
    }
}

/// Merges the ranges of the blocks of a collection, block by block.
pub fn merge_ranges(per_block: &Vec<Vec<Range<PhysAddr>>>) -> (r: Vec<Range<PhysAddr>>)
    ensures
        r@ == spec_merge(Seq::new(per_block@.len(), |i: int| per_block@[i]@)),
{
    let ghost all = Seq::new(per_block@.len(), |i: int| per_block@[i]@);
    let mut out: Vec<Range<PhysAddr>> = Vec::new();
    let mut i: usize = 0;
    while i < per_block.len()
        invariant
            i <= per_block.len(),
            all == Seq::new(per_block@.len(), |i: int| per_block@[i]@),
            out@ == spec_merge(all.take(i as int)),
        decreases per_block.len() - i,
    {
        proof {
            let t = all.take(i as int + 1);
            assert(t.drop_last() =~= all.take(i as int));
            assert(t.last() == per_block@[i as int]@);
        }
        merge_into(&mut out, &per_block[i]);
        i += 1;
    }
    assert(all.take(i as int) =~= all);
    out
}

impl ConsecBlocks {
    /// Whether every block ends within the address space and the lengths add
    /// up to a machine word.
    pub open spec fn wf(self) -> bool {
        &&& forall|i: int| 0 <= i < self.blocks@.len() ==> (#[trigger] self.blocks@[i]).wf()
        &&& total_len(self.blocks@) <= usize::MAX
    }

    /// Creates a new collection of memory blocks.
    pub fn new(blocks: Vec<Memory>) -> (r: Self)
        ensures
            r.blocks == blocks,
    {
        ConsecBlocks { blocks }
    }

    /// Gives up the collection and hands out its blocks, each to be released
    /// exactly once by the caller.
    pub fn dealloc(self) -> (r: Vec<Memory>)
        ensures
            r == self.blocks,
    {
        self.blocks
    }

    /// The total length of the collection in bytes.
    pub fn len(&self) -> (r: usize)
        requires
            self.wf(),
        ensures
            r == total_len(self.blocks@),
    {
        let mut sum: usize = 0;
        let mut i: usize = 0;
        while i < self.blocks.len()
            invariant
                i <= self.blocks.len(),
                sum == total_len(self.blocks@.take(i as int)),
                total_len(self.blocks@) <= usize::MAX,
            decreases self.blocks.len() - i,
        {
            proof {
                let t = self.blocks@.take(i as int + 1);
                assert(t.drop_last() =~= self.blocks@.take(i as int));
                lemma_total_len_prefix(self.blocks@, i as int + 1);
            }
            sum = sum + self.blocks[i].len;
            i += 1;
        }
        assert(self.blocks@.take(i as int) =~= self.blocks@);
        sum
    }

    /// The address of the byte at `offset` into the collection.
    pub fn addr(&self, offset: usize) -> (r: usize)
        requires
            self.wf(),
            offset < total_len(self.blocks@),
        ensures
            r == locate(self.blocks@, 0, offset as int),
    {
        let mut rest: usize = offset;
        let mut i: usize = 0;
        proof {
            lemma_total_len_from(self.blocks@, 0);
        }
        while i < self.blocks.len()
            invariant
                i <= self.blocks.len(),
                self.wf(),
                locate(self.blocks@, i as int, rest as int) == locate(self.blocks@, 0, offset as int),
                rest < len_from(self.blocks@, i as int),
            decreases self.blocks.len() - i,
        {
            if rest < self.blocks[i].len {
                return self.blocks[i].addr(rest);
            }
            rest = rest - self.blocks[i].len;
            i += 1;
        }
        0
    }

    /// The address of the first byte of the collection.
    pub fn ptr(&self) -> (r: usize)
        requires
            self.blocks@.len() > 0,
        ensures
            r == self.blocks@[0].ptr,
    {
        self.blocks[0].ptr
    }

    /// The physical ranges that the collection occupies: those of its blocks,
    /// merged where one block's last range ends at the next block's first.
    ///
    /// The resolver is asked for the pages of each block in turn; the first
    /// block that gives no ranges ends the query with its error. A collection
    /// without blocks has no ranges, and the resolver is not asked.
    pub fn consec_pfns<R: VirtToPhysResolver>(&self, resolver: &mut R) -> (r: Result<
        Vec<Range<PhysAddr>>,
        ConsecPfnsError<R::Error>,
    >)
        requires
            self.wf(),
        ensures
            self.blocks@.len() == 0 ==> r is Ok && r->Ok_0@.len() == 0 && *final(resolver) == *old(resolver),
            r is Ok ==> ranges_of_blocks(r->Ok_0@, self.blocks@),
            r is Ok && self.blocks@.len() > 0 ==> r->Ok_0@.len() > 0,
    {
        let mut per_block: Vec<Vec<Range<PhysAddr>>> = Vec::new();
        let ghost mut pages: Seq<Seq<PhysAddr>> = Seq::empty();
        let mut i: usize = 0;
        while i < self.blocks.len()
            invariant
                i <= self.blocks.len(),
                self.wf(),
                per_block@.len() == i,
                pages.len() == i,
                i == 0 ==> *resolver == *old(resolver),
                forall|k: int| 0 <= k < i ==> (#[trigger] per_block@[k])@.len() > 0,
                forall|k: int| 0 <= k < i ==> coalesces(per_block@[k]@, #[trigger] pages[k]),
                forall|k: int| 0 <= k < i ==> (#[trigger] self.blocks@[k]).len > 0,
            decreases self.blocks.len() - i,
        {
            assert(self.blocks@[i as int].wf());
            match consec_pfns_with(resolver, self.blocks[i].ptr, self.blocks[i].len) {
                Ok(v) => {
                    proof {
                        let pfns = choose|pfns: Seq<PhysAddr>| coalesces(v@, pfns);
                        pages = pages.push(pfns);
                    }
                    per_block.push(v);
                },
                Err(e) => {
                    return Err(e);
                },
            }
            i += 1;
        }
        let out = merge_ranges(&per_block);
        proof {
            lemma_merge_nonempty(Seq::new(per_block@.len(), |i: int| per_block@[i]@));
            assert(Seq::new(per_block@.len(), |i: int| per_block@[i]@) =~= Seq::new(
                pages.len(),
                |i: int| spec_coalesce(pages[i]),
            ));
            assert(pages_of_blocks(pages, self.blocks@));
        }
        Ok(out)
    }
}

/// Whether `pages` holds, for each block, pages of which there is at least
/// one, after each of which a page fits; a block of no bytes has none.
pub open spec fn pages_of_blocks(pages: Seq<Seq<PhysAddr>>, blocks: Seq<Memory>) -> bool {
    &&& pages.len() == blocks.len()
    &&& forall|k: int|
        0 <= k < pages.len() ==> (#[trigger] pages[k]).len() > 0 && pages_fit(pages[k]) && blocks[k].len > 0
}

/// Whether `ranges` are the ranges of a collection of the given blocks for
/// some pages of the blocks: the consecutive ranges of each block, merged
/// across the boundaries of the blocks.
pub open spec fn ranges_of_blocks(ranges: Seq<Range<PhysAddr>>, blocks: Seq<Memory>) -> bool {
    exists|pages: Seq<Seq<PhysAddr>>| #[trigger]
        pages_of_blocks(pages, blocks) && ranges == spec_consec_ranges(pages)
}

/// The sum of the lengths of the blocks from `from` on.
pub open spec fn len_from(blocks: Seq<Memory>, from: int) -> int
    decreases blocks.len() - from,
{
    if from < 0 || from >= blocks.len() {
        0
    } else {
        blocks[from].len + len_from(blocks, from + 1)
    }
}

proof fn lemma_total_len_prefix(blocks: Seq<Memory>, n: int)
    requires
        0 <= n <= blocks.len(),
    ensures
        0 <= total_len(blocks.take(n)) <= total_len(blocks),
    decreases blocks.len(),
{
    if n == blocks.len() {
        assert(blocks.take(n) =~= blocks);
        lemma_total_len_nonneg(blocks);
    } else {
        assert(blocks.drop_last().take(n) =~= blocks.take(n));
        lemma_total_len_prefix(blocks.drop_last(), n);
    }
}

proof fn lemma_total_len_nonneg(blocks: Seq<Memory>)
    ensures
        total_len(blocks) >= 0,
    decreases blocks.len(),
{
    if blocks.len() > 0 {
        lemma_total_len_nonneg(blocks.drop_last());
    }
}

/// Counting the lengths from the front or from the back gives the same sum.
proof fn lemma_total_len_from(blocks: Seq<Memory>, from: int)
    requires
        0 <= from <= blocks.len(),
    ensures
        len_from(blocks, from) == total_len(blocks) - total_len(blocks.take(from)),
    decreases blocks.len() - from,
{
    if from == blocks.len() {
        assert(blocks.take(from) =~= blocks);
    } else {
        lemma_total_len_from(blocks, from + 1);
        assert(blocks.take(from + 1).drop_last() =~= blocks.take(from));
    }
}

/// A collection with a block, each with a range, has a range.
proof fn lemma_merge_nonempty(per_block: Seq<Seq<Range<PhysAddr>>>)
    requires
        forall|k: int| 0 <= k < per_block.len() ==> (#[trigger] per_block[k]).len() > 0,
    ensures
        per_block.len() > 0 ==> spec_merge(per_block).len() > 0,
    decreases per_block.len(),
{
    if per_block.len() > 0 {
        lemma_merge_nonempty(per_block.drop_last());
        assert(per_block.last().len() > 0);
    }
}

} // verus!
