//! The report of the physical ranges that memory occupies.
use vstd::prelude::*;
use vstd::string::StringExecFns;
use core::ops::Range;
use crate::consec_blocks::{ConsecBlocks, ranges_of_blocks};
use crate::memblock::{Memory, ConsecPfnsError, consec_pfns_with, coalesced};
use crate::phys_addr::PhysAddr;
use crate::virt_to_phys::VirtToPhysResolver;

verus! {

/// The line of the report for a range from `start` to `end` that holds `kb`
/// KiB: the two addresses in hexadecimal with the size between them, and a
/// line feed.
pub uninterp spec fn range_line(start: usize, kb: usize, end: usize) -> Seq<char>;

/// `format!` with the start as a hexadecimal number behind `0x`, the size in
/// at least four decimal digits between `..[` and ` KB]..`, the end as the
/// start, and a line feed.
#[verifier::external_body]
fn format_range(start: usize, kb: usize, end: usize) -> (r: String)
    ensures
        r@ == range_line(start, kb, end),
{
    format!("{:#x}..[{:04} KB]..{:#x}\n", start, kb, end)
}

/// The lines of the first `n` ranges, one after the other.
pub open spec fn report_of(ranges: Seq<Range<PhysAddr>>, n: nat) -> Seq<char>
    decreases n,
{
    if n == 0 {
        Seq::empty()
    } else {
        let r = ranges[n - 1];
        report_of(ranges, (n - 1) as nat) + range_line(r.start.0, ((r.end.0 - r.start.0) / 1024) as usize, r.end.0)
    }
}

/// Whether no range ends before it starts.
pub open spec fn ranges_ordered(ranges: Seq<Range<PhysAddr>>) -> bool {
    forall|i: int| 0 <= i < ranges.len() ==> (#[trigger] ranges[i]).start.0 <= ranges[i].end.0
}

/// Formatting physical ranges for display.
pub trait FormatPfns {
    /// Whether the ranges can be formatted.
    spec fn formattable(&self) -> bool;

    /// The text of the report.
    spec fn spec_format(&self) -> Seq<char>;

    /// Formats the ranges as human-readable text, one line for each.
    fn format_pfns(&self) -> (r: String)
        requires
            self.formattable(),
        ensures
            r@ == self.spec_format(),
    ;
}

impl FormatPfns for Vec<Range<PhysAddr>> {
    open spec fn formattable(&self) -> bool {
        ranges_ordered(self@)
    }

    open spec fn spec_format(&self) -> Seq<char> {
        report_of(self@, self@.len())
    }

    fn format_pfns(&self) -> (r: String) {
        let mut pfns: String = String::new();
        let mut i: usize = 0;
        while i < self.len()
            invariant
                i <= self@.len(),
                ranges_ordered(self@),
                pfns@ == report_of(self@, i as nat),
            decreases self@.len() - i,
        {
            let start: usize = self[i].start.0;
            let end: usize = self[i].end.0;
            assert(self@[i as int].start.0 <= self@[i as int].end.0);
            let line = format_range(start, (end - start) / 1024, end);
            pfns.append(line.as_str());
            i += 1;
        }
        pfns
    }
}

/// Giving the physical ranges that memory occupies.
pub trait GetConsecPfns {
    /// Whether the memory ends within the address space.
    spec fn fits(&self) -> bool;

    /// Returns the consecutive physical ranges of the memory.
    fn consec_pfns<R: VirtToPhysResolver>(&self, resolver: &mut R) -> (r: Result<
        Vec<Range<PhysAddr>>,
        ConsecPfnsError<R::Error>,
    >)
        requires
            self.fits(),
    ;
}

impl GetConsecPfns for Memory {
    open spec fn fits(&self) -> bool {
        self.wf()
    }

    fn consec_pfns<R: VirtToPhysResolver>(&self, resolver: &mut R) -> (r: Result<
        Vec<Range<PhysAddr>>,
        ConsecPfnsError<R::Error>,
    >)
        ensures
            self.len == 0 ==> r is Err && r->Err_0 is EmptyPfnRange && *final(resolver) == *old(resolver),
            r is Ok ==> coalesced(r->Ok_0@) && r->Ok_0@.len() > 0,
    {
        consec_pfns_with(resolver, self.ptr, self.len)
    }
}

impl GetConsecPfns for ConsecBlocks {
    open spec fn fits(&self) -> bool {
        self.wf()
    }

    fn consec_pfns<R: VirtToPhysResolver>(&self, resolver: &mut R) -> (r: Result<
        Vec<Range<PhysAddr>>,
        ConsecPfnsError<R::Error>,
    >)
        ensures
            self.blocks@.len() == 0 ==> r is Ok && r->Ok_0@.len() == 0 && *final(resolver) == *old(resolver),
            r is Ok ==> ranges_of_blocks(r->Ok_0@, self.blocks@),
            r is Ok && self.blocks@.len() > 0 ==> r->Ok_0@.len() > 0,
    {
        ConsecBlocks::consec_pfns(self, resolver)
    }
}

/// Giving the physical address of the first byte of memory.
pub trait PfnResolver {
    /// Whether the memory has a first byte.
    spec fn has_start(&self) -> bool;

    /// Returns what the resolver gives for the first byte.
    fn pfn<R: VirtToPhysResolver>(&self, resolver: &mut R) -> (r: Result<PhysAddr, R::Error>)
        requires
            self.has_start(),
    ;
}

impl PfnResolver for Memory {
    open spec fn has_start(&self) -> bool {
        true
    }

    fn pfn<R: VirtToPhysResolver>(&self, resolver: &mut R) -> (r: Result<PhysAddr, R::Error>) {
        resolver.get_phys(self.ptr as u64)
    }
}

impl PfnResolver for ConsecBlocks {
    open spec fn has_start(&self) -> bool {
        self.blocks@.len() > 0
    }

    fn pfn<R: VirtToPhysResolver>(&self, resolver: &mut R) -> (r: Result<PhysAddr, R::Error>) {
        resolver.get_phys(self.blocks[0].ptr as u64)
    }
}

} // verus!
