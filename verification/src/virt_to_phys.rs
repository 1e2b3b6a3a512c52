//! Decoding page-table introspection entries into physical addresses.
use vstd::prelude::*;
use crate::phys_addr::PhysAddr;

verus! {

/// Why a page-table entry gives no physical address.
#[derive(Clone, Copy, Debug, PartialEq, Eq, Structural)]
pub enum ResolveError {
    /// The page is not present in memory.
    PageNotPresent,
    /// The entry holds frame number zero: the kernel hides frame numbers from
    /// callers without privilege.
    ZeroPfn,
}

/// The mask of the frame number in a page-table entry: bits 0 to 54.
pub const PFN_MASK: u64 = 0x7f_ffff_ffff_ffff;

/// Whether the entry has its present bit, bit 63, set.
pub open spec fn entry_present(raw: u64) -> bool {
    (raw >> 63u64) & 1 == 1
}

/// The frame number of a present entry.
pub open spec fn entry_frame(raw: u64) -> u64 {
    raw & PFN_MASK
}

/// The physical address of `virt` in a frame: the frame number above the page
/// offset, cut to a machine word.
pub open spec fn frame_address(pfn: u64, virt: u64) -> PhysAddr {
    PhysAddr((((pfn << 12u64) | (virt & 0xFFFu64)) & (usize::MAX as u64)) as usize)
}

/// What an entry says of the address `virt`.
pub open spec fn spec_resolve(raw: u64, virt: u64) -> Result<PhysAddr, ResolveError> {
    if !entry_present(raw) {
        Err(ResolveError::PageNotPresent)
    } else if entry_frame(raw) == 0 {
        Err(ResolveError::ZeroPfn)
    } else {
        Ok(frame_address(entry_frame(raw), virt))
    }
}

/// `pagemap2::PageMapEntry::pfn` on the entry made from the raw word: the bits
/// 0 to 54 of the word where bit 63 is set, and its only error, that the page
/// is not present, where the bit is clear.
#[verifier::external_body]
fn entry_pfn(raw: u64) -> (r: Option<u64>)
    ensures
        r == (if entry_present(raw) { Some(entry_frame(raw)) } else { None }),
{
    pagemap2::PageMapEntry::from(raw).pfn().ok()
}

/// The first and the last address of the page that holds `virt`.
pub fn page_span(virt: u64) -> (r: (u64, u64))
    ensures
        r.0 == virt & !0xFFFu64,
        r.1 == r.0 + 4095,
        r.0 <= virt <= r.1,
{
    let start: u64 = virt & !0xFFFu64;
    assert(start <= virt && virt - start <= 4095 && start <= 0xffff_ffff_ffff_f000u64) by (bit_vector)
        requires
            start == virt & !0xFFFu64,
    ;
    (start, start + 4095)
}

/// Decodes the page-table entry of the page that holds `virt` into the
/// physical address of `virt`.
///
/// Frame number zero is reported as `ZeroPfn`, apart from a page that is not
/// present, so that a caller can skip a check instead of giving up.
pub fn resolve_entry(raw: u64, virt: u64) -> (r: Result<PhysAddr, ResolveError>)
    ensures
        r == spec_resolve(raw, virt),
{
    match entry_pfn(raw) {
        None => Err(ResolveError::PageNotPresent),
        Some(pfn) => {
            if pfn == 0 {
                Err(ResolveError::ZeroPfn)
            } else {
                let full: u64 = (pfn << 12u64) | (virt & 0xFFFu64);
                let m: u64 = usize::MAX as u64;
                assert((full & m) <= m) by (bit_vector);
                Ok(PhysAddr((full & m) as usize))
            }
        },
    }
}

/// The page addresses that a run of entries stands for, up to the first entry
/// that gives none.
pub open spec fn spec_resolve_all(raws: Seq<u64>) -> Result<Seq<PhysAddr>, ResolveError>
    decreases raws.len(),
{
    if raws.len() == 0 {
        Ok(Seq::empty())
    } else {
        match spec_resolve_all(raws.drop_last()) {
            Err(e) => Err(e),
            Ok(before) => if entry_present(raws.last()) {
                Ok(before.push(frame_address(entry_frame(raws.last()), 0)))
            } else {
                Err(ResolveError::PageNotPresent)
            },
        }
    }
}

/// Decodes the entries of the pages of a region into page addresses. The first
/// entry of a page that is not present ends the decoding with its error.
pub fn resolve_entries(raws: &Vec<u64>) -> (r: Result<Vec<PhysAddr>, ResolveError>)
    ensures
        match r {
            Ok(v) => spec_resolve_all(raws@) == Ok::<Seq<PhysAddr>, ResolveError>(v@),
            Err(e) => spec_resolve_all(raws@) == Err::<Seq<PhysAddr>, ResolveError>(e),
        },
{
    let mut out: Vec<PhysAddr> = Vec::new();
    let mut i: usize = 0;
    while i < raws.len()
        invariant
            i <= raws.len(),
            spec_resolve_all(raws@.take(i as int)) == Ok::<Seq<PhysAddr>, ResolveError>(out@),
        decreases raws.len() - i,
    {
        proof {
            let t = raws@.take(i as int + 1);
            assert(t.drop_last() =~= raws@.take(i as int));
        }
        match entry_pfn(raws[i]) {
            None => {
                proof {
                    lemma_resolve_all_prefix(raws@, i as int + 1);
                }
                return Err(ResolveError::PageNotPresent);
            },
            Some(pfn) => {
                let full: u64 = pfn << 12u64;
                let m: u64 = usize::MAX as u64;
                assert((full & m) <= m) by (bit_vector);
                assert(full | (0u64 & 0xFFFu64) == full) by (bit_vector);
                out.push(PhysAddr((full & m) as usize));
            },
        }
        i += 1;
    }
    assert(raws@.take(i as int) =~= raws@);
    Ok(out)
}

/// An error in a prefix of the entries is the error of them all.
proof fn lemma_resolve_all_prefix(raws: Seq<u64>, n: int)
    requires
        0 <= n <= raws.len(),
        spec_resolve_all(raws.take(n)) is Err,
    ensures
        spec_resolve_all(raws) == spec_resolve_all(raws.take(n)),
    decreases raws.len(),
{
    if n == raws.len() {
        assert(raws.take(n) =~= raws);
    } else {
        assert(raws.drop_last().take(n) =~= raws.take(n));
        lemma_resolve_all_prefix(raws.drop_last(), n);
    }
}

/// Resolving virtual addresses to physical addresses.
pub trait VirtToPhysResolver {
    /// Errors that can occur during physical address resolution.
    type Error;

    /// Resolves a virtual address to a physical address.
    fn get_phys(&mut self, virt: u64) -> Result<PhysAddr, Self::Error>;

    /// Resolves the pages of the region from `start` up to `end` to physical
    /// addresses, one for each page in ascending order. The region holds at
    /// least one byte.
    fn get_phys_range(&mut self, start: u64, end: u64) -> Result<Vec<PhysAddr>, Self::Error>
        requires
            start < end,
    ;
}

} // verus!
