//! The transparent-huge-page strategy: validating a request and deciding on
//! each block by the bank-conflict timing against the block before it.
use vstd::prelude::*;
use crate::memblock::Memory;
use crate::size::Size;

verus! {

/// The unit that a request must be a multiple of: 2 MiB.
pub const ALIGN_LEN: usize = 2097152;

/// The block size of the strategy in bytes: 1 GiB.
pub const THP_BLOCK_LEN: usize = 1073741824;

/// The transparent-huge-page strategy.
#[derive(Clone, Copy, Debug)]
pub struct THP {
    /// Timing, in cycles, from which two accesses count as a bank conflict.
    pub conflict_threshold: u64,
}

/// Why the strategy refuses a request.
#[derive(Clone, Copy, Debug)]
pub enum ThpError {
    /// The size is zero or no multiple of the unit that the error holds.
    SizeError(Size),
}

impl THP {
    /// Creates the strategy for a conflict threshold.
    pub fn new(conflict_threshold: u64) -> (r: Self)
        ensures
            r.conflict_threshold == conflict_threshold,
    {
        THP { conflict_threshold }
    }

    /// The block size of the strategy: 1 GiB.
    pub fn block_size(&self) -> (r: Size)
        ensures
            r == Size::GB(1),
    {
        Size::GB(1)
    }

    /// Whether a request of `size` can be served: the size is not zero and a
    /// multiple of 2 MiB.
    pub open spec fn size_ok(size: Size) -> bool {
        size.fits() && size.spec_bytes() != 0 && size.spec_bytes() % ALIGN_LEN as int == 0
    }

    /// Checks the size of a request and gives it in bytes.
    pub fn check_size(size: Size) -> (r: Result<usize, ThpError>)
        ensures
            r is Ok <==> Self::size_ok(size),
            r is Ok ==> r->Ok_0 == size.spec_bytes(),
            r is Err ==> r->Err_0 == ThpError::SizeError(Size::MB(2)),
    {
        match size.checked_bytes() {
            Some(n) => {
                if n == 0 || n % ALIGN_LEN != 0 {
                    Err(ThpError::SizeError(Size::MB(2)))
                } else {
                    Ok(n)
                }
            },
            None => Err(ThpError::SizeError(Size::MB(2))),
        }
    }

    /// The number of blocks that a request of `bytes` bytes takes: the bytes
    /// divided by the block size, and one at least.
    pub fn required_blocks(bytes: usize) -> (r: usize)
        ensures
            r == (if bytes / THP_BLOCK_LEN >= 1 { bytes / THP_BLOCK_LEN } else { 1 }),
    {
        let n: usize = bytes / THP_BLOCK_LEN;
        if n >= 1 {
            n
        } else {
            1
        }
    }

    /// Whether an address, virtual or physical, is aligned to 2 MiB.
    pub fn aligned(addr: usize) -> (r: bool)
        ensures
            r == (addr % ALIGN_LEN == 0),
    {
        addr % ALIGN_LEN == 0
    }

    /// Whether a new block is accepted: there is no block before it, or the
    /// timing of alternating accesses to both shows a bank conflict.
    pub fn accepts(&self, has_previous: bool, timing: u64) -> (r: bool)
        ensures
            r == (!has_previous || timing >= self.conflict_threshold),
    {
        !has_previous || timing >= self.conflict_threshold
    }

    /// Takes a new block into the accepted ones, or puts it aside for release
    /// where the timing against the block accepted last shows no bank
    /// conflict. Returns whether the block was accepted.
    pub fn offer(&self, blocks: &mut Vec<Memory>, garbage: &mut Vec<Memory>, block: Memory, timing: u64) -> (r:
        bool)
        ensures
            r == (old(blocks)@.len() == 0 || timing >= self.conflict_threshold),
            r ==> final(blocks)@ == old(blocks)@.push(block) && final(garbage)@ == old(garbage)@,
            !r ==> final(blocks)@ == old(blocks)@ && final(garbage)@ == old(garbage)@.push(block),
    {
        if self.accepts(blocks.len() > 0, timing) {
            blocks.push(block);
            true
        } else {
            garbage.push(block);
            false
        }
    }
}

} // verus!
