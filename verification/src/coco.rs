//! The kernel-module strategy: blocks of 4 MiB that a driver maps.
use vstd::prelude::*;
use crate::consec_blocks::ConsecBlocks;
use crate::memblock::{Memory, PfnOffset};
use crate::allocator::{SizeError, block_count, size_fault};
use crate::size::Size;

verus! {

/// Length of the blocks that the driver maps: 4 MiB.
pub const COCO_BLOCK_LEN: usize = 4194304;

/// The kernel-module strategy.
#[derive(Clone, Copy, Debug)]
pub struct CoCo {}

impl CoCo {
    /// The block size of the strategy: 4 MiB.
    pub fn block_size(&self) -> (r: Size)
        ensures
            r == Size::MB(4),
    {
        Size::MB(4)
    }

    /// Checks the size of a request and gives the number of blocks that it
    /// takes. A size that is zero or no multiple of the block length is
    /// refused, before the device is opened.
    pub fn check_size(size: Size) -> (r: Result<usize, SizeError>)
        ensures
            r is Ok <==> size.fits() && size.spec_bytes() > 0 && size.spec_bytes() % (COCO_BLOCK_LEN as int) == 0,
            r is Ok ==> r->Ok_0 == size.spec_bytes() / (COCO_BLOCK_LEN as int),
            r is Err ==> size_fault(size, COCO_BLOCK_LEN) == Some(r->Err_0),
    {
        block_count(size, COCO_BLOCK_LEN)
    }

    /// The collection of the blocks that the driver mapped at the given addresses.
    pub fn blocks_for(ptrs: &Vec<usize>) -> (r: ConsecBlocks)
        ensures
            r.blocks@.len() == ptrs@.len(),
            forall|i: int|
                0 <= i < ptrs@.len() ==> #[trigger] r.blocks@[i] == (Memory {
                    ptr: ptrs@[i],
                    len: COCO_BLOCK_LEN,
                    pfn_offset: PfnOffset::Dynamic(None),
                }),
    {
        let mut blocks: Vec<Memory> = Vec::new();
        let mut i: usize = 0;
        while i < ptrs.len()
            invariant
                i <= ptrs@.len(),
                blocks@.len() == i,
                forall|k: int|
                    0 <= k < i ==> #[trigger] blocks@[k] == (Memory {
                        ptr: ptrs@[k],
                        len: COCO_BLOCK_LEN,
                        pfn_offset: PfnOffset::Dynamic(None),
                    }),
            decreases ptrs@.len() - i,
        {
            blocks.push(Memory::new(ptrs[i], COCO_BLOCK_LEN));
            i += 1;
        }
        ConsecBlocks::new(blocks)
    }
}

} // verus!
