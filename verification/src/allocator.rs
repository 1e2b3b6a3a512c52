//! Allocation strategies and the entry point that validates a request and
//! hands it to a strategy.
use vstd::prelude::*;
use crate::consec_blocks::ConsecBlocks;
use crate::size::Size;

verus! {

/// A strategy that provides blocks of physically consecutive memory.
pub trait ConsecAllocator {
    /// The error type returned by allocation operations.
    type Error;

    /// What the strategy needs to hold of itself before a call.
    spec fn inv(&self) -> bool;

    /// The size of the blocks that the strategy hands out.
    spec fn spec_block_size(&self) -> Size;

    /// Returns the size of the individual memory blocks of this strategy.
    fn block_size(&self) -> (r: Size)
        ensures
            r == self.spec_block_size(),
    ;

    /// Allocates blocks of consecutive physical memory of the given total
    /// size, which is a multiple of the block size.
    fn alloc_consec_blocks(&mut self, size: Size) -> (r: Result<ConsecBlocks, Self::Error>)
        requires
            old(self).inv(),
        ensures
            final(self).inv(),
            final(self).spec_block_size() == old(self).spec_block_size(),
    ;
}

/// Why a request was not served.
#[derive(Debug)]
pub enum AllocError<E> {
    /// The size is not a multiple of the strategy's block size, or one of the
    /// two does not fit a machine word, or the block size is zero.
    NotBlockMultiple,
    /// The size is zero.
    ZeroSize,
    /// The strategy failed.
    Strategy(E),
}

/// Whether `size` is a multiple of `block`, both counted in bytes.
pub open spec fn block_multiple(size: Size, block: Size) -> bool {
    &&& size.fits()
    &&& block.fits()
    &&& block.spec_bytes() > 0
    &&& size.spec_bytes() % block.spec_bytes() == 0
}

/// The precondition that a request breaks, if any.
pub open spec fn request_fault<E>(size: Size, block: Size) -> Option<AllocError<E>> {
    if !block_multiple(size, block) {
        Some(AllocError::NotBlockMultiple)
    } else if size.spec_bytes() == 0 {
        Some(AllocError::ZeroSize)
    } else {
        None
    }
}

/// Why a strategy refuses the size of a request.
#[derive(Clone, Copy, Debug, PartialEq, Eq, Structural)]
pub enum SizeError {
    /// The size is not a multiple of the strategy's block length, or does not
    /// fit a machine word.
    NotBlockMultiple,
    /// The size is zero.
    ZeroSize,
}

/// Whether a strategy with blocks of `block_len` bytes serves a request of
/// `size`: the size fits a machine word, is not zero, and is a multiple of
/// the block length.
pub open spec fn size_served(size: Size, block_len: usize) -> bool {
    size.fits() && size.spec_bytes() > 0 && block_len > 0 && size.spec_bytes() % (block_len as int) == 0
}

/// The reason for which a strategy with blocks of `block_len` bytes refuses a
/// request of `size`, if it does.
pub open spec fn size_fault(size: Size, block_len: usize) -> Option<SizeError> {
    if size_served(size, block_len) {
        None
    } else if size.fits() && size.spec_bytes() == 0 && block_len > 0 {
        Some(SizeError::ZeroSize)
    } else {
        Some(SizeError::NotBlockMultiple)
    }
}

/// The number of blocks of `block_len` bytes that a request of `size` takes,
/// or the reason for which the request is refused.
pub fn block_count(size: Size, block_len: usize) -> (r: Result<usize, SizeError>)
    ensures
        r is Ok <==> size_served(size, block_len),
        r is Ok ==> r->Ok_0 == size.spec_bytes() / (block_len as int),
        r is Err ==> size_fault(size, block_len) == Some(r->Err_0),
{
    let bytes = match size.checked_bytes() {
        Some(b) => b,
        None => {
            return Err(SizeError::NotBlockMultiple);
        },
    };
    if block_len == 0 || bytes % block_len != 0 {
        return Err(SizeError::NotBlockMultiple);
    }
    if bytes == 0 {
        return Err(SizeError::ZeroSize);
    }
    Ok(bytes / block_len)
}

/// Checks a request against a block size.
pub fn check_request(size: Size, block: Size) -> (r: Result<usize, AllocError<()>>)
    ensures
        match r {
            Ok(n) => request_fault::<()>(size, block).is_none() && n == size.spec_bytes(),
            Err(e) => request_fault::<()>(size, block) == Some(e),
        },
{
    let s = match size.checked_bytes() {
        Some(s) => s,
        None => {
            return Err(AllocError::NotBlockMultiple);
        },
    };
    let b = match block.checked_bytes() {
        Some(b) => b,
        None => {
            return Err(AllocError::NotBlockMultiple);
        },
    };
    if b == 0 || s % b != 0 {
        return Err(AllocError::NotBlockMultiple);
    }
    if s == 0 {
        return Err(AllocError::ZeroSize);
    }
    Ok(s)
}

/// Allocates memory using an allocation strategy.
///
/// A size that is zero or no multiple of the strategy's block size is refused
/// before the strategy is asked for anything: the strategy is left as it was.
pub fn alloc_memory<A: ConsecAllocator>(allocator: &mut A, size: Size) -> (r: Result<
    ConsecBlocks,
    AllocError<A::Error>,
>)
    requires
        old(allocator).inv(),
    ensures
        final(allocator).inv(),
        final(allocator).spec_block_size() == old(allocator).spec_block_size(),
        !block_multiple(size, old(allocator).spec_block_size()) ==> r is Err && r->Err_0 is NotBlockMultiple
            && *final(allocator) == *old(allocator),
        block_multiple(size, old(allocator).spec_block_size()) && size.spec_bytes() == 0 ==> r is Err
            && r->Err_0 is ZeroSize && *final(allocator) == *old(allocator),
        block_multiple(size, old(allocator).spec_block_size()) && size.spec_bytes() > 0 ==> (r is Ok || (r is Err
            && r->Err_0 is Strategy)),
{
    let block = allocator.block_size();
    match check_request(size, block) {
        Err(AllocError::NotBlockMultiple) => {
            return Err(AllocError::NotBlockMultiple);
        },
        Err(_) => {
            return Err(AllocError::ZeroSize);
        },
        Ok(_) => {},
    }
    match allocator.alloc_consec_blocks(size) {
        Ok(memory) => Ok(memory),
        Err(e) => Err(AllocError::Strategy(e)),
    }
}

} // verus!
