//! Sizes of pages, DRAM rows and cache lines.
use vstd::prelude::*;

verus! {

/// Page shift value (12 bits) for 4 KiB pages.
pub const PAGE_SHIFT: usize = 12;

/// Standard page size (4096 bytes).
pub const PAGE_SIZE: usize = 4096;

/// Mask for extracting the offset inside a page.
pub const PAGE_MASK: usize = 4095;

/// Row shift value (13 bits) for 8 KiB rows.
pub const ROW_SHIFT: usize = 13;

/// Standard DRAM row size (8192 bytes).
pub const ROW_SIZE: usize = 8192;

/// Mask for extracting the offset inside a row.
pub const ROW_MASK: usize = 8191;

/// Cache line size (64 bytes).
pub const CL_SIZE: usize = 64;

/// Number of rounds for timer calibration.
pub const TIMER_ROUNDS: usize = 100_000;

/// Base address for huge-page memory allocations.
pub const BASE_MSB: u64 = 0x2000000000;

} // verus!
