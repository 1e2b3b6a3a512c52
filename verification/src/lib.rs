//! Physical-memory acquisition and DRAM-geometry engine for memory-disturbance
//! experiments.
//!
//! The crate models addresses as plain integers. It decodes page-table entries,
//! maps between addresses and DRAM bank/row/column coordinates with a
//! bit-matrix over GF(2), plans which parts of a probe buffer an allocation
//! strategy keeps, and writes and checks data patterns on a block collection.
use vstd::prelude::*;

pub mod constants;
pub mod size;
pub mod phys_addr;
pub mod bits;
pub mod gf2;
pub mod bit_def;
pub mod mem_configuration;
pub mod dram_addr;
pub mod virt_to_phys;
pub mod memblock;
pub mod consec_blocks;
pub mod intervals;
pub mod spoiler;
pub mod allocator;
pub mod meminfo;
pub mod hugepage;
pub mod pfn;
pub mod thp;
pub mod coco;
pub mod rng;
pub mod pattern;
pub mod content;
pub mod victim;
pub mod hammerer;
pub mod profile;
pub mod blacksmith;
pub mod report;
pub mod util;
