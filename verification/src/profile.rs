//! Records of an experiment: the pattern kinds to choose from, the flips of a
//! profiling run, and the configuration of a page injection.
use vstd::prelude::*;
use crate::constants::{PAGE_MASK, PAGE_SIZE};
use crate::memblock::Memory;
use crate::pattern::{BitFlip, DataPattern, PatternView};
use crate::rng::Rng;

verus! {

/// Errors that can occur during memory operations.
#[derive(Clone, Copy, Debug, PartialEq, Eq, Structural)]
pub enum MemoryError {
    /// Memory allocation failed.
    AllocFailed,
    /// Attempted to create a zero-size memory layout.
    ZeroSizeLayout,
}

impl MemoryError {
    /// The message of the error.
    pub fn message(&self) -> (r: &'static str)
        ensures
            r@ == match *self {
                MemoryError::AllocFailed => "Allocation failed"@,
                MemoryError::ZeroSizeLayout => "Zero size layout"@,
            },
    {
        match self {
            MemoryError::AllocFailed => "Allocation failed",
            MemoryError::ZeroSizeLayout => "Zero size layout",
        }
    }
}

/// Data pattern selection for configuration.
#[derive(Clone, Copy, Debug, PartialEq, Eq, Structural)]
pub enum DataPatternKind {
    /// Random data pattern.
    Random,
    /// All zeros (0x00).
    Zero,
    /// All ones (0xFF).
    One,
}

impl DataPatternKind {
    /// The pattern of this kind; random data is seeded with `seed` and stands
    /// at the start of its stream.
    pub fn pattern(&self, seed: u64) -> (r: DataPattern)
        ensures
            r@ == (match *self {
                DataPatternKind::Random => PatternView::Random { seed, words: 0 },
                DataPatternKind::Zero => PatternView::Zero,
                DataPatternKind::One => PatternView::One,
            }),
    {
        match self {
            DataPatternKind::Random => DataPattern::Random(Box::new(Rng::from_seed(seed))),
            DataPatternKind::Zero => DataPattern::Zero,
            DataPatternKind::One => DataPattern::One,
        }
    }
}

/// Profiling results from a series of hammering rounds.
#[derive(Debug)]
pub struct RoundProfile {
    /// Bit flips that met the reproducibility threshold.
    pub bit_flips: Vec<BitFlip>,
    /// Data pattern used during profiling.
    pub pattern: DataPattern,
}

/// Configuration for page injection operations.
#[derive(Copy, Clone, Debug)]
pub struct InjectionConfig {
    /// An identifier for this injection configuration.
    pub id: usize,
    /// The target address for page injection.
    pub target_addr: usize,
    /// Size of the target page in bytes.
    pub flippy_page_size: usize,
    /// Number of bait pages to release after the target page.
    pub bait_count_after: usize,
    /// Number of bait pages to release before the target page.
    pub bait_count_before: usize,
    /// Expected stack offset for injection.
    pub stack_offset: usize,
}

impl InjectionConfig {
    /// The address of the page that holds the target address.
    pub fn target_page(&self) -> (r: usize)
        ensures
            r == self.target_addr & !PAGE_MASK,
    {
        self.target_addr & !PAGE_MASK
    }

    /// The number of bait pages, before and after the target page together.
    pub open spec fn bait_pages(self) -> int {
        self.bait_count_before + self.bait_count_after
    }

    /// The length of the bait buffer in bytes, or `None` where it exceeds a
    /// machine word.
    pub fn bait_len(&self) -> (r: Option<usize>)
        ensures
            r.is_some() <==> self.bait_pages() * PAGE_SIZE <= usize::MAX,
            r.is_some() ==> r.unwrap() == self.bait_pages() * PAGE_SIZE,
    {
        match self.bait_count_before.checked_add(self.bait_count_after) {
            Some(pages) => pages.checked_mul(PAGE_SIZE),
            None => None,
        }
    }

    /// The spans that are released for an injection, in the order of their
    /// release: the bait pages before the target, the target page, the bait
    /// pages after the target. A span without pages is left out.
    pub open spec fn spec_release_plan(self, bait: usize) -> Seq<Memory> {
        let before = if self.bait_count_before != 0 {
            seq![Memory::spec_span(bait, (self.bait_count_before * PAGE_SIZE) as usize)]
        } else {
            Seq::<Memory>::empty()
        };
        let target = seq![Memory::spec_span((self.target_addr & !PAGE_MASK) as usize, self.flippy_page_size)];
        let after = if self.bait_count_after != 0 {
            seq![
                Memory::spec_span(
                    (bait + self.bait_count_before * PAGE_SIZE) as usize,
                    (self.bait_count_after * PAGE_SIZE) as usize,
                ),
            ]
        } else {
            Seq::<Memory>::empty()
        };
        before + target + after
    }

    /// The spans that are released for an injection with the bait buffer at `bait`.
    pub fn release_plan(&self, bait: usize) -> (r: Vec<Memory>)
        requires
            bait + self.bait_pages() * PAGE_SIZE <= usize::MAX,
        ensures
            r@ == self.spec_release_plan(bait),
    {
        let mut plan: Vec<Memory> = Vec::new();
        assert(self.bait_count_before * PAGE_SIZE <= self.bait_pages() * PAGE_SIZE) by (nonlinear_arith)
            requires
                self.bait_count_before <= self.bait_pages(),
        ;
        assert(self.bait_pages() * PAGE_SIZE == self.bait_count_before * PAGE_SIZE + self.bait_count_after
            * PAGE_SIZE) by (nonlinear_arith)
            requires
                self.bait_pages() == self.bait_count_before + self.bait_count_after,
        ;
        if self.bait_count_before != 0 {
            plan.push(Memory::new(bait, self.bait_count_before * PAGE_SIZE));
        }
        plan.push(Memory::new(self.target_addr & !PAGE_MASK, self.flippy_page_size));
        if self.bait_count_after != 0 {
            plan.push(Memory::new(bait + self.bait_count_before * PAGE_SIZE, self.bait_count_after * PAGE_SIZE));
        }
        assert(plan@ =~= self.spec_release_plan(bait));
        plan
    }
}

} // verus!
