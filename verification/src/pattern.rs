//! Data patterns that memory is filled with, and the bit flips that a check finds.
use vstd::prelude::*;
use crate::bits::{bit, ones, lemma_bit_test};
use crate::constants::{PAGE_SIZE, ROW_MASK};
use crate::rng::{Rng, stream_byte};

verus! {

/// Memory initialization patterns.
///
/// Stripe patterns hold one value in the rows that are listed and the
/// complementary value everywhere else.
#[derive(Debug)]
pub enum DataPattern {
    /// Random data from a seeded generator.
    Random(Box<Rng>),
    /// Zeros in the listed rows, ones elsewhere.
    StripeZero {
        /// The addresses of the rows that hold 0x00.
        zeroes: Vec<usize>,
    },
    /// All zeros (0x00).
    Zero,
    /// Ones in the listed rows, zeros elsewhere.
    StripeOne {
        /// The addresses of the rows that hold 0xFF.
        ones: Vec<usize>,
    },
    /// All ones (0xFF).
    One,
}

/// The address of the row that holds `addr`.
pub open spec fn row_of(addr: usize) -> usize {
    addr & !ROW_MASK
}

/// Whether `row` is one of the listed rows.
pub open spec fn row_listed(rows: Seq<usize>, row: usize) -> bool {
    exists|i: int| 0 <= i < rows.len() && #[trigger] rows[i] == row
}

/// What a pattern is: for random data the seed and the position in the
/// stream of the seed, for a stripe pattern its rows.
pub enum PatternView {
    /// Random data of a seed, from a position in its stream on.
    Random {
        /// The seed of the generator.
        seed: u64,
        /// The position in the stream, in words.
        words: nat,
    },
    /// Zeros in the listed rows, ones elsewhere.
    StripeZero {
        /// The addresses of the rows that hold 0x00.
        zeroes: Seq<usize>,
    },
    /// All zeros.
    Zero,
    /// Ones in the listed rows, zeros elsewhere.
    StripeOne {
        /// The addresses of the rows that hold 0xFF.
        ones: Seq<usize>,
    },
    /// All ones.
    One,
}

impl PatternView {
    /// Byte `i` of the page at `addr`: for random data the byte at position
    /// `i` from the pattern's position on, else the value of the row.
    pub open spec fn byte(self, addr: usize, i: int) -> u8 {
        match self {
            PatternView::Random { seed, words } => stream_byte(seed, (words + i) as nat),
            PatternView::StripeZero { zeroes } => if row_listed(zeroes, row_of(addr)) {
                0x00u8
            } else {
                0xFFu8
            },
            PatternView::Zero => 0x00u8,
            PatternView::StripeOne { ones } => if row_listed(ones, row_of(addr)) {
                0xFFu8
            } else {
                0x00u8
            },
            PatternView::One => 0xFFu8,
        }
    }

    /// The content of the page at `addr`.
    pub open spec fn page(self, addr: usize) -> Seq<u8> {
        Seq::new(PAGE_SIZE as nat, |i: int| self.byte(addr, i))
    }

    /// The pattern after `n` pages were asked of it: random data has moved on
    /// by a word for each byte, every other pattern is as it was.
    pub open spec fn after_pages(self, n: nat) -> PatternView {
        match self {
            PatternView::Random { seed, words } => PatternView::Random { seed, words: (words + n * PAGE_SIZE) as nat },
            _ => self,
        }
    }

    /// The pattern from its start: random data at the start of the stream of
    /// its seed, every other pattern as it is.
    pub open spec fn restarted(self) -> PatternView {
        match self {
            PatternView::Random { seed, words } => PatternView::Random { seed, words: 0 },
            _ => self,
        }
    }
}

impl View for DataPattern {
    type V = PatternView;

    open spec fn view(&self) -> PatternView {
        match self {
            DataPattern::Random(rng) => PatternView::Random { seed: rng.spec_seed(), words: rng.spec_words() },
            DataPattern::StripeZero { zeroes } => PatternView::StripeZero { zeroes: zeroes@ },
            DataPattern::Zero => PatternView::Zero,
            DataPattern::StripeOne { ones } => PatternView::StripeOne { ones: ones@ },
            DataPattern::One => PatternView::One,
        }
    }
}

impl DataPattern {
    /// The content of the page at `addr`.
    ///
    /// Every page of a pattern other than random data holds one byte value
    /// throughout, and asking for it leaves the pattern as it was. A page of
    /// random data holds the next bytes of the stream of the seed, and asking
    /// for it moves the pattern on by a page.
    pub fn get(&mut self, addr: usize) -> (r: [u8; PAGE_SIZE])
        ensures
            r@ == old(self)@.page(addr),
            final(self)@ == old(self)@.after_pages(1),
    {
        let ghost before = self@;
        let page = match self {
            DataPattern::Random(rng) => {
                let ghost seed = rng.spec_seed();
                let ghost start = rng.spec_words();
                let mut arr: [u8; PAGE_SIZE] = [0u8; PAGE_SIZE];
                let mut i: usize = 0;
                while i < PAGE_SIZE
                    invariant
                        i <= PAGE_SIZE,
                        rng.spec_seed() == seed,
                        rng.spec_words() == start + i,
                        forall|k: int| 0 <= k < i ==> #[trigger] arr@[k] == stream_byte(seed, (start + k) as nat),
                    decreases PAGE_SIZE - i,
                {
                    let b = rng.next_byte();
                    arr[i] = b;
                    i += 1;
                }
                arr
            },
            DataPattern::StripeZero { zeroes } => {
                if contains_row(zeroes, addr & !ROW_MASK) {
                    [0x00u8; PAGE_SIZE]
                } else {
                    [0xFFu8; PAGE_SIZE]
                }
            },
            DataPattern::Zero => [0x00u8; PAGE_SIZE],
            DataPattern::StripeOne { ones } => {
                if contains_row(ones, addr & !ROW_MASK) {
                    [0xFFu8; PAGE_SIZE]
                } else {
                    [0x00u8; PAGE_SIZE]
                }
            },
            DataPattern::One => [0xFFu8; PAGE_SIZE],
        };
        proof {
            assert(page@.len() == PAGE_SIZE);
            assert(page@ =~= before.page(addr));
        }
        page
    }
}

/// A copy of the listed rows.
fn copy_rows(rows: &Vec<usize>) -> (r: Vec<usize>)
    ensures
        r@ == rows@,
{
    let mut out: Vec<usize> = Vec::new();
    let mut i: usize = 0;
    while i < rows.len()
        invariant
            i <= rows.len(),
            out@ == rows@.take(i as int),
        decreases rows.len() - i,
    {
        out.push(rows[i]);
        proof {
            assert(rows@.take(i as int + 1) =~= rows@.take(i as int).push(rows@[i as int]));
        }
        i += 1;
    }
    assert(rows@.take(i as int) =~= rows@);
    out
}

impl Clone for DataPattern {
    /// A copy of the pattern. The copy of random data starts again from the
    /// seed, so that it gives what the pattern gave from its start.
    fn clone(&self) -> (r: Self)
        ensures
            r@ == self@.restarted(),
    {
        match self {
            DataPattern::Random(rng) => {
                let copy: Rng = Rng::from_seed(rng.seed());
                DataPattern::Random(Box::new(copy))
            },
            DataPattern::StripeZero { zeroes } => DataPattern::StripeZero { zeroes: copy_rows(zeroes) },
            DataPattern::Zero => DataPattern::Zero,
            DataPattern::StripeOne { ones } => DataPattern::StripeOne { ones: copy_rows(ones) },
            DataPattern::One => DataPattern::One,
        }
    }
}

/// Whether `row` is one of the listed rows.
fn contains_row(rows: &Vec<usize>, row: usize) -> (r: bool)
    ensures
        r == row_listed(rows@, row),
{
    let mut i: usize = 0;
    while i < rows.len()
        invariant
            i <= rows.len(),
            forall|k: int| 0 <= k < i ==> rows@[k] != row,
        decreases rows.len() - i,
    {
        if rows[i] == row {
            return true;
        }
        i += 1;
    }
    false
}

/// A bit flip detected in memory: one or more bits of a byte differ from
/// their expected value.
#[derive(Clone, Copy, Debug, PartialEq, Eq, Structural, Hash)]
pub struct BitFlip {
    /// Address of the byte.
    pub addr: usize,
    /// Bitmask of the bits that flipped (1 = bit flipped).
    pub bitmask: u8,
    /// The expected value of the byte (before the flip).
    pub data: u8,
}

/// Direction of bit flip transitions.
#[derive(Debug, PartialEq, Eq)]
pub enum FlipDirection {
    /// Bit flipped from 0 to 1.
    ZeroToOne,
    /// Bit flipped from 1 to 0.
    OneToZero,
    /// Several bits flipped; one direction for each, from the lowest bit up.
    Multiple(Vec<FlipDirection>),
    /// No bit flip occurred.
    NoFlip,
    /// Any flip direction is acceptable.
    Any,
}

/// For each flipped bit below `n`, from the lowest up, whether it went from 1 to 0.
pub open spec fn flips_below(bitmask: u8, data: u8, n: nat) -> Seq<bool>
    decreases n,
{
    if n == 0 {
        Seq::empty()
    } else {
        let before = flips_below(bitmask, data, (n - 1) as nat);
        if bit(bitmask as u64, (n - 1) as nat) {
            before.push(bit(data as u64, (n - 1) as nat))
        } else {
            before
        }
    }
}

impl BitFlip {
    /// Creates the record of a bit flip.
    pub fn new(addr: usize, bitmask: u8, data: u8) -> (r: Self)
        ensures
            r == (BitFlip { addr, bitmask, data }),
    {
        BitFlip { addr, bitmask, data }
    }

    /// The number of bits that flipped.
    pub open spec fn flipped_bits(self) -> nat {
        ones(self.bitmask as u64, 64)
    }

    /// Whether `d` is the direction of this flip.
    ///
    /// Without a flipped bit it is `NoFlip`. With one, it is the direction of
    /// that bit: from 1 to 0 where the expected byte has the bit set. With
    /// more, it is `Multiple` with the direction of each flipped bit in
    /// ascending bit order.
    pub open spec fn has_direction(self, d: FlipDirection) -> bool {
        if self.flipped_bits() == 0 {
            d is NoFlip
        } else if self.flipped_bits() == 1 {
            if self.bitmask & self.data == 0 {
                d is ZeroToOne
            } else {
                d is OneToZero
            }
        } else {
            &&& d is Multiple
            &&& d->Multiple_0@.len() == flips_below(self.bitmask, self.data, 8).len()
            &&& forall|k: int|
                0 <= k < d->Multiple_0@.len() ==> if flips_below(self.bitmask, self.data, 8)[k] {
                    (#[trigger] d->Multiple_0@[k]) is OneToZero
                } else {
                    d->Multiple_0@[k] is ZeroToOne
                }
        }
    }

    /// Calculates the direction observed in this flip.
    pub fn flip_direction(&self) -> (r: FlipDirection)
        ensures
            self.has_direction(r),
    {
        let count: u32 = (self.bitmask as u64).count_ones();
        if count == 0 {
            FlipDirection::NoFlip
        } else if count == 1 {
            let flipped: u8 = self.bitmask & self.data;
            if flipped == 0 {
                FlipDirection::ZeroToOne
            } else {
                FlipDirection::OneToZero
            }
        } else {
            let mask: u64 = self.bitmask as u64;
            let data: u64 = self.data as u64;
            let mut out: Vec<FlipDirection> = Vec::new();
            let mut i: u64 = 0;
            while i < 8
                invariant
                    i <= 8,
                    mask == self.bitmask as u64,
                    data == self.data as u64,
                    out@.len() == flips_below(self.bitmask, self.data, i as nat).len(),
                    forall|k: int|
                        0 <= k < out@.len() ==> if flips_below(self.bitmask, self.data, i as nat)[k] {
                            (#[trigger] out@[k]) is OneToZero
                        } else {
                            out@[k] is ZeroToOne
                        },
                decreases 8 - i,
            {
                proof {
                    lemma_bit_test(mask, i);
                    lemma_bit_test(data, i);
                }
                if (mask >> i) & 1 == 1 {
                    if (data >> i) & 1 == 1 {
                        out.push(FlipDirection::OneToZero);
                    } else {
                        out.push(FlipDirection::ZeroToOne);
                    }
                }
                i += 1;
            }
            FlipDirection::Multiple(out)
        }
    }
}

} // verus!
