//! Declarative definitions of DRAM addressing functions.
use vstd::prelude::*;

verus! {

/// Defines which address bits feed one DRAM addressing function: a single bit,
/// or the exclusive or of several.
#[derive(Clone, Debug)]
pub enum BitDef {
    /// Single bit function.
    Single(u64),
    /// Exclusive or of several bits.
    Multi(Vec<u64>),
}

/// The word with the bits at the given positions set.
pub open spec fn positions_mask(bits: Seq<u64>) -> u64
    decreases bits.len(),
{
    if bits.len() == 0 {
        0
    } else {
        positions_mask(bits.drop_last()) | (1u64 << bits.last())
    }
}

/// Whether every position lies below `limit`.
pub open spec fn positions_below(bits: Seq<u64>, limit: u64) -> bool {
    forall|i: int| 0 <= i < bits.len() ==> #[trigger] bits[i] < limit
}

/// The greatest of the positions, or 0 where there is none.
pub open spec fn positions_max(bits: Seq<u64>) -> u64
    decreases bits.len(),
{
    if bits.len() == 0 {
        0
    } else if bits.last() >= positions_max(bits.drop_last()) {
        bits.last()
    } else {
        positions_max(bits.drop_last())
    }
}

/// A mask of positions below `limit` is below `2^limit`.
pub proof fn lemma_positions_mask_bound(bits: Seq<u64>, limit: u64)
    requires
        limit < 64,
        positions_below(bits, limit),
    ensures
        positions_mask(bits) < (1u64 << limit),
    decreases bits.len(),
{
    if bits.len() == 0 {
        assert(limit < 64 ==> 0u64 < (1u64 << limit)) by (bit_vector);
    } else {
        lemma_positions_mask_bound(bits.drop_last(), limit);
        let m = positions_mask(bits.drop_last());
        let b = bits.last();
        assert(limit < 64 && b < limit && m < (1u64 << limit) ==> (m | (1u64 << b)) < (1u64 << limit))
            by (bit_vector);
    }
}

impl BitDef {
    /// The positions that this definition names.
    pub open spec fn positions(self) -> Seq<u64> {
        match self {
            BitDef::Single(bit) => seq![bit],
            BitDef::Multi(bits) => bits@,
        }
    }

    /// The bitmask that this definition stands for.
    pub open spec fn mask(self) -> u64 {
        positions_mask(self.positions())
    }

    /// Whether every named position lies below `limit`.
    pub open spec fn below(self, limit: u64) -> bool {
        positions_below(self.positions(), limit)
    }

    /// The bitmask as a 64-bit word, or `None` where a position is `limit` or more.
    pub fn checked_mask(&self, limit: u64) -> (r: Option<u64>)
        requires
            limit <= 64,
        ensures
            r == (if self.below(limit) { Some(self.mask()) } else { None }),
    {
        match self {
            BitDef::Single(bit) => {
                if *bit < limit {
                    assert(positions_below(seq![*bit], limit));
                    assert(seq![*bit].drop_last() =~= Seq::<u64>::empty());
                    assert(positions_mask(seq![*bit]) == positions_mask(Seq::<u64>::empty()) | (1u64 << *bit));
                    let b: u64 = *bit;
                    assert(0u64 | (1u64 << b) == (1u64 << b)) by (bit_vector);
                    Some(1u64 << *bit)
                } else {
                    assert(seq![*bit][0] == *bit);
                    None
                }
            },
            BitDef::Multi(bits) => {
                let mut res: u64 = 0;
                let mut i: usize = 0;
                while i < bits.len()
                    invariant
                        i <= bits.len(),
                        limit <= 64,
                        self.positions() == bits@,
                        positions_below(bits@.take(i as int), limit),
                        res == positions_mask(bits@.take(i as int)),
                    decreases bits.len() - i,
                {
                    let b: u64 = bits[i];
                    if b >= limit {
                        assert(self.positions()[i as int] >= limit);
                        return None;
                    }
                    proof {
                        let t = bits@.take(i as int + 1);
                        assert(t.drop_last() =~= bits@.take(i as int));
                        assert(t.last() == b);
                        assert forall|k: int| 0 <= k < t.len() implies #[trigger] t[k] < limit by {
                            if k < i {
                                assert(bits@.take(i as int)[k] < limit);
                            }
                        }
                    }
                    res = res | (1u64 << b);
                    i += 1;
                }
                assert(bits@.take(i as int) =~= bits@);
                Some(res)
            },
        }
    }

    /// Converts the bit definition to a bitmask.
    pub fn to_bitstr(&self) -> (r: usize)
        requires
            self.below(usize::BITS as u64),
        ensures
            r as u64 == self.mask(),
    {
        let m = self.checked_mask(usize::BITS as u64);
        let v: u64 = m.unwrap();
        proof {
            if usize::BITS == 32 {
                lemma_positions_mask_bound(self.positions(), 32);
                assert((1u64 << 32u64) == 0x1_0000_0000u64) by (bit_vector);
            }
        }
        v as usize
    }

    /// The greatest position that this definition names, or `None` where it names none.
    pub fn max_bit(&self) -> (r: Option<u64>)
        ensures
            r == (if self.positions().len() == 0 { None } else { Some(positions_max(self.positions())) }),
    {
        match self {
            BitDef::Single(bit) => {
                assert(seq![*bit].drop_last() =~= Seq::<u64>::empty());
                assert(positions_max(Seq::<u64>::empty()) == 0);
                Some(*bit)
            },
            BitDef::Multi(bits) => {
                if bits.len() == 0 {
                    return None;
                }
                let mut best: u64 = 0;
                let mut i: usize = 0;
                while i < bits.len()
                    invariant
                        i <= bits.len(),
                        best == positions_max(bits@.take(i as int)),
                    decreases bits.len() - i,
                {
                    proof {
                        let t = bits@.take(i as int + 1);
                        assert(t.drop_last() =~= bits@.take(i as int));
                    }
                    if bits[i] >= best {
                        best = bits[i];
                    }
                    i += 1;
                }
                assert(bits@.take(i as int) =~= bits@);
                Some(best)
            },
        }
    }
}

/// A hammering configuration: the DRAM addressing functions and the timing
/// threshold for bank conflicts.
#[derive(Clone, Debug)]
pub struct BlacksmithConfig {
    /// Timing threshold for bank conflict detection (in CPU cycles).
    pub threshold: u64,
    /// Address bits used for DRAM row selection.
    pub row_bits: Vec<BitDef>,
    /// Address bits used for DRAM column selection.
    pub col_bits: Vec<BitDef>,
    /// Address bits used for DRAM bank selection.
    pub bank_bits: Vec<BitDef>,
}

} // verus!
