//! The DRAM addressing configuration: a bit-matrix transform between
//! addresses and linearized DRAM bits, and its inverse over GF(2).
use vstd::prelude::*;
use vstd::arithmetic::power2::{pow2, lemma2_to64, lemma2_to64_rest, lemma_pow2_strictly_increases};
use vstd::bits::{lemma_u64_shl_is_mul, lemma_u64_pow2_no_overflow};
use crate::bit_def::{BitDef, BlacksmithConfig, positions_max, lemma_positions_mask_bound};
use crate::bits::ones;
use crate::constants::ROW_SHIFT;
use crate::gf2::{WIDTH, is_matrix, is_left_inverse, invertible, invert};

verus! {

/// Size of the DRAM addressing matrices.
pub const MTX_SIZE: usize = 30;

/// DRAM addressing configuration.
///
/// Defines how addresses map to the DRAM organization (bank, row, column)
/// through two transformation matrices.
#[derive(Debug, Copy, Clone, PartialEq, Eq)]
pub struct MemConfiguration {
    /// Bit shift for bank extraction.
    pub bk_shift: usize,
    /// Bit mask for bank extraction.
    pub bk_mask: usize,
    /// Bit shift for row extraction.
    pub row_shift: usize,
    /// Bit mask for row extraction.
    pub row_mask: usize,
    /// Bit shift for column extraction.
    pub col_shift: usize,
    /// Bit mask for column extraction.
    pub col_mask: usize,
    /// DRAM addressing matrix (address to DRAM bits).
    pub dram_mtx: [usize; MTX_SIZE],
    /// Address reconstruction matrix (DRAM bits to address).
    pub addr_mtx: [usize; MTX_SIZE],
    /// Maximum bank bit position.
    pub max_bank_bit: u64,
}

/// Why a list of bit definitions gives no configuration.
#[derive(Debug, Copy, Clone, PartialEq, Eq, Structural)]
pub enum ConfigError {
    /// The numbers of bank, column and row functions do not add up to the matrix size.
    BitCount,
    /// No bank function is given, or a bank function names no bit.
    EmptyBankFunction,
    /// A function names a bit outside the address window of the matrix.
    BitOutOfRange,
    /// The addressing matrix has no inverse over GF(2).
    NotInvertible,
}

/// The rows of a matrix as 64-bit words.
pub open spec fn rows_of(m: [usize; MTX_SIZE]) -> Seq<u64> {
    Seq::new(MTX_SIZE as nat, |i: int| m@[i] as u64)
}

/// The word whose lowest `n` bits are set.
pub open spec fn low_mask(n: int) -> u64
    recommends
        0 <= n < 64,
{
    ((1u64 << (n as u64)) - 1) as u64
}

/// The bitmasks of the definitions, one row each.
pub open spec fn def_rows(defs: Seq<BitDef>) -> Seq<u64> {
    Seq::new(defs.len(), |i: int| defs[i].mask())
}

/// Whether every definition names only bits below `limit`.
pub open spec fn defs_below(defs: Seq<BitDef>, limit: u64) -> bool {
    forall|i: int| 0 <= i < defs.len() ==> (#[trigger] defs[i]).below(limit)
}

/// Whether every definition names at least one bit.
pub open spec fn defs_nonempty(defs: Seq<BitDef>) -> bool {
    forall|i: int| 0 <= i < defs.len() ==> (#[trigger] defs[i]).positions().len() > 0
}

/// The greatest bit that any of the definitions names, or 0 where there is none.
pub open spec fn defs_max(defs: Seq<BitDef>) -> u64
    decreases defs.len(),
{
    if defs.len() == 0 {
        0
    } else {
        let rest = defs_max(defs.drop_last());
        let own = positions_max(defs.last().positions());
        if own >= rest {
            own
        } else {
            rest
        }
    }
}

/// The rows of the addressing matrix that the definitions describe: the bank
/// functions, then the column functions, then the row functions.
pub open spec fn matrix_of(bank: Seq<BitDef>, row: Seq<BitDef>, col: Seq<BitDef>) -> Seq<u64> {
    def_rows(bank) + def_rows(col) + def_rows(row)
}

/// The first reason, if any, for which the definitions give no configuration.
pub open spec fn config_error(bank: Seq<BitDef>, row: Seq<BitDef>, col: Seq<BitDef>) -> Option<ConfigError> {
    if bank.len() + col.len() + row.len() != MTX_SIZE {
        Some(ConfigError::BitCount)
    } else if bank.len() == 0 || !defs_nonempty(bank) {
        Some(ConfigError::EmptyBankFunction)
    } else if !(defs_below(bank, MTX_SIZE as u64) && defs_below(col, MTX_SIZE as u64) && defs_below(
        row,
        MTX_SIZE as u64,
    )) {
        Some(ConfigError::BitOutOfRange)
    } else if !invertible(matrix_of(bank, row, col)) {
        Some(ConfigError::NotInvertible)
    } else {
        None
    }
}

impl MemConfiguration {
    /// The rows of the addressing matrix.
    pub open spec fn dram_rows(self) -> Seq<u64> {
        rows_of(self.dram_mtx)
    }

    /// The rows of the reconstruction matrix.
    pub open spec fn addr_rows(self) -> Seq<u64> {
        rows_of(self.addr_mtx)
    }

    /// Whether the three shifts can be applied to a 64-bit word.
    pub open spec fn shifts_ok(self) -> bool {
        self.bk_shift < 64 && self.row_shift < 64 && self.col_shift < 64
    }

    /// Whether the configuration is consistent: the bank, column and row fields
    /// partition the bits of the matrix from the highest down, and the
    /// reconstruction matrix is the inverse of the addressing matrix, from
    /// the left and from the right.
    pub open spec fn wf(self) -> bool {
        &&& self.row_shift == 0
        &&& self.col_shift <= self.bk_shift <= MTX_SIZE
        &&& self.bk_mask as u64 == low_mask(MTX_SIZE - self.bk_shift)
        &&& self.col_mask as u64 == low_mask(self.bk_shift - self.col_shift)
        &&& self.row_mask as u64 == low_mask(self.col_shift as int)
        &&& is_left_inverse(self.addr_rows(), self.dram_rows())
        &&& is_left_inverse(self.dram_rows(), self.addr_rows())
    }

    /// Whether this is the configuration that the definitions describe.
    pub open spec fn describes(self, bank: Seq<BitDef>, row: Seq<BitDef>, col: Seq<BitDef>) -> bool {
        &&& self.wf()
        &&& self.bk_shift == MTX_SIZE - bank.len()
        &&& self.col_shift == MTX_SIZE - bank.len() - col.len()
        &&& self.dram_rows() == matrix_of(bank, row, col)
        &&& self.max_bank_bit == defs_max(bank)
    }

    /// Returns the periodicity of the bank function in rows: how many rows
    /// must be iterated before the bank function repeats.
    pub fn bank_function_period(&self) -> (r: u64)
        requires
            ROW_SHIFT <= self.max_bank_bit + 1 < ROW_SHIFT + 64,
        ensures
            r == pow2((self.max_bank_bit + 1 - ROW_SHIFT) as nat),
    {
        let shift: u64 = self.max_bank_bit + 1 - (ROW_SHIFT as u64);
        proof {
            lemma_u64_pow2_no_overflow(shift as nat);
            lemma_u64_shl_is_mul(1, shift);
        }
        1u64 << shift
    }

    /// Returns the number of banks in this DRAM configuration.
    pub fn get_bank_count(&self) -> (r: usize)
        requires
            ones(self.bk_mask as u64, 64) < 31,
        ensures
            r == pow2(ones(self.bk_mask as u64, 64)),
    {
        let n: u32 = (self.bk_mask as u64).count_ones();
        let shift: u64 = n as u64;
        proof {
            lemma_u64_pow2_no_overflow(shift as nat);
            lemma_u64_shl_is_mul(1, shift);
            lemma2_to64();
            if shift < 30 {
                lemma_pow2_strictly_increases(shift as nat, 30);
            }
        }
        (1u64 << shift) as usize
    }

    /// Returns the number of rows in this DRAM configuration.
    pub fn get_row_count(&self) -> (r: usize)
        requires
            ones(self.row_mask as u64, 64) < usize::BITS,
        ensures
            r == pow2(ones(self.row_mask as u64, 64)),
    {
        let n: u32 = (self.row_mask as u64).count_ones();
        let shift: u64 = n as u64;
        proof {
            lemma_u64_pow2_no_overflow(shift as nat);
            lemma_u64_shl_is_mul(1, shift);
            lemma2_to64();
            lemma2_to64_rest();
            if usize::BITS == 32 && shift < 31 {
                lemma_pow2_strictly_increases(shift as nat, 31);
            }
        }
        (1u64 << shift) as usize
    }
}

impl Default for MemConfiguration {
    fn default() -> (r: Self)
        ensures
            r.bk_shift == 0 && r.bk_mask == 0 && r.row_shift == 0 && r.row_mask == 0 && r.col_shift == 0
                && r.col_mask == 0 && r.max_bank_bit == 0,
            forall|i: int| 0 <= i < MTX_SIZE ==> r.dram_mtx@[i] == 0 && r.addr_mtx@[i] == 0,
    {
        MemConfiguration {
            bk_shift: 0,
            bk_mask: 0,
            row_shift: 0,
            row_mask: 0,
            col_shift: 0,
            col_mask: 0,
            dram_mtx: [0usize; MTX_SIZE],
            addr_mtx: [0usize; MTX_SIZE],
            max_bank_bit: 0,
        }
    }
}


/// Whether every definition names at least one bit.
fn all_nonempty(defs: &Vec<BitDef>) -> (r: bool)
    ensures
        r == defs_nonempty(defs@),
{
    let mut i: usize = 0;
    while i < defs.len()
        invariant
            i <= defs.len(),
            forall|k: int| 0 <= k < i ==> (#[trigger] defs@[k]).positions().len() > 0,
        decreases defs.len() - i,
    {
        if defs[i].max_bit().is_none() {
            return false;
        }
        i += 1;
    }
    true
}

/// The greatest bit that any of the definitions names.
fn greatest_bit(defs: &Vec<BitDef>) -> (r: u64)
    ensures
        r == defs_max(defs@),
{
    let mut best: u64 = 0;
    let mut i: usize = 0;
    while i < defs.len()
        invariant
            i <= defs.len(),
            best == defs_max(defs@.take(i as int)),
        decreases defs.len() - i,
    {
        proof {
            let t = defs@.take(i as int + 1);
            assert(t.drop_last() =~= defs@.take(i as int));
            assert(t.last() == defs@[i as int]);
        }
        let own: u64 = match defs[i].max_bit() {
            Some(b) => b,
            None => 0,
        };
        if own >= best {
            best = own;
        }
        i += 1;
    }
    assert(defs@.take(i as int) =~= defs@);
    best
}

/// Appends the bitmask of each definition to `rows`; stops and returns `false`
/// at a definition that names a bit outside the matrix.
fn push_rows(defs: &Vec<BitDef>, rows: &mut Vec<u64>) -> (ok: bool)
    ensures
        ok == defs_below(defs@, MTX_SIZE as u64),
        ok ==> final(rows)@ == old(rows)@ + def_rows(defs@),
{
    let ghost start = rows@;
    let mut i: usize = 0;
    while i < defs.len()
        invariant
            i <= defs.len(),
            rows@ == start + def_rows(defs@.take(i as int)),
            forall|k: int| 0 <= k < i ==> (#[trigger] defs@[k]).below(MTX_SIZE as u64),
        decreases defs.len() - i,
    {
        match defs[i].checked_mask(MTX_SIZE as u64) {
            Some(m) => {
                proof {
                    let a = defs@.take(i as int);
                    let b = defs@.take(i as int + 1);
                    assert(def_rows(b) =~= def_rows(a).push(m));
                    assert(start + def_rows(b) =~= (start + def_rows(a)).push(m));
                }
                rows.push(m);
            },
            None => {
                return false;
            },
        }
        i += 1;
    }
    assert(defs@.take(i as int) =~= defs@);
    true
}

/// Copies the rows of a matrix into an array of machine words.
fn to_array(rows: &Vec<u64>) -> (r: [usize; MTX_SIZE])
    requires
        is_matrix(rows@),
    ensures
        rows_of(r) == rows@,
{
    let mut out: [usize; MTX_SIZE] = [0usize; MTX_SIZE];
    let mut i: usize = 0;
    while i < MTX_SIZE
        invariant
            i <= MTX_SIZE,
            is_matrix(rows@),
            forall|k: int| 0 <= k < i ==> out@[k] as u64 == rows@[k],
        decreases MTX_SIZE - i,
    {
        let v: u64 = rows[i];
        assert(crate::gf2::is_vec(rows@[i as int]));
        out[i] = v as usize;
        i += 1;
    }
    assert(rows_of(out) =~= rows@);
    out
}

/// The word whose lowest `n` bits are set.
fn low_bits(n: usize) -> (r: usize)
    requires
        n <= MTX_SIZE,
    ensures
        r as u64 == low_mask(n as int),
{
    let s: u64 = n as u64;
    assert(s <= 30 ==> (1u64 << s) >= 1 && (1u64 << s) - 1 <= 0x3fff_ffff) by (bit_vector);
    ((1u64 << s) - 1) as usize
}

proof fn lemma_def_rows_matrix(bank: Seq<BitDef>, row: Seq<BitDef>, col: Seq<BitDef>)
    requires
        bank.len() + col.len() + row.len() == MTX_SIZE,
        defs_below(bank, MTX_SIZE as u64),
        defs_below(col, MTX_SIZE as u64),
        defs_below(row, MTX_SIZE as u64),
    ensures
        is_matrix(matrix_of(bank, row, col)),
{
    let m = matrix_of(bank, row, col);
    crate::bits::lemma_thirty_bits(0, 0, 0);
    assert forall|i: int| 0 <= i < WIDTH implies crate::gf2::is_vec(#[trigger] m[i]) by {
        if i < bank.len() {
            assert(bank[i].below(MTX_SIZE as u64));
            lemma_positions_mask_bound(bank[i].positions(), 30);
        } else if i < bank.len() + col.len() {
            let k = i - bank.len();
            assert(col[k].below(MTX_SIZE as u64));
            lemma_positions_mask_bound(col[k].positions(), 30);
        } else {
            let k = i - bank.len() - col.len();
            assert(row[k].below(MTX_SIZE as u64));
            lemma_positions_mask_bound(row[k].positions(), 30);
        }
    }
}

/// Builds the configuration that the three lists of addressing functions describe.
pub fn config_from_bitdefs(bank_bits: &Vec<BitDef>, row_bits: &Vec<BitDef>, col_bits: &Vec<BitDef>) -> (r: Result<
    MemConfiguration,
    ConfigError,
>)
    ensures
        match r {
            Ok(cfg) => config_error(bank_bits@, row_bits@, col_bits@).is_none() && cfg.describes(
                bank_bits@,
                row_bits@,
                col_bits@,
            ),
            Err(e) => config_error(bank_bits@, row_bits@, col_bits@) == Some(e),
        },
{
    let nb = bank_bits.len();
    let nc = col_bits.len();
    let nr = row_bits.len();
    if nb > MTX_SIZE || nc > MTX_SIZE || nr > MTX_SIZE || nb + nc + nr != MTX_SIZE {
        return Err(ConfigError::BitCount);
    }
    if nb == 0 || !all_nonempty(bank_bits) {
        return Err(ConfigError::EmptyBankFunction);
    }
    let mut rows: Vec<u64> = Vec::new();
    if !push_rows(bank_bits, &mut rows) {
        return Err(ConfigError::BitOutOfRange);
    }
    if !push_rows(col_bits, &mut rows) {
        return Err(ConfigError::BitOutOfRange);
    }
    if !push_rows(row_bits, &mut rows) {
        return Err(ConfigError::BitOutOfRange);
    }
    proof {
        assert(rows@ =~= matrix_of(bank_bits@, row_bits@, col_bits@));
        lemma_def_rows_matrix(bank_bits@, row_bits@, col_bits@);
    }
    let inverse = match invert(&rows) {
        Some(a) => a,
        None => {
            return Err(ConfigError::NotInvertible);
        },
    };
    let cfg = MemConfiguration {
        bk_shift: MTX_SIZE - nb,
        bk_mask: low_bits(nb),
        row_shift: MTX_SIZE - nb - nc - nr,
        row_mask: low_bits(nr),
        col_shift: MTX_SIZE - nb - nc,
        col_mask: low_bits(nc),
        dram_mtx: to_array(&rows),
        addr_mtx: to_array(&inverse),
        max_bank_bit: greatest_bit(bank_bits),
    };
    Ok(cfg)
}

/// Building a value from three lists of addressing functions.
pub trait FromBitDefs: Sized {
    /// Builds the value from the bank, row and column functions.
    fn from_bitdefs(bank_bits: Vec<BitDef>, row_bits: Vec<BitDef>, col_bits: Vec<BitDef>) -> Result<
        Self,
        ConfigError,
    >;
}

/// Building a value from a hammering configuration.
pub trait FromBlacksmithConfig: Sized {
    /// Builds the value from the addressing functions of `config`.
    fn from_blacksmith(config: &BlacksmithConfig) -> Result<Self, ConfigError>;
}

impl FromBitDefs for MemConfiguration {
    fn from_bitdefs(bank_bits: Vec<BitDef>, row_bits: Vec<BitDef>, col_bits: Vec<BitDef>) -> (r: Result<
        Self,
        ConfigError,
    >)
        ensures
            match r {
                Ok(cfg) => config_error(bank_bits@, row_bits@, col_bits@).is_none() && cfg.describes(
                    bank_bits@,
                    row_bits@,
                    col_bits@,
                ),
                Err(e) => config_error(bank_bits@, row_bits@, col_bits@) == Some(e),
            },
    {
        config_from_bitdefs(&bank_bits, &row_bits, &col_bits)
    }
}

impl FromBlacksmithConfig for MemConfiguration {
    fn from_blacksmith(config: &BlacksmithConfig) -> (r: Result<Self, ConfigError>)
        ensures
            match r {
                Ok(cfg) => config_error(config.bank_bits@, config.row_bits@, config.col_bits@).is_none()
                    && cfg.describes(config.bank_bits@, config.row_bits@, config.col_bits@),
                Err(e) => config_error(config.bank_bits@, config.row_bits@, config.col_bits@) == Some(e),
            },
    {
        config_from_bitdefs(&config.bank_bits, &config.row_bits, &config.col_bits)
    }
}

} // verus!
