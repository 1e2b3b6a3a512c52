//! DRAM coordinates, decoded from addresses and encoded into them.
use vstd::prelude::*;
use crate::bits::{dot_bit, low};
use crate::gf2::{WIDTH, VEC_MASK, apply, apply_rows, is_vec, lemma_apply_bits, lemma_left_inverse_apply};
use crate::mem_configuration::{MTX_SIZE, MemConfiguration, rows_of};

verus! {

/// DRAM address with bank, row, and column components.
#[derive(Debug, Clone, Copy, PartialEq, Eq, Structural, PartialOrd, Ord, Hash)]
pub struct DRAMAddr {
    /// Bank number.
    pub bank: usize,
    /// Row number.
    pub row: usize,
    /// Column number.
    pub col: usize,
}

/// The product of a matrix, given as an array of machine words, with a vector.
pub fn transform(m: &[usize; MTX_SIZE], x: u64) -> (r: u64)
    ensures
        r == apply(rows_of(*m), x),
        is_vec(r),
{
    let mut res: u64 = 0;
    let mut i: usize = 0;
    while i < MTX_SIZE
        invariant
            i <= MTX_SIZE,
            res == apply_rows(rows_of(*m), x, i as nat),
        decreases MTX_SIZE - i,
    {
        let b: u64 = dot_bit(m[i] as u64, x);
        res = (res << 1) | b;
        i += 1;
    }
    proof {
        lemma_apply_bits(rows_of(*m), x);
    }
    res
}

/// The field of the linearized DRAM bits `lin` that `shift` and `mask` select.
pub open spec fn field(lin: u64, shift: usize, mask: usize) -> usize {
    ((lin >> (shift as u64)) & (mask as u64)) as usize
}

/// The DRAM coordinate of the address `addr`: each linearized DRAM bit is the
/// parity of the address bits that one row of the addressing matrix selects.
pub open spec fn spec_from_virt(addr: usize, cfg: MemConfiguration) -> DRAMAddr {
    let lin = apply(cfg.dram_rows(), addr as u64);
    DRAMAddr {
        bank: field(lin, cfg.bk_shift, cfg.bk_mask),
        row: field(lin, cfg.row_shift, cfg.row_mask),
        col: field(lin, cfg.col_shift, cfg.col_mask),
    }
}

/// The linearized DRAM bits of a coordinate, as a 64-bit word.
pub open spec fn spec_linearize(a: DRAMAddr, cfg: MemConfiguration) -> u64 {
    ((a.bank as u64) << (cfg.bk_shift as u64)) | ((a.row as u64) << (cfg.row_shift as u64)) | ((a.col as u64) << (
    cfg.col_shift as u64))
}

/// The part of a 64-bit word that a machine word holds.
pub open spec fn word_part(x: u64) -> usize {
    (x & (usize::MAX as u64)) as usize
}

/// The address of a coordinate: the reconstruction matrix applied to the
/// linearized DRAM bits, below the high bits of `base_msb`.
pub open spec fn spec_to_virt(a: DRAMAddr, base_msb: usize, cfg: MemConfiguration) -> usize {
    let lin = word_part(spec_linearize(a, cfg));
    (((base_msb as u64) & !VEC_MASK) | apply(cfg.addr_rows(), lin as u64)) as usize
}

fn take_field(lin: u64, shift: usize, mask: usize) -> (r: usize)
    requires
        shift < 64,
    ensures
        r == field(lin, shift, mask),
        r <= mask,
{
    let s: u64 = shift as u64;
    let m: u64 = mask as u64;
    assert(((lin >> s) & m) <= m) by (bit_vector);
    ((lin >> s) & m) as usize
}

fn to_word(x: u64) -> (r: usize)
    ensures
        r == word_part(x),
{
    let m: u64 = usize::MAX as u64;
    assert((x & m) <= m) by (bit_vector);
    (x & m) as usize
}

impl DRAMAddr {
    /// Creates a new DRAM address.
    pub fn new(bank: usize, row: usize, col: usize) -> (r: Self)
        ensures
            r == (DRAMAddr { bank, row, col }),
    {
        DRAMAddr { bank, row, col }
    }

    /// Decodes an address into DRAM components.
    pub fn from_virt(addr: usize, mem_config: &MemConfiguration) -> (r: DRAMAddr)
        requires
            mem_config.shifts_ok(),
        ensures
            r == spec_from_virt(addr, *mem_config),
            r.in_range(*mem_config),
    {
        let lin = transform(&mem_config.dram_mtx, addr as u64);
        DRAMAddr {
            bank: take_field(lin, mem_config.bk_shift, mem_config.bk_mask),
            row: take_field(lin, mem_config.row_shift, mem_config.row_mask),
            col: take_field(lin, mem_config.col_shift, mem_config.col_mask),
        }
    }

    /// Linearizes the DRAM address components into a single value.
    pub fn linearize(&self, mem_config: MemConfiguration) -> (r: usize)
        requires
            mem_config.shifts_ok(),
        ensures
            r == word_part(spec_linearize(*self, mem_config)),
    {
        let b: u64 = (self.bank as u64) << (mem_config.bk_shift as u64);
        let r: u64 = (self.row as u64) << (mem_config.row_shift as u64);
        let c: u64 = (self.col as u64) << (mem_config.col_shift as u64);
        to_word(b | r | c)
    }

    /// Converts the DRAM address back to an address, taking the bits above the
    /// matrix from `base_msb`.
    pub fn to_virt(&self, base_msb: usize, mem_config: MemConfiguration) -> (r: usize)
        requires
            mem_config.shifts_ok(),
        ensures
            r == spec_to_virt(*self, base_msb, mem_config),
    {
        let l = self.linearize(mem_config);
        let res = transform(&mem_config.addr_mtx, l as u64);
        let base: u64 = base_msb as u64;
        let m: u64 = usize::MAX as u64;
        assert(res <= 0x3fff_ffffu64 && base <= m && (m == 0xffff_ffffu64 || m == 0xffff_ffff_ffff_ffffu64) ==> ((base
            & !0x3fff_ffffu64) | res) <= m) by (bit_vector);
        ((base & !VEC_MASK) | res) as usize
    }

    /// Adds offsets to each DRAM address component.
    pub fn add(&self, bank: usize, row: usize, col: usize) -> (r: DRAMAddr)
        requires
            self.bank + bank <= usize::MAX,
            self.row + row <= usize::MAX,
            self.col + col <= usize::MAX,
        ensures
            r.bank == self.bank + bank,
            r.row == self.row + row,
            r.col == self.col + col,
    {
        DRAMAddr { bank: self.bank + bank, row: self.row + row, col: self.col + col }
    }

    /// Subtracts offsets from each DRAM address component.
    pub fn sub(&self, bank: usize, row: usize, col: usize) -> (r: DRAMAddr)
        requires
            self.bank >= bank,
            self.row >= row,
            self.col >= col,
        ensures
            r.bank == self.bank - bank,
            r.row == self.row - row,
            r.col == self.col - col,
    {
        DRAMAddr { bank: self.bank - bank, row: self.row - row, col: self.col - col }
    }

    /// Whether each component lies within its mask.
    pub open spec fn in_range(self, cfg: MemConfiguration) -> bool {
        &&& self.bank <= cfg.bk_mask
        &&& self.row <= cfg.row_mask
        &&& self.col <= cfg.col_mask
    }
}

impl Default for DRAMAddr {
    fn default() -> (r: Self)
        ensures
            r == (DRAMAddr { bank: 0, row: 0, col: 0 }),
    {
        DRAMAddr { bank: 0, row: 0, col: 0 }
    }
}

/// In a consistent configuration the three fields of the linearized DRAM bits
/// put together give the bits back.
pub proof fn lemma_fields_partition(lin: u64, cfg: MemConfiguration)
    requires
        cfg.wf(),
        is_vec(lin),
    ensures
        spec_linearize(
            DRAMAddr {
                bank: field(lin, cfg.bk_shift, cfg.bk_mask),
                row: field(lin, cfg.row_shift, cfg.row_mask),
                col: field(lin, cfg.col_shift, cfg.col_mask),
            },
            cfg,
        ) == lin,
{
    let bs = cfg.bk_shift as u64;
    let cs = cfg.col_shift as u64;
    let bm = cfg.bk_mask as u64;
    let cm = cfg.col_mask as u64;
    let rm = cfg.row_mask as u64;
    let nb = (30 - bs) as u64;
    let nc = (bs - cs) as u64;
    let fb = (lin >> bs) & bm;
    let fr = (lin >> 0u64) & rm;
    let fc = (lin >> cs) & cm;
    assert((fb << bs) | (fr << 0u64) | (fc << cs) == lin && fb <= bm && fr <= rm && fc <= cm) by (bit_vector)
        requires
            lin <= 0x3fff_ffffu64,
            cs <= bs,
            bs <= 30,
            nb == 30 - bs,
            nc == bs - cs,
            bm == ((1u64 << nb) - 1) as u64,
            cm == ((1u64 << nc) - 1) as u64,
            rm == ((1u64 << cs) - 1) as u64,
            fb == (lin >> bs) & bm,
            fr == (lin >> 0u64) & rm,
            fc == (lin >> cs) & cm,
    ;
}

/// Decoding an address and reconstructing it gives the address back in the
/// bits that the matrix covers; the bits above come from the base.
pub proof fn lemma_to_virt_from_virt(addr: usize, base_msb: usize, cfg: MemConfiguration)
    requires
        cfg.wf(),
    ensures
        spec_to_virt(spec_from_virt(addr, cfg), base_msb, cfg) as u64 == ((base_msb as u64) & !VEC_MASK) | ((
        addr as u64) & VEC_MASK),
        spec_to_virt(spec_from_virt(addr, cfg), addr, cfg) == addr,
{
    let x = addr as u64;
    let lin = apply(cfg.dram_rows(), x);
    lemma_apply_bits(cfg.dram_rows(), x);
    lemma_fields_partition(lin, cfg);
    let a = spec_from_virt(addr, cfg);
    assert(spec_linearize(a, cfg) == lin);
    let m = usize::MAX as u64;
    let b = base_msb as u64;
    assert(lin & m == lin && x & (((1u64 << 30u64) - 1) as u64) == x & 0x3fff_ffffu64 && ((b & !0x3fff_ffffu64) | (
    x & 0x3fff_ffffu64)) <= m && ((x & !0x3fff_ffffu64) | (x & 0x3fff_ffffu64)) == x) by (bit_vector)
        requires
            lin <= 0x3fff_ffffu64,
            b <= m,
            x <= m,
            m == 0xffff_ffffu64 || m == 0xffff_ffff_ffff_ffffu64,
    ;
    lemma_left_inverse_apply(cfg.addr_rows(), cfg.dram_rows(), x);
    let back = apply(cfg.addr_rows(), lin);
    assert(back == low(x, WIDTH as nat));
}


/// A matrix sees the bits of a vector only: the bits of its argument above
/// them do not count.
proof fn lemma_apply_low(m: Seq<u64>, x: u64, n: nat)
    requires
        n <= WIDTH,
        crate::gf2::is_matrix(m),
    ensures
        apply_rows(m, x, n) == apply_rows(m, x & VEC_MASK, n),
    decreases n,
{
    if n > 0 {
        lemma_apply_low(m, x, (n - 1) as nat);
        let row = m[n - 1];
        assert(is_vec(row));
        assert(row & x == row & (x & 0x3fff_ffffu64)) by (bit_vector)
            requires
                row <= 0x3fff_ffffu64,
        ;
    }
}

/// In a consistent configuration the fields of the linearized bits of a
/// coordinate within its masks are the components of the coordinate.
proof fn lemma_fields_of_parts(a: DRAMAddr, cfg: MemConfiguration)
    requires
        cfg.wf(),
        a.in_range(cfg),
    ensures
        is_vec(spec_linearize(a, cfg)),
        field(spec_linearize(a, cfg), cfg.bk_shift, cfg.bk_mask) == a.bank,
        field(spec_linearize(a, cfg), cfg.row_shift, cfg.row_mask) == a.row,
        field(spec_linearize(a, cfg), cfg.col_shift, cfg.col_mask) == a.col,
{
    let bs = cfg.bk_shift as u64;
    let cs = cfg.col_shift as u64;
    let bm = cfg.bk_mask as u64;
    let cm = cfg.col_mask as u64;
    let rm = cfg.row_mask as u64;
    let nb = (30 - bs) as u64;
    let nc = (bs - cs) as u64;
    let b = a.bank as u64;
    let r = a.row as u64;
    let c = a.col as u64;
    let lin = (b << bs) | (r << 0u64) | (c << cs);
    assert(lin <= 0x3fff_ffffu64 && (lin >> bs) & bm == b && (lin >> 0u64) & rm == r && (lin >> cs) & cm == c)
        by (bit_vector)
        requires
            cs <= bs,
            bs <= 30,
            nb == 30 - bs,
            nc == bs - cs,
            bm == ((1u64 << nb) - 1) as u64,
            cm == ((1u64 << nc) - 1) as u64,
            rm == ((1u64 << cs) - 1) as u64,
            b <= bm,
            r <= rm,
            c <= cm,
            lin == (b << bs) | (r << 0u64) | (c << cs),
    ;
}

/// Reconstructing the address of a coordinate and decoding it gives the
/// coordinate back, whatever the base, for every coordinate whose components
/// lie within their masks.
pub proof fn lemma_from_virt_to_virt(a: DRAMAddr, base_msb: usize, cfg: MemConfiguration)
    requires
        cfg.wf(),
        a.in_range(cfg),
    ensures
        spec_from_virt(spec_to_virt(a, base_msb, cfg), cfg) == a,
{
    let lin = spec_linearize(a, cfg);
    lemma_fields_of_parts(a, cfg);
    let m = usize::MAX as u64;
    let b = base_msb as u64;
    let v = apply(cfg.addr_rows(), lin);
    lemma_apply_bits(cfg.addr_rows(), lin);
    let addr = (b & !0x3fff_ffffu64) | v;
    assert(lin & m == lin && addr <= m && addr & 0x3fff_ffffu64 == v && lin & (((1u64 << 30u64) - 1) as u64) == lin)
        by (bit_vector)
        requires
            lin <= 0x3fff_ffffu64,
            v <= 0x3fff_ffffu64,
            b <= m,
            addr == (b & !0x3fff_ffffu64) | v,
            m == 0xffff_ffffu64 || m == 0xffff_ffff_ffff_ffffu64,
    ;
    assert(spec_to_virt(a, base_msb, cfg) as u64 == addr);
    lemma_apply_low(cfg.dram_rows(), addr, WIDTH as nat);
    lemma_left_inverse_apply(cfg.dram_rows(), cfg.addr_rows(), lin);
    assert(apply(cfg.dram_rows(), addr) == lin);
}

} // verus!
