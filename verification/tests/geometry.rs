use swage::bit_def::{BitDef, BlacksmithConfig};
use swage::dram_addr::DRAMAddr;
use swage::gf2::{identity, invert};
use swage::mem_configuration::{ConfigError, FromBitDefs, FromBlacksmithConfig, MemConfiguration};

fn reference_config() -> BlacksmithConfig {
    BlacksmithConfig {
        threshold: 300,
        row_bits: (18..30).rev().map(BitDef::Single).collect(),
        col_bits: (0..13).rev().map(BitDef::Single).collect(),
        bank_bits: vec![
            BitDef::Multi(vec![6, 13]),
            BitDef::Multi(vec![14, 18]),
            BitDef::Multi(vec![15, 19]),
            BitDef::Multi(vec![16, 20]),
            BitDef::Multi(vec![17, 21]),
        ],
    }
}

fn reference_mem_config() -> MemConfiguration {
    let config = reference_config();
    MemConfiguration::from_bitdefs(config.bank_bits, config.row_bits, config.col_bits)
        .expect("reference configuration")
}

#[test]
fn test_bank_function_period() {
    let mem_config = reference_mem_config();
    assert_eq!(mem_config.bank_function_period(), 512);
}

#[test]
fn bank_and_row_counts() {
    let mem_config = reference_mem_config();
    assert_eq!(mem_config.get_bank_count(), 32);
    assert_eq!(mem_config.get_row_count(), 4096);
    assert_eq!(mem_config.max_bank_bit, 21);
    assert_eq!(mem_config.bk_shift, 25);
    assert_eq!(mem_config.bk_mask, 0b11111);
    assert_eq!(mem_config.col_shift, 12);
    assert_eq!(mem_config.col_mask, 0x1fff);
    assert_eq!(mem_config.row_shift, 0);
    assert_eq!(mem_config.row_mask, 0xfff);
}

#[test]
fn from_blacksmith_equals_from_bitdefs() {
    let config = reference_config();
    let a = MemConfiguration::from_blacksmith(&config).unwrap();
    let b = reference_mem_config();
    assert_eq!(a, b);
}

#[test]
fn bitdef_masks() {
    assert_eq!(BitDef::Single(0).to_bitstr(), 1);
    assert_eq!(BitDef::Single(13).to_bitstr(), 1 << 13);
    assert_eq!(BitDef::Multi(vec![6, 13]).to_bitstr(), (1 << 6) | (1 << 13));
    assert_eq!(BitDef::Multi(vec![]).to_bitstr(), 0);
    assert_eq!(BitDef::Multi(vec![3, 3]).to_bitstr(), 8);
    assert_eq!(BitDef::Single(29).checked_mask(30), Some(1 << 29));
    assert_eq!(BitDef::Single(30).checked_mask(30), None);
    assert_eq!(BitDef::Multi(vec![1, 40]).checked_mask(30), None);
    assert_eq!(BitDef::Multi(vec![4, 9, 2]).max_bit(), Some(9));
    assert_eq!(BitDef::Multi(vec![]).max_bit(), None);
    assert_eq!(BitDef::Single(7).max_bit(), Some(7));
}

#[test]
fn forward_decodes_reference_addresses() {
    let mem_config = reference_mem_config();
    // Bit 6 feeds the first bank function, the highest bank bit, and column bit 6.
    let a = DRAMAddr::from_virt(1 << 6, &mem_config);
    assert_eq!(a, DRAMAddr::new(0b10000, 0, 1 << 6));
    // Bit 13 feeds the first bank function only.
    let b = DRAMAddr::from_virt(1 << 13, &mem_config);
    assert_eq!(b, DRAMAddr::new(0b10000, 0, 0));
    // Bit 18 is the lowest row bit and feeds the second bank function.
    let c = DRAMAddr::from_virt(1 << 18, &mem_config);
    assert_eq!(c, DRAMAddr::new(0b01000, 1, 0));
    // Bits 6 and 13 together cancel in the bank function.
    let d = DRAMAddr::from_virt((1 << 6) | (1 << 13), &mem_config);
    assert_eq!(d, DRAMAddr::new(0, 0, 1 << 6));
    assert_eq!(DRAMAddr::from_virt(0, &mem_config), DRAMAddr::default());
}

#[test]
fn linearize_puts_fields_together() {
    let mem_config = reference_mem_config();
    let a = DRAMAddr::new(3, 5, 7);
    assert_eq!(a.linearize(mem_config), (3 << 25) | 5 | (7 << 12));
}

#[test]
fn inverse_of_forward_is_identity() {
    let mem_config = reference_mem_config();
    let mut x: usize = 0x1234_5678;
    for _ in 0..2000 {
        x = x.wrapping_mul(6364136223846793005).wrapping_add(1442695040888963407);
        let addr = x & 0x3f_ffff_ffff;
        let dram = DRAMAddr::from_virt(addr, &mem_config);
        assert_eq!(dram.to_virt(addr, mem_config), addr);
        // The bits above the matrix come from the base.
        let base: usize = 0x20_0000_0000;
        assert_eq!(dram.to_virt(base, mem_config), base | (addr & 0x3fff_ffff));
    }
}

#[test]
fn forward_of_inverse_is_identity() {
    let mem_config = reference_mem_config();
    for bank in [0usize, 1, 17, 31] {
        for row in [0usize, 1, 100, 4095] {
            for col in [0usize, 64, 8191] {
                let dram = DRAMAddr::new(bank, row, col);
                let virt = dram.to_virt(0, mem_config);
                assert_eq!(DRAMAddr::from_virt(virt, &mem_config), dram);
            }
        }
    }
}

#[test]
fn dram_addr_offsets() {
    let a = DRAMAddr::new(1, 2, 3);
    assert_eq!(a.add(1, 10, 100), DRAMAddr::new(2, 12, 103));
    assert_eq!(a.sub(1, 2, 3), DRAMAddr::new(0, 0, 0));
}

#[test]
fn wrong_bit_count_is_rejected() {
    let mut config = reference_config();
    config.row_bits.pop();
    assert_eq!(
        MemConfiguration::from_bitdefs(config.bank_bits, config.row_bits, config.col_bits),
        Err(ConfigError::BitCount)
    );
}

#[test]
fn empty_bank_function_is_rejected() {
    let mut config = reference_config();
    config.bank_bits[2] = BitDef::Multi(vec![]);
    assert_eq!(
        MemConfiguration::from_bitdefs(config.bank_bits, config.row_bits, config.col_bits),
        Err(ConfigError::EmptyBankFunction)
    );
    let rows: Vec<BitDef> = (0..30).map(BitDef::Single).collect();
    assert_eq!(
        MemConfiguration::from_bitdefs(vec![], rows, vec![]),
        Err(ConfigError::EmptyBankFunction)
    );
}

#[test]
fn bit_outside_the_window_is_rejected() {
    let mut config = reference_config();
    config.row_bits[0] = BitDef::Single(30);
    assert_eq!(
        MemConfiguration::from_bitdefs(config.bank_bits, config.row_bits, config.col_bits),
        Err(ConfigError::BitOutOfRange)
    );
}

#[test]
fn singular_matrix_is_rejected() {
    let mut config = reference_config();
    // Two equal bank functions make two equal rows.
    config.bank_bits[1] = BitDef::Multi(vec![6, 13]);
    assert_eq!(
        MemConfiguration::from_bitdefs(config.bank_bits, config.row_bits, config.col_bits),
        Err(ConfigError::NotInvertible)
    );
}

#[test]
fn identity_is_its_own_inverse() {
    let id = identity();
    assert_eq!(id.len(), 30);
    assert_eq!(id[0], 1 << 29);
    assert_eq!(id[29], 1);
    assert_eq!(invert(&id), Some(id));
}

#[test]
fn inverse_of_a_shear() {
    // Row 0 is the exclusive or of columns 0 and 1: the matrix is its own inverse.
    let mut m = identity();
    m[0] |= 1 << 28;
    assert_eq!(invert(&m), Some(m.clone()));
    let mut zero_row = identity();
    zero_row[7] = 0;
    assert_eq!(invert(&zero_row), None);
}
