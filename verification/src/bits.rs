//! Bit vectors over GF(2): single bits, parity, and the products of bit
//! matrices whose rows are machine words.
use vstd::prelude::*;

verus! {

/// Whether bit `k` of `x` is set.
pub open spec fn bit(x: u64, k: nat) -> bool {
    k < 64 && (x >> (k as u64)) & 1 == 1
}

/// The number of set bits among the lowest `n` bits of `x`.
pub open spec fn ones(x: u64, n: nat) -> nat
    decreases n,
{
    if n == 0 {
        0
    } else {
        ones(x, (n - 1) as nat) + if bit(x, (n - 1) as nat) { 1nat } else { 0nat }
    }
}

/// Whether `x` has an odd number of set bits.
pub open spec fn parity(x: u64) -> bool {
    ones(x, 64) % 2 == 1
}

/// The inner product of two bit vectors over GF(2).
pub open spec fn dot(a: u64, b: u64) -> bool {
    parity(a & b)
}

/// `u64::count_ones` returns the number of bits that are set in the binary
/// representation of its argument.
pub assume_specification[ u64::count_ones ](x: u64) -> (r: u32)
    ensures
        r == ones(x, 64),
;

/// The inner product over GF(2) as a number: 1 where it is odd, else 0.
pub fn dot_bit(a: u64, b: u64) -> (r: u64)
    ensures
        r == (if dot(a, b) { 1u64 } else { 0u64 }),
{
    let c: u32 = (a & b).count_ones();
    assert(c & 1 == c % 2) by (bit_vector);
    (c & 1) as u64
}

/// A shifted and masked bit is 0 or 1.
pub proof fn lemma_bit_test(x: u64, k: u64)
    requires
        k < 64,
    ensures
        (x >> k) & 1 == 1 <==> bit(x, k as nat),
        (x >> k) & 1 == 0 <==> !bit(x, k as nat),
{
    assert((x >> k) & 1 == 0 || (x >> k) & 1 == 1) by (bit_vector);
}

pub proof fn lemma_bit_xor(a: u64, b: u64, k: nat)
    ensures
        bit(a ^ b, k) == (bit(a, k) != bit(b, k)),
{
    if k < 64 {
        let s = k as u64;
        assert((((a ^ b) >> s) & 1 == 1) <==> (((a >> s) & 1 == 1) != ((b >> s) & 1 == 1))) by (bit_vector);
    }
}

pub proof fn lemma_bit_and(a: u64, b: u64, k: nat)
    ensures
        bit(a & b, k) == (bit(a, k) && bit(b, k)),
{
    if k < 64 {
        let s = k as u64;
        assert((((a & b) >> s) & 1 == 1) <==> (((a >> s) & 1 == 1) && ((b >> s) & 1 == 1))) by (bit_vector);
    }
}

/// Bit `k` of the word with the single bit `j` set.
pub proof fn lemma_bit_unit(j: nat, k: nat)
    requires
        j < 64,
    ensures
        bit(1u64 << (j as u64), k) == (k == j),
{
    if k < 64 {
        let s = k as u64;
        let t = j as u64;
        assert(t < 64 && s < 64 ==> (((1u64 << t) >> s) & 1 == 1 <==> s == t)) by (bit_vector);
    }
}

pub proof fn lemma_bit_zero(k: nat)
    ensures
        !bit(0, k),
{
    if k < 64 {
        let s = k as u64;
        assert((0u64 >> s) & 1 == 0) by (bit_vector);
    }
}

/// A word below `2^m` has no bit set at or above `m`.
pub proof fn lemma_bit_above(x: u64, m: nat, k: nat)
    requires
        m <= k,
        m < 64,
        x < (1u64 << (m as u64)),
    ensures
        !bit(x, k),
{
    if k < 64 {
        let s = k as u64;
        let t = m as u64;
        assert(t <= s && s < 64 && x < (1u64 << t) ==> (x >> s) & 1 == 0) by (bit_vector);
    }
}

proof fn lemma_ones_xor(a: u64, b: u64, n: nat)
    ensures
        ones(a ^ b, n) % 2 == (ones(a, n) + ones(b, n)) % 2,
    decreases n,
{
    if n > 0 {
        lemma_ones_xor(a, b, (n - 1) as nat);
        lemma_bit_xor(a, b, (n - 1) as nat);
    }
}

/// Parity is linear: the parity of an exclusive or is the exclusive or of the parities.
pub proof fn lemma_parity_xor(a: u64, b: u64)
    ensures
        parity(a ^ b) == (parity(a) != parity(b)),
{
    lemma_ones_xor(a, b, 64);
}

/// The inner product is linear in its first argument.
pub proof fn lemma_dot_xor(a: u64, b: u64, x: u64)
    ensures
        dot(a ^ b, x) == (dot(a, x) != dot(b, x)),
{
    assert((a ^ b) & x == (a & x) ^ (b & x)) by (bit_vector);
    lemma_parity_xor(a & x, b & x);
}

proof fn lemma_ones_zero(n: nat)
    ensures
        ones(0, n) == 0,
    decreases n,
{
    if n > 0 {
        lemma_ones_zero((n - 1) as nat);
        lemma_bit_zero((n - 1) as nat);
    }
}

pub proof fn lemma_dot_zero(x: u64)
    ensures
        !dot(0, x),
{
    assert(0u64 & x == 0) by (bit_vector);
    lemma_ones_zero(64);
}

proof fn lemma_ones_single(v: u64, x: u64, j: nat, n: nat)
    requires
        j < 64,
        v == (1u64 << (j as u64)) & x,
    ensures
        ones(v, n) == (if j < n && bit(x, j) { 1nat } else { 0nat }),
    decreases n,
{
    if n > 0 {
        lemma_ones_single(v, x, j, (n - 1) as nat);
        lemma_bit_and(1u64 << (j as u64), x, (n - 1) as nat);
        lemma_bit_unit(j, (n - 1) as nat);
    }
}

/// The inner product with a unit vector picks one bit.
pub proof fn lemma_dot_unit(j: nat, x: u64)
    requires
        j < 64,
    ensures
        dot(1u64 << (j as u64), x) == bit(x, j),
{
    lemma_ones_single((1u64 << (j as u64)) & x, x, j, 64);
}

/// Bits that are clear do not count.
pub proof fn lemma_ones_clear_above(v: u64, m: nat, n: nat)
    requires
        m <= n,
        forall|k: nat| m <= k < n ==> !bit(v, k),
    ensures
        ones(v, n) == ones(v, m),
    decreases n,
{
    if n > m {
        lemma_ones_clear_above(v, m, (n - 1) as nat);
    }
}

/// The lowest `n` bits of `x`.
pub open spec fn low(x: u64, n: nat) -> u64
    recommends
        n < 64,
{
    x & (((1u64 << (n as u64)) - 1) as u64)
}

proof fn lemma_low_agree(a: u64, b: u64, n: nat)
    requires
        n < 64,
        forall|k: nat| k < n ==> bit(a, k) == bit(b, k),
    ensures
        low(a, n) == low(b, n),
    decreases n,
{
    if n == 0 {
        assert(a & (((1u64 << 0u64) - 1) as u64) == b & (((1u64 << 0u64) - 1) as u64)) by (bit_vector);
    } else {
        let m = (n - 1) as nat;
        lemma_low_agree(a, b, m);
        let s = m as u64;
        let t = n as u64;
        assert(bit(a, m) == bit(b, m));
        let la = a & (((1u64 << s) - 1) as u64);
        let lb = b & (((1u64 << s) - 1) as u64);
        assert(a & (((1u64 << t) - 1) as u64) == b & (((1u64 << t) - 1) as u64)) by (bit_vector)
            requires
                s < 63,
                t == s + 1,
                la == a & (((1u64 << s) - 1) as u64),
                lb == b & (((1u64 << s) - 1) as u64),
                la == lb,
                ((a >> s) & 1 == 1) == ((b >> s) & 1 == 1),
        ;
    }
}

/// Two words below `2^n` with the same lowest `n` bits are equal.
pub proof fn lemma_bits_equal(a: u64, b: u64, n: nat)
    requires
        n < 64,
        a < (1u64 << (n as u64)),
        b < (1u64 << (n as u64)),
        forall|k: nat| k < n ==> bit(a, k) == bit(b, k),
    ensures
        a == b,
{
    lemma_low_agree(a, b, n);
    let t = n as u64;
    assert(t < 64 && a < (1u64 << t) && b < (1u64 << t) ==> a & (((1u64 << t) - 1) as u64) == a && b & (((1u64
        << t) - 1) as u64) == b) by (bit_vector);
}

/// Bit `k` of the lowest `n` bits.
pub proof fn lemma_bit_low(x: u64, n: nat, k: nat)
    requires
        n < 64,
    ensures
        bit(low(x, n), k) == (k < n && bit(x, k)),
        low(x, n) < (1u64 << (n as u64)),
{
    let t = n as u64;
    let s = if k < 64 { k as u64 } else { 0u64 };
    assert(t < 64 && s < 64 ==> x & (((1u64 << t) - 1) as u64) < (1u64 << t) && (((x & (((1u64 << t) - 1) as u64))
        >> s) & 1 == 1 <==> (s < t && (x >> s) & 1 == 1))) by (bit_vector);
}


/// Rearrangements of an exclusive or of three words, with and without zero.
pub proof fn lemma_xor_shuffle(p: u64, q: u64, r: u64)
    ensures
        0u64 ^ 0u64 == 0u64,
        p ^ 0u64 == p,
        0u64 ^ p == p,
        (p ^ q) ^ q == p,
        (p ^ 0u64) ^ 0u64 == p,
        (p ^ q) ^ r == (p ^ r) ^ (q ^ 0u64),
        (p ^ q) ^ r == (p ^ 0u64) ^ (q ^ r),
        (p ^ q) ^ 0u64 == (p ^ r) ^ (q ^ r),
        (p ^ q) ^ 0u64 == (p ^ 0u64) ^ (q ^ 0u64),
        (p ^ r) ^ q == (p ^ q) ^ r,
        (p ^ r) ^ 0u64 == (p ^ 0u64) ^ r,
        (p ^ 0u64) ^ q == (p ^ q) ^ 0u64,
{
    assert(0u64 ^ 0u64 == 0u64 && p ^ 0u64 == p && 0u64 ^ p == p && (p ^ q) ^ q == p && (p ^ 0u64) ^ 0u64 == p && (
    p ^ q) ^ r == (p ^ r) ^ (q ^ 0u64) && (p ^ q) ^ r == (p ^ 0u64) ^ (q ^ r) && (p ^ q) ^ 0u64 == (p ^ r) ^ (q
        ^ r) && (p ^ q) ^ 0u64 == (p ^ 0u64) ^ (q ^ 0u64) && (p ^ r) ^ q == (p ^ q) ^ r && (p ^ r) ^ 0u64 == (p
        ^ 0u64) ^ r && (p ^ 0u64) ^ q == (p ^ q) ^ 0u64) by (bit_vector);
}

/// Bounds of words of 30 bits: their exclusive or, their unit words, and
/// their lowest 30 bits.
pub proof fn lemma_thirty_bits(a: u64, b: u64, sh: u64)
    ensures
        (1u64 << 30u64) == 0x4000_0000u64,
        a <= 0x3fff_ffffu64 && b <= 0x3fff_ffffu64 ==> a ^ b <= 0x3fff_ffffu64,
        sh < 30 ==> (1u64 << sh) <= 0x3fff_ffffu64,
        a <= 0x3fff_ffffu64 ==> a & (((1u64 << 30u64) - 1) as u64) == a,
        a & (((1u64 << 30u64) - 1) as u64) == a & 0x3fff_ffffu64,
{
    assert((1u64 << 30u64) == 0x4000_0000u64 && (a <= 0x3fff_ffffu64 && b <= 0x3fff_ffffu64 ==> a ^ b
        <= 0x3fff_ffffu64) && (sh < 30 ==> (1u64 << sh) <= 0x3fff_ffffu64) && (a <= 0x3fff_ffffu64 ==> a & (((1u64
        << 30u64) - 1) as u64) == a) && a & (((1u64 << 30u64) - 1) as u64) == a & 0x3fff_ffffu64) by (bit_vector);
}

/// The bitwise and of two words does not depend on their order.
pub proof fn lemma_and_swap(a: u64, x: u64, y: u64)
    ensures
        a & (x ^ y) == (x ^ y) & a,
        a & x == x & a,
        a & y == y & a,
        a & 0u64 == 0u64 & a,
{
    assert(a & (x ^ y) == (x ^ y) & a && a & x == x & a && a & y == y & a && a & 0u64 == 0u64 & a) by (bit_vector);
}

} // verus!
