//! Square bit matrices over GF(2), one machine word per row, and their inverses.
//!
//! Row `i` of a matrix holds in bit `WIDTH - 1 - c` the entry of column `c`. A
//! matrix is applied to a bit vector by taking the inner product of each row
//! with the vector; the product of row `i` lands in bit `WIDTH - 1 - i` of the
//! result.
use vstd::prelude::*;
use crate::bits::{bit, lemma_bit_test, lemma_xor_shuffle, lemma_thirty_bits, lemma_and_swap, ones, dot, low, lemma_bit_and, lemma_bit_above, lemma_bit_low, lemma_bit_unit, lemma_bit_xor, lemma_bit_zero, lemma_bits_equal, lemma_dot_xor, lemma_dot_zero, lemma_dot_unit, lemma_ones_clear_above};

verus! {

/// Number of rows and columns of a matrix.
pub const WIDTH: usize = 30;

/// The mask of the bits that a vector has.
pub const VEC_MASK: u64 = 0x3fff_ffff;

/// Whether `x` is a vector of `WIDTH` bits.
pub open spec fn is_vec(x: u64) -> bool {
    x <= VEC_MASK
}

/// Whether `m` is a matrix: `WIDTH` rows of `WIDTH` bits.
pub open spec fn is_matrix(m: Seq<u64>) -> bool {
    &&& m.len() == WIDTH
    &&& forall|i: int| 0 <= i < WIDTH ==> is_vec(#[trigger] m[i])
}

/// The row of the identity matrix with index `i`.
pub open spec fn unit_row(i: int) -> u64
    recommends
        0 <= i < WIDTH,
{
    1u64 << ((WIDTH - 1 - i) as u64)
}

/// The product of the first `n` rows of `m` with `x`: row `i` contributes bit
/// `n - 1 - i`.
pub open spec fn apply_rows(m: Seq<u64>, x: u64, n: nat) -> u64
    decreases n,
{
    if n == 0 {
        0
    } else {
        (apply_rows(m, x, (n - 1) as nat) << 1) | (if dot(m[n - 1], x) { 1u64 } else { 0u64 })
    }
}

/// The product of the matrix `m` with the vector `x`.
pub open spec fn apply(m: Seq<u64>, x: u64) -> u64 {
    apply_rows(m, x, WIDTH as nat)
}

/// The exclusive or of those rows of `d` that `sel` selects among its lowest `n`
/// bits: bit `j` of `sel` selects row `WIDTH - 1 - j`.
pub open spec fn combine(sel: u64, d: Seq<u64>, n: nat) -> u64
    decreases n,
{
    if n == 0 {
        0
    } else {
        combine(sel, d, (n - 1) as nat) ^ (if bit(sel, (n - 1) as nat) { d[WIDTH - n] } else { 0u64 })
    }
}

/// Whether `a` times `d` is the identity matrix.
pub open spec fn is_left_inverse(a: Seq<u64>, d: Seq<u64>) -> bool {
    &&& is_matrix(a)
    &&& is_matrix(d)
    &&& forall|i: int| 0 <= i < WIDTH ==> #[trigger] combine(a[i], d, WIDTH as nat) == unit_row(i)
}

/// Whether some matrix times `d` is the identity matrix.
pub open spec fn invertible(d: Seq<u64>) -> bool {
    exists|a: Seq<u64>| is_left_inverse(a, d)
}

proof fn lemma_apply_rows_bits(m: Seq<u64>, x: u64, n: nat)
    requires
        n <= WIDTH,
    ensures
        apply_rows(m, x, n) < (1u64 << (n as u64)),
        forall|j: nat| j < n ==> bit(apply_rows(m, x, n), j) == dot(m[n - 1 - j], x),
    decreases n,
{
    if n == 0 {
        assert(0u64 < (1u64 << 0u64)) by (bit_vector);
    } else {
        let p = apply_rows(m, x, (n - 1) as nat);
        lemma_apply_rows_bits(m, x, (n - 1) as nat);
        let b = if dot(m[n - 1], x) { 1u64 } else { 0u64 };
        let r = (p << 1) | b;
        let t = (n - 1) as u64;
        assert(t < 30 && p < (1u64 << t) && (b == 0 || b == 1) ==> ((p << 1) | b) < (1u64 << ((t + 1) as u64))
            && p < (1u64 << 30u64) && ((((p << 1) | b) >> 0u64) & 1 == 1 <==> b == 1)) by (bit_vector);
        assert forall|j: nat| j < n implies bit(r, j) == dot(m[n - 1 - j], x) by {
            let s = j as u64;
            if j > 0 {
                let s1 = (j - 1) as u64;
                assert(p < (1u64 << 30u64) && (b == 0 || b == 1) && 1 <= s && s < 64 && s1 == s - 1 ==> ((((p << 1)
                    | b) >> s) & 1 == (p >> s1) & 1)) by (bit_vector);
                assert(bit(p, (j - 1) as nat) == dot(m[(n - 1) - 1 - (j - 1)], x));
            }
        }
    }
}

/// The bits of a product are the inner products of the rows.
pub proof fn lemma_apply_bits(m: Seq<u64>, x: u64)
    ensures
        is_vec(apply(m, x)),
        forall|j: nat| j < WIDTH ==> bit(apply(m, x), j) == dot(m[WIDTH - 1 - j], x),
{
    lemma_apply_rows_bits(m, x, WIDTH as nat);
    lemma_thirty_bits(0, 0, 0);
}

proof fn lemma_dot_combine(sel: u64, d: Seq<u64>, x: u64, y: u64, n: nat)
    requires
        n <= WIDTH,
        forall|j: nat| j < WIDTH ==> bit(y, j) == dot(d[WIDTH - 1 - j], x),
    ensures
        (ones(sel & y, n) % 2 == 1) == dot(combine(sel, d, n), x),
    decreases n,
{
    if n == 0 {
        lemma_dot_zero(x);
    } else {
        let m = (n - 1) as nat;
        lemma_dot_combine(sel, d, x, y, m);
        lemma_bit_and(sel, y, m);
        let row = if bit(sel, m) { d[WIDTH - n] } else { 0u64 };
        lemma_dot_xor(combine(sel, d, m), row, x);
        lemma_dot_zero(x);
        assert(bit(y, m) == dot(d[WIDTH - 1 - m], x));
    }
}

/// The inner product of a vector with a product is the inner product of the
/// selected rows' exclusive or with the argument.
pub proof fn lemma_dot_apply(sel: u64, d: Seq<u64>, x: u64)
    ensures
        dot(sel, apply(d, x)) == dot(combine(sel, d, WIDTH as nat), x),
{
    let y = apply(d, x);
    lemma_apply_bits(d, x);
    lemma_dot_combine(sel, d, x, y, WIDTH as nat);
    assert forall|k: nat| WIDTH <= k < 64 implies !bit(sel & y, k) by {
        lemma_bit_and(sel, y, k);
        lemma_thirty_bits(0, 0, 0);
        lemma_bit_above(y, 30, k);
    }
    lemma_ones_clear_above(sel & y, WIDTH as nat, 64);
}

/// Applying a matrix and then a left inverse of it gives the vector back.
pub proof fn lemma_left_inverse_apply(a: Seq<u64>, d: Seq<u64>, x: u64)
    requires
        is_left_inverse(a, d),
    ensures
        apply(a, apply(d, x)) == low(x, WIDTH as nat),
{
    let y = apply(d, x);
    let z = apply(a, y);
    lemma_apply_bits(a, y);
    let w = low(x, WIDTH as nat);
    lemma_thirty_bits(0, 0, 0);
    assert forall|k: nat| k < WIDTH implies bit(z, k) == bit(w, k) by {
        let i = WIDTH - 1 - k;
        assert(bit(z, k) == dot(a[i], y));
        lemma_dot_apply(a[i], d, x);
        assert(combine(a[i], d, WIDTH as nat) == unit_row(i));
        lemma_dot_unit(k, x);
        lemma_bit_low(x, WIDTH as nat, k);
    }
    lemma_bit_low(x, WIDTH as nat, 0);
    lemma_bits_equal(z, w, WIDTH as nat);
}


proof fn lemma_combine_xor(a: u64, b: u64, d: Seq<u64>, n: nat)
    requires
        n <= WIDTH,
    ensures
        combine(a ^ b, d, n) == combine(a, d, n) ^ combine(b, d, n),
    decreases n,
{
    if n == 0 {
        lemma_xor_shuffle(0, 0, 0);
    } else {
        let m = (n - 1) as nat;
        lemma_combine_xor(a, b, d, m);
        lemma_bit_xor(a, b, m);
        let p = combine(a, d, m);
        let q = combine(b, d, m);
        let r = d[WIDTH - n];
        lemma_xor_shuffle(p, q, r);
    }
}

proof fn lemma_combine_unit_rows(j: nat, d: Seq<u64>, n: nat)
    requires
        j < WIDTH,
        n <= WIDTH,
    ensures
        combine(1u64 << (j as u64), d, n) == (if j < n { d[WIDTH - 1 - j] } else { 0u64 }),
    decreases n,
{
    if n > 0 {
        let m = (n - 1) as nat;
        lemma_combine_unit_rows(j, d, m);
        lemma_bit_unit(j, m);
        let r = d[WIDTH - n];
        lemma_xor_shuffle(r, 0, 0);
        let q = d[WIDTH - 1 - j];
        lemma_xor_shuffle(q, 0, 0);
    }
}

/// A unit row selects one row of the matrix.
proof fn lemma_combine_unit(i: int, d: Seq<u64>)
    requires
        0 <= i < WIDTH,
    ensures
        combine(unit_row(i), d, WIDTH as nat) == d[i],
{
    lemma_combine_unit_rows((WIDTH - 1 - i) as nat, d, WIDTH as nat);
}

/// What a selection gives after the exclusive or of `t` onto row `i` of the matrix.
proof fn lemma_combine_row_update(s: u64, w: Seq<u64>, i: int, t: u64, n: nat)
    requires
        0 <= i < WIDTH,
        n <= WIDTH,
        w.len() == WIDTH,
    ensures
        combine(s, w.update(i, w[i] ^ t), n) == combine(s, w, n) ^ (if WIDTH - n <= i && bit(
            s,
            (WIDTH - 1 - i) as nat,
        ) { t } else { 0u64 }),
    decreases n,
{
    let w2 = w.update(i, w[i] ^ t);
    if n == 0 {
        lemma_xor_shuffle(0, 0, 0);
    } else {
        let m = (n - 1) as nat;
        lemma_combine_row_update(s, w, i, t, m);
        let p = combine(s, w, m);
        let r = w[WIDTH - n];
        lemma_xor_shuffle(p, r, t);
    }
}

/// The state of an elimination on `d`: the working matrix `w`, the row
/// operations `inv` that led from `d` to it, and the operations `back` that
/// lead from `w` to `d` again.
pub open spec fn tracks(w: Seq<u64>, inv: Seq<u64>, back: Seq<u64>, d: Seq<u64>) -> bool {
    &&& is_matrix(w)
    &&& is_matrix(inv)
    &&& is_matrix(d)
    &&& back.len() == WIDTH
    &&& forall|i: int| 0 <= i < WIDTH ==> w[i] == #[trigger] combine(inv[i], d, WIDTH as nat)
    &&& forall|k: int| 0 <= k < WIDTH ==> d[k] == #[trigger] combine(back[k], w, WIDTH as nat)
}

/// The operations that lead back after the exclusive or of row `j` onto row `i`.
pub open spec fn back_after(back: Seq<u64>, i: int, j: int) -> Seq<u64> {
    Seq::new(
        WIDTH as nat,
        |k: int| back[k] ^ (if bit(back[k], (WIDTH - 1 - i) as nat) { unit_row(j) } else { 0u64 }),
    )
}

proof fn lemma_row_op(w: Seq<u64>, inv: Seq<u64>, back: Seq<u64>, d: Seq<u64>, i: int, j: int)
    requires
        tracks(w, inv, back, d),
        0 <= i < WIDTH,
        0 <= j < WIDTH,
        i != j,
    ensures
        tracks(w.update(i, w[i] ^ w[j]), inv.update(i, inv[i] ^ inv[j]), back_after(back, i, j), d),
{
    let w2 = w.update(i, w[i] ^ w[j]);
    let inv2 = inv.update(i, inv[i] ^ inv[j]);
    let back2 = back_after(back, i, j);
    let a = w[i];
    let b = w[j];
    lemma_thirty_bits(a, b, 0);
    let ai = inv[i];
    let bi = inv[j];
    lemma_thirty_bits(ai, bi, 0);
    assert(is_vec(w[i]) && is_vec(w[j]) && is_vec(inv[i]) && is_vec(inv[j]));
    assert forall|r: int| 0 <= r < WIDTH implies is_vec(#[trigger] w2[r]) by {
        if r != i {
            assert(w2[r] == w[r]);
        }
    }
    assert forall|r: int| 0 <= r < WIDTH implies is_vec(#[trigger] inv2[r]) by {
        if r != i {
            assert(inv2[r] == inv[r]);
        }
    }
    assert forall|r: int| 0 <= r < WIDTH implies w2[r] == #[trigger] combine(inv2[r], d, WIDTH as nat) by {
        if r == i {
            lemma_combine_xor(inv[i], inv[j], d, WIDTH as nat);
            assert(w[i] == combine(inv[i], d, WIDTH as nat));
            assert(w[j] == combine(inv[j], d, WIDTH as nat));
        } else {
            assert(inv2[r] == inv[r]);
            assert(w[r] == combine(inv[r], d, WIDTH as nat));
        }
    }
    assert forall|k: int| 0 <= k < WIDTH implies d[k] == #[trigger] combine(back2[k], w2, WIDTH as nat) by {
        assert(d[k] == combine(back[k], w, WIDTH as nat));
        lemma_back_step(back[k], w, i, j);
    }
}

/// A selection of rows gives the same after the exclusive or of row `j` onto
/// row `i` of the matrix, where it takes up row `j` once more if it selects
/// row `i`.
proof fn lemma_back_step(f: u64, m: Seq<u64>, i: int, j: int)
    requires
        m.len() == WIDTH,
        0 <= i < WIDTH,
        0 <= j < WIDTH,
        i != j,
    ensures
        combine(
            f ^ (if bit(f, (WIDTH - 1 - i) as nat) {
                unit_row(j)
            } else {
                0u64
            }),
            m.update(i, m[i] ^ m[j]),
            WIDTH as nat,
        ) == combine(f, m, WIDTH as nat),
{
    let m2 = m.update(i, m[i] ^ m[j]);
    let sel = bit(f, (WIDTH - 1 - i) as nat);
    let e = if sel { unit_row(j) } else { 0u64 };
    lemma_combine_xor(f, e, m2, WIDTH as nat);
    lemma_combine_row_update(f, m, i, m[j], WIDTH as nat);
    let c0 = combine(f, m, WIDTH as nat);
    let t = m[j];
    if sel {
        lemma_combine_unit(j, m2);
        assert(m2[j] == m[j]);
        lemma_xor_shuffle(c0, t, 0);
    } else {
        lemma_combine_zero(m2, WIDTH as nat);
        lemma_xor_shuffle(c0, 0, 0);
    }
}

/// Whether `back` times `inv` is the identity matrix.
pub open spec fn inverse_pair(back: Seq<u64>, inv: Seq<u64>) -> bool {
    &&& is_matrix(back)
    &&& forall|k: int| 0 <= k < WIDTH ==> #[trigger] combine(back[k], inv, WIDTH as nat) == unit_row(k)
}

/// The operations that lead back stay the inverse of those that lead forth.
proof fn lemma_pair_step(back: Seq<u64>, inv: Seq<u64>, i: int, j: int)
    requires
        inverse_pair(back, inv),
        inv.len() == WIDTH,
        0 <= i < WIDTH,
        0 <= j < WIDTH,
        i != j,
    ensures
        inverse_pair(back_after(back, i, j), inv.update(i, inv[i] ^ inv[j])),
{
    let back2 = back_after(back, i, j);
    let inv2 = inv.update(i, inv[i] ^ inv[j]);
    assert forall|k: int| 0 <= k < WIDTH implies is_vec(#[trigger] back2[k]) by {
        assert(is_vec(back[k]));
        lemma_thirty_bits(back[k], unit_row(j), (WIDTH - 1 - j) as u64);
        lemma_thirty_bits(back[k], 0, 0);
        lemma_xor_shuffle(back[k], 0, 0);
    }
    assert forall|k: int| 0 <= k < WIDTH implies #[trigger] combine(back2[k], inv2, WIDTH as nat) == unit_row(
        k,
    ) by {
        assert(combine(back[k], inv, WIDTH as nat) == unit_row(k));
        lemma_back_step(back[k], inv, i, j);
    }
}

proof fn lemma_combine_identity_rows(s: u64, w: Seq<u64>, n: nat)
    requires
        n <= WIDTH,
        w.len() == WIDTH,
        forall|i: int| 0 <= i < WIDTH ==> #[trigger] w[i] == unit_row(i),
    ensures
        combine(s, w, n) == low(s, n),
    decreases n,
{
    if n == 0 {
        lemma_bit_low(s, 0, 0);
        assert((1u64 << 0u64) == 1u64) by (bit_vector);
    } else {
        let m = (n - 1) as u64;
        lemma_combine_identity_rows(s, w, (n - 1) as nat);
        assert(w[WIDTH - n] == unit_row(WIDTH - n));
        lemma_bit_test(s, m);
        let lo = s & (((1u64 << m) - 1) as u64);
        let hi = s & (((1u64 << ((m + 1) as u64)) - 1) as u64);
        assert(((s >> m) & 1 == 1 ==> hi == lo ^ (1u64 << m)) && ((s >> m) & 1 != 1 ==> hi == lo ^ 0u64))
            by (bit_vector)
            requires
                m < 30,
                lo == s & (((1u64 << m) - 1) as u64),
                hi == s & (((1u64 << ((m + 1) as u64)) - 1) as u64),
        ;
    }
}

/// A selection among the rows of the identity matrix is the selection itself.
proof fn lemma_combine_identity(s: u64, w: Seq<u64>)
    requires
        is_vec(s),
        w.len() == WIDTH,
        forall|i: int| 0 <= i < WIDTH ==> #[trigger] w[i] == unit_row(i),
    ensures
        combine(s, w, WIDTH as nat) == s,
{
    lemma_combine_identity_rows(s, w, WIDTH as nat);
    lemma_thirty_bits(s, 0, 0);
}

proof fn lemma_combine_zero(d: Seq<u64>, n: nat)
    requires
        n <= WIDTH,
    ensures
        combine(0u64, d, n) == 0u64,
    decreases n,
{
    if n > 0 {
        lemma_combine_zero(d, (n - 1) as nat);
        lemma_bit_zero((n - 1) as nat);
        lemma_xor_shuffle(0, 0, 0);
    }
}


/// Whether some vector other than zero has the product zero with `d`.
pub open spec fn has_kernel(d: Seq<u64>) -> bool {
    exists|v: u64| is_kernel_vector(d, v)
}

/// Whether `v` is a vector other than zero whose product with `d` is zero.
pub open spec fn is_kernel_vector(d: Seq<u64>, v: u64) -> bool {
    &&& is_vec(v)
    &&& v != 0
    &&& forall|i: int| 0 <= i < WIDTH ==> !dot(#[trigger] d[i], v)
}

proof fn lemma_dot_xor_right(a: u64, x: u64, y: u64)
    ensures
        dot(a, x ^ y) == (dot(a, x) != dot(a, y)),
{
    lemma_and_swap(a, x, y);
    lemma_dot_xor(x, y, a);
}

proof fn lemma_dot_unit_right(a: u64, j: nat)
    requires
        j < 64,
    ensures
        dot(a, 1u64 << (j as u64)) == bit(a, j),
{
    let u = 1u64 << (j as u64);
    lemma_and_swap(a, u, 0);
    lemma_dot_unit(j, a);
}

proof fn lemma_dot_zero_right(a: u64)
    ensures
        !dot(a, 0),
{
    lemma_and_swap(a, 0, 0);
    lemma_dot_zero(a);
}

/// A matrix times the zero vector, or a matrix of rows that all have the inner
/// product zero with `x`, gives zero.
proof fn lemma_apply_zero(m: Seq<u64>, x: u64)
    requires
        forall|i: int| 0 <= i < WIDTH ==> !dot(#[trigger] m[i], x),
    ensures
        apply(m, x) == 0,
{
    lemma_apply_bits(m, x);
    lemma_thirty_bits(0, 0, 0);
    assert forall|k: nat| k < WIDTH implies bit(apply(m, x), k) == bit(0u64, k) by {
        lemma_bit_zero(k);
        assert(!dot(m[WIDTH - 1 - k], x));
    }
    lemma_bits_equal(apply(m, x), 0, WIDTH as nat);
}

/// A matrix with a kernel vector has no left inverse.
pub proof fn lemma_kernel_not_invertible(d: Seq<u64>)
    requires
        has_kernel(d),
    ensures
        !invertible(d),
{
    let v = choose|v: u64| is_kernel_vector(d, v);
    if invertible(d) {
        let a = choose|a: Seq<u64>| is_left_inverse(a, d);
        lemma_left_inverse_apply(a, d, v);
        lemma_apply_zero(d, v);
        assert forall|i: int| 0 <= i < WIDTH implies !dot(#[trigger] a[i], 0u64) by {
            lemma_dot_zero_right(a[i]);
        }
        lemma_apply_zero(a, 0);
        lemma_thirty_bits(v, 0, 0);
        assert(false);
    }
}

/// A kernel vector of the working matrix is one of the matrix that the
/// elimination started from.
proof fn lemma_kernel_back(w: Seq<u64>, inv: Seq<u64>, back: Seq<u64>, d: Seq<u64>, v: u64)
    requires
        tracks(w, inv, back, d),
        is_kernel_vector(w, v),
    ensures
        is_kernel_vector(d, v),
{
    lemma_apply_zero(w, v);
    assert forall|k: int| 0 <= k < WIDTH implies !dot(#[trigger] d[k], v) by {
        lemma_dot_apply(back[k], w, v);
        lemma_dot_zero_right(back[k]);
        assert(d[k] == combine(back[k], w, WIDTH as nat));
    }
}

/// The exclusive or of the unit vectors of those columns before `n` whose
/// pivot row has an entry in column `c`.
pub open spec fn kernel_part(w: Seq<u64>, c: int, n: nat) -> u64
    decreases n,
{
    if n == 0 {
        0
    } else {
        kernel_part(w, c, (n - 1) as nat) ^ (if bit(w[n - 1], (WIDTH - 1 - c) as nat) {
            unit_row(n - 1)
        } else {
            0u64
        })
    }
}

/// Whether the columns before `c` of `w` are those of the identity matrix.
pub open spec fn reduced_before(w: Seq<u64>, c: int) -> bool {
    forall|i: int, k: int| 0 <= i < WIDTH && 0 <= k < c ==> #[trigger] entry(w, i, k) == (i == k)
}

/// The entry of row `i` and column `k` of the matrix `w`.
pub open spec fn entry(w: Seq<u64>, i: int, k: int) -> bool {
    bit(w[i], (WIDTH - 1 - k) as nat)
}

proof fn lemma_kernel_part(w: Seq<u64>, c: int, n: nat)
    requires
        0 <= c < WIDTH,
        n <= c,
        w.len() == WIDTH,
        reduced_before(w, c),
    ensures
        is_vec(kernel_part(w, c, n)),
        !bit(kernel_part(w, c, n), (WIDTH - 1 - c) as nat),
        forall|i: int|
            0 <= i < WIDTH ==> dot(#[trigger] w[i], kernel_part(w, c, n)) == (i < n && bit(
                w[i],
                (WIDTH - 1 - c) as nat,
            )),
    decreases n,
{
    let pb = (WIDTH - 1 - c) as nat;
    if n == 0 {
        lemma_bit_zero(pb);
        assert forall|i: int| 0 <= i < WIDTH implies !dot(#[trigger] w[i], 0u64) by {
            lemma_dot_zero_right(w[i]);
        }
    } else {
        let m = (n - 1) as nat;
        lemma_kernel_part(w, c, m);
        let p = kernel_part(w, c, m);
        let sel = bit(w[m as int], pb);
        let e = if sel { unit_row(m as int) } else { 0u64 };
        let sh = (WIDTH - 1 - m) as u64;
        lemma_thirty_bits(p, e, sh);
        lemma_bit_xor(p, e, pb);
        lemma_bit_unit((WIDTH - 1 - m) as nat, pb);
        lemma_bit_zero(pb);
        assert forall|i: int| 0 <= i < WIDTH implies dot(#[trigger] w[i], p ^ e) == (i < n && bit(w[i], pb)) by {
            lemma_dot_xor_right(w[i], p, e);
            lemma_dot_unit_right(w[i], (WIDTH - 1 - m) as nat);
            lemma_dot_zero_right(w[i]);
            assert(entry(w, i, m as int) == (i == m));
        }
    }
}

/// A working matrix whose columns before `c` are reduced and whose column `c`
/// has no entry in the rows from `c` on has a kernel vector.
proof fn lemma_no_pivot_kernel(w: Seq<u64>, c: int)
    requires
        0 <= c < WIDTH,
        w.len() == WIDTH,
        reduced_before(w, c),
        forall|i: int| c <= i < WIDTH ==> !bit(#[trigger] w[i], (WIDTH - 1 - c) as nat),
    ensures
        has_kernel(w),
{
    let pb = (WIDTH - 1 - c) as nat;
    lemma_kernel_part(w, c, c as nat);
    let p = kernel_part(w, c, c as nat);
    let u = unit_row(c);
    let v = p ^ u;
    let sh = pb as u64;
    lemma_thirty_bits(p, u, sh);
    lemma_bit_xor(p, u, pb);
    lemma_bit_unit(pb, pb);
    lemma_bit_zero(pb);
    assert(bit(v, pb));
    assert forall|i: int| 0 <= i < WIDTH implies !dot(#[trigger] w[i], v) by {
        lemma_dot_xor_right(w[i], p, u);
        lemma_dot_unit_right(w[i], pb);
    }
    assert(is_kernel_vector(w, v));
}

/// A reduced matrix is the identity matrix.
proof fn lemma_reduced_identity(w: Seq<u64>)
    requires
        is_matrix(w),
        reduced_before(w, WIDTH as int),
    ensures
        forall|i: int| 0 <= i < WIDTH ==> #[trigger] w[i] == unit_row(i),
{
    lemma_thirty_bits(0, 0, 0);
    assert forall|i: int| 0 <= i < WIDTH implies #[trigger] w[i] == unit_row(i) by {
        let u = unit_row(i);
        let sh = (WIDTH - 1 - i) as u64;
        lemma_thirty_bits(0, 0, sh);
        assert(is_vec(w[i]));
        assert forall|k: nat| k < WIDTH implies bit(w[i], k) == bit(u, k) by {
            lemma_bit_unit((WIDTH - 1 - i) as nat, k);
            let col = WIDTH - 1 - k;
            assert(entry(w, i, col) == (i == col));
        }
        lemma_bits_equal(w[i], u, WIDTH as nat);
    }
}

/// The identity matrix.
pub fn identity() -> (r: Vec<u64>)
    ensures
        is_matrix(r@),
        forall|i: int| 0 <= i < WIDTH ==> #[trigger] r@[i] == unit_row(i),
{
    let mut r: Vec<u64> = Vec::new();
    let mut i: usize = 0;
    while i < WIDTH
        invariant
            i <= WIDTH,
            r@.len() == i,
            forall|k: int| 0 <= k < i ==> #[trigger] r@[k] == unit_row(k),
            forall|k: int| 0 <= k < i ==> is_vec(#[trigger] r@[k]),
        decreases WIDTH - i,
    {
        let sh: u64 = (WIDTH - 1 - i) as u64;
        proof {
            lemma_thirty_bits(0, 0, sh);
        }
        r.push(1u64 << sh);
        i += 1;
    }
    r
}

/// Inverts a matrix over GF(2) by Gauss-Jordan elimination.
///
/// Returns the matrix whose product with `d` is the identity, or `None` where
/// `d` has none.
pub fn invert(d: &Vec<u64>) -> (r: Option<Vec<u64>>)
    requires
        is_matrix(d@),
    ensures
        r.is_some() <==> invertible(d@),
        r.is_some() ==> is_left_inverse(r.unwrap()@, d@) && is_left_inverse(d@, r.unwrap()@),
{
    let mut w: Vec<u64> = Vec::new();
    let mut i: usize = 0;
    while i < WIDTH
        invariant
            i <= WIDTH,
            d@.len() == WIDTH,
            w@.len() == i,
            forall|k: int| 0 <= k < i ==> #[trigger] w@[k] == d@[k],
        decreases WIDTH - i,
    {
        w.push(d[i]);
        i += 1;
    }
    assert(w@ =~= d@);
    let mut inv: Vec<u64> = identity();
    let ghost mut back: Seq<u64> = inv@;
    proof {
        assert forall|k: int| 0 <= k < WIDTH implies w@[k] == #[trigger] combine(inv@[k], d@, WIDTH as nat) by {
            lemma_combine_unit(k, d@);
        }
        assert forall|k: int| 0 <= k < WIDTH implies d@[k] == #[trigger] combine(back[k], w@, WIDTH as nat) by {
            lemma_combine_unit(k, w@);
        }
        assert forall|k: int| 0 <= k < WIDTH implies #[trigger] combine(back[k], inv@, WIDTH as nat) == unit_row(
            k,
        ) by {
            lemma_combine_unit(k, inv@);
        }
    }
    let mut c: usize = 0;
    while c < WIDTH
        invariant
            c <= WIDTH,
            tracks(w@, inv@, back, d@),
            inverse_pair(back, inv@),
            reduced_before(w@, c as int),
        decreases WIDTH - c,
    {
        let pb: u64 = (WIDTH - 1 - c) as u64;
        // Look for a row from `c` on with an entry in column `c`.
        let mut r: usize = c;
        while r < WIDTH && (w[r] >> pb) & 1 == 0
            invariant
                c <= r <= WIDTH,
                pb == WIDTH - 1 - c,
                w@.len() == WIDTH,
                forall|k: int| c <= k < r ==> !bit(#[trigger] w@[k], pb as nat),
            decreases WIDTH - r,
        {
            r += 1;
        }
        if r == WIDTH {
            proof {
                lemma_no_pivot_kernel(w@, c as int);
                let v = choose|v: u64| is_kernel_vector(w@, v);
                lemma_kernel_back(w@, inv@, back, d@, v);
                lemma_kernel_not_invertible(d@);
            }
            return None;
        }
        proof {
            lemma_bit_test(w@[r as int], pb);
        }
        assert(bit(w@[r as int], pb as nat));
        if r != c {
            // Bring the entry into row `c`.
            proof {
                lemma_row_op(w@, inv@, back, d@, c as int, r as int);
                lemma_pair_step(back, inv@, c as int, r as int);
                back = back_after(back, c as int, r as int);
                let ghost w0 = w@;
                let ghost w1 = w0.update(c as int, w0[c as int] ^ w0[r as int]);
                assert forall|i: int, k: int| 0 <= i < WIDTH && 0 <= k < c implies #[trigger] entry(w1, i, k) == (i
                    == k) by {
                    lemma_bit_xor(w0[c as int], w0[r as int], (WIDTH - 1 - k) as nat);
                    assert(entry(w0, c as int, k) == (c == k));
                    assert(entry(w0, r as int, k) == (r == k));
                    assert(entry(w0, i, k) == (i == k));
                }
                lemma_bit_xor(w0[c as int], w0[r as int], pb as nat);
            }
            let wc = w[c] ^ w[r];
            let ic = inv[c] ^ inv[r];
            w.set(c, wc);
            inv.set(c, ic);
        }
        assert(bit(w@[c as int], pb as nat));
        let pw: u64 = w[c];
        let pi: u64 = inv[c];
        let mut i: usize = 0;
        while i < WIDTH
            invariant
                i <= WIDTH,
                c < WIDTH,
                pb == WIDTH - 1 - c,
                tracks(w@, inv@, back, d@),
                inverse_pair(back, inv@),
                reduced_before(w@, c as int),
                w@[c as int] == pw,
                inv@[c as int] == pi,
                bit(pw, pb as nat),
                forall|k: int| 0 <= k < i ==> bit(#[trigger] w@[k], pb as nat) == (k == c),
            decreases WIDTH - i,
        {
            if i != c && (w[i] >> pb) & 1 == 1 {
                proof {
                    lemma_row_op(w@, inv@, back, d@, i as int, c as int);
                    lemma_pair_step(back, inv@, i as int, c as int);
                    back = back_after(back, i as int, c as int);
                    let ghost w0 = w@;
                    let ghost w1 = w0.update(i as int, w0[i as int] ^ w0[c as int]);
                    assert forall|a: int, k: int| 0 <= a < WIDTH && 0 <= k < c implies #[trigger] entry(
                        w1,
                        a,
                        k,
                    ) == (a == k) by {
                        lemma_bit_xor(w0[i as int], w0[c as int], (WIDTH - 1 - k) as nat);
                        assert(entry(w0, c as int, k) == (c == k));
                        assert(entry(w0, i as int, k) == (i == k));
                        assert(entry(w0, a, k) == (a == k));
                    }
                    lemma_bit_xor(w0[i as int], w0[c as int], pb as nat);
                    assert forall|k: int| 0 <= k < i + 1 implies bit(#[trigger] w1[k], pb as nat) == (k == c) by {
                        if k < i {
                            assert(bit(w0[k], pb as nat) == (k == c));
                        }
                    }
                }
                let wi = w[i] ^ pw;
                let ii = inv[i] ^ pi;
                w.set(i, wi);
                inv.set(i, ii);
            }
            i += 1;
        }
        proof {
            assert forall|a: int, k: int| 0 <= a < WIDTH && 0 <= k < c + 1 implies #[trigger] entry(w@, a, k)
                == (a == k) by {
                if k < c {
                    assert(entry(w@, a, k) == (a == k));
                } else {
                    assert(bit(w@[a], pb as nat) == (a == c));
                }
            }
        }
        c += 1;
    }
    proof {
        lemma_reduced_identity(w@);
        assert forall|i: int| 0 <= i < WIDTH implies #[trigger] combine(inv@[i], d@, WIDTH as nat) == unit_row(
            i,
        ) by {
            assert(w@[i] == combine(inv@[i], d@, WIDTH as nat));
        }
        assert(is_left_inverse(inv@, d@));
        assert forall|k: int| 0 <= k < WIDTH implies #[trigger] combine(d@[k], inv@, WIDTH as nat) == unit_row(
            k,
        ) by {
            assert(d@[k] == combine(back[k], w@, WIDTH as nat));
            assert(is_vec(back[k]));
            lemma_combine_identity(back[k], w@);
            assert(combine(back[k], inv@, WIDTH as nat) == unit_row(k));
        }
        assert(is_left_inverse(d@, inv@));
    }
    Some(inv)
}

} // verus!
