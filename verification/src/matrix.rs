//! GF(2) arithmetic on 32-by-32 bit matrices.
//!
//! A matrix is 32 rows of 32 bits; applying it to a vector xors together
//! the rows picked by the set bits of the vector.  The matrices of
//! interest all stand for "advance the CRC register by `n` zero bits"
//! ([`represents`]), a linear operator; squaring doubles `n`.

use vstd::arithmetic::power2::{lemma_pow2_unfold, pow2};
use vstd::prelude::*;

use crate::lemmas::{lemma_stepn_add, lemma_xor_basics};
use crate::model::{step1, stepn, POLYNOMIAL};

verus! {

/// Applying rows `i..32` of a matrix to bits `i..32` of a vector: the
/// xor of row `j` for every set bit `j`.
pub open spec fn mat_apply_from(m: Seq<u32>, v: u32, i: nat) -> u32
    decreases 32 - i,
{
    if i >= 32 {
        0u32
    } else {
        (if (v >> (i as u32)) & 1 == 1 {
            m[i as int]
        } else {
            0u32
        }) ^ mat_apply_from(m, v, i + 1)
    }
}

/// A matrix applied to a vector.
pub open spec fn mat_apply(m: Seq<u32>, v: u32) -> u32 {
    mat_apply_from(m, v, 0)
}

/// The matrix stands for the linear operator "advance the register by
/// `n` zero bits".
pub open spec fn represents(m: Seq<u32>, n: nat) -> bool {
    m.len() == 32 && forall|v: u32| #[trigger] mat_apply(m, v) == stepn(v, n)
}

/// Exclusive or associates.
proof fn lemma_xor_assoc(a: u32, b: u32, c: u32)
    by (bit_vector)
    ensures
        (a ^ b) ^ c == a ^ (b ^ c),
{
}

/// Four xored terms regroup pairwise.
proof fn lemma_xor_regroup(a: u32, b: u32, c: u32, d: u32)
    by (bit_vector)
    ensures
        (a ^ b) ^ (c ^ d) == (a ^ c) ^ (b ^ d),
{
}

/// Exclusive or commutes.
proof fn lemma_xor_comm(a: u32, b: u32)
    by (bit_vector)
    ensures
        a ^ b == b ^ a,
{
}

/// A shifted-out vector has no bits left.
proof fn lemma_shift_tail(v: u32, i: u32)
    by (bit_vector)
    requires
        v >> i == 0,
        i < 32,
    ensures
        (v >> i) & 1 == 0,
        v >> ((i + 1) as u32) == 0,
{
}

/// Shifting one more bit composes.
proof fn lemma_shift_compose(v: u32, i: u32)
    by (bit_vector)
    requires
        i < 32,
    ensures
        (v >> i) >> 1u32 == v >> ((i + 1) as u32),
        ((v >> i) & 1 == 1) == ((v >> i) % 2 == 1),
        (v >> i) >> 1u32 < v >> i || v >> i == 0,
{
}

/// Rows past the last set bit contribute nothing.
proof fn lemma_mat_apply_from_tail(m: Seq<u32>, v: u32, i: nat)
    requires
        i <= 32,
        v >> (i as u32) == 0,
    ensures
        mat_apply_from(m, v, i) == 0,
    decreases 32 - i,
{
    if i < 32 {
        lemma_shift_tail(v, i as u32);
        lemma_mat_apply_from_tail(m, v, i + 1);
        lemma_xor_basics(0u32);
    }
}

/// Application is linear in the vector.
proof fn lemma_mat_apply_from_linear(m: Seq<u32>, x: u32, y: u32, i: nat)
    requires
        i <= 32,
    ensures
        mat_apply_from(m, x ^ y, i) == mat_apply_from(m, x, i) ^ mat_apply_from(m, y, i),
    decreases 32 - i,
{
    if i >= 32 {
        lemma_xor_basics(0u32);
    } else {
        lemma_mat_apply_from_linear(m, x, y, i + 1);
        let j = i as u32;
        assert((((x ^ y) >> j) & 1 == 1) == (((x >> j) & 1 == 1) != ((y >> j) & 1 == 1)))
            by (bit_vector);
        let cx = if (x >> j) & 1 == 1 {
            m[i as int]
        } else {
            0u32
        };
        let cy = if (y >> j) & 1 == 1 {
            m[i as int]
        } else {
            0u32
        };
        let cxy = if ((x ^ y) >> j) & 1 == 1 {
            m[i as int]
        } else {
            0u32
        };
        assert(cxy == cx ^ cy) by {
            lemma_xor_basics(m[i as int]);
            lemma_xor_basics(0u32);
        }
        lemma_xor_regroup(cx, mat_apply_from(m, x, i + 1), cy, mat_apply_from(m, y, i + 1));
    }
}

/// Application is linear in the vector.
pub proof fn lemma_mat_apply_linear(m: Seq<u32>, x: u32, y: u32)
    ensures
        mat_apply(m, x ^ y) == mat_apply(m, x) ^ mat_apply(m, y),
{
    lemma_mat_apply_from_linear(m, x, y, 0);
}

/// The zero vector maps to zero.
pub proof fn lemma_mat_apply_zero(m: Seq<u32>)
    ensures
        mat_apply(m, 0u32) == 0u32,
{
    assert(0u32 >> 0u32 == 0u32) by (bit_vector);
    lemma_mat_apply_from_tail(m, 0u32, 0);
}

/// A squared matrix applies the original matrix twice.
proof fn lemma_mat_compose_from(m: Seq<u32>, sq: Seq<u32>, v: u32, i: nat)
    requires
        i <= 32,
        sq.len() == 32,
        forall|j: int| 0 <= j < 32 ==> sq[j] == mat_apply(m, m[j]),
    ensures
        mat_apply_from(sq, v, i) == mat_apply(m, mat_apply_from(m, v, i)),
    decreases 32 - i,
{
    if i >= 32 {
        lemma_mat_apply_zero(m);
    } else {
        lemma_mat_compose_from(m, sq, v, i + 1);
        let j = i as u32;
        let cm = if (v >> j) & 1 == 1 {
            m[i as int]
        } else {
            0u32
        };
        let csq = if (v >> j) & 1 == 1 {
            sq[i as int]
        } else {
            0u32
        };
        assert(csq == mat_apply(m, cm)) by {
            lemma_mat_apply_zero(m);
        }
        lemma_mat_apply_linear(m, cm, mat_apply_from(m, v, i + 1));
    }
}

/// Squaring a matrix that advances by `n` zero bits yields the matrix
/// that advances by `2 * n`.
pub proof fn lemma_square_represents(m: Seq<u32>, sq: Seq<u32>, n: nat)
    requires
        represents(m, n),
        sq.len() == 32,
        forall|j: int| 0 <= j < 32 ==> sq[j] == mat_apply(m, m[j]),
    ensures
        represents(sq, 2 * n),
{
    assert forall|v: u32| #[trigger] mat_apply(sq, v) == stepn(v, 2 * n) by {
        lemma_mat_compose_from(m, sq, v, 0);
        assert(mat_apply(sq, v) == mat_apply(m, mat_apply(m, v)));
        assert(mat_apply(m, v) == stepn(v, n));
        assert(mat_apply(m, stepn(v, n)) == stepn(stepn(v, n), n));
        lemma_stepn_add(v, n, n);
    }
}

/// One step of peeling the generator sum: the contribution of bit
/// `j + 1` extends the shifted mask by one bit.
proof fn lemma_gen_step(v: u32, j: u32)
    by (bit_vector)
    requires
        j < 31,
    ensures
        ((if (v >> ((j + 1) as u32)) & 1 == 1 {
            1u32 << j
        } else {
            0u32
        }) ^ ((v >> 1u32) & (0xFFFF_FFFFu32 << ((j + 1) as u32)))) == (v >> 1u32) & (
        0xFFFF_FFFFu32 << j),
{
}

/// Rows `i..32` of the generator reconstruct the shifted vector above
/// bit `i - 1`.
proof fn lemma_generator_from(g: Seq<u32>, v: u32, i: nat)
    requires
        1 <= i <= 32,
        g.len() == 32,
        forall|q: int| 1 <= q < 32 ==> g[q] == 1u32 << ((q - 1) as u32),
    ensures
        mat_apply_from(g, v, i) == (v >> 1u32) & (0xFFFF_FFFFu32 << ((i - 1) as u32)),
    decreases 32 - i,
{
    if i == 32 {
        assert((v >> 1u32) & (0xFFFF_FFFFu32 << 31u32) == 0u32) by (bit_vector);
    } else {
        lemma_generator_from(g, v, i + 1);
        lemma_gen_step(v, (i - 1) as u32);
    }
}

/// The one-zero-bit generator: polynomial in row zero, a shifted unit
/// in every other row.  Applying it is exactly one register step.
pub proof fn lemma_generator_represents(g: Seq<u32>)
    requires
        g.len() == 32,
        g[0] == POLYNOMIAL,
        forall|q: int| 1 <= q < 32 ==> g[q] == 1u32 << ((q - 1) as u32),
    ensures
        represents(g, 1),
{
    assert forall|v: u32| #[trigger] mat_apply(g, v) == stepn(v, 1) by {
        lemma_generator_from(g, v, 1);
        assert(((v >> 0u32) & 1 == v & 1) && ((v >> 1u32) & (0xFFFF_FFFFu32 << 0u32) == v
            >> 1u32)) by (bit_vector);
        lemma_xor_basics(v >> 1u32);
        lemma_xor_comm(POLYNOMIAL, v >> 1u32);
        assert(stepn(v, 0) == v);
        assert(stepn(v, 1) == step1(v));
    }
}

/// Multiplies a matrix by a vector: xor together the rows picked by the
/// set bits, lowest first, stopping once no bits remain.
pub fn gf2_matrix_times(mat: &Vec<u32>, vec: u32) -> (sum: u32)
    requires
        mat@.len() == 32,
    ensures
        sum == mat_apply(mat@, vec),
{
    let mut sum: u32 = 0;
    let mut v = vec;
    let mut idx: usize = 0;
    proof {
        lemma_xor_basics(mat_apply(mat@, vec));
        assert(vec >> 0u32 == vec) by (bit_vector);
    }
    while v > 0
        invariant
            mat@.len() == 32,
            idx <= 32,
            v == vec >> (idx as u32),
            sum ^ mat_apply_from(mat@, vec, idx as nat) == mat_apply(mat@, vec),
        decreases v,
    {
        proof {
            assert(idx < 32) by {
                if idx == 32 {
                    assert(vec >> 32u32 == 0) by (bit_vector);
                }
            }
            lemma_shift_compose(vec, idx as u32);
        }
        if v & 1 == 1 {
            let row = mat[idx];
            proof {
                lemma_xor_assoc(sum, row, mat_apply_from(mat@, vec, (idx + 1) as nat));
            }
            sum = sum ^ row;
        } else {
            proof {
                lemma_xor_basics(mat_apply_from(mat@, vec, (idx + 1) as nat));
            }
        }
        v = v >> 1u32;
        idx = idx + 1;
    }
    proof {
        lemma_mat_apply_from_tail(mat@, vec, idx as nat);
        lemma_xor_basics(sum);
    }
    sum
}

/// Overwrites `square` with `mat` squared: row `i` becomes the matrix
/// applied to its own row `i`.
pub fn gf2_matrix_square(square: &mut Vec<u32>, mat: &Vec<u32>)
    requires
        old(square)@.len() == 32,
        mat@.len() == 32,
    ensures
        final(square)@.len() == 32,
        forall|i: int| 0 <= i < 32 ==> final(square)@[i] == mat_apply(mat@, mat@[i]),
{
    let mut n: usize = 0;
    while n < 32
        invariant
            square@.len() == 32,
            mat@.len() == 32,
            n <= 32,
            forall|i: int| 0 <= i < n ==> square@[i] == mat_apply(mat@, mat@[i]),
        decreases 32 - n,
    {
        let x = gf2_matrix_times(mat, mat[n]);
        square[n] = x;
        n = n + 1;
    }
}

/// Builds the one-zero-bit generator as raw rows.
pub fn gf2_generator() -> (g: Vec<u32>)
    ensures
        represents(g@, 1),
{
    let mut rows: Vec<u32> = Vec::new();
    rows.push(POLYNOMIAL);
    let mut row: u32 = 1;
    let mut i: usize = 1;
    proof {
        assert(1u32 << 0u32 == 1u32) by (bit_vector);
    }
    while i < 32
        invariant
            1 <= i <= 32,
            rows@.len() == i,
            rows@[0] == POLYNOMIAL,
            row == 1u32 << ((i - 1) as u32),
            forall|q: int| 1 <= q < i ==> rows@[q] == 1u32 << ((q - 1) as u32),
        decreases 32 - i,
    {
        rows.push(row);
        proof {
            let j = (i - 1) as u32;
            assert((1u32 << j) << 1u32 == 1u32 << ((j + 1) as u32)) by (bit_vector)
                requires
                    j < 31,
            ;
        }
        row = row << 1u32;
        i = i + 1;
    }
    proof {
        lemma_generator_represents(rows@);
    }
    rows
}

/// A matrix over the Galois field of two elements; addition of field
/// elements is xor.
pub struct Matrix {
    rows: Vec<u32>,
}

impl View for Matrix {
    type V = Seq<u32>;

    closed spec fn view(&self) -> Seq<u32> {
        self.rows@
    }
}

impl Matrix {
    /// Returns one row.
    pub fn row(&self, i: u8) -> (r: u32)
        requires
            i < 32,
            self@.len() == 32,
        ensures
            r == self@[i as int],
    {
        self.rows[i as usize]
    }

    /// Multiplies the matrix with a vector.
    pub fn times(&self, vec: u32) -> (r: u32)
        requires
            self@.len() == 32,
        ensures
            r == mat_apply(self@, vec),
    {
        gf2_matrix_times(&self.rows, vec)
    }

    /// Multiplies a matrix by itself.
    pub fn square(&self) -> (m: Matrix)
        requires
            self@.len() == 32,
        ensures
            m@.len() == 32,
            forall|i: int| 0 <= i < 32 ==> m@[i] == mat_apply(self@, self@[i]),
    {
        let mut out = self.rows.clone();
        proof {
            assert(out@ =~= self.rows@);
        }
        gf2_matrix_square(&mut out, &self.rows);
        Matrix { rows: out }
    }
}

/// Builds the matrix that advances the register by `8 * len` zero bits:
/// the zero operator for `len` zero bytes, for any power-of-two `len`.
pub fn create_zero_operator(len: usize) -> (op: Matrix)
    requires
        len >= 1,
        exists|k: nat| len == pow2(k),
    ensures
        represents(op@, (8 * len) as nat),
{
    let ghost gk: nat = choose|k: nat| len == pow2(k);

    // Operator for one zero bit, then two, then four.
    let g = Matrix { rows: gf2_generator() };
    let even = g.square();
    proof {
        lemma_square_represents(g@, even@, 1);
    }
    let mut op = even.square();
    proof {
        lemma_square_represents(even@, op@, 2);
        vstd::arithmetic::power2::lemma2_to64();
    }

    let mut l = len;
    let ghost mut j: nat = 0;
    while l > 0
        invariant
            j <= gk + 1,
            represents(op@, (4 * pow2(j)) as nat),
            len == pow2(gk),
            l == if j <= gk {
                pow2((gk - j) as nat) as int
            } else {
                0int
            },
        decreases l,
    {
        let next = op.square();
        proof {
            lemma_square_represents(op@, next@, (4 * pow2(j)) as nat);
            lemma_pow2_unfold(j + 1);
            assert(4 * pow2(j + 1) == 2 * (4 * pow2(j)));
            if j < gk {
                lemma_pow2_unfold((gk - j) as nat);
                assert(pow2((gk - j) as nat) / 2 == pow2((gk - j - 1) as nat));
            } else {
                assert(j == gk);
                assert(l == 1) by {
                    vstd::arithmetic::power2::lemma2_to64();
                }
            }
        }
        op = next;
        l = l / 2;
        proof {
            j = j + 1;
        }
    }
    proof {
        assert(j == gk + 1) by {
            if j <= gk {
                vstd::arithmetic::power2::lemma_pow2_pos((gk - j) as nat);
            }
        }
        lemma_pow2_unfold(gk + 1);
        assert(4 * pow2(gk + 1) == 8 * pow2(gk));
    }
    op
}

} // verus!
