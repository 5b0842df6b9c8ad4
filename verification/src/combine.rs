//! The combine operation: the checksum of two concatenated streams from
//! their individual checksums and the length of the second stream.
//!
//! Appending the second stream advances the first checksum by that many
//! zero bytes — a linear operator over GF(2) — and xors the second
//! checksum in.  The operator is applied while it is built, by
//! exponentiation by squaring over the bits of the length.

use vstd::arithmetic::div_mod::{
    lemma_div_denominator, lemma_fundamental_div_mod, lemma_mod_breakdown,
};
use vstd::arithmetic::power2::{lemma2_to64, lemma_pow2_pos, lemma_pow2_unfold, pow2};
use vstd::prelude::*;

use crate::lemmas::lemma_stepn_add;
use crate::matrix::{
    gf2_generator, gf2_matrix_square, gf2_matrix_times, lemma_square_represents, mat_apply,
    represents,
};
use crate::model::{spec_combine, stepn};

verus! {

/// Thirty-two zeroed rows, scratch space for a squaring.
fn zeroed_rows() -> (v: Vec<u32>)
    ensures
        v@.len() == 32,
{
    let mut v: Vec<u32> = Vec::new();
    let mut i: usize = 0;
    while i < 32
        invariant
            v@.len() == i,
            i <= 32,
        decreases 32 - i,
    {
        v.push(0);
        i = i + 1;
    }
    v
}

/// One halving step of the length counter, seen arithmetically.
proof fn lemma_halve(l: usize)
    by (bit_vector)
    ensures
        l >> 1usize == l / 2,
        (l & 1) == l % 2,
{
}

/// Computes the checksum of two concatenated byte streams from
/// `crc32c(A)`, `crc32c(B)`, and the length of `B` alone.
pub fn crc32c_combine(crc1: u32, crc2: u32, len2: usize) -> (r: u32)
    ensures
        r == spec_combine(crc1, crc2, len2 as nat),
{
    // Degenerate case: nothing appended, nothing changes.
    if len2 == 0 {
        return crc1;
    }
    let ghost n0: nat = len2 as nat;

    // Operator for one zero bit.
    let mut odd = gf2_generator();

    // Operator for two zero bits.
    let mut even = zeroed_rows();
    gf2_matrix_square(&mut even, &odd);
    proof {
        lemma_square_represents(odd@, even@, 1);
    }

    // Operator for four zero bits.
    gf2_matrix_square(&mut odd, &even);
    proof {
        lemma_square_represents(even@, odd@, 2);
        lemma2_to64();
    }

    // Apply the zeros operator for each bit of len2; the first squaring
    // below puts the operator for one whole zero byte in place.
    let mut crc = crc1;
    let mut l = len2;
    let ghost mut j: nat = 0;
    while l > 0
        invariant
            n0 == len2 as nat,
            n0 > 0,
            represents(odd@, (4 * pow2(j)) as nat),
            even@.len() == 32,
            l == n0 / pow2(j),
            crc == stepn(crc1, (8 * (n0 % pow2(j))) as nat),
        decreases l,
    {
        gf2_matrix_square(&mut even, &odd);
        proof {
            lemma_square_represents(odd@, even@, (4 * pow2(j)) as nat);
            lemma_pow2_unfold(j + 1);
            lemma_pow2_pos(j);
            lemma_halve(l);
            lemma_mod_breakdown(n0 as int, pow2(j) as int, 2);
            lemma_div_denominator(n0 as int, pow2(j) as int, 2);
        }
        if l & 1 == 1 {
            let stepped = gf2_matrix_times(&even, crc);
            proof {
                assert(mat_apply(even@, crc) == stepn(crc, (8 * pow2(j)) as nat));
                lemma_stepn_add(crc1, (8 * (n0 % pow2(j))) as nat, (8 * pow2(j)) as nat);
            }
            crc = stepped;
        }
        l = l >> 1usize;
        // Swap roles: the freshly squared operator drives the next bit.
        let spare = odd;
        odd = even;
        even = spare;
        proof {
            j = j + 1;
        }
    }
    proof {
        lemma_pow2_pos(j);
        lemma_fundamental_div_mod(n0 as int, pow2(j) as int);
        assert(n0 as int / pow2(j) as int == 0);
        assert(n0 as int == (pow2(j) as int) * 0 + n0 as int % pow2(j) as int);
        assert(n0 % pow2(j) == n0 as int % pow2(j) as int);
        assert(n0 % pow2(j) == n0);
    }

    // Add the second checksum.
    crc ^ crc2
}

} // verus!
