//! Algebraic facts about the raw register model.
//!
//! The one-bit step is linear over GF(2), steps compose, and folding a
//! message distributes over concatenation.  The slicing identity at the
//! bottom reduces one 64-bit word step to eight independent table
//! lookups; it carries the word-at-a-time kernels.

use vstd::prelude::*;

use crate::model::{
    fold_bytes, fold_words, le_word, rbyte, rseq, slice8, step1, step_byte, stepn, tabsum_from,
    wbytes, xbyte, xor_seq, zeros,
};

verus! {

/// The one-bit step is linear: an xor of registers steps to the xor of
/// the stepped registers.
pub proof fn lemma_step1_linear(x: u32, y: u32)
    by (bit_vector)
    ensures
        step1(x ^ y) == step1(x) ^ step1(y),
{
}

/// Stepping never moves the zero register.
pub proof fn lemma_step1_zero()
    by (bit_vector)
    ensures
        step1(0u32) == 0u32,
{
}

/// Common exclusive-or identities on 32-bit words.
pub proof fn lemma_xor_basics(a: u32)
    by (bit_vector)
    ensures
        a ^ 0u32 == a,
        0u32 ^ a == a,
        a ^ a == 0u32,
        !(!a) == a,
{
}

/// Complement is exclusive or with the all-ones word.
pub proof fn lemma_not_is_xor(a: u32)
    by (bit_vector)
    ensures
        !a == a ^ 0xFFFF_FFFFu32,
{
}

/// The shared middle term of two xors cancels.
pub proof fn lemma_xor_shuffle(p: u32, q: u32, r: u32)
    by (bit_vector)
    ensures
        (p ^ q) ^ (q ^ r) == p ^ r,
{
}

/// Complementing one side of an xor complements the result.
pub proof fn lemma_xor_not(a: u32, b: u32)
    by (bit_vector)
    ensures
        a ^ !b == !(a ^ b),
{
}

pub proof fn lemma_stepn_zero(n: nat)
    ensures
        stepn(0u32, n) == 0u32,
    decreases n,
{
    if n > 0 {
        lemma_stepn_zero((n - 1) as nat);
        lemma_step1_zero();
    }
}

/// Any number of zero-bit steps is linear.
pub proof fn lemma_stepn_linear(x: u32, y: u32, n: nat)
    ensures
        stepn(x ^ y, n) == stepn(x, n) ^ stepn(y, n),
    decreases n,
{
    if n > 0 {
        lemma_stepn_linear(x, y, (n - 1) as nat);
        lemma_step1_linear(stepn(x, (n - 1) as nat), stepn(y, (n - 1) as nat));
    }
}

/// Zero-bit steps compose.
pub proof fn lemma_stepn_add(r: u32, a: nat, b: nat)
    ensures
        stepn(r, a + b) == stepn(stepn(r, a), b),
    decreases b,
{
    if b > 0 {
        lemma_stepn_add(r, a, (b - 1) as nat);
        assert((a + b - 1) as nat == a + ((b - 1) as nat));
    }
}

/// Eight zero-bit steps split into a table lookup on the low byte and a
/// plain shift of the rest.
pub proof fn lemma_step8_split(x: u32)
    by (bit_vector)
    ensures
        stepn(x, 8) == stepn(x & 0xFF, 8) ^ (x >> 8u32),
{
}

/// One byte step in table form: look up the low byte of `r ^ b`, shift
/// the remaining three bytes down.
pub proof fn lemma_step_byte_table(r: u32, b: u8)
    by (bit_vector)
    ensures
        step_byte(r, b) == stepn((r ^ (b as u32)) & 0xFF, 8) ^ (r >> 8u32),
{
}

/// Folding distributes over concatenation.
pub proof fn lemma_fold_bytes_concat(r: u32, a: Seq<u8>, b: Seq<u8>)
    ensures
        fold_bytes(r, a + b) == fold_bytes(fold_bytes(r, a), b),
    decreases b.len(),
{
    if b.len() == 0 {
        assert(a + b =~= a);
    } else {
        lemma_fold_bytes_concat(r, a, b.drop_last());
        assert((a + b).drop_last() =~= a + b.drop_last());
        assert((a + b).last() == b.last());
    }
}

/// Folding zero bytes is the pure zero-bit advance.
pub proof fn lemma_fold_bytes_zeros(r: u32, n: nat)
    ensures
        fold_bytes(r, zeros(n)) == stepn(r, 8 * n),
    decreases n,
{
    if n > 0 {
        lemma_fold_bytes_zeros(r, (n - 1) as nat);
        assert(zeros(n).drop_last() =~= zeros((n - 1) as nat));
        let q = stepn(r, (8 * (n - 1)) as nat);
        assert(q ^ 0u32 == q) by (bit_vector);
        lemma_stepn_add(r, (8 * (n - 1)) as nat, 8);
    }
}

/// One byte step is jointly linear in the register and the byte.
pub proof fn lemma_step_byte_linear(u: u32, v: u32, a: u8, b: u8)
    ensures
        step_byte(u ^ v, a ^ b) == step_byte(u, a) ^ step_byte(v, b),
{
    assert((u ^ v) ^ ((a ^ b) as u32) == (u ^ (a as u32)) ^ (v ^ (b as u32))) by (bit_vector);
    lemma_stepn_linear(u ^ (a as u32), v ^ (b as u32), 8);
}

/// Folding is jointly linear in the register and the message.
pub proof fn lemma_fold_bytes_linear2(x: u32, y: u32, s: Seq<u8>, t: Seq<u8>)
    requires
        s.len() == t.len(),
    ensures
        fold_bytes(x ^ y, xor_seq(s, t)) == fold_bytes(x, s) ^ fold_bytes(y, t),
    decreases s.len(),
{
    if s.len() > 0 {
        lemma_fold_bytes_linear2(x, y, s.drop_last(), t.drop_last());
        assert(xor_seq(s, t).drop_last() =~= xor_seq(s.drop_last(), t.drop_last()));
        assert(xor_seq(s, t).last() == s.last() ^ t.last());
        lemma_step_byte_linear(
            fold_bytes(x, s.drop_last()),
            fold_bytes(y, t.drop_last()),
            s.last(),
            t.last(),
        );
    }
}

/// A nonzero starting register only adds a pure zero-bit advance on top
/// of the fold from the zero register.
pub proof fn lemma_fold_bytes_affine(q: u32, s: Seq<u8>)
    ensures
        fold_bytes(q, s) == stepn(q, 8 * s.len()) ^ fold_bytes(0u32, s),
{
    lemma_fold_bytes_linear2(q, 0u32, zeros(s.len()), s);
    assert(xor_seq(zeros(s.len()), s) =~= s) by {
        assert forall|i: int| 0 <= i < s.len() implies xor_seq(zeros(s.len()), s)[i] == s[i] by {
            let b = s[i];
            assert(0u8 ^ b == b) by (bit_vector);
        }
    }
    lemma_xor_basics(q);
    lemma_fold_bytes_zeros(q, s.len());
}

/// From the zero register each byte contributes independently: byte `j`
/// of the message, advanced over everything that follows it.
pub proof fn lemma_fold_zero_tabsum(s: Seq<u8>, i: int)
    requires
        0 <= i <= s.len(),
    ensures
        fold_bytes(0u32, s.subrange(i, s.len() as int)) == tabsum_from(s, i),
    decreases s.len() - i,
{
    if i == s.len() {
        assert(s.subrange(i, s.len() as int).len() == 0);
    } else {
        let rest = s.subrange(i + 1, s.len() as int);
        lemma_fold_zero_tabsum(s, i + 1);
        let single = seq![s[i]];
        assert(s.subrange(i, s.len() as int) =~= single + rest);
        lemma_fold_bytes_concat(0u32, single, rest);
        assert(single.len() == 1);
        assert(single.last() == s[i]);
        assert(single.drop_last() =~= Seq::<u8>::empty());
        let b = s[i] as u32;
        assert(0u32 ^ b == b) by (bit_vector);
        assert(fold_bytes(0u32, single) == step_byte(fold_bytes(0u32, single.drop_last()), s[i]));
        assert(fold_bytes(0u32, single.drop_last()) == 0u32);
        assert(fold_bytes(0u32, single) == stepn(b, 8));
        lemma_fold_bytes_affine(stepn(b, 8), rest);
        lemma_stepn_add(b, 8, (8 * rest.len()) as nat);
    }
}

/// Feeding the register its own four bytes, then four zero bytes,
/// cancels it completely.
pub proof fn lemma_fold_self_bytes(r: u32)
    ensures
        fold_bytes(r, rseq(r)) == 0u32,
{
    let first4 = seq![rbyte(r, 0), rbyte(r, 1), rbyte(r, 2), rbyte(r, 3)];
    assert(rseq(r) =~= first4 + zeros(4));
    assert(stepn(r ^ (((r >> 0u32) as u8) as u32), 8) == r >> 8u32 && stepn(
        (r >> 8u32) ^ (((r >> 8u32) as u8) as u32),
        8,
    ) == r >> 16u32 && stepn((r >> 16u32) ^ (((r >> 16u32) as u8) as u32), 8) == r >> 24u32
        && stepn((r >> 24u32) ^ (((r >> 24u32) as u8) as u32), 8) == 0u32) by (bit_vector);
    let s1 = seq![rbyte(r, 0)];
    let s2 = seq![rbyte(r, 0), rbyte(r, 1)];
    let s3 = seq![rbyte(r, 0), rbyte(r, 1), rbyte(r, 2)];
    assert(s1.drop_last() =~= Seq::<u8>::empty());
    assert(s2.drop_last() =~= s1);
    assert(s3.drop_last() =~= s2);
    assert(first4.drop_last() =~= s3);
    assert(s1.len() == 1 && s1.last() == rbyte(r, 0));
    assert(s2.len() == 2 && s2.last() == rbyte(r, 1));
    assert(s3.len() == 3 && s3.last() == rbyte(r, 2));
    assert(first4.len() == 4 && first4.last() == rbyte(r, 3));
    assert(fold_bytes(r, Seq::<u8>::empty()) == r);
    assert(fold_bytes(r, s1) == step_byte(r, rbyte(r, 0)));
    assert(fold_bytes(r, s1) == r >> 8u32);
    assert(fold_bytes(r, s2) == r >> 16u32);
    assert(fold_bytes(r, s3) == r >> 24u32);
    assert(fold_bytes(r, first4) == 0u32);
    lemma_fold_bytes_concat(r, first4, zeros(4));
    lemma_fold_bytes_zeros(0u32, 4);
    lemma_stepn_zero(32);
}

/// How the bytes of a message relate to the bytes of the working value
/// `r ^ w`: the low four are masked by the register, the high four pass
/// through.
proof fn lemma_le_word_xor_bytes(r: u32, b0: u8, b1: u8, b2: u8, b3: u8, b4: u8, b5: u8, b6: u8, b7: u8)
    by (bit_vector)
    ensures
        ({
            let x = (r as u64) ^ ((b0 as u64) | ((b1 as u64) << 8u64) | ((b2 as u64) << 16u64) | (
            (b3 as u64) << 24u64) | ((b4 as u64) << 32u64) | ((b5 as u64) << 40u64) | ((b6 as u64)
                << 48u64) | ((b7 as u64) << 56u64));
            b0 == ((r >> 0u32) as u8) ^ ((x >> 0u64) as u8) && b1 == ((r >> 8u32) as u8) ^ ((x
                >> 8u64) as u8) && b2 == ((r >> 16u32) as u8) ^ ((x >> 16u64) as u8) && b3 == ((r
                >> 24u32) as u8) ^ ((x >> 24u64) as u8) && b4 == (x >> 32u64) as u8 && b5 == (x
                >> 40u64) as u8 && b6 == (x >> 48u64) as u8 && b7 == (x >> 56u64) as u8
        }),
{
}

/// Regrouping an eight-term xor from the right-nested form to the
/// left-nested form in which a kernel accumulates it.
proof fn lemma_xor8_regroup(a0: u32, a1: u32, a2: u32, a3: u32, a4: u32, a5: u32, a6: u32, a7: u32)
    by (bit_vector)
    ensures
        a0 ^ (a1 ^ (a2 ^ (a3 ^ (a4 ^ (a5 ^ (a6 ^ (a7 ^ 0u32))))))) == ((((((a0 ^ a1) ^ a2) ^ a3)
            ^ a4) ^ a5) ^ a6) ^ a7,
{
}

/// Halving equals shifting and parity equals the low bit.
pub proof fn lemma_div2(x: u32)
    by (bit_vector)
    ensures
        x / 2 == x >> 1u32,
        x % 2 == x & 1,
{
}

/// Truncating to the low byte equals masking.
pub proof fn lemma_low_byte_u32(x: u32)
    by (bit_vector)
    ensures
        ((x as u8) as u32) == x & 0xFF,
{
}

/// Widening a 32-bit value and narrowing it back is the identity.
pub proof fn lemma_u64_roundtrip(crc: u64)
    by (bit_vector)
    requires
        crc <= 0xFFFF_FFFFu64,
    ensures
        ((crc as u32) as u64) == crc,
{
}

/// The low byte of a word is the word shifted by nothing, truncated.
pub proof fn lemma_u64_low_byte(x: u64)
    by (bit_vector)
    ensures
        (x as u8) == ((x >> 0u64) as u8),
{
}

/// One byte step of the widened 64-bit working register equals the
/// 32-bit table step and stays within 32 bits.
pub proof fn lemma_byte_step_u64(crc: u64, b: u8)
    by (bit_vector)
    requires
        crc <= 0xFFFF_FFFFu64,
    ensures
        ({
            let idx = (crc ^ (b as u64)) as u8;
            (stepn(idx as u32, 8) as u64) ^ (crc >> 8u64) <= 0xFFFF_FFFFu64 && (((stepn(
                idx as u32,
                8,
            ) as u64) ^ (crc >> 8u64)) as u32) == stepn(((crc as u32) ^ (b as u32)) & 0xFF, 8) ^ (
            (crc as u32) >> 8u32)
        }),
{
}

/// The widened xor of eight 32-bit values equals the 32-bit xor and
/// stays within 32 bits.
pub proof fn lemma_xor8_widen(a0: u32, a1: u32, a2: u32, a3: u32, a4: u32, a5: u32, a6: u32, a7: u32)
    by (bit_vector)
    ensures
        ((((((((a0 as u64) ^ (a1 as u64)) ^ (a2 as u64)) ^ (a3 as u64)) ^ (a4 as u64)) ^ (
        a5 as u64)) ^ (a6 as u64)) ^ (a7 as u64)) <= 0xFFFF_FFFFu64,
        (((((((((a0 as u64) ^ (a1 as u64)) ^ (a2 as u64)) ^ (a3 as u64)) ^ (a4 as u64)) ^ (
        a5 as u64)) ^ (a6 as u64)) ^ (a7 as u64)) as u32) == ((((((a0 ^ a1) ^ a2) ^ a3) ^ a4)
            ^ a5) ^ a6) ^ a7,
{
}

/// Word values against the bytes they were read from: folding the
/// words is folding the bytes.
pub proof fn lemma_fold_words_bytes(r: u32, s: Seq<u8>, ws: Seq<u64>)
    requires
        s.len() == 8 * ws.len(),
        forall|k: int| 0 <= k < ws.len() ==> ws[k] == le_word(s.subrange(8 * k, 8 * k + 8)),
    ensures
        fold_words(r, ws) == fold_bytes(r, s),
    decreases ws.len(),
{
    if ws.len() == 0 {
        assert(s =~= Seq::<u8>::empty());
    } else {
        let n = ws.len() as int;
        let sp = s.subrange(0, 8 * (n - 1));
        assert forall|k: int| 0 <= k < n - 1 implies ws.drop_last()[k] == le_word(
            sp.subrange(8 * k, 8 * k + 8),
        ) by {
            assert(sp.subrange(8 * k, 8 * k + 8) =~= s.subrange(8 * k, 8 * k + 8));
            assert(ws[k] == le_word(s.subrange(8 * k, 8 * k + 8)));
        }
        lemma_fold_words_bytes(r, sp, ws.drop_last());
        let wlast = s.subrange(8 * (n - 1), 8 * n);
        assert(s =~= sp + wlast);
        lemma_fold_bytes_concat(r, sp, wlast);
        lemma_word_fold(fold_bytes(r, sp), wlast);
        assert(ws.last() == le_word(wlast));
    }
}

/// The xor of two values within 32 bits stays within 32 bits and
/// narrows to the xor of the narrowed values.
pub proof fn lemma_xor_widen2(a: u64, b: u64)
    by (bit_vector)
    requires
        a <= 0xFFFF_FFFFu64,
        b <= 0xFFFF_FFFFu64,
    ensures
        a ^ b <= 0xFFFF_FFFFu64,
        (a ^ b) as u32 == (a as u32) ^ (b as u32),
{
}

/// A word equals the little-endian reading of its own bytes.
proof fn lemma_word_bytes_roundtrip(u: u64)
    by (bit_vector)
    ensures
        u == (((u >> 0u64) as u8) as u64) | ((((u >> 8u64) as u8) as u64) << 8u64) | ((((u
            >> 16u64) as u8) as u64) << 16u64) | ((((u >> 24u64) as u8) as u64) << 24u64) | ((((u
            >> 32u64) as u8) as u64) << 32u64) | ((((u >> 40u64) as u8) as u64) << 40u64) | ((((u
            >> 48u64) as u8) as u64) << 48u64) | ((((u >> 56u64) as u8) as u64) << 56u64),
{
}

/// Folding words is folding the bytes those words spell.
pub proof fn lemma_fold_words_as_bytes(r: u32, ws: Seq<u64>)
    ensures
        fold_words(r, ws) == fold_bytes(r, wbytes(ws)),
{
    let s = wbytes(ws);
    assert forall|k: int| 0 <= k < ws.len() implies ws[k] == le_word(
        #[trigger] s.subrange(8 * k, 8 * k + 8),
    ) by {
        let sub = s.subrange(8 * k, 8 * k + 8);
        assert forall|j: int| 0 <= j < 8 implies sub[j] == xbyte(ws[k], j) by {
            assert((8 * k + j) / 8 == k && (8 * k + j) % 8 == j) by (nonlinear_arith)
                requires
                    0 <= j < 8,
            ;
        }
        lemma_word_bytes_roundtrip(ws[k]);
    }
    lemma_fold_words_bytes(r, s, ws);
}

/// Folding words distributes over concatenation.
pub proof fn lemma_fold_words_concat(r: u32, a: Seq<u64>, b: Seq<u64>)
    ensures
        fold_words(r, a + b) == fold_words(fold_words(r, a), b),
    decreases b.len(),
{
    if b.len() == 0 {
        assert(a + b =~= a);
    } else {
        lemma_fold_words_concat(r, a, b.drop_last());
        assert((a + b).drop_last() =~= a + b.drop_last());
        assert((a + b).last() == b.last());
    }
}

/// A nonzero starting register only adds a pure zero-bit advance on top
/// of the word fold from the zero register.
pub proof fn lemma_fold_words_affine(q: u32, ws: Seq<u64>)
    ensures
        fold_words(q, ws) == stepn(q, 64 * ws.len()) ^ fold_words(0u32, ws),
{
    lemma_fold_words_as_bytes(q, ws);
    lemma_fold_words_as_bytes(0u32, ws);
    lemma_fold_bytes_affine(q, wbytes(ws));
}

/// The slicing identity: one whole word folds into the register as
/// eight independent byte contributions of the working value `r ^ w`.
pub proof fn lemma_word_fold(r: u32, w: Seq<u8>)
    requires
        w.len() == 8,
    ensures
        fold_bytes(r, w) == slice8((r as u64) ^ le_word(w)),
{
    let x = (r as u64) ^ le_word(w);
    let xs = Seq::new(8, |i: int| xbyte(x, i));
    lemma_le_word_xor_bytes(r, w[0], w[1], w[2], w[3], w[4], w[5], w[6], w[7]);
    assert forall|i: int| 0 <= i < 8 implies xor_seq(rseq(r), xs)[i] == w[i] by {
        let b = xs[i];
        assert(0u8 ^ b == b) by (bit_vector);
        if i == 0 {
            assert(w[0] == rbyte(r, 0) ^ xbyte(x, 0));
        } else if i == 1 {
            assert(w[1] == rbyte(r, 1) ^ xbyte(x, 1));
        } else if i == 2 {
            assert(w[2] == rbyte(r, 2) ^ xbyte(x, 2));
        } else if i == 3 {
            assert(w[3] == rbyte(r, 3) ^ xbyte(x, 3));
        } else if i == 4 {
            assert(w[4] == xbyte(x, 4));
        } else if i == 5 {
            assert(w[5] == xbyte(x, 5));
        } else if i == 6 {
            assert(w[6] == xbyte(x, 6));
        } else {
            assert(w[7] == xbyte(x, 7));
        }
    }
    assert(w =~= xor_seq(rseq(r), xs));
    lemma_fold_bytes_linear2(r, 0u32, rseq(r), xs);
    lemma_xor_basics(r);
    lemma_fold_self_bytes(r);
    lemma_xor_basics(fold_bytes(0u32, xs));
    assert(fold_bytes(r, w) == fold_bytes(0u32, xs));
    lemma_fold_zero_tabsum(xs, 0);
    assert(xs.subrange(0, xs.len() as int) =~= xs);
    assert(tabsum_from(xs, 8) == 0u32);
    assert(tabsum_from(xs, 7) == stepn(xs[7] as u32, 8) ^ 0u32);
    assert(tabsum_from(xs, 6) == stepn(xs[6] as u32, 16) ^ tabsum_from(xs, 7));
    assert(tabsum_from(xs, 5) == stepn(xs[5] as u32, 24) ^ tabsum_from(xs, 6));
    assert(tabsum_from(xs, 4) == stepn(xs[4] as u32, 32) ^ tabsum_from(xs, 5));
    assert(tabsum_from(xs, 3) == stepn(xs[3] as u32, 40) ^ tabsum_from(xs, 4));
    assert(tabsum_from(xs, 2) == stepn(xs[2] as u32, 48) ^ tabsum_from(xs, 3));
    assert(tabsum_from(xs, 1) == stepn(xs[1] as u32, 56) ^ tabsum_from(xs, 2));
    assert(tabsum_from(xs, 0) == stepn(xs[0] as u32, 64) ^ tabsum_from(xs, 1));
    lemma_xor8_regroup(
        stepn(xbyte(x, 0) as u32, 64),
        stepn(xbyte(x, 1) as u32, 56),
        stepn(xbyte(x, 2) as u32, 48),
        stepn(xbyte(x, 3) as u32, 40),
        stepn(xbyte(x, 4) as u32, 32),
        stepn(xbyte(x, 5) as u32, 24),
        stepn(xbyte(x, 6) as u32, 16),
        stepn(xbyte(x, 7) as u32, 8),
    );
}

} // verus!
