//! The algebraic laws of the checksum, stated over the model and proved
//! once for all inputs.

use vstd::prelude::*;

use crate::lemmas::{
    lemma_fold_bytes_affine, lemma_fold_bytes_concat, lemma_not_is_xor, lemma_stepn_linear,
    lemma_xor_basics, lemma_xor_not, lemma_xor_shuffle,
};
use crate::model::{
    append_chunks, fold_bytes, spec_combine, spec_crc32c, spec_crc32c_append, stepn,
};

verus! {

/// The checksum of the empty message is zero.
pub proof fn lemma_empty_input()
    ensures
        spec_crc32c(Seq::<u8>::empty()) == 0u32,
{
    lemma_xor_basics(0u32);
}

/// Appending the empty message returns the seed unchanged, whatever the
/// seed.
pub proof fn lemma_seeded_identity(s: u32)
    ensures
        spec_crc32c_append(s, Seq::<u8>::empty()) == s,
{
    lemma_xor_basics(s);
}

/// A checksum carried through `x` and then through `y` equals the
/// checksum carried through the concatenation, from any seed.
pub proof fn lemma_append_chain(seed: u32, x: Seq<u8>, y: Seq<u8>)
    ensures
        spec_crc32c_append(spec_crc32c_append(seed, x), y) == spec_crc32c_append(seed, x + y),
{
    lemma_xor_basics(fold_bytes(!seed, x));
    lemma_fold_bytes_concat(!seed, x, y);
}

/// Appending is associative with the plain checksum: continuing the
/// checksum of `x` over `y` gives the checksum of `x` followed by `y`.
pub proof fn lemma_append_associative(x: Seq<u8>, y: Seq<u8>)
    ensures
        spec_crc32c_append(spec_crc32c(x), y) == spec_crc32c(x + y),
{
    lemma_append_chain(0u32, x, y);
}

/// Combining two checksums with the second length agrees with appending
/// the second message, for all messages.
pub proof fn lemma_combine_append(x: Seq<u8>, y: Seq<u8>)
    ensures
        spec_combine(spec_crc32c(x), spec_crc32c(y), y.len()) == spec_crc32c(x + y),
{
    if y.len() == 0 {
        assert(x + y =~= x);
    } else {
        let n = y.len();
        let ones = 0xFFFF_FFFFu32;
        let rx = fold_bytes(!0u32, x);
        let c1 = spec_crc32c(x);
        let c2 = spec_crc32c(y);

        lemma_not_is_xor(rx);
        assert(c1 == rx ^ ones) by {
            lemma_xor_basics(0u32);
        }
        lemma_stepn_linear(rx, ones, 8 * n);

        lemma_fold_bytes_affine(rx, y);
        lemma_fold_bytes_affine(!0u32, y);
        assert(!0u32 == 0xFFFF_FFFFu32) by (bit_vector);

        lemma_fold_bytes_concat(!0u32, x, y);

        let a = stepn(rx, 8 * n) ^ stepn(ones, 8 * n);
        let b = stepn(ones, 8 * n) ^ fold_bytes(0u32, y);
        lemma_xor_not(a, b);
        lemma_xor_shuffle(stepn(rx, 8 * n), stepn(ones, 8 * n), fold_bytes(0u32, y));
    }
}

/// Combining with the checksum of nothing over length zero returns the
/// first checksum unchanged.
pub proof fn lemma_combine_identity(c: u32)
    ensures
        spec_combine(c, 0u32, 0) == c,
{
}

/// Stream agreement: however a message is chunked, carrying the
/// checksum chunk by chunk ends at the checksum of the whole message.
pub proof fn lemma_stream_agreement(seed: u32, chunks: Seq<Seq<u8>>)
    ensures
        append_chunks(seed, chunks) == spec_crc32c_append(seed, chunks.flatten()),
    decreases chunks.len(),
{
    if chunks.len() == 0 {
        assert(chunks.flatten() =~= Seq::<u8>::empty());
        lemma_seeded_identity(seed);
    } else {
        let front = chunks.drop_last();
        lemma_stream_agreement(seed, front);
        lemma_append_chain(seed, front.flatten(), chunks.last());
        chunks.lemma_flatten_and_flatten_alt_are_equivalent();
        front.lemma_flatten_and_flatten_alt_are_equivalent();
        assert(chunks.flatten_alt() == front.flatten_alt() + chunks.last());
    }
}

} // verus!
