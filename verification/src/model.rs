//! The mathematical model of the CRC-32C register.
//!
//! The externally visible checksum is the bit-complemented register per
//! standard CRC-32C convention: every operation complements its seed into
//! the raw register, advances the register, and complements the result.
//! The raw register advances one bit at a time ([`step1`]): shift right,
//! and fold the polynomial back in when a one bit falls out.  All
//! executable kernels, however they batch their work, are proved to equal
//! [`spec_crc32c_append`].

use vstd::prelude::*;

verus! {

/// CRC-32-Castagnoli polynomial in reversed bit order.
pub const POLYNOMIAL: u32 = 0x82F63B78;

/// Advance the raw register by one zero bit.
pub open spec fn step1(r: u32) -> u32 {
    if r & 1 == 1 {
        (r >> 1u32) ^ POLYNOMIAL
    } else {
        r >> 1u32
    }
}

/// Advance the raw register by `n` zero bits.
pub open spec fn stepn(r: u32, n: nat) -> u32
    decreases n,
{
    if n == 0 {
        r
    } else {
        step1(stepn(r, (n - 1) as nat))
    }
}

/// Feed one message byte into the raw register.
pub open spec fn step_byte(r: u32, b: u8) -> u32 {
    stepn(r ^ (b as u32), 8)
}

/// Feed a whole message into the raw register, first byte first.
pub open spec fn fold_bytes(r: u32, s: Seq<u8>) -> u32
    decreases s.len(),
{
    if s.len() == 0 {
        r
    } else {
        step_byte(fold_bytes(r, s.drop_last()), s.last())
    }
}

/// The checksum of `s` continued from a previous checksum `seed`.
pub open spec fn spec_crc32c_append(seed: u32, s: Seq<u8>) -> u32 {
    !fold_bytes(!seed, s)
}

/// The checksum of `s` alone.
pub open spec fn spec_crc32c(s: Seq<u8>) -> u32 {
    spec_crc32c_append(0, s)
}

/// The checksum of a concatenation, from the two checksums and the second
/// length alone: advance `c1` by `8 * n` zero bits and add `c2`.
///
/// An empty second stream leaves the first checksum untouched.
pub open spec fn spec_combine(c1: u32, c2: u32, n: nat) -> u32 {
    if n == 0 {
        c1
    } else {
        stepn(c1, 8 * n) ^ c2
    }
}

/// A sequence of `n` zero bytes.
pub open spec fn zeros(n: nat) -> Seq<u8> {
    Seq::new(n, |i: int| 0u8)
}

/// Pointwise exclusive or of two byte sequences of equal length.
pub open spec fn xor_seq(s: Seq<u8>, t: Seq<u8>) -> Seq<u8> {
    Seq::new(s.len(), |i: int| s[i] ^ t[i])
}

/// The little-endian 64-bit reading of eight bytes.
pub open spec fn le_word(s: Seq<u8>) -> u64 {
    (s[0] as u64) | ((s[1] as u64) << 8u64) | ((s[2] as u64) << 16u64) | ((s[3] as u64)
        << 24u64) | ((s[4] as u64) << 32u64) | ((s[5] as u64) << 40u64) | ((s[6] as u64)
        << 48u64) | ((s[7] as u64) << 56u64)
}

/// Byte `i` (0 = lowest) of a 64-bit word.
pub open spec fn xbyte(x: u64, i: int) -> u8 {
    (x >> ((8 * i) as u64)) as u8
}

/// Byte `i` (0 = lowest) of a 32-bit word.
pub open spec fn rbyte(r: u32, i: int) -> u8 {
    (r >> ((8 * i) as u32)) as u8
}

/// The four bytes of a register followed by four zero bytes: the
/// message that cancels the register out of a word-sized window.
pub open spec fn rseq(r: u32) -> Seq<u8> {
    Seq::new(8, |i: int| if i < 4 { rbyte(r, i) } else { 0u8 })
}

/// The slicing form of one word step: the eight bytes of the working
/// value `x`, each advanced over what follows it, accumulated left to
/// right.
pub open spec fn slice8(x: u64) -> u32 {
    ((((((stepn(xbyte(x, 0) as u32, 64) ^ stepn(xbyte(x, 1) as u32, 56)) ^ stepn(
        xbyte(x, 2) as u32,
        48,
    )) ^ stepn(xbyte(x, 3) as u32, 40)) ^ stepn(xbyte(x, 4) as u32, 32)) ^ stepn(
        xbyte(x, 5) as u32,
        24,
    )) ^ stepn(xbyte(x, 6) as u32, 16)) ^ stepn(xbyte(x, 7) as u32, 8)
}

/// Feed a sequence of little-endian word values into the raw register,
/// one whole word at a time, through the slicing form.
pub open spec fn fold_words(r: u32, ws: Seq<u64>) -> u32
    decreases ws.len(),
{
    if ws.len() == 0 {
        r
    } else {
        slice8((fold_words(r, ws.drop_last()) as u64) ^ ws.last())
    }
}

/// The bytes of a sequence of 64-bit words, little-endian, in order.
pub open spec fn wbytes(ws: Seq<u64>) -> Seq<u8> {
    Seq::new(8 * ws.len(), |i: int| xbyte(ws[i / 8], i % 8))
}

/// A running checksum carried through a sequence of chunks, one
/// [`spec_crc32c_append`] per chunk.
pub open spec fn append_chunks(seed: u32, chunks: Seq<Seq<u8>>) -> u32
    decreases chunks.len(),
{
    if chunks.len() == 0 {
        seed
    } else {
        spec_crc32c_append(append_chunks(seed, chunks.drop_last()), chunks.last())
    }
}

/// The contributions of the bytes of `s` from position `i` on, each byte
/// advanced over the rest of the sequence: byte `j` contributes
/// `stepn(s[j], 8 * (len - j))`.
pub open spec fn tabsum_from(s: Seq<u8>, i: int) -> u32
    decreases s.len() - i,
{
    if i < 0 || i >= s.len() {
        0u32
    } else {
        stepn(s[i] as u32, (8 * (s.len() - i)) as nat) ^ tabsum_from(s, i + 1)
    }
}

} // verus!
