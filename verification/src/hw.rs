//! The three-lane kernel with operator-table fusion.
//!
//! On processors with a native CRC-32C instruction, one update per
//! quadword exposes only the instruction's latency; folding three
//! interleaved blocks at once and fusing the lanes with zero-operator
//! tables recovers its throughput.  Here the per-word update itself is
//! the portable table step from [`crate::sw`], and what is verified is
//! the three-lane structure: that folding three blocks in lock step and
//! fusing them with the "advance by a block of zero bytes" operator
//! yields exactly the sequential checksum.

use vstd::arithmetic::power2::{lemma2_to64, pow2};
use vstd::prelude::*;
use vstd::slice::slice_subrange;

use crate::lemmas::{
    lemma_fold_bytes_concat, lemma_fold_words_affine, lemma_fold_words_bytes,
    lemma_fold_words_concat, lemma_stepn_linear, lemma_u64_roundtrip, lemma_xor_widen2,
};
use crate::matrix::{create_zero_operator, represents};
use crate::model::{fold_bytes, fold_words, spec_crc32c_append, stepn};
use crate::util::{read_words, split_lengths, U64Le};

verus! {

/// Bytes per block in the long phase.
pub const LONG: usize = 8192;

/// Bytes per block in the short phase.
pub const SHORT: usize = 256;

/// Entry `[i][b]` of the zero-operator table for `len` zero bytes: the
/// operator applied to the 32-bit vector `b << (8 * i)`.
pub open spec fn hw_entry(len: nat, i: int, b: int) -> u32 {
    stepn((b as u32) << ((8 * i) as u32), (8 * len) as nat)
}

/// A widening shift seen from 32 bits.
proof fn lemma_shift_widen(n: usize, s: usize)
    by (bit_vector)
    requires
        n < 256,
        s <= 24,
    ensures
        ((n << s) as u32) == (n as u32) << (s as u32),
{
}

/// A 32-bit vector is the xor of its four shifted bytes.
proof fn lemma_byte_split_u32(c: u32)
    by (bit_vector)
    ensures
        c == (((c as u8) as u32) << 0u32) ^ (((((c >> 8u32) as u8) as u32) << 8u32) ^ (((((c
            >> 16u32) as u8) as u32) << 16u32) ^ ((((c >> 24u32) as u8) as u32) << 24u32))),
{
}

/// The low 32 bits of a word are the xor of its four low shifted bytes.
proof fn lemma_byte_split_u64(x: u64)
    by (bit_vector)
    ensures
        (x as u32) == (((x as u8) as u32) << 0u32) ^ (((((x >> 8u64) as u8) as u32) << 8u32) ^ ((
        (((x >> 16u64) as u8) as u32) << 16u32) ^ ((((x >> 24u64) as u8) as u32) << 24u32))),
{
}

/// Regrouping a four-term xor from the right-nested form to the
/// left-nested form in which it is accumulated.
proof fn lemma_xor4_regroup(a0: u32, a1: u32, a2: u32, a3: u32)
    by (bit_vector)
    ensures
        a0 ^ (a1 ^ (a2 ^ a3)) == ((a0 ^ a1) ^ a2) ^ a3,
{
}

/// The widened xor of four 32-bit values equals the 32-bit xor and
/// stays within 32 bits.
proof fn lemma_xor4_widen(a0: u32, a1: u32, a2: u32, a3: u32)
    by (bit_vector)
    ensures
        ((((a0 as u64) ^ (a1 as u64)) ^ (a2 as u64)) ^ (a3 as u64)) <= 0xFFFF_FFFFu64,
        (((((a0 as u64) ^ (a1 as u64)) ^ (a2 as u64)) ^ (a3 as u64)) as u32) == (((a0 ^ a1) ^ a2)
            ^ a3),
{
}

/// A 4-by-256 operator table: the zero operator for a fixed number of
/// zero bytes, tabulated for every byte at every byte position.
pub struct CrcTable {
    rows: Vec<Vec<u32>>,
    bytes: Ghost<nat>,
}

impl CrcTable {
    /// How many zero bytes one application of the table advances by.
    pub closed spec fn spec_len(&self) -> nat {
        self.bytes@
    }

    /// Four rows of 256 entries, row `i` entry `b` holding the operator
    /// applied to `b << (8 * i)`.
    pub closed spec fn wf(&self) -> bool {
        &&& self.rows@.len() == 4
        &&& forall|i: int| 0 <= i < 4 ==> self.rows@[i]@.len() == 256
        &&& forall|i: int, b: int|
            0 <= i < 4 && 0 <= b < 256 ==> self.rows@[i]@[b] == hw_entry(self.spec_len(), i, b)
    }

    /// Builds the operator table for `len` zero bytes.
    pub fn new(len: usize) -> (t: CrcTable)
        requires
            len >= 1,
            exists|k: nat| len == pow2(k),
        ensures
            t.wf(),
            t.spec_len() == len,
    {
        let op = create_zero_operator(len);
        let mut rows: Vec<Vec<u32>> = Vec::new();
        let mut i: usize = 0;
        while i < 4
            invariant
                i <= 4,
                rows@.len() == i,
                represents(op@, (8 * len) as nat),
                forall|x: int| 0 <= x < i ==> rows@[x]@.len() == 256,
                forall|x: int, b: int|
                    0 <= x < i && 0 <= b < 256 ==> rows@[x]@[b] == hw_entry(len as nat, x, b),
            decreases 4 - i,
        {
            let shift = 8 * i;
            let mut row: Vec<u32> = Vec::new();
            let mut n: usize = 0;
            while n < 256
                invariant
                    i < 4,
                    shift == 8 * i,
                    n <= 256,
                    row@.len() == n,
                    represents(op@, (8 * len) as nat),
                    forall|b: int| 0 <= b < n ==> row@[b] == hw_entry(len as nat, i as int, b),
                decreases 256 - n,
            {
                let v = (n << shift) as u32;
                let e = op.times(v);
                proof {
                    lemma_shift_widen(n, shift);
                }
                row.push(e);
                n = n + 1;
            }
            rows.push(row);
            i = i + 1;
        }
        CrcTable { rows, bytes: Ghost(len as nat) }
    }

    /// Returns an entry from the table.
    pub fn at(&self, i: u8, j: u8) -> (r: u64)
        requires
            self.wf(),
            i < 4,
        ensures
            r == hw_entry(self.spec_len(), i as int, j as int) as u64,
            r <= 0xFFFF_FFFFu64,
    {
        let i = i as usize;
        let j = j as usize;
        self.rows[i][j] as u64
    }

    /// Applies the zero operator to a 32-bit vector by byte
    /// decomposition: four lookups, xored.
    pub fn shift_u32(&self, crc: u32) -> (r: u32)
        requires
            self.wf(),
        ensures
            r == stepn(crc, (8 * self.spec_len()) as nat),
    {
        let i = self.rows[0][(crc as u8) as usize];
        let j = self.rows[1][((crc >> 8u32) as u8) as usize];
        let k = self.rows[2][((crc >> 16u32) as u8) as usize];
        let l = self.rows[3][((crc >> 24u32) as u8) as usize];
        let r = ((i ^ j) ^ k) ^ l;
        proof {
            let steps = (8 * self.spec_len()) as nat;
            let a0 = ((crc as u8) as u32) << 0u32;
            let a1 = (((crc >> 8u32) as u8) as u32) << 8u32;
            let a2 = (((crc >> 16u32) as u8) as u32) << 16u32;
            let a3 = (((crc >> 24u32) as u8) as u32) << 24u32;
            lemma_byte_split_u32(crc);
            assert(i == hw_entry(self.spec_len(), 0, (((crc as u8) as usize) as int)));
            assert(j == hw_entry(self.spec_len(), 1, ((((crc >> 8u32) as u8) as usize) as int)));
            assert(k == hw_entry(self.spec_len(), 2, ((((crc >> 16u32) as u8) as usize) as int)));
            assert(l == hw_entry(self.spec_len(), 3, ((((crc >> 24u32) as u8) as usize) as int)));
            assert(i == stepn(a0, steps));
            assert(j == stepn(a1, steps));
            assert(k == stepn(a2, steps));
            assert(l == stepn(a3, steps));
            lemma_stepn_linear(a0, a1 ^ (a2 ^ a3), steps);
            lemma_stepn_linear(a1, a2 ^ a3, steps);
            lemma_stepn_linear(a2, a3, steps);
            lemma_xor4_regroup(stepn(a0, steps), stepn(a1, steps), stepn(a2, steps), stepn(a3, steps));
        }
        r
    }

    /// Applies the zero operator to the low 32 bits of the widened
    /// working register.
    pub fn shift_u64(&self, crc: u64) -> (r: u64)
        requires
            self.wf(),
        ensures
            r <= 0xFFFF_FFFFu64,
            r as u32 == stepn(crc as u32, (8 * self.spec_len()) as nat),
    {
        let i = self.at(0, crc as u8);
        let j = self.at(1, (crc >> 8u64) as u8);
        let k = self.at(2, (crc >> 16u64) as u8);
        let l = self.at(3, (crc >> 24u64) as u8);
        let r = ((i ^ j) ^ k) ^ l;
        proof {
            let steps = (8 * self.spec_len()) as nat;
            let a0 = ((crc as u8) as u32) << 0u32;
            let a1 = (((crc >> 8u64) as u8) as u32) << 8u32;
            let a2 = (((crc >> 16u64) as u8) as u32) << 16u32;
            let a3 = (((crc >> 24u64) as u8) as u32) << 24u32;
            lemma_byte_split_u64(crc);
            lemma_stepn_linear(a0, a1 ^ (a2 ^ a3), steps);
            lemma_stepn_linear(a1, a2 ^ a3, steps);
            lemma_stepn_linear(a2, a3, steps);
            lemma_xor4_regroup(stepn(a0, steps), stepn(a1, steps), stepn(a2, steps), stepn(a3, steps));
            lemma_xor4_widen(stepn(a0, steps), stepn(a1, steps), stepn(a2, steps), stepn(a3, steps));
        }
        r
    }

    /// Applies the zero operator to the low 32 bits of the widened
    /// working register.
    pub fn shift(&self, crc: u64) -> (r: u64)
        requires
            self.wf(),
        ensures
            r <= 0xFFFF_FFFFu64,
            r as u32 == stepn(crc as u32, (8 * self.spec_len()) as nat),
    {
        self.shift_u64(crc)
    }
}

/// Three-lane implementation of the algorithm.
pub fn crc32c(crci: u32, buffer: &[u8]) -> (r: u32)
    ensures
        r == spec_crc32c_append(crci, buffer@),
{
    crc32c_aligned(crci, buffer, 0)
}

/// The three-lane kernel for any choice of the word boundary: up to
/// `align` head bytes one at a time, whole words in fused chunks of
/// three blocks, then the leftover words and the tail.
#[verifier::rlimit(60)]
pub fn crc32c_aligned(crci: u32, buffer: &[u8], align: usize) -> (r: u32)
    requires
        align < 8,
    ensures
        r == spec_crc32c_append(crci, buffer@),
{
    let sw_table = crate::sw::CrcTable::table();
    proof {
        lemma2_to64();
        assert(LONG == pow2(13));
        assert(SHORT == pow2(8));
    }
    let long_table = CrcTable::new(LONG);
    let short_table = CrcTable::new(SHORT);

    let mut crc: u64 = (!crci) as u64;

    let (head, words, tail) = split_lengths(align, buffer.len());
    let mid_end = head + 8 * words;

    let start = slice_subrange(buffer, 0, head);
    crc = crate::sw::crc_u8(&sw_table, crc, start);

    let ws = read_words(buffer, head, words);
    let wslice = ws.as_slice();

    // First do chunks of size LONG * 3.
    let chunk_size = (LONG * 3) / 8;
    proof {
        lemma_chunk_multiple(wslice@.len() as usize, chunk_size);
    }
    let last_chunk = wslice.len() / chunk_size * chunk_size;
    let first = slice_subrange(wslice, 0, last_chunk);
    crc = crc_u64_parallel3(&sw_table, crc, chunk_size, &long_table, first);

    // Now do chunks of size SHORT * 3.
    let chunk_size2 = (SHORT * 3) / 8;
    let rem = wslice.len() - last_chunk;
    proof {
        lemma_chunk_multiple(rem, chunk_size2);
    }
    let last_chunk2 = rem / chunk_size2 * chunk_size2;
    let second = slice_subrange(wslice, last_chunk, last_chunk + last_chunk2);
    crc = crc_u64_parallel3(&sw_table, crc, chunk_size2, &short_table, second);

    // The last part: fewer than SHORT * 3 bytes, still whole words.
    let rest = slice_subrange(wslice, last_chunk + last_chunk2, wslice.len());
    crc = crate::sw::crc_u64(&sw_table, crc, rest);

    // Final unaligned remainder.
    let end = slice_subrange(buffer, mid_end, buffer.len());
    crc = crate::sw::crc_u8(&sw_table, crc, end);

    proof {
        let all = buffer@;
        let s_head = all.subrange(0, head as int);
        let s_mid = all.subrange(head as int, mid_end as int);
        let s_tail = all.subrange(mid_end as int, all.len() as int);
        let vals = ws@.map_values(|w: U64Le| w.spec_get());
        let r0 = fold_bytes(!crci, s_head);

        let v1 = vals.subrange(0, last_chunk as int);
        let v2 = vals.subrange(last_chunk as int, (last_chunk + last_chunk2) as int);
        let v3 = vals.subrange((last_chunk + last_chunk2) as int, vals.len() as int);
        assert(first@.map_values(|w: U64Le| w.spec_get()) =~= v1);
        assert(second@.map_values(|w: U64Le| w.spec_get()) =~= v2);
        assert(rest@.map_values(|w: U64Le| w.spec_get()) =~= v3);
        lemma_fold_words_concat(r0, v1, v2);
        lemma_fold_words_concat(r0, v1 + v2, v3);
        assert(v1 + v2 =~= vals.subrange(0, (last_chunk + last_chunk2) as int));
        assert((v1 + v2) + v3 =~= vals);

        assert forall|j: int| 0 <= j < words implies #[trigger] vals[j] == crate::model::le_word(
            s_mid.subrange(8 * j, 8 * j + 8),
        ) by {
            assert(s_mid.subrange(8 * j, 8 * j + 8) =~= all.subrange(
                head + 8 * j,
                head + 8 * j + 8,
            ));
        }
        lemma_fold_words_bytes(r0, s_mid, vals);
        lemma_fold_bytes_concat(!crci, s_head, s_mid);
        assert(s_head + s_mid =~= all.subrange(0, mid_end as int));
        lemma_fold_bytes_concat(!crci, all.subrange(0, mid_end as int), s_tail);
        assert(all.subrange(0, mid_end as int) + s_tail =~= all);
    }
    !(crc as u32)
}

/// Rounding down to a whole number of chunks leaves a multiple.
proof fn lemma_chunk_multiple(len: usize, chunk: usize)
    requires
        chunk > 0,
    ensures
        ((len / chunk * chunk) as int) % (chunk as int) == 0,
        len / chunk * chunk <= len,
    decreases 0int,
{
    assert(((len / chunk * chunk) as int) % (chunk as int) == 0 && len / chunk * chunk <= len) by (nonlinear_arith)
        requires
            chunk > 0,
    ;
}

/// Three-lane version of the word fold.
///
/// Calculates the CRC for a stretch of whole chunks, each chunk divided
/// in three blocks folded in lock step and fused with the operator
/// table made for the block size.
fn crc_u64_parallel3(
    sw_table: &crate::sw::CrcTable,
    crc: u64,
    chunk_size: usize,
    table: &CrcTable,
    buffer: &[U64Le],
) -> (r: u64)
    requires
        sw_table.wf(),
        table.wf(),
        crc <= 0xFFFF_FFFFu64,
        chunk_size >= 3,
        chunk_size % 3 == 0,
        table.spec_len() == 8 * (chunk_size / 3),
        (buffer@.len() as int) % (chunk_size as int) == 0,
    ensures
        r <= 0xFFFF_FFFFu64,
        r as u32 == fold_words(crc as u32, buffer@.map_values(|w: U64Le| w.spec_get())),
{
    let ghost vals = buffer@.map_values(|w: U64Le| w.spec_get());
    let len = buffer.len();
    let block_size = chunk_size / 3;

    let mut c = crc;
    let mut pos: usize = 0;
    proof {
        assert(vals.subrange(0, 0) =~= Seq::<u64>::empty());
    }
    while pos < len
        invariant
            sw_table.wf(),
            table.wf(),
            chunk_size == 3 * block_size,
            block_size >= 1,
            table.spec_len() == 8 * block_size,
            len == buffer@.len(),
            vals == buffer@.map_values(|w: U64Le| w.spec_get()),
            pos <= len,
            (pos as int) % (chunk_size as int) == 0,
            (len as int) % (chunk_size as int) == 0,
            c <= 0xFFFF_FFFFu64,
            c as u32 == fold_words(crc as u32, vals.subrange(0, pos as int)),
        decreases len - pos,
    {
        proof {
            assert(pos + chunk_size <= len) by (nonlinear_arith)
                requires
                    (pos as int) % (chunk_size as int) == 0,
                    (len as int) % (chunk_size as int) == 0,
                    pos < len,
                    chunk_size >= 3,
            ;
        }
        let ghost block_a = vals.subrange(pos as int, pos + block_size);
        let ghost block_b = vals.subrange(pos + block_size, pos + 2 * block_size);
        let ghost block_c = vals.subrange(pos + 2 * block_size, pos + 3 * block_size);

        let mut c0 = c;
        let mut c1: u64 = 0;
        let mut c2: u64 = 0;

        let mut i: usize = 0;
        while i < block_size
            invariant
                sw_table.wf(),
                i <= block_size,
                block_size >= 1,
                pos + 3 * block_size <= len,
                len == buffer@.len(),
                vals == buffer@.map_values(|w: U64Le| w.spec_get()),
                block_a == vals.subrange(pos as int, pos + block_size),
                block_b == vals.subrange(pos + block_size, pos + 2 * block_size),
                block_c == vals.subrange(pos + 2 * block_size, pos + 3 * block_size),
                c <= 0xFFFF_FFFFu64,
                c0 <= 0xFFFF_FFFFu64,
                c1 <= 0xFFFF_FFFFu64,
                c2 <= 0xFFFF_FFFFu64,
                c0 as u32 == fold_words(c as u32, block_a.subrange(0, i as int)),
                c1 as u32 == fold_words(0u32, block_b.subrange(0, i as int)),
                c2 as u32 == fold_words(0u32, block_c.subrange(0, i as int)),
            decreases block_size - i,
        {
            let a = buffer[pos + i].get();
            let b = buffer[pos + block_size + i].get();
            let d = buffer[pos + 2 * block_size + i].get();
            proof {
                lemma_u64_roundtrip(c0);
                lemma_u64_roundtrip(c1);
                lemma_u64_roundtrip(c2);
                assert(block_a.subrange(0, i + 1).drop_last() =~= block_a.subrange(0, i as int));
                assert(block_b.subrange(0, i + 1).drop_last() =~= block_b.subrange(0, i as int));
                assert(block_c.subrange(0, i + 1).drop_last() =~= block_c.subrange(0, i as int));
                assert(block_a.subrange(0, i + 1).last() == a@);
                assert(block_b.subrange(0, i + 1).last() == b@);
                assert(block_c.subrange(0, i + 1).last() == d@);
            }
            c0 = crate::sw::crc_u64_step(sw_table, c0, a);
            c1 = crate::sw::crc_u64_step(sw_table, c1, b);
            c2 = crate::sw::crc_u64_step(sw_table, c2, d);
            i = i + 1;
        }

        proof {
            assert(block_a.subrange(0, block_size as int) =~= block_a);
            assert(block_b.subrange(0, block_size as int) =~= block_b);
            assert(block_c.subrange(0, block_size as int) =~= block_c);
        }

        // Fuse: each lane that started at zero is aligned with the
        // accumulated lane by one application of the zero operator for
        // a whole block, then xored in.
        let sh0 = table.shift_u64(c0);
        proof {
            lemma_xor_widen2(sh0, c1);
            lemma_fold_words_affine(fold_words(c as u32, block_a), block_b);
            lemma_fold_words_concat(c as u32, block_a, block_b);
        }
        let s0 = sh0 ^ c1;

        let sh1 = table.shift_u64(s0);
        proof {
            lemma_xor_widen2(sh1, c2);
            lemma_fold_words_affine(fold_words(c as u32, block_a + block_b), block_c);
            lemma_fold_words_concat(c as u32, block_a + block_b, block_c);
            assert((block_a + block_b) + block_c =~= vals.subrange(pos as int, pos + chunk_size));
            lemma_fold_words_concat(
                crc as u32,
                vals.subrange(0, pos as int),
                vals.subrange(pos as int, pos + chunk_size),
            );
            assert(vals.subrange(0, pos as int) + vals.subrange(pos as int, pos + chunk_size)
                =~= vals.subrange(0, pos + chunk_size));
        }
        let s1 = sh1 ^ c2;

        proof {
            assert(((pos + chunk_size) as int) % (chunk_size as int) == 0) by (nonlinear_arith)
                requires
                    (pos as int) % (chunk_size as int) == 0,
                    chunk_size >= 3,
            ;
        }
        c = s1;
        pos = pos + chunk_size;
    }
    proof {
        assert(vals.subrange(0, len as int) =~= vals);
    }
    c
}

} // verus!
