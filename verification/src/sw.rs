//! The software kernel: slicing-by-8 CRC-32C over whole quadwords,
//! with portable integer operations only.

use vstd::prelude::*;
use vstd::slice::slice_subrange;

use crate::lemmas::{
    lemma_byte_step_u64, lemma_div2, lemma_fold_bytes_concat, lemma_fold_words_bytes,
    lemma_low_byte_u32, lemma_step8_split, lemma_step_byte_table, lemma_stepn_add,
    lemma_u64_low_byte, lemma_u64_roundtrip, lemma_xor8_widen,
};
use crate::model::{
    fold_bytes, fold_words, slice8, spec_crc32c_append, stepn, xbyte, POLYNOMIAL,
};
use crate::util::{read_words, split_lengths, U64Le};

verus! {

/// Row `i`, entry `b` of the software table: byte value `b` advanced by
/// `8 * (i + 1)` zero bits, as if it appeared `i + 1` bytes before the
/// end of a zero-padded word.
pub open spec fn sw_entry(i: int, b: int) -> u32 {
    stepn(b as u32, (8 * (i + 1)) as nat)
}

/// 8-KiB lookup table.
pub struct CrcTable {
    rows: Vec<Vec<u32>>,
}

impl CrcTable {
    /// Eight rows of 256 entries, row `i` entry `b` being `b` advanced
    /// by `8 * (i + 1)` zero bits.
    pub closed spec fn wf(&self) -> bool {
        &&& self.rows@.len() == 8
        &&& forall|i: int| 0 <= i < 8 ==> self.rows@[i]@.len() == 256
        &&& forall|i: int, b: int|
            0 <= i < 8 && 0 <= b < 256 ==> self.rows@[i]@[b] == sw_entry(i, b)
    }

    /// Returns the table for a quadword-at-a-time software CRC.
    pub fn table() -> (t: CrcTable)
        ensures
            t.wf(),
    {
        let mut row0: Vec<u32> = Vec::new();
        let mut n: usize = 0;
        while n < 256
            invariant
                n <= 256,
                row0@.len() == n,
                forall|b: int| 0 <= b < n ==> row0@[b] == sw_entry(0, b),
            decreases 256 - n,
        {
            let mut crc: u32 = n as u32;
            let mut j: usize = 0;
            while j < 8
                invariant
                    j <= 8,
                    n < 256,
                    crc == stepn(n as u32, j as nat),
                decreases 8 - j,
            {
                proof {
                    lemma_div2(crc);
                }
                crc = if crc % 2 == 0 {
                    crc / 2
                } else {
                    (crc / 2) ^ POLYNOMIAL
                };
                j = j + 1;
            }
            row0.push(crc);
            n = n + 1;
        }
        let mut rows: Vec<Vec<u32>> = Vec::new();
        rows.push(row0);
        let mut k: usize = 1;
        while k < 8
            invariant
                1 <= k <= 8,
                rows@.len() == k,
                forall|i: int| 0 <= i < k ==> rows@[i]@.len() == 256,
                forall|i: int, b: int|
                    0 <= i < k && 0 <= b < 256 ==> rows@[i]@[b] == sw_entry(i, b),
            decreases 8 - k,
        {
            let mut row: Vec<u32> = Vec::new();
            let mut b: usize = 0;
            while b < 256
                invariant
                    1 <= k < 8,
                    b <= 256,
                    row@.len() == b,
                    rows@.len() == k,
                    forall|i: int| 0 <= i < k ==> rows@[i]@.len() == 256,
                    forall|i: int, x: int|
                        0 <= i < k && 0 <= x < 256 ==> rows@[i]@[x] == sw_entry(i, x),
                    forall|x: int| 0 <= x < b ==> row@[x] == sw_entry(k as int, x),
                decreases 256 - b,
            {
                let prev = rows[k - 1][b];
                let idx = prev as u8;
                let e = rows[0][idx as usize] ^ (prev >> 8u32);
                proof {
                    lemma_low_byte_u32(prev);
                    assert(prev == sw_entry(k - 1, b as int));
                    assert(rows@[0]@[idx as int] == sw_entry(0, idx as int));
                    assert(sw_entry(0, idx as int) == stepn(prev & 0xFF, 8));
                    lemma_step8_split(prev);
                    assert(e == stepn(prev, 8));
                    lemma_stepn_add(b as u32, (8 * k) as nat, 8);
                    assert(e == sw_entry(k as int, b as int));
                }
                row.push(e);
                b = b + 1;
            }
            rows.push(row);
            k = k + 1;
        }
        CrcTable { rows }
    }

    /// Returns an entry from the table.
    pub fn at(&self, i: u8, j: u8) -> (r: u64)
        requires
            self.wf(),
            i < 8,
        ensures
            r == sw_entry(i as int, j as int) as u64,
            r <= 0xFFFF_FFFFu64,
    {
        let i = i as usize;
        let j = j as usize;
        self.rows[i][j] as u64
    }
}

/// Software implementation of the algorithm.
pub fn crc32c(crci: u32, buffer: &[u8]) -> (r: u32)
    ensures
        r == spec_crc32c_append(crci, buffer@),
{
    crc32c_aligned(crci, buffer, 0)
}

/// The kernel for any choice of the word boundary: up to `align` bytes
/// go one at a time, whole words follow, the tail finishes.  Every
/// choice yields the same checksum.
pub fn crc32c_aligned(crci: u32, buffer: &[u8], align: usize) -> (r: u32)
    requires
        align < 8,
    ensures
        r == spec_crc32c_append(crci, buffer@),
{
    let table = CrcTable::table();

    let mut crc: u64 = (!crci) as u64;

    let (head, words, tail) = split_lengths(align, buffer.len());
    let mid_end = head + 8 * words;

    let start = slice_subrange(buffer, 0, head);
    crc = crc_u8(&table, crc, start);

    let ws = read_words(buffer, head, words);
    crc = crc_u64(&table, crc, ws.as_slice());

    let end = slice_subrange(buffer, mid_end, buffer.len());
    crc = crc_u8(&table, crc, end);

    proof {
        let all = buffer@;
        let s_head = all.subrange(0, head as int);
        let s_mid = all.subrange(head as int, mid_end as int);
        let s_tail = all.subrange(mid_end as int, all.len() as int);
        let vals = ws@.map_values(|w: U64Le| w.spec_get());
        assert forall|j: int| 0 <= j < words implies #[trigger] vals[j] == crate::model::le_word(
            s_mid.subrange(8 * j, 8 * j + 8),
        ) by {
            assert(s_mid.subrange(8 * j, 8 * j + 8) =~= all.subrange(
                head + 8 * j,
                head + 8 * j + 8,
            ));
        }
        lemma_fold_words_bytes(fold_bytes(!crci, s_head), s_mid, vals);
        lemma_fold_bytes_concat(!crci, s_head, s_mid);
        assert(s_head + s_mid =~= all.subrange(0, mid_end as int));
        lemma_fold_bytes_concat(!crci, all.subrange(0, mid_end as int), s_tail);
        assert(all.subrange(0, mid_end as int) + s_tail =~= all);
    }
    !(crc as u32)
}

/// Folds bytes into the widened working register, one at a time,
/// through row zero of the table.
pub(crate) fn crc_u8(table: &CrcTable, crc: u64, buffer: &[u8]) -> (r: u64)
    requires
        table.wf(),
        crc <= 0xFFFF_FFFFu64,
    ensures
        r <= 0xFFFF_FFFFu64,
        r as u32 == fold_bytes(crc as u32, buffer@),
{
    let mut c = crc;
    let mut i: usize = 0;
    while i < buffer.len()
        invariant
            table.wf(),
            c <= 0xFFFF_FFFFu64,
            i <= buffer@.len(),
            c as u32 == fold_bytes(crc as u32, buffer@.subrange(0, i as int)),
        decreases buffer@.len() - i,
    {
        let next = buffer[i];
        let index = (c ^ (next as u64)) as u8;
        let looked = table.at(0, index);
        proof {
            lemma_byte_step_u64(c, next);
            lemma_step_byte_table(c as u32, next);
            assert(buffer@.subrange(0, i + 1).drop_last() =~= buffer@.subrange(0, i as int));
            assert(buffer@.subrange(0, i + 1).last() == buffer@[i as int]);
        }
        c = looked ^ (c >> 8u64);
        i = i + 1;
    }
    proof {
        assert(buffer@.subrange(0, buffer@.len() as int) =~= buffer@);
    }
    c
}

/// Folds one little-endian word into the widened working register with
/// eight independent table lookups.
pub(crate) fn crc_u64_step(table: &CrcTable, crc: u64, w: u64) -> (r: u64)
    requires
        table.wf(),
        crc <= 0xFFFF_FFFFu64,
    ensures
        r <= 0xFFFF_FFFFu64,
        r as u32 == slice8(crc ^ w),
        r as u32 == fold_words(crc as u32, seq![w]),
{
    let x = crc ^ w;

    // Note: refactoring this to a for-loop worsens performance;
    // the lookups are independent and reorderable.
    let next = table.at(7, x as u8) ^ table.at(6, (x >> 8u64) as u8) ^ table.at(
        5,
        (x >> 16u64) as u8,
    ) ^ table.at(4, (x >> 24u64) as u8) ^ table.at(3, (x >> 32u64) as u8) ^ table.at(
        2,
        (x >> 40u64) as u8,
    ) ^ table.at(1, (x >> 48u64) as u8) ^ table.at(0, (x >> 56u64) as u8);

    proof {
        lemma_u64_roundtrip(crc);
        lemma_u64_low_byte(x);
        lemma_xor8_widen(
            stepn(xbyte(x, 0) as u32, 64),
            stepn(xbyte(x, 1) as u32, 56),
            stepn(xbyte(x, 2) as u32, 48),
            stepn(xbyte(x, 3) as u32, 40),
            stepn(xbyte(x, 4) as u32, 32),
            stepn(xbyte(x, 5) as u32, 24),
            stepn(xbyte(x, 6) as u32, 16),
            stepn(xbyte(x, 7) as u32, 8),
        );
        assert(next as u32 == slice8(x));
        let single = seq![w];
        assert(single.drop_last() =~= Seq::<u64>::empty());
        assert(single.last() == w);
        assert(fold_words(crc as u32, Seq::<u64>::empty()) == crc as u32);
        assert(fold_words(crc as u32, single) == slice8(((crc as u32) as u64) ^ w));
    }
    next
}

/// Folds whole little-endian words into the widened working register,
/// one word at a time.
pub(crate) fn crc_u64(table: &CrcTable, crci: u64, buffer: &[U64Le]) -> (r: u64)
    requires
        table.wf(),
        crci <= 0xFFFF_FFFFu64,
    ensures
        r <= 0xFFFF_FFFFu64,
        r as u32 == fold_words(crci as u32, buffer@.map_values(|w: U64Le| w.spec_get())),
{
    let ghost vals = buffer@.map_values(|w: U64Le| w.spec_get());
    let mut c = crci;
    let mut i: usize = 0;
    while i < buffer.len()
        invariant
            table.wf(),
            c <= 0xFFFF_FFFFu64,
            i <= buffer@.len(),
            vals == buffer@.map_values(|w: U64Le| w.spec_get()),
            c as u32 == fold_words(crci as u32, vals.subrange(0, i as int)),
        decreases buffer@.len() - i,
    {
        let w = buffer[i].get();
        let next = crc_u64_step(table, c, w);
        proof {
            lemma_u64_roundtrip(c);
            assert(vals.subrange(0, i + 1).drop_last() =~= vals.subrange(0, i as int));
            assert(vals.subrange(0, i + 1).last() == vals[i as int]);
        }
        c = next;
        i = i + 1;
    }
    proof {
        assert(vals.subrange(0, vals.len() as int) =~= vals);
    }
    c
}

} // verus!
