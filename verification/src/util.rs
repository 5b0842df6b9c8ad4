//! Buffer carving: little-endian word loads and the head/body/tail
//! split that the kernels share.

use vstd::prelude::*;

use crate::model::le_word;

verus! {

/// A newtype wrapper for a 64-bit word read from eight consecutive
/// bytes in little-endian order, whatever the host byte order.
#[derive(Clone, Copy)]
pub struct U64Le(u64);

impl U64Le {
    /// The word value this wrapper holds.
    pub closed spec fn spec_get(self) -> u64 {
        self.0
    }

    /// Returns the word value.
    pub fn get(self) -> (w: u64)
        ensures
            w == self.spec_get(),
    {
        self.0
    }
}

/// Reads the eight bytes at `i` as one little-endian word.
pub fn read_u64le(buffer: &[u8], i: usize) -> (w: U64Le)
    requires
        i + 8 <= buffer@.len(),
    ensures
        w.spec_get() == le_word(buffer@.subrange(i as int, i + 8)),
{
    let w: u64 = (buffer[i] as u64) | ((buffer[i + 1] as u64) << 8u64) | ((buffer[i + 2] as u64)
        << 16u64) | ((buffer[i + 3] as u64) << 24u64) | ((buffer[i + 4] as u64) << 32u64) | ((
    buffer[i + 5] as u64) << 40u64) | ((buffer[i + 6] as u64) << 48u64) | ((buffer[i + 7] as u64)
        << 56u64);
    proof {
        let s = buffer@.subrange(i as int, i + 8);
        assert(s[0] == buffer@[i as int]);
        assert(s[1] == buffer@[i + 1]);
        assert(s[2] == buffer@[i + 2]);
        assert(s[3] == buffer@[i + 3]);
        assert(s[4] == buffer@[i + 4]);
        assert(s[5] == buffer@[i + 5]);
        assert(s[6] == buffer@[i + 6]);
        assert(s[7] == buffer@[i + 7]);
    }
    U64Le(w)
}

/// Reads `count` consecutive words starting at byte `start`.
///
/// The spec mandates the little-endian word semantics, not the load
/// mechanism; here the aligned region is read with explicit
/// little-endian loads.
pub fn read_words(buffer: &[u8], start: usize, count: usize) -> (ws: Vec<U64Le>)
    requires
        start + 8 * count <= buffer@.len(),
    ensures
        ws@.len() == count,
        forall|k: int|
            0 <= k < count ==> ws@[k].spec_get() == le_word(
                buffer@.subrange(start + 8 * k, start + 8 * k + 8),
            ),
{
    let buf_len = buffer.len();
    let mut ws: Vec<U64Le> = Vec::new();
    let mut k: usize = 0;
    while k < count
        invariant
            k <= count,
            start + 8 * count <= buf_len,
            buf_len == buffer@.len(),
            ws@.len() == k,
            forall|j: int|
                0 <= j < k ==> ws@[j].spec_get() == le_word(
                    buffer@.subrange(start + 8 * j, start + 8 * j + 8),
                ),
        decreases count - k,
    {
        let w = read_u64le(buffer, start + 8 * k);
        ws.push(w);
        k = k + 1;
    }
    ws
}

/// Splits a buffer of `len` bytes into three ranges:
/// - a head of up to `align` bytes, handled one byte at a time;
/// - a body of whole eight-byte words;
/// - a tail of fewer than eight trailing bytes.
///
/// A buffer too short to reach the chosen boundary is all head.
pub fn split_lengths(align: usize, len: usize) -> (r: (usize, usize, usize))
    requires
        align < 8,
    ensures
        ({
            let (head, words, tail) = r;
            &&& head + 8 * words + tail == len
            &&& head <= align
            &&& tail < 8
            &&& (align <= len ==> head == align)
            &&& (align > len ==> head == len)
        }),
{
    let head = if align <= len {
        align
    } else {
        len
    };
    let rest = len - head;
    let words = rest / 8;
    let tail = rest % 8;
    proof {
        assert(8 * (rest / 8) + rest % 8 == rest) by (nonlinear_arith);
        assert(rest % 8 < 8) by (nonlinear_arith);
    }
    (head, words, tail)
}

} // verus!
