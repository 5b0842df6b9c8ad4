//! Wrappers for byte sources and sinks which checksum the bytes that
//! actually cross them.
//!
//! The wrappers keep one invariant: the checksum reflects exactly the
//! bytes the inner source handed out, or the prefix the inner sink
//! reported as accepted — never the bytes merely offered.

use vstd::prelude::*;
use vstd::slice::slice_subrange;

use crate::model::spec_crc32c_append;

verus! {

/// A pull source of bytes: each call yields the next chunk, of at most
/// the asked-for size, empty at end of stream.
pub trait ByteSource {
    /// Reads up to `max` more bytes.
    fn read_chunk(&mut self, max: usize) -> (out: Vec<u8>)
        ensures
            out@.len() <= max,
    ;
}

/// A push sink of bytes: each call accepts some prefix of the offered
/// data and reports its length.
pub trait ByteSink {
    /// Writes from `data`, returning how many leading bytes were
    /// accepted.
    fn write_chunk(&mut self, data: &[u8]) -> (n: usize)
        ensures
            n <= data@.len(),
    ;

    /// Forwards any buffered bytes onward.
    fn flush(&mut self);
}

/// A source that hands out the bytes of an owned buffer, in order.
pub struct SliceSource {
    data: Vec<u8>,
    pos: usize,
}

impl SliceSource {
    /// The whole underlying buffer.
    pub closed spec fn spec_data(&self) -> Seq<u8> {
        self.data@
    }

    /// How many bytes have been handed out.
    pub closed spec fn spec_pos(&self) -> int {
        self.pos as int
    }

    /// A source positioned at the start of `data`.
    pub fn new(data: Vec<u8>) -> (s: Self)
        ensures
            s.spec_data() == data@,
            s.spec_pos() == 0,
    {
        SliceSource { data, pos: 0 }
    }
}

impl ByteSource for SliceSource {
    /// Hands out the next `max` bytes of the buffer, fewer at its end.
    fn read_chunk(&mut self, max: usize) -> (out: Vec<u8>)
        ensures
            ({
                let start = if old(self).spec_pos() <= old(self).spec_data().len() {
                    old(self).spec_pos()
                } else {
                    old(self).spec_data().len() as int
                };
                &&& final(self).spec_data() == old(self).spec_data()
                &&& final(self).spec_pos() == start + out@.len()
                &&& out@ == old(self).spec_data().subrange(start, final(self).spec_pos())
                &&& (out@.len() == max || final(self).spec_pos()
                    == old(self).spec_data().len())
            }),
    {
        let len = self.data.len();
        let start = if self.pos < len {
            self.pos
        } else {
            len
        };
        let end = if max <= len - start {
            start + max
        } else {
            len
        };
        let mut out: Vec<u8> = Vec::new();
        let mut i = start;
        while i < end
            invariant
                start <= i <= end <= self.data@.len(),
                end - start <= max,
                out@.len() == i - start,
                out@ == self.data@.subrange(start as int, i as int),
            decreases end - i,
        {
            let b = self.data[i];
            out.push(b);
            proof {
                assert(self.data@.subrange(start as int, i + 1) =~= self.data@.subrange(
                    start as int,
                    i as int,
                ).push(b));
            }
            i = i + 1;
        }
        self.pos = end;
        out
    }
}

/// A sink that appends everything offered into an owned buffer.
pub struct VecSink {
    data: Vec<u8>,
}

impl VecSink {
    /// The bytes accepted so far.
    pub closed spec fn spec_data(&self) -> Seq<u8> {
        self.data@
    }

    /// An empty sink.
    pub fn new() -> (s: Self)
        ensures
            s.spec_data() == Seq::<u8>::empty(),
    {
        VecSink { data: Vec::new() }
    }

    /// Unwraps the collected bytes.
    pub fn into_vec(self) -> (v: Vec<u8>)
        ensures
            v@ == self.spec_data(),
    {
        self.data
    }
}

impl ByteSink for VecSink {
    /// Accepts everything offered.
    fn write_chunk(&mut self, data: &[u8]) -> (n: usize)
        ensures
            n == data@.len(),
            final(self).spec_data() == old(self).spec_data() + data@,
    {
        self.data.extend_from_slice(data);
        data.len()
    }

    fn flush(&mut self)
        ensures
            final(self).spec_data() == old(self).spec_data(),
    {
    }
}

/// Source wrapper which tracks the checksum of all bytes read.
pub struct Crc32cReader<R> {
    checksum: u32,
    inner: R,
}

impl<R> Crc32cReader<R> {
    /// The checksum of everything read so far.
    pub closed spec fn spec_crc(&self) -> u32 {
        self.checksum
    }

    /// The wrapped source.
    pub closed spec fn spec_inner(&self) -> R {
        self.inner
    }

    /// Wrap an instance of a byte source.
    pub fn new(r: R) -> (s: Self)
        ensures
            s.spec_crc() == 0,
            s.spec_inner() == r,
    {
        Self::new_with_seed(r, 0)
    }

    /// Wrap a byte source, with the checksum seeded with a particular
    /// value.
    pub fn new_with_seed(r: R, seed: u32) -> (s: Self)
        ensures
            s.spec_crc() == seed,
            s.spec_inner() == r,
    {
        Self { checksum: seed, inner: r }
    }

    /// Unwrap the inner source.
    pub fn into_inner(self) -> (r: R)
        ensures
            r == self.spec_inner(),
    {
        self.inner
    }

    /// Get the checksum of all bytes read.
    pub fn crc32c(&self) -> (c: u32)
        ensures
            c == self.spec_crc(),
    {
        self.checksum
    }
}

impl<R: ByteSource> Crc32cReader<R> {
    /// Pulls up to `max` more bytes from the inner source; the checksum
    /// advances by exactly the bytes handed out, and the source makes
    /// one transition its own `read_chunk` contract allows.
    pub fn read_chunk(&mut self, max: usize) -> (out: Vec<u8>)
        ensures
            out@.len() <= max,
            final(self).spec_crc() == spec_crc32c_append(old(self).spec_crc(), out@),
            exists|m: &mut R|
                {
                    &&& mut_ref_current(m) == old(self).spec_inner()
                    &&& mut_ref_future(m) == final(self).spec_inner()
                    &&& #[trigger] call_ensures(R::read_chunk, (m, max), out)
                },
    {
        let out = self.inner.read_chunk(max);
        self.checksum = crate::crc32c_append(self.checksum, out.as_slice());
        out
    }
}

/// Sink wrapper which tracks the checksum of all bytes written.
pub struct Crc32cWriter<W> {
    checksum: u32,
    inner: W,
}

impl<W> Crc32cWriter<W> {
    /// The checksum of everything accepted so far.
    pub closed spec fn spec_crc(&self) -> u32 {
        self.checksum
    }

    /// The wrapped sink.
    pub closed spec fn spec_inner(&self) -> W {
        self.inner
    }

    /// Wrap an instance of a byte sink.
    pub fn new(w: W) -> (s: Self)
        ensures
            s.spec_crc() == 0,
            s.spec_inner() == w,
    {
        Self::new_with_seed(w, 0)
    }

    /// Wrap a byte sink, with the checksum seeded with a particular
    /// value.
    pub fn new_with_seed(w: W, seed: u32) -> (s: Self)
        ensures
            s.spec_crc() == seed,
            s.spec_inner() == w,
    {
        Self { checksum: seed, inner: w }
    }

    /// Unwrap the inner sink.
    pub fn into_inner(self) -> (w: W)
        ensures
            w == self.spec_inner(),
    {
        self.inner
    }

    /// Get the checksum of all bytes written.
    pub fn crc32c(&self) -> (c: u32)
        ensures
            c == self.spec_crc(),
    {
        self.checksum
    }
}

impl<W: ByteSink> Crc32cWriter<W> {
    /// Offers `data` to the inner sink; the checksum advances by
    /// exactly the prefix the sink reported as accepted, and the sink
    /// makes one transition its own `write_chunk` contract allows.
    pub fn write_chunk(&mut self, data: &[u8]) -> (n: usize)
        ensures
            n <= data@.len(),
            final(self).spec_crc() == spec_crc32c_append(
                old(self).spec_crc(),
                data@.subrange(0, n as int),
            ),
            exists|m: &mut W|
                {
                    &&& mut_ref_current(m) == old(self).spec_inner()
                    &&& mut_ref_future(m) == final(self).spec_inner()
                    &&& #[trigger] call_ensures(W::write_chunk, (m, data), n)
                },
    {
        let n = self.inner.write_chunk(data);
        let accepted = slice_subrange(data, 0, n);
        self.checksum = crate::crc32c_append(self.checksum, accepted);
        n
    }

    /// Flushes the inner sink; the checksum does not move, and the sink
    /// makes one transition its own `flush` contract allows.
    pub fn flush(&mut self)
        ensures
            final(self).spec_crc() == old(self).spec_crc(),
            exists|m: &mut W|
                {
                    &&& mut_ref_current(m) == old(self).spec_inner()
                    &&& mut_ref_future(m) == final(self).spec_inner()
                    &&& #[trigger] call_ensures(W::flush, (m,), ())
                },
    {
        self.inner.flush();
    }
}

} // verus!
