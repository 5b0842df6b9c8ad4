//! CRC-32-Castagnoli checksums.
//!
//! The crate computes the CRC-32C checksum of byte sequences and offers
//! three companion operations: incremental appending to a previous
//! checksum, combining the checksums of two independently processed
//! streams, and streaming adapters that keep a running checksum over a
//! byte source or sink.
//!
//! Two kernels compute the checksum: the slicing-by-8 software kernel
//! in [`sw`] and the three-lane fused kernel in [`hw`].  Every
//! operation is specified against one mathematical model of the CRC
//! register, [`model::spec_crc32c_append`], and proved against it; the
//! laws the checksum obeys are stated and proved in [`laws`].

use vstd::prelude::*;

pub mod combine;
pub mod hasher;
pub mod hw;
pub mod io;
pub mod laws;
pub mod lemmas;
pub mod matrix;
pub mod model;
pub mod sw;
pub mod util;

pub use hasher::Crc32cHasher;
pub use io::{Crc32cReader, Crc32cWriter};

verus! {

/// Computes the CRC for the data payload.
///
/// Equivalent to calling `crc32c_append(0, data)`.
pub fn crc32c(data: &[u8]) -> (r: u32)
    ensures
        r == model::spec_crc32c(data@),
{
    crc32c_append(0, data)
}

/// Computes the CRC for the data payload, starting with a previous CRC value.
pub fn crc32c_append(crc: u32, data: &[u8]) -> (r: u32)
    ensures
        r == model::spec_crc32c_append(crc, data@),
{
    sw::crc32c(crc, data)
}

/// Computes the "combined" value of two CRC-32C values.  Specifically,
/// given two byte streams A and B and their check values crc32c(A) and
/// crc32c(B), this function calculates crc32c(AB) using only crc32c(A),
/// crc32c(B), and the length of B.
pub fn crc32c_combine(crc1: u32, crc2: u32, len2: usize) -> (r: u32)
    ensures
        r == model::spec_combine(crc1, crc2, len2 as nat),
{
    combine::crc32c_combine(crc1, crc2, len2)
}

} // verus!
