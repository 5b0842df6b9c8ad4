//! A general-purpose hash interface backed by a running checksum.

use vstd::prelude::*;

use crate::model::spec_crc32c_append;

verus! {

/// A hasher over CRC-32C.
///
/// Note that CRC-32C produces a 32-bit digest; `finish` widens it to 64
/// bits by zero-extension.
pub struct Crc32cHasher {
    checksum: u32,
}

impl Crc32cHasher {
    /// The running checksum.
    pub closed spec fn spec_checksum(&self) -> u32 {
        self.checksum
    }

    /// Create the hasher pre-loaded with an arbitrary seed value.
    ///
    /// The seed is a previous checksum to continue from, the same
    /// convention the combine operator uses: writing `data` from seed
    /// `s` and finishing yields `crc32c_append(s, data)`.  Use
    /// `default` for a clean start.
    pub fn new(initial: u32) -> (h: Self)
        ensures
            h.spec_checksum() == initial,
    {
        Self { checksum: initial }
    }

    /// Folds the bytes into the running checksum.
    pub fn write(&mut self, bytes: &[u8])
        ensures
            final(self).spec_checksum() == spec_crc32c_append(old(self).spec_checksum(), bytes@),
    {
        self.checksum = crate::crc32c_append(self.checksum, bytes);
    }

    /// The 32-bit digest, widened to 64 bits by zero-extension.
    pub fn finish(&self) -> (r: u64)
        ensures
            r == self.spec_checksum() as u64,
    {
        self.checksum as u64
    }
}

impl Default for Crc32cHasher {
    /// A hasher with no bytes written and no seed.
    fn default() -> (h: Self)
        ensures
            h.spec_checksum() == 0,
    {
        Crc32cHasher { checksum: 0 }
    }
}

} // verus!
