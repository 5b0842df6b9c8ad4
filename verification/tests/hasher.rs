use crc32c::{crc32c, crc32c_append, Crc32cHasher};

const TEST_STRING: &[u8] =
    b"This is a very long string which is used to test the CRC-32-Castagnoli function.";
const CHECKSUM: u32 = 0x20_CB_1E_59;

#[test]
fn can_hash() {
    let mut hasher = Crc32cHasher::default();
    hasher.write(TEST_STRING);
    assert_eq!(hasher.finish(), CHECKSUM as u64);
}

// Seeding the hasher continues a previous checksum, the same convention
// the combine operator uses.
#[test]
fn test_with_initial_value() {
    let seed: u32 = 123u32;
    let buffer = b"123456789";
    let mut hasher = Crc32cHasher::new(seed);
    hasher.write(buffer);
    let crc1: u32 = hasher.finish() as u32;

    let crc2: u32 = crc32c_append(seed, buffer);

    assert_eq!(crc1, crc2);
}

// The checksum itself against an independent implementation.
#[test]
fn matches_reference_implementation() {
    let castagnoli = crc::Crc::<u32>::new(&crc::CRC_32_ISCSI);
    for data in [&b""[..], b"1", b"123456789", TEST_STRING] {
        assert_eq!(crc32c(data), castagnoli.checksum(data));
    }
}
