use crc32c::io::{SliceSource, VecSink};
use crc32c::{Crc32cReader, Crc32cWriter};

const TEST_STRING: &[u8] =
    b"This is a very long string which is used to test the CRC-32-Castagnoli function.";
const CHECKSUM: u32 = 0x20_CB_1E_59;

#[test]
fn can_read() {
    let mut reader = Crc32cReader::new(SliceSource::new(TEST_STRING.to_vec()));
    let mut buf: Vec<u8> = Vec::default();
    loop {
        let chunk = reader.read_chunk(16);
        if chunk.is_empty() {
            break;
        }
        buf.extend_from_slice(&chunk);
    }
    let n_read: usize = buf.len();
    assert_eq!(n_read, TEST_STRING.len());
    assert_eq!(buf.as_slice(), TEST_STRING);
    assert_eq!(reader.crc32c(), CHECKSUM);
}

#[test]
fn can_write() {
    let mut writer = Crc32cWriter::new(VecSink::new());
    let mut written: usize = 0;
    while written < TEST_STRING.len() {
        written += writer.write_chunk(&TEST_STRING[written..]);
    }
    let checksum: u32 = writer.crc32c();

    let buf: Vec<u8> = writer.into_inner().into_vec();
    assert_eq!(buf.as_slice(), TEST_STRING);
    assert_eq!(checksum, CHECKSUM);
}
