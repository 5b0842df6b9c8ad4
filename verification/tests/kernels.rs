use crc32c::io::SliceSource;
use crc32c::{crc32c, crc32c_append, crc32c_combine, hw, sw, Crc32cReader};

/// A deterministic byte pattern so failures reproduce.
fn pattern(len: usize, seed: u8) -> Vec<u8> {
    let mut out: Vec<u8> = Vec::with_capacity(len);
    let mut state: u8 = seed;
    for i in 0..len {
        state = state.wrapping_mul(31).wrapping_add(i as u8).wrapping_add(7);
        out.push(state);
    }
    out
}

#[test]
fn fixed_vectors() {
    assert_eq!(crc32c(b"1"), 0x90_F5_99_E3);
    assert_eq!(crc32c(b"Hello world!"), 0x7B_98_E7_51);
}

#[test]
fn empty_input_is_zero() {
    assert_eq!(crc32c(b""), 0);
}

#[test]
fn seeded_empty_is_identity() {
    for seed in [0u32, 1, 0xDEAD_BEEF, 0xFFFF_FFFF, 0x20_CB_1E_59] {
        assert_eq!(crc32c_append(seed, b""), seed);
    }
}

// Buffers shorter than one word stay entirely in the head or tail and
// must come out right on both kernels, at every split choice.
#[test]
fn kernels_agree_on_short_buffers() {
    for len in 0..=16 {
        let buf = pattern(len, 3);
        let reference: u32 = crc32c(&buf);
        for align in 0..8 {
            assert_eq!(sw::crc32c_aligned(0, &buf, align), reference);
            assert_eq!(hw::crc32c_aligned(0, &buf, align), reference);
        }
        assert_eq!(hw::crc32c(0, &buf), reference);
    }
}

// Starts 1..7 bytes away from a word boundary exercise the splitter.
#[test]
fn kernels_agree_on_each_alignment() {
    let buf = pattern(4096 + 5, 11);
    let seed: u32 = 0x1BADB002;
    let reference: u32 = crc32c_append(seed, &buf);
    for align in 0..8 {
        assert_eq!(sw::crc32c_aligned(seed, &buf, align), reference);
        assert_eq!(hw::crc32c_aligned(seed, &buf, align), reference);
    }
}

// Lengths around three long blocks exercise the long-phase boundary.
#[test]
fn kernels_agree_at_long_phase_boundary() {
    for len in [3 * 8192 - 1, 3 * 8192, 3 * 8192 + 1] {
        let buf = pattern(len, 29);
        assert_eq!(hw::crc32c(0, &buf), sw::crc32c(0, &buf));
    }
}

// Lengths around three short blocks exercise the short-phase boundary.
#[test]
fn kernels_agree_at_short_phase_boundary() {
    for len in [3 * 256 - 1, 3 * 256, 3 * 256 + 9, 2 * 3 * 256] {
        let buf = pattern(len, 57);
        assert_eq!(hw::crc32c(0, &buf), sw::crc32c(0, &buf));
    }
}

#[test]
fn combine_with_empty_is_identity() {
    for c in [0u32, 5, 0x90_F5_99_E3, 0xFFFF_FFFF] {
        assert_eq!(crc32c_combine(c, 0, 0), c);
    }
}

#[test]
fn combine_from_zero_prefix() {
    let b = pattern(37, 4);
    let c = crc32c(&b);
    let combined = crc32c_combine(0, c, b.len());
    let mut padded: Vec<u8> = Vec::new();
    padded.extend_from_slice(&b);
    assert_eq!(combined, crc32c_append(crc32c(b""), &padded));
}

// Any chunking of a byte stream through the reader wrapper ends at the
// checksum of the whole stream.
#[test]
fn stream_agreement_over_chunkings() {
    let data = pattern(1000, 77);
    let reference: u32 = crc32c(&data);
    for chunk in [1usize, 2, 3, 7, 16, 64, 999, 1000, 2048] {
        let mut reader = Crc32cReader::new(SliceSource::new(data.clone()));
        loop {
            let piece = reader.read_chunk(chunk);
            if piece.is_empty() {
                break;
            }
        }
        assert_eq!(reader.crc32c(), reference);
    }
}

#[test]
fn append_matches_one_pass() {
    let data = pattern(300, 9);
    for split in [0usize, 1, 8, 13, 150, 299, 300] {
        let a = crc32c(&data[..split]);
        let whole = crc32c_append(a, &data[split..]);
        assert_eq!(whole, crc32c(&data));
        let b = crc32c(&data[split..]);
        assert_eq!(crc32c_combine(a, b, data.len() - split), crc32c(&data));
    }
}
