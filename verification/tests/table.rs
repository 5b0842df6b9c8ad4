use crc32c::matrix::{create_zero_operator, gf2_matrix_times};

#[test]
fn matrix_multiply() {
    let mut mat: Vec<u32> = vec![0u32; 32];
    for i in 0..3 {
        mat[i] = i as u32;
    }

    let vec: u32 = 0b111;

    assert_eq!(gf2_matrix_times(&mat, vec), 3);
}

#[test]
fn zero_op() {
    let op = create_zero_operator(8192);
    assert_eq!(op.row(0), 0xe040e0ac);
}
