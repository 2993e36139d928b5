use naive_matrix::codec::{decode_matrix, i32_from_le};
use naive_matrix::error::BenchError;
use naive_matrix::kernel::multiply;

fn encode(values: &[i32]) -> Vec<u8> {
    let mut out = Vec::new();
    for v in values {
        out.extend_from_slice(&v.to_le_bytes());
    }
    out
}

#[test]
fn round_trip_reproduces_row_major_layout() {
    let values = [1, -2, 3, 2147483647, -2147483648, 0, 65536, -1, 42];
    let bytes = encode(&values);
    let m = decode_matrix(&bytes, 3).unwrap();
    assert_eq!(
        m,
        vec![vec![1, -2, 3], vec![2147483647, -2147483648, 0], vec![65536, -1, 42]]
    );
}

#[test]
fn round_trip_ignores_trailing_bytes() {
    let mut bytes = encode(&[5, 6, 7, 8]);
    bytes.extend_from_slice(&[9, 9, 9]);
    let m = decode_matrix(&bytes, 2).unwrap();
    assert_eq!(m, vec![vec![5, 6], vec![7, 8]]);
}

#[test]
fn truncated_file_is_rejected() {
    let bytes = encode(&[1, 2, 3]);
    assert_eq!(decode_matrix(&bytes, 2), Err(BenchError::TruncatedData));
    let mut short = encode(&[1, 2, 3, 4]);
    short.pop();
    assert_eq!(decode_matrix(&short, 2), Err(BenchError::TruncatedData));
    assert_eq!(decode_matrix(&[], 1), Err(BenchError::TruncatedData));
}

#[test]
fn oversized_dimension_is_truncated_not_overflowing() {
    assert_eq!(decode_matrix(&[0u8; 16], usize::MAX), Err(BenchError::TruncatedData));
}

#[test]
fn zero_dimension_gives_empty_matrix() {
    assert_eq!(decode_matrix(&[], 0), Ok(Vec::<Vec<i32>>::new()));
}

#[test]
fn single_word_decoding() {
    assert_eq!(i32_from_le(0x78, 0x56, 0x34, 0x12), 0x12345678);
    assert_eq!(i32_from_le(0xff, 0xff, 0xff, 0xff), -1);
    assert_eq!(i32_from_le(0x00, 0x00, 0x00, 0x80), i32::MIN);
    assert_eq!(i32_from_le(0xff, 0xff, 0xff, 0x7f), i32::MAX);
}

#[test]
fn identity_times_matrix_is_that_matrix() {
    let a = vec![vec![1, 0], vec![0, 1]];
    let b = vec![vec![5, 6], vec![7, 8]];
    assert_eq!(multiply(&a, &b, 2), b);
}

#[test]
fn all_ones_product_cells_equal_dimension() {
    for n in [1usize, 2, 3, 7] {
        let ones = vec![vec![1; n]; n];
        let c = multiply(&ones, &ones, n);
        assert_eq!(c, vec![vec![n as i32; n]; n]);
    }
}

#[test]
fn general_product_exact_values() {
    let a = vec![vec![1, 2], vec![3, 4]];
    let b = vec![vec![5, 6], vec![7, 8]];
    assert_eq!(multiply(&a, &b, 2), vec![vec![19, 22], vec![43, 50]]);
}

#[test]
fn accumulation_wraps_around() {
    let a = vec![vec![i32::MAX, i32::MAX], vec![0, 0]];
    let b = vec![vec![1, 0], vec![1, 0]];
    let c = multiply(&a, &b, 2);
    assert_eq!(c[0][0], i32::MAX.wrapping_add(i32::MAX));
    assert_eq!(c[0][0], -2);
    let big = vec![vec![65536]];
    assert_eq!(multiply(&big, &big, 1), vec![vec![0]]);
}

#[test]
fn empty_product() {
    let e: Vec<Vec<i32>> = Vec::new();
    assert_eq!(multiply(&e, &e, 0), e);
}
