use numr_kernels::packing::{pack_a, pack_b, pack_b_t};

/// A `[k_total, n_total]` row-major matrix and its `[n_total, k_total]`
/// transpose, both holding the same logical matrix.
fn matrix_pair(k_total: usize, n_total: usize) -> (Vec<f32>, Vec<f32>) {
    let row_major: Vec<f32> = (0..k_total * n_total)
        .map(|i| (i % 251) as f32 * 0.125 - 7.0)
        .collect();
    let mut transposed = vec![0.0f32; k_total * n_total];
    for p in 0..k_total {
        for j in 0..n_total {
            transposed[j * k_total + p] = row_major[p * n_total + j];
        }
    }
    (row_major, transposed)
}

fn assert_panels_identical<const NR: usize>(
    k_total: usize,
    n_total: usize,
    pc: usize,
    jc: usize,
    kc: usize,
    nc: usize,
) {
    let (row_major, transposed) = matrix_pair(k_total, n_total);
    let packed_len = nc.div_ceil(NR) * NR * kc;
    let mut from_row_major = vec![f32::NAN; packed_len];
    let mut from_transposed = vec![f32::NAN; packed_len];

    pack_b::<f32, NR>(&row_major, pc * n_total + jc, &mut from_row_major, nc, kc, n_total);
    pack_b_t::<f32, NR>(&transposed, jc * k_total + pc, &mut from_transposed, nc, kc, k_total);

    let lhs: Vec<u32> = from_row_major.iter().map(|v| v.to_bits()).collect();
    let rhs: Vec<u32> = from_transposed.iter().map(|v| v.to_bits()).collect();
    assert_eq!(lhs, rhs, "packed panels differ (NR={NR}, kc={kc}, nc={nc})");
}

#[test]
fn test_pack_b_t_matches_pack_b_full_blocks() {
    assert_panels_identical::<16>(64, 64, 0, 0, 64, 64);
    assert_panels_identical::<8>(64, 64, 0, 0, 64, 64);
}

#[test]
fn test_pack_b_t_matches_pack_b_partial_block() {
    assert_panels_identical::<16>(37, 53, 0, 0, 37, 53);
    assert_panels_identical::<8>(37, 53, 0, 0, 37, 53);
}

#[test]
fn test_pack_b_t_matches_pack_b_offset_panel() {
    assert_panels_identical::<16>(100, 130, 24, 17, 40, 61);
}

#[test]
fn pack_b_layout_of_a_small_panel() {
    // B is 2 x 5 (rows p, columns j), value 10 * p + j; NR = 2.
    let b: Vec<i32> = (0..2).flat_map(|p| (0..5).map(move |j| 10 * p + j)).collect();
    let mut packed = vec![-1i32; 12];
    pack_b::<i32, 2>(&b, 0, &mut packed, 5, 2, 5);
    // Block of columns 0..2, block 2..4, then the unpadded partial block {4}.
    assert_eq!(packed, vec![0, 1, 10, 11, 2, 3, 12, 13, 4, 14, -1, -1]);
}

#[test]
fn pack_a_pads_the_partial_row_block() {
    // A is 7 x 2 (rows i, columns k), value 10 * i + k; MR = 6.
    let a: Vec<i32> = (0..7).flat_map(|i| (0..2).map(move |k| 10 * i + k)).collect();
    let mut packed = vec![-1i32; 25];
    pack_a(&a, 0, &mut packed, 7, 2, 2, 0);
    let mut expected = vec![0, 10, 20, 30, 40, 50, 1, 11, 21, 31, 41, 51];
    expected.extend([60, 0, 0, 0, 0, 0, 61, 0, 0, 0, 0, 0]);
    expected.push(-1);
    assert_eq!(packed, expected);
}
