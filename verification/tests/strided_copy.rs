use numr_kernels::strided_copy::{advance, contiguous_suffix_len, copy_strided_impl};

/// Element-by-element gather, recomputing the full offset of every element:
/// the reference every tier of the copy must agree with.
fn naive(src: &[u8], base: usize, shape: &[usize], strides: &[isize], elem_size: usize) -> Vec<u8> {
    let numel: usize = shape.iter().product();
    let mut out = vec![0u8; numel * elem_size];
    let mut indices = vec![0usize; shape.len()];
    for dst_offset in 0..numel {
        let mut src_elem_offset: isize = 0;
        for (i, &idx) in indices.iter().enumerate() {
            src_elem_offset += (idx as isize) * strides[i];
        }
        let start = (base as isize + src_elem_offset * elem_size as isize) as usize;
        out[dst_offset * elem_size..(dst_offset + 1) * elem_size]
            .copy_from_slice(&src[start..start + elem_size]);
        for dim in (0..shape.len()).rev() {
            indices[dim] += 1;
            if indices[dim] < shape[dim] {
                break;
            }
            indices[dim] = 0;
        }
    }
    out
}

fn check(
    name: &str,
    shape: &[usize],
    strides: &[isize],
    offset_elems: usize,
    elem_size: usize,
    src_elems: usize,
) {
    let src: Vec<u8> = (0..src_elems * elem_size).map(|i| (i % 251) as u8).collect();
    let base = offset_elems * elem_size;
    let expected = naive(&src, base, shape, strides, elem_size);
    let actual = copy_strided_impl(&src, base, shape, strides, elem_size);
    assert_eq!(actual, expected, "{name} (elem_size={elem_size})");
}

#[test]
fn test_fully_contiguous() {
    check("contiguous", &[2, 3, 4], &[12, 4, 1], 0, 4, 24);
}

#[test]
fn test_contiguous_at_nonzero_offset() {
    check("narrowed", &[2, 3, 4], &[12, 4, 1], 7, 4, 31);
}

#[test]
fn test_2d_transpose() {
    check("transpose", &[3, 4], &[1, 3], 0, 4, 12);
}

#[test]
fn test_4d_permute() {
    check("permute", &[2, 4, 3, 5], &[60, 5, 20, 1], 0, 4, 120);
}

#[test]
fn test_negative_stride() {
    check("reversed_1d", &[6], &[-1], 5, 4, 6);
    check("reversed_2d_rows", &[3, 4], &[-4, 1], 8, 4, 12);
}

#[test]
fn test_broadcast() {
    check("broadcast_outer", &[3, 4], &[0, 1], 0, 4, 4);
    check("broadcast_inner", &[3, 4], &[1, 0], 0, 4, 3);
    check("broadcast_middle", &[2, 3, 4], &[4, 0, 1], 0, 4, 8);
    check("broadcast_all", &[2, 3], &[0, 0], 0, 4, 1);
}

#[test]
fn test_contiguous_inner_block() {
    check("gapped_outer", &[2, 3, 4], &[100, 4, 1], 0, 4, 300);
    check("gapped_middle", &[2, 3, 4], &[60, 9, 1], 0, 4, 120);
}

#[test]
fn test_unit_extent_dimensions() {
    check("unit_middle", &[4, 1, 3], &[3, 999, 1], 0, 4, 12);
    check("unit_broadcast", &[4, 1, 3], &[3, 0, 1], 0, 4, 12);
}

#[test]
fn test_all_element_sizes() {
    for elem_size in [1usize, 2, 4, 8] {
        check("permute", &[2, 4, 3, 5], &[60, 5, 20, 1], 0, elem_size, 120);
        check("contiguous", &[2, 3, 4], &[12, 4, 1], 3, elem_size, 27);
        check("transpose", &[3, 4], &[1, 3], 0, elem_size, 12);
        check("reversed", &[6], &[-1], 5, elem_size, 6);
        check("broadcast", &[3, 4], &[0, 1], 0, elem_size, 4);
        check("blocks", &[2, 3, 4], &[100, 4, 1], 0, elem_size, 300);
    }
}

#[test]
fn test_suffix_detection() {
    assert_eq!(contiguous_suffix_len(&[2, 3, 4], &[12, 4, 1]), 3);
    assert_eq!(contiguous_suffix_len(&[2, 3, 4], &[100, 4, 1]), 2);
    assert_eq!(contiguous_suffix_len(&[2, 3, 4], &[60, 9, 1]), 1);
    assert_eq!(contiguous_suffix_len(&[3, 4], &[1, 3]), 0);
    // Broadcast and negative strides must never be reported as contiguous.
    assert_eq!(contiguous_suffix_len(&[3, 4], &[0, 1]), 1);
    assert_eq!(contiguous_suffix_len(&[3, 4], &[1, 0]), 0);
    assert_eq!(contiguous_suffix_len(&[6], &[-1]), 0);
}

#[test]
fn suffix_accepts_unit_extents_with_any_stride() {
    assert_eq!(contiguous_suffix_len(&[4, 1, 3], &[3, 999, 1]), 3);
    assert_eq!(contiguous_suffix_len(&[1, 1], &[-5, 0]), 2);
    assert_eq!(contiguous_suffix_len(&[], &[]), 0);
}

#[test]
fn copy_of_empty_shape_is_one_element() {
    // A 0-dimensional view holds exactly one element at the base offset.
    let src: Vec<u8> = (0..16).collect();
    assert_eq!(copy_strided_impl(&src, 8, &[], &[], 4), vec![8, 9, 10, 11]);
}

#[test]
fn copy_reversed_bytes_exact() {
    let src: Vec<u8> = vec![10, 11, 12, 13, 14, 15];
    assert_eq!(copy_strided_impl(&src, 5, &[6], &[-1], 1), vec![15, 14, 13, 12, 11, 10]);
}

#[test]
fn copy_odd_element_width() {
    check("odd_width_transpose", &[3, 4], &[1, 3], 0, 3, 12);
    check("odd_width_blocks", &[2, 3, 4], &[100, 4, 1], 0, 5, 300);
}

#[test]
fn odometer_walks_row_major_and_wraps() {
    let shape = [2usize, 3];
    let strides = [-5isize, 2];
    let mut idx = vec![0usize, 0];
    let mut off: isize = 0;
    let mut seen = Vec::new();
    for _ in 0..6 {
        advance(&mut idx, &mut off, &shape, &strides, 2);
        seen.push((idx.clone(), off));
    }
    assert_eq!(
        seen,
        vec![
            (vec![0, 1], 2),
            (vec![0, 2], 4),
            (vec![1, 0], -5),
            (vec![1, 1], -3),
            (vec![1, 2], -1),
            (vec![0, 0], 0),
        ]
    );
}

#[test]
fn odometer_leaves_trailing_entries_alone() {
    let shape = [2usize, 3, 4];
    let strides = [12isize, 4, 1];
    let mut idx = vec![0usize, 2, 7];
    let mut off: isize = 8;
    advance(&mut idx, &mut off, &shape, &strides, 2);
    assert_eq!(idx, vec![1, 0, 7]);
    assert_eq!(off, 12);
}
