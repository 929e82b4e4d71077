use numr_kernels::conv::{
    conv1d_interior_window, conv_transpose1d_tap_run, phase_capacity, Conv1dParams,
    ConvTranspose1dParams,
};

fn c1(length: usize, kernel_size: usize, stride: usize, dilation: usize, pad_left: usize, output_length: usize) -> Conv1dParams {
    Conv1dParams { batch: 1, c_in: 1, length, c_out: 1, kernel_size, stride, dilation, groups: 1, pad_left, output_length }
}

fn ct(length: usize, kernel_size: usize, stride: usize, dilation: usize, pad_left: usize, output_length: usize) -> ConvTranspose1dParams {
    ConvTranspose1dParams { batch: 1, c_in: 1, length, c_out: 1, kernel_size, stride, dilation, groups: 1, pad_left, output_length }
}

/// Brute-force interior test: every tap of `ox` in bounds.
fn all_taps_inside(p: &Conv1dParams, ox: usize) -> bool {
    (0..p.kernel_size).all(|kx| {
        let ix = (ox * p.stride) as isize + (kx * p.dilation) as isize - p.pad_left as isize;
        ix >= 0 && (ix as usize) < p.length
    })
}

#[test]
fn interior_window_matches_brute_force() {
    for (length, k, s, d, pad) in [(10usize, 3usize, 1usize, 1usize, 1usize), (17, 5, 2, 2, 4), (5, 9, 1, 1, 2), (32, 4, 3, 1, 0), (8, 1, 1, 1, 0)] {
        let out_len = (length + 2 * pad - (k - 1) * d).saturating_sub(1) / s + 1;
        let p = c1(length, k, s, d, pad, out_len);
        let (lo, hi) = conv1d_interior_window(p);
        assert!(lo <= hi && hi <= out_len);
        for ox in 0..out_len {
            assert_eq!(lo <= ox && ox < hi, all_taps_inside(&p, ox), "ox {ox} in {length} {k} {s} {d} {pad}");
        }
    }
    assert_eq!(conv1d_interior_window(c1(10, 3, 0, 1, 1, 10)), (0, 0));
    assert_eq!(conv1d_interior_window(c1(10, 3, 1, 1, 1, 10)), (1, 9));
}

#[test]
fn phase_capacity_values() {
    assert_eq!(phase_capacity(ct(4, 3, 0, 1, 0, 10)), 10);
    assert_eq!(phase_capacity(ct(4, 3, 3, 1, 0, 10)), 4);
    assert_eq!(phase_capacity(ct(4, 3, 5, 1, 0, 10)), 2);
}

/// Every (input, tap) pair of the direct gather appears in exactly one
/// phase run, at the slot the polyphase loop writes.
#[test]
fn polyphase_runs_cover_the_gather_exactly() {
    for (length, k, s, d, pad) in [(6usize, 3usize, 2usize, 1usize, 1usize), (5, 4, 3, 2, 2), (7, 2, 1, 3, 0), (4, 5, 4, 1, 6)] {
        let out_len = (length - 1) * s + (k - 1) * d + 1 - pad.min((length - 1) * s + (k - 1) * d + 1);
        let p = ct(length, k, s, d, pad, out_len);
        let mut seen = vec![0usize; out_len * k];
        for r in 0..s.min(out_len) {
            for tap in 0..k {
                if let Some((l_lo, run, p0)) = conv_transpose1d_tap_run(p, r, tap) {
                    assert!(run >= 1);
                    for l in l_lo..l_lo + run {
                        let ot = (l * s + tap * d) as isize - pad as isize;
                        assert_eq!(ot as usize, r + (p0 + l - l_lo) * s);
                        seen[ot as usize * k + tap] += 1;
                    }
                }
            }
        }
        for l in 0..length {
            for tap in 0..k {
                let ot = (l * s + tap * d) as isize - pad as isize;
                if ot >= 0 && (ot as usize) < out_len {
                    assert_eq!(seen[ot as usize * k + tap], 1);
                }
            }
        }
        assert_eq!(seen.iter().sum::<usize>(), (0..length).flat_map(|l| (0..k).map(move |t| (l, t))).filter(|&(l, t)| {
            let ot = (l * s + t * d) as isize - pad as isize;
            ot >= 0 && (ot as usize) < out_len
        }).count());
    }
}

#[test]
fn tap_run_example() {
    // stride 2, pad 1: tap 0 of input l lands at 2l - 1 (phase 1, slot l - 1).
    let p = ct(4, 3, 2, 1, 1, 8);
    assert_eq!(conv_transpose1d_tap_run(p, 1, 0), Some((1, 3, 0)));
    assert_eq!(conv_transpose1d_tap_run(p, 0, 0), None);
    // tap 1 lands at 2l: phase 0, slots 0..4.
    assert_eq!(conv_transpose1d_tap_run(p, 0, 1), Some((0, 4, 0)));
}

#[test]
fn empty_interior_window_sits_at_the_clamped_upper_end() {
    // The kernel's span (8) exceeds length + pad_left (6): no output is interior.
    assert_eq!(conv1d_interior_window(c1(5, 9, 1, 1, 1, 4)), (0, 0));
    // Every output is left of the padding: lo is clamped down to hi.
    assert_eq!(conv1d_interior_window(c1(10, 3, 2, 1, 7, 3)), (3, 3));
}
