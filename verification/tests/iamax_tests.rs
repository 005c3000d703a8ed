use cublas_rs::iamax::isamax_kernel;
use cublas_rs::level1::isamax;

fn bits(x: &[f32]) -> Vec<u32> {
    x.iter().map(|v| v.to_bits()).collect()
}

/// Index of the largest magnitude, first occurrence.
fn argmax_abs(x: &[f32]) -> usize {
    let mut best = 0;
    for i in 1..x.len() {
        if x[i].abs() > x[best].abs() {
            best = i;
        }
    }
    best
}

#[test]
fn isamax_picks_largest_magnitude() {
    let x = [1.0f32, -3.0, 2.0];
    assert_eq!(isamax(3, &bits(&x)), 1);
}

#[test]
fn isamax_empty_is_zero() {
    assert_eq!(isamax(0, &[]), 0);
}

#[test]
fn isamax_only_looks_at_first_n() {
    let x = [1.0f32, 2.0, 100.0];
    assert_eq!(isamax(2, &bits(&x)), 1);
}

#[test]
fn isamax_matches_scan_without_ties() {
    let n = 1000usize;
    let x: Vec<f32> = (0..n).map(|i| ((i * 7919) % 1009) as f32 * if i % 3 == 0 { -1.0 } else { 1.0 }).collect();
    // distinct magnitudes: (i * 7919) % 1009 is injective on 0..1009
    assert_eq!(isamax(n, &bits(&x)), argmax_abs(&x));
}

#[test]
fn isamax_tie_goes_to_smallest_index() {
    // 5.0 at index 1 (thread 1) and index 32 (thread 0): the smaller index
    // wins, whichever thread scanned it.
    let mut x = vec![0.0f32; 33];
    x[1] = 5.0;
    x[32] = 5.0;
    assert_eq!(isamax(33, &bits(&x)), 1);
    let mut y = vec![1.0f32; 40];
    y[1] = 5.0;
    y[32] = -5.0;
    assert_eq!(isamax(40, &bits(&y)), 1);
}

#[test]
fn isamax_tie_within_one_thread_keeps_first() {
    let mut x = vec![0.5f32; 100];
    x[3] = 9.0;
    x[35] = 9.0;
    x[67] = -9.0;
    assert_eq!(isamax(100, &bits(&x)), 3);
}

#[test]
fn isamax_ties_across_threads_keep_first() {
    let mut x = vec![0.0f32; 8];
    x[1] = 4.0;
    x[2] = 4.0;
    assert_eq!(isamax(8, &bits(&x)), 1);
    // every element equal: index 0
    assert_eq!(isamax(100, &bits(&vec![-2.5f32; 100])), 0);
}

#[test]
fn isamax_matches_first_maximum_with_many_ties() {
    let n = 500usize;
    let x: Vec<f32> = (0..n).map(|i| ((i * 37) % 11) as f32 * if i % 2 == 0 { 1.0 } else { -1.0 }).collect();
    assert_eq!(isamax(n, &bits(&x)), argmax_abs(&x));
}

#[test]
fn isamax_ignores_nans() {
    let x = [f32::NAN, 2.0, -3.0, f32::NAN];
    assert_eq!(isamax(4, &bits(&x)), 2);
}

#[test]
fn isamax_all_nan_is_zero() {
    let x = [f32::NAN; 50];
    assert_eq!(isamax(50, &bits(&x)), 0);
}

#[test]
fn isamax_infinity_wins() {
    let x = [1.0f32, f32::NEG_INFINITY, 3.0e38];
    assert_eq!(isamax(3, &bits(&x)), 1);
}

#[test]
fn isamax_signed_zeros_tie() {
    let x = [0.0f32, -0.0];
    assert_eq!(isamax_kernel(2, &bits(&x)), 0);
}
