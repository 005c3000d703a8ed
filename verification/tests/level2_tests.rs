use cublas_rs::level1::{haxpy, store_halves};
use cublas_rs::level2::{
    gemv_a_index, gemv_launch, gemv_lens, gemv_tile_element, hgemv, strsv, symv_entry, trsv_divisor, trsv_entry,
    trsv_read_range, trsv_row, TrsvKernel,
};
use cublas_rs::types::{Diag, Half, Transpose, Triangular};

#[test]
fn gemv_vector_lengths() {
    assert_eq!(gemv_lens(Transpose::NoTrans, 3, 5), (5, 3));
    assert_eq!(gemv_lens(Transpose::Trans, 3, 5), (3, 5));
}

#[test]
fn gemv_launches() {
    let naive = gemv_launch(Transpose::NoTrans, 300, 5, 1500, 5, 300, false).unwrap();
    assert_eq!(naive.grid_dim, (2, 1, 1));
    assert_eq!(naive.block_dim, (256, 1, 1));
    let tiled = gemv_launch(Transpose::Trans, 300, 5, 1500, 300, 5, true).unwrap();
    assert_eq!(tiled.grid_dim, (5, 1, 1));
    assert_eq!(tiled.block_dim, (32, 1, 1));
    assert!(gemv_launch(Transpose::NoTrans, 0, 5, 0, 5, 0, false).is_none());
    assert!(gemv_launch(Transpose::Trans, 5, 0, 0, 5, 0, true).is_none());
}

#[test]
fn gemv_with_empty_sum_still_launches() {
    // y has elements but op(A) has no columns: the kernels leave beta * y.
    let naive = gemv_launch(Transpose::NoTrans, 2, 0, 0, 0, 2, false).unwrap();
    assert_eq!(naive.grid_dim, (1, 1, 1));
    let tiled = gemv_launch(Transpose::Trans, 0, 3, 0, 0, 3, true).unwrap();
    assert_eq!(tiled.grid_dim, (3, 1, 1));
    let mut y = [1.0f32, 3.0];
    gemv_cpu(Transpose::NoTrans, 2, 0, 1.0, &[], &[], 2.0, &mut y);
    assert_eq!(y, [2.0, 6.0]);
}

fn gemv_cpu(trans: Transpose, m: usize, n: usize, alpha: f32, a: &[f32], x: &[f32], beta: f32, y: &mut [f32]) {
    let (x_len, y_len) = gemv_lens(trans, m, n);
    for out in 0..y_len {
        let mut sum = 0.0f32;
        for j in 0..x_len {
            sum += a[gemv_a_index(trans, m, n, out, j)] * x[j];
        }
        y[out] = alpha * sum + beta * y[out];
    }
}

#[test]
fn gemv_indices_compute_matrix_vector_products() {
    let a = [1.0f32, 2.0, 3.0, 4.0, 5.0, 6.0]; // 2 x 3
    let mut y = [1.0f32, 1.0];
    gemv_cpu(Transpose::NoTrans, 2, 3, 1.0, &a, &[1.0, 0.0, -1.0], 2.0, &mut y);
    assert_eq!(y, [-2.0 + 2.0, -2.0 + 2.0]);
    let mut yt = [0.0f32; 3];
    gemv_cpu(Transpose::Trans, 2, 3, 1.0, &a, &[1.0, 1.0], 0.0, &mut yt);
    assert_eq!(yt, [5.0, 7.0, 9.0]);
}

#[test]
fn gemv_tiles_stage_each_x_once() {
    let len = 70usize;
    let mut hits = vec![0u32; len];
    for tile in 0..(len + 31) / 32 {
        for tid in 0..32 {
            if let Some(j) = gemv_tile_element(tile, tid, len) {
                hits[j] += 1;
            }
        }
    }
    assert!(hits.iter().all(|&h| h == 1));
}

fn trsv_cpu(kernel: TrsvKernel, unit: bool, n: usize, a: &[f32], x: &mut [f32]) {
    for step in 0..n {
        let i = trsv_row(kernel, n, step);
        let mut sum = x[i];
        let (lo, hi) = trsv_read_range(kernel, n, i);
        for j in lo..hi {
            sum -= a[trsv_entry(kernel, n, i, j)] * x[j];
        }
        x[i] = match trsv_divisor(if unit { 1 } else { 0 }, n, i) {
            Some(d) => sum / a[d],
            None => sum,
        };
    }
}

#[test]
fn trsv_order_and_read_ranges() {
    assert_eq!((0..4).map(|s| trsv_row(TrsvKernel::LowerN, 4, s)).collect::<Vec<_>>(), vec![0, 1, 2, 3]);
    assert_eq!((0..4).map(|s| trsv_row(TrsvKernel::UpperN, 4, s)).collect::<Vec<_>>(), vec![3, 2, 1, 0]);
    assert_eq!((0..4).map(|s| trsv_row(TrsvKernel::LowerT, 4, s)).collect::<Vec<_>>(), vec![3, 2, 1, 0]);
    assert_eq!((0..4).map(|s| trsv_row(TrsvKernel::UpperT, 4, s)).collect::<Vec<_>>(), vec![0, 1, 2, 3]);
    assert_eq!(trsv_read_range(TrsvKernel::LowerN, 4, 2), (0, 2));
    assert_eq!(trsv_read_range(TrsvKernel::UpperT, 4, 0), (0, 0));
    assert_eq!(trsv_read_range(TrsvKernel::UpperN, 4, 1), (2, 4));
    assert_eq!(trsv_read_range(TrsvKernel::LowerT, 4, 3), (4, 4));
}

#[test]
fn strsv_plans_and_solves_each_triangle() {
    // L = [[2,0,0],[1,1,0],[3,2,4]], U = L^T
    let l = [2.0f32, 0.0, 0.0, 1.0, 1.0, 0.0, 3.0, 2.0, 4.0];
    let u = [2.0f32, 1.0, 3.0, 0.0, 1.0, 2.0, 0.0, 0.0, 4.0];
    let sol = [1.0f32, -1.0, 2.0];
    // b = L * sol = [2, 0, 9]; U * sol = [7, 3, 8]
    let cases = [
        (Triangular::Lower, Transpose::NoTrans, &l, [2.0f32, 0.0, 9.0]),
        (Triangular::Upper, Transpose::NoTrans, &u, [7.0f32, 3.0, 8.0]),
        (Triangular::Lower, Transpose::Trans, &l, [7.0f32, 3.0, 8.0]),
        (Triangular::Upper, Transpose::Trans, &u, [2.0f32, 0.0, 9.0]),
    ];
    for (uplo, trans, a, b) in cases {
        let plan = strsv(uplo, trans, Diag::NonUnit, 3, 9, 3).unwrap();
        assert_eq!(plan.unit_diag, 0);
        assert_eq!(plan.launch.block_dim, (1, 1, 1));
        let mut x = b;
        trsv_cpu(plan.kernel, false, 3, a, &mut x);
        assert_eq!(x, sol);
    }
    assert_eq!(strsv(Triangular::Lower, Transpose::Trans, Diag::Unit, 3, 9, 3).unwrap().kernel, TrsvKernel::LowerT);
    assert_eq!(strsv(Triangular::Lower, Transpose::Trans, Diag::Unit, 3, 9, 3).unwrap().unit_diag, 1);
    assert!(strsv(Triangular::Upper, Transpose::NoTrans, Diag::Unit, 0, 0, 0).is_none());
}

#[test]
fn symv_reads_only_the_stored_triangle() {
    let n = 4usize;
    for i in 0..n {
        for j in 0..n {
            let up = symv_entry(Triangular::Upper, n, i, j);
            assert!(up / n <= up % n);
            assert_eq!(up, symv_entry(Triangular::Upper, n, j, i));
            let lo = symv_entry(Triangular::Lower, n, i, j);
            assert!(lo / n >= lo % n);
        }
    }
}

#[test]
fn hgemv_packs_operands_to_needed_lengths() {
    let h = |b: u16| Half { bits: b };
    let a: Vec<Half> = (0..6).map(h).collect();
    let x = vec![h(10), h(11), h(12), h(13)];
    let y = vec![h(20), h(21), h(22)];
    let up = hgemv(Transpose::Trans, 2, 3, h(1), &a, &x, h(2), &y).unwrap();
    assert_eq!(up.a, vec![0, 1, 2, 3, 4, 5]);
    assert_eq!(up.x, vec![10, 11]);
    assert_eq!(up.y, vec![20, 21, 22]);
    assert_eq!(up.launch.grid_dim, (1, 1, 1));
    assert!(hgemv(Transpose::NoTrans, 0, 3, h(1), &[], &x, h(2), &y).is_none());
    let scaled = hgemv(Transpose::NoTrans, 2, 0, h(1), &[], &[], h(2), &y).unwrap();
    assert_eq!(scaled.x, Vec::<u16>::new());
    assert_eq!(scaled.y, vec![20, 21]);
}

#[test]
fn haxpy_upload_and_store() {
    let h = |b: u16| Half { bits: b };
    let x = vec![h(1), h(2), h(3)];
    let y = vec![h(4), h(5), h(6)];
    let up = haxpy(2, &x, &y).unwrap();
    assert_eq!(up.x, vec![1, 2]);
    assert_eq!(up.y, vec![4, 5]);
    let mut out = y.clone();
    store_halves(&[7, 8], &mut out);
    assert_eq!(out, vec![h(7), h(8), h(6)]);
    assert!(haxpy(0, &x, &y).is_none());
}

#[test]
fn gemv_reads_each_matrix_entry_once() {
    let (m, n) = (3usize, 4usize);
    for trans in [Transpose::NoTrans, Transpose::Trans] {
        let (x_len, y_len) = gemv_lens(trans, m, n);
        let mut hits = vec![0u32; m * n];
        for out in 0..y_len {
            for j in 0..x_len {
                hits[gemv_a_index(trans, m, n, out, j)] += 1;
            }
        }
        assert!(hits.iter().all(|&h| h == 1));
    }
}

#[test]
fn trsv_unit_diagonal_is_never_read() {
    assert_eq!(trsv_divisor(1, 4, 2), None);
    assert_eq!(trsv_divisor(0, 4, 2), Some(10));
    // garbage on the diagonal and outside the triangle does not change a
    // unit-diagonal solve; garbage outside the triangle does not change any.
    let l = [1.0f32, 0.0, 0.0, 1.0, 1.0, 0.0, 3.0, 2.0, 1.0];
    let noisy = [99.0f32, 7.0, -5.0, 1.0, 42.0, 8.0, 3.0, 2.0, -13.0];
    let b = [2.0f32, 0.0, 9.0];
    let mut x1 = b;
    let mut x2 = b;
    trsv_cpu(TrsvKernel::LowerN, true, 3, &l, &mut x1);
    trsv_cpu(TrsvKernel::LowerN, true, 3, &noisy, &mut x2);
    assert_eq!(x1, x2);
    let l2 = [2.0f32, 0.0, 0.0, 1.0, 1.0, 0.0, 3.0, 2.0, 4.0];
    let noisy2 = [2.0f32, 5.0, 6.0, 1.0, 1.0, 7.0, 3.0, 2.0, 4.0];
    let mut y1 = b;
    let mut y2 = b;
    trsv_cpu(TrsvKernel::LowerN, false, 3, &l2, &mut y1);
    trsv_cpu(TrsvKernel::LowerN, false, 3, &noisy2, &mut y2);
    assert_eq!(y1, y2);
}
