use cublas_rs::batched::{
    batched_sgemm, pack_batches, strided_batched_sgemm, strided_offset, strided_write_target, unpack_batches,
};
use cublas_rs::types::GemmConfig;

#[test]
fn pack_then_unpack_gives_parts_back() {
    let p0 = [1.0f32, 2.0, 3.0];
    let p1 = [4.0f32, 5.0, 6.0];
    let parts: Vec<&[f32]> = vec![&p0, &p1];
    let cat = pack_batches(&parts, 3);
    assert_eq!(cat, vec![1.0, 2.0, 3.0, 4.0, 5.0, 6.0]);
    let mut out = vec![vec![0.0f32; 3], vec![0.0f32; 3]];
    unpack_batches(&cat, 3, &mut out);
    assert_eq!(out, vec![p0.to_vec(), p1.to_vec()]);
}

#[test]
fn batched_sgemm_packs_with_matrix_strides() {
    let cfg = GemmConfig { m: 2, n: 2, k: 1, alpha: 1.0f32, beta: 0.0f32 };
    let a0 = [1.0f32, 2.0];
    let a1 = [3.0f32, 4.0];
    let b0 = [5.0f32, 6.0];
    let b1 = [7.0f32, 8.0];
    let c0 = [0.0f32; 4];
    let c1 = [9.0f32; 4];
    let a: Vec<&[f32]> = vec![&a0, &a1];
    let b: Vec<&[f32]> = vec![&b0, &b1];
    let c: Vec<&[f32]> = vec![&c0, &c1];
    let up = batched_sgemm(&cfg, 2, &a, &b, &c).unwrap();
    assert_eq!((up.stride_a, up.stride_b, up.stride_c), (2, 2, 4));
    assert_eq!(up.a, vec![1.0, 2.0, 3.0, 4.0]);
    assert_eq!(up.b, vec![5.0, 6.0, 7.0, 8.0]);
    assert_eq!(up.c, vec![0.0, 0.0, 0.0, 0.0, 9.0, 9.0, 9.0, 9.0]);
    assert_eq!(up.launch.grid_dim, (1, 1, 2));
    assert_eq!(up.launch.block_dim, (16, 16, 1));
    // batch 1, row 1, col 0 of C lives at 1 * 4 + 1 * 2 + 0
    assert_eq!(up.c[strided_offset(1, up.stride_c, 1, 2, 0)], c1[2]);
}

#[test]
fn batched_sgemm_with_no_batches_does_nothing() {
    let cfg = GemmConfig { m: 2, n: 2, k: 2, alpha: 1.0f32, beta: 0.0f32 };
    let none: Vec<&[f32]> = vec![];
    assert!(batched_sgemm(&cfg, 0, &none, &none, &none).is_none());
}

#[test]
fn strided_launch_repeats_tiling_per_batch() {
    let cfg = GemmConfig { m: 20, n: 40, k: 3, alpha: 1.0f32, beta: 0.0f32 };
    let l = strided_batched_sgemm(&cfg, 5, 300, 60, 600, 120, 4000, 800).unwrap();
    assert_eq!(l.grid_dim, (3, 2, 5));
    assert!(strided_batched_sgemm(&cfg, 0, 0, 60, 0, 120, 0, 800).is_none());
    let flat = GemmConfig { m: 0, n: 40, k: 3, alpha: 1.0f32, beta: 0.0f32 };
    assert!(strided_batched_sgemm(&flat, 5, 0, 0, 600, 120, 0, 0).is_none());
}

#[test]
fn strided_launch_with_empty_inner_dimension_still_runs() {
    let cfg = GemmConfig { m: 20, n: 40, k: 0, alpha: 1.0f32, beta: 2.0f32 };
    let l = strided_batched_sgemm(&cfg, 5, 0, 0, 0, 0, 4000, 800).unwrap();
    assert_eq!(l.grid_dim, (3, 2, 5));
}

#[test]
fn batched_sgemm_with_empty_inner_dimension_uploads_c() {
    let cfg = GemmConfig { m: 1, n: 2, k: 0, alpha: 1.0f32, beta: 2.0f32 };
    let c0 = [1.0f32, 3.0];
    let c1 = [5.0f32, 7.0];
    let empty: [f32; 0] = [];
    let a: Vec<&[f32]> = vec![&empty, &empty];
    let b: Vec<&[f32]> = vec![&empty, &empty];
    let c: Vec<&[f32]> = vec![&c0, &c1];
    let up = batched_sgemm(&cfg, 2, &a, &b, &c).unwrap();
    assert_eq!((up.stride_a, up.stride_b, up.stride_c), (0, 0, 2));
    assert!(up.a.is_empty() && up.b.is_empty());
    assert_eq!(up.c, vec![1.0, 3.0, 5.0, 7.0]);
    assert_eq!(up.launch.grid_dim, (1, 1, 2));
}

#[test]
fn strided_reads_stay_in_bounds_when_last_matrix_fits() {
    // 3 batches of 2 x 3 matrices with stride 4 (overlapping): the buffer
    // needs (3 - 1) * 4 + 2 * 3 = 14 elements.
    let (rows, cols, stride, batches, len) = (2usize, 3usize, 4usize, 3usize, 14usize);
    let mut max = 0;
    for b in 0..batches {
        for r in 0..rows {
            for c in 0..cols {
                max = max.max(strided_offset(b, stride, r, cols, c));
            }
        }
    }
    assert_eq!(max, len - 1);
}

#[test]
fn strided_writes_are_disjoint_when_stride_covers_matrix() {
    let (m, n, batches, stride) = (3usize, 4usize, 3usize, 12usize);
    let mut hits = vec![0u32; batches * stride];
    for b in 0..batches {
        for r in 0..m {
            for c in 0..n {
                hits[strided_offset(b, stride, r, n, c)] += 1;
            }
        }
    }
    assert!(hits.iter().all(|&h| h == 1));
}

#[test]
fn strided_write_targets_are_exactly_the_matrices() {
    // 2 batches of 3 x 4 with stride 20: the gaps 12..20 and 32..40 are never written.
    let (m, n, stride, batches) = (3usize, 4usize, 20usize, 2usize);
    let mut hits = vec![0u32; batches * stride];
    for t in 0..batches {
        for row in 0..16 {
            for col in 0..16 {
                if let Some(idx) = strided_write_target(t, stride, row, col, m, n) {
                    hits[idx] += 1;
                }
            }
        }
    }
    for (idx, &h) in hits.iter().enumerate() {
        let inside = idx % stride < m * n;
        assert_eq!(h, if inside { 1 } else { 0 }, "index {}", idx);
    }
    assert_eq!(strided_write_target(1, 20, 2, 3, 3, 4), Some(31));
    assert_eq!(strided_write_target(1, 20, 3, 0, 3, 4), None);
    assert_eq!(strided_write_target(0, 20, 0, 4, 3, 4), None);
    assert_eq!(strided_write_target(2, usize::MAX, 0, 0, 3, 4), None);
}

#[test]
fn strided_launch_with_overlapping_batches() {
    // stride 4 < 2 * 3 = 6: the buffer needs (3 - 1) * 4 + 6 = 14 elements
    let cfg = GemmConfig { m: 2, n: 3, k: 3, alpha: 1.0f32, beta: 0.0f32 };
    let l = strided_batched_sgemm(&cfg, 3, 14, 4, 27, 9, 18, 6).unwrap();
    assert_eq!(l.grid_dim, (1, 1, 3));
}
