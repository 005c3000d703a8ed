use cublas_rs::launch::{div_ceil_u32, for_num_elems};
use cublas_rs::level1::{elementwise_launch, reduction_element, reduction_launch, tree_partner};

#[test]
fn for_num_elems_rounds_up() {
    let cfg = for_num_elems(1000);
    assert_eq!(cfg.grid_dim, (4, 1, 1));
    assert_eq!(cfg.block_dim, (256, 1, 1));
    assert_eq!(cfg.shared_mem_bytes, 0);
}

#[test]
fn for_num_elems_exact_multiple_and_edges() {
    assert_eq!(for_num_elems(512).grid_dim, (2, 1, 1));
    assert_eq!(for_num_elems(1).grid_dim, (1, 1, 1));
    assert_eq!(for_num_elems(0).grid_dim, (0, 1, 1));
    assert_eq!(for_num_elems(u32::MAX).grid_dim, (16_777_216, 1, 1));
}

#[test]
fn div_ceil_does_not_overflow() {
    assert_eq!(div_ceil_u32(u32::MAX, 16), 268_435_456);
    assert_eq!(div_ceil_u32(33, 16), 3);
    assert_eq!(div_ceil_u32(32, 16), 2);
    assert_eq!(div_ceil_u32(0, 16), 0);
}

#[test]
fn elementwise_launch_covers_each_element_once() {
    let n: usize = 1000;
    let cfg = elementwise_launch(n).unwrap();
    let mut hits = vec![0u32; n];
    for block in 0..cfg.grid_dim.0 as usize {
        for lane in 0..cfg.block_dim.0 as usize {
            let i = block * cfg.block_dim.0 as usize + lane;
            if i < n {
                hits[i] += 1;
            }
        }
    }
    assert!(hits.iter().all(|&h| h == 1));
}

#[test]
fn zero_length_vector_ops_launch_nothing() {
    assert!(elementwise_launch(0).is_none());
    assert!(reduction_launch(0).is_none());
}

#[test]
fn reduction_launch_is_one_block_of_32() {
    let cfg = reduction_launch(5).unwrap();
    assert_eq!(cfg.grid_dim, (1, 1, 1));
    assert_eq!(cfg.block_dim, (32, 1, 1));
    assert_eq!(cfg.shared_mem_bytes, 0);
}

#[test]
fn reduction_elements_stride_by_32() {
    assert_eq!(reduction_element(3, 0, 100), Some(3));
    assert_eq!(reduction_element(3, 3, 100), Some(99));
    assert_eq!(reduction_element(4, 3, 100), None);
    assert_eq!(reduction_element(5, 0, 5), None);
    assert_eq!(reduction_element(0, usize::MAX, usize::MAX), None);
    let mut hits = vec![0u32; 70];
    for tid in 0..32 {
        let mut step = 0;
        while let Some(i) = reduction_element(tid, step, 70) {
            hits[i] += 1;
            step += 1;
        }
    }
    assert!(hits.iter().all(|&h| h == 1));
}

#[test]
fn tree_partners_halve_each_round() {
    assert_eq!(tree_partner(3, 16, 32), Some(19));
    assert_eq!(tree_partner(16, 16, 32), None);
    assert_eq!(tree_partner(0, 1, 32), Some(1));
    assert_eq!(tree_partner(1, 1, 32), None);
    assert_eq!(tree_partner(3, 4, 5), None);
}

#[test]
fn reduction_schedule_sums_every_term_once() {
    // The single-block reduction run on the CPU with the library's
    // schedule: stride-32 scan, then the shared-memory tree.
    let n = 1000usize;
    let x: Vec<u64> = (0..n as u64).map(|v| v * v + 1).collect();
    let mut slots = vec![0u64; 32];
    for tid in 0..32 {
        let mut step = 0;
        while let Some(i) = reduction_element(tid, step, n) {
            slots[tid] += x[i];
            step += 1;
        }
    }
    let mut stride = 16;
    while stride > 0 {
        for tid in 0..32 {
            if let Some(p) = tree_partner(tid, stride, 32) {
                slots[tid] += slots[p];
            }
        }
        stride /= 2;
    }
    assert_eq!(slots[0], x.iter().sum::<u64>());
}
